//! The hints on logic keywords, and the edits that come with them.

use cwtools::ast::{
    Child, Comment, Leaf, LeafValue, Operator, ParsedFile, SourcePos, SourceRange, Value,
};
use cwtools::diagnostic::TextEdit;
use cwtools::game_common::as_block;
use cwtools::game_structural::validate_structural;
use cwtools::type_index::Game;

/// A small reader of script, enough for the inputs below. The range of a child
/// reaches to the next one.
struct Reader {
    chars: Vec<char>,
    at: usize,
    line: u32,
    col: u16,
}

impl Reader {
    fn pos(&self) -> SourcePos {
        SourcePos { line: self.line, col: self.col }
    }

    fn peek(&self) -> Option<char> {
        self.chars.get(self.at).copied()
    }

    fn next_is(&self, c: char) -> bool {
        self.chars.get(self.at + 1) == Some(&c)
    }

    fn bump(&mut self) -> char {
        let c = self.chars[self.at];
        if c == '\n' {
            self.line += 1;
            self.col = 0;
        } else {
            self.col += 1;
        }
        self.at += 1;
        c
    }

    fn skip_white(&mut self) {
        while self.peek().is_some_and(|c| c.is_whitespace()) {
            self.bump();
        }
    }

    fn token(&mut self) -> String {
        let mut out = String::new();
        if self.peek() == Some('"') {
            out.push(self.bump());
            while let Some(c) = self.peek() {
                out.push(self.bump());
                if c == '"' {
                    break;
                }
            }
            return out;
        }
        while let Some(c) = self.peek() {
            let ends = c.is_whitespace()
                || matches!(c, '{' | '}' | '=' | '#' | '"')
                || (matches!(c, '!' | '?') && self.next_is('='));
            if ends {
                break;
            }
            out.push(self.bump());
        }
        out
    }

    fn operator(&mut self) -> Option<Operator> {
        let c = self.peek()?;
        let op = match c {
            '=' if self.next_is('=') => Operator::EqualEqual,
            '=' => Operator::Equals,
            '!' if self.next_is('=') => Operator::NotEqual,
            '?' if self.next_is('=') => Operator::QuestionEqual,
            '<' if self.next_is('=') => Operator::LessThanOrEqual,
            '<' if self.next_is('>') => Operator::NotEqual,
            '<' if self.next_is(' ') => Operator::LessThan,
            '>' if self.next_is('=') => Operator::GreaterThanOrEqual,
            '>' if self.next_is(' ') => Operator::GreaterThan,
            _ => return None,
        };
        self.bump();
        if !matches!(op, Operator::Equals | Operator::LessThan | Operator::GreaterThan) {
            self.bump();
        }
        Some(op)
    }

    fn value(&mut self) -> Value {
        if self.peek() == Some('{') {
            self.bump();
            let inner = self.children();
            if self.peek() == Some('}') {
                self.bump();
            }
            return Value::Clause(inner);
        }
        let t = self.token();
        if t.starts_with('"') {
            Value::QString(t)
        } else if t == "yes" {
            Value::Bool(true)
        } else if t == "no" {
            Value::Bool(false)
        } else if let Ok(n) = t.parse::<i64>() {
            Value::Int(n)
        } else if t.contains('.') && t.parse::<f64>().is_ok() {
            Value::Float(t)
        } else {
            Value::String(t)
        }
    }

    fn children(&mut self) -> Vec<Child> {
        let mut out = Vec::new();
        loop {
            self.skip_white();
            let start = self.pos();
            match self.peek() {
                None | Some('}') => return out,
                Some('#') => {
                    let mut text = String::new();
                    while self.peek().is_some_and(|c| c != '\n') {
                        text.push(self.bump());
                    }
                    let end = self.pos();
                    out.push(Child::Comment(Comment { text, pos: SourceRange { start, end } }));
                }
                Some('{') => {
                    let value = self.value();
                    self.skip_white();
                    let end = self.pos();
                    out.push(Child::LeafValue(LeafValue { value, pos: SourceRange { start, end } }));
                }
                Some(_) => {
                    let (at, line, col) = (self.at, self.line, self.col);
                    let key = self.token();
                    self.skip_white();
                    if let Some(op) = self.operator() {
                        self.skip_white();
                        let value_start = self.pos();
                        let value = self.value();
                        let value_end = self.pos();
                        self.skip_white();
                        let end = self.pos();
                        out.push(Child::Leaf(Leaf {
                            key,
                            value,
                            op,
                            pos: SourceRange { start, end },
                            value_pos: SourceRange { start: value_start, end: value_end },
                        }));
                    } else {
                        self.at = at;
                        self.line = line;
                        self.col = col;
                        let value = self.value();
                        self.skip_white();
                        let end = self.pos();
                        out.push(Child::LeafValue(LeafValue {
                            value,
                            pos: SourceRange { start, end },
                        }));
                    }
                }
            }
        }
    }
}

fn parse(text: &str) -> ParsedFile {
    let mut r = Reader { chars: text.chars().collect(), at: 0, line: 1, col: 0 };
    ParsedFile { root_children: r.children() }
}

/// `src` with each edit carried out.
fn apply_edits(src: &str, edits: &[TextEdit]) -> String {
    let mut chars: Vec<char> = src.chars().collect();
    let offset = |p: &SourcePos| {
        let (mut line, mut col) = (1, 0);
        for (i, c) in src.chars().enumerate() {
            if line == p.line && col == p.col {
                return i;
            }
            if c == '\n' {
                line += 1;
                col = 0;
            } else {
                col += 1;
            }
        }
        src.chars().count()
    };
    for e in edits.iter().rev() {
        chars.splice(offset(&e.range.start)..offset(&e.range.end), e.new_text.chars());
    }
    chars.into_iter().collect()
}

/// The codes emitted for `src`, in emit order.
fn codes(src: &str) -> Vec<&'static str> {
    let ast = parse(src);
    let mut errors = Vec::new();
    validate_structural(&ast, "test.txt", Game::Hoi4, &mut errors);
    errors.iter().filter_map(|e| e.code).collect()
}

/// Validate `src`, apply the fix on the first diagnostic with `code`, and
/// assert the result equals `expected` and no longer emits `code`.
fn assert_fix(code: &str, src: &str, expected: &str) {
    let ast = parse(src);
    let mut errors = Vec::new();
    validate_structural(&ast, "test.txt", Game::Hoi4, &mut errors);

    let err = errors
        .iter()
        .find(|e| e.code == Some(code))
        .unwrap_or_else(|| panic!("{code} emitted for {src:?}, got {errors:?}"));
    let fix = err.fix.as_ref().expect("diagnostic carries a fix");
    let fixed = apply_edits(src, &fix.edits);
    assert_eq!(fixed, expected, "{code} fix output");

    let ast2 = parse(&fixed);
    let mut errors2 = Vec::new();
    validate_structural(&ast2, "test.txt", Game::Hoi4, &mut errors2);
    assert!(
        !errors2.iter().any(|e| e.code == Some(code)),
        "{code} must be gone after applying the fix"
    );
}

// Carrying the block's own range would bury every line of the body under one
// squiggle.
#[test]
fn cw223_underlines_only_the_not_key() {
    let src = "x = {\n    NOT = {\n        a = 1\n        b = 2\n    }\n}\n";
    let ast = parse(src);
    let mut errors = Vec::new();
    validate_structural(&ast, "test.txt", Game::Hoi4, &mut errors);

    let err = errors
        .iter()
        .find(|e| e.code == Some("CW223"))
        .expect("CW223 emitted");

    // Recover the NOT block's range from the AST and compare.
    let x_block = as_block(&ast.root_children[0]).expect("x is a block");
    let not_block = x_block
        .children
        .iter()
        .find_map(|c| as_block(c))
        .expect("NOT block present");
    assert_eq!(err.line, not_block.range.start.line);
    assert_eq!(err.col, not_block.range.start.col);

    let (end_line, end_col) = err.end.expect("CW223 carries an end");
    assert_eq!(
        end_line, not_block.range.start.line,
        "stays on the NOT line"
    );
    assert_eq!(
        end_col,
        not_block.range.start.col + 3,
        "spans `NOT` and nothing else"
    );
    assert!(
        end_line < not_block.range.end.line,
        "must not reach the block body"
    );
}

// Same shape as CW223: advice about the operator keyword, so spanning the
// block buried the body under a squiggle.
#[test]
fn cw251_underlines_only_the_operator_key() {
    // The root context is already AND, so the outer AND is the redundant one.
    let and_src = "AND = {\n    tag = GER\n    has_war = no\n}\n";
    // Inside an OR, the nested OR is the redundant one.
    let or_src = "OR = {\n    OR = {\n        tag = GER\n        tag = FRA\n    }\n}\n";

    for (src, line, col, len) in [(and_src, 1, 0, 3), (or_src, 2, 4, 2)] {
        let ast = parse(src);
        let mut errors = Vec::new();
        validate_structural(&ast, "test.txt", Game::Hoi4, &mut errors);

        let err = errors
            .iter()
            .find(|e| e.code == Some("CW251"))
            .unwrap_or_else(|| panic!("CW251 emitted for {src:?}, got {errors:?}"));
        assert_eq!((err.line, err.col), (line, col), "{src:?}");
        assert_eq!(
            err.end,
            Some((line, col + len)),
            "CW251 must span only the operator key in {src:?}"
        );
    }
}

#[test]
fn cw121_fix_deletes_empty_if() {
    assert_fix("CW121", "x = { if = { } }\n", "x = { }\n");
}

// The diagnostic still reports; only the chain-breaking edit is withheld.
#[test]
fn cw121_offers_no_fix_when_a_chain_follows() {
    for src in [
        "x = { if = { } else_if = { a = 1 } }\n",
        "x = { if = { } else = { a = 1 } }\n",
        "x = { if = { a = 1 } else_if = { } else = { b = 2 } }\n",
    ] {
        let ast = parse(src);
        let mut errors = Vec::new();
        validate_structural(&ast, "test.txt", Game::Hoi4, &mut errors);

        let err = errors
            .iter()
            .find(|e| e.code == Some("CW121"))
            .unwrap_or_else(|| panic!("CW121 emitted for {src:?}, got {errors:?}"));
        assert!(
            err.fix.is_none(),
            "CW121 must not offer a chain-breaking delete for {src:?}"
        );
    }
}

#[test]
fn cw121_still_fixes_a_trailing_empty_else_if() {
    assert_fix(
        "CW121",
        "x = { if = { a = 1 } else_if = { } }\n",
        "x = { if = { a = 1 } }\n",
    );
}

#[test]
fn cw281_fix_deletes_empty_limit() {
    assert_fix("CW281", "x = { limit = { } }\n", "x = { }\n");
}

// Paradox script keys are case-insensitive, so every spelling of a reserved
// logic keyword must reach the same check.

#[test]
fn not_flagged_in_every_casing() {
    for key in ["NOT", "not", "Not"] {
        let src = format!("x = {{ {key} = {{ has_war = yes tag = GER }} }}\n");
        assert_eq!(codes(&src), ["CW223"], "{key}");
    }
}

#[test]
fn empty_if_flagged_in_every_casing() {
    for key in ["if", "IF", "If", "else_if", "ELSE_IF", "Else_if"] {
        let src = format!("x = {{ {key} = {{ }} }}\n");
        assert_eq!(codes(&src), ["CW121"], "{key}");
    }
}

#[test]
fn empty_limit_flagged_in_every_casing() {
    for key in ["limit", "LIMIT", "Limit"] {
        let src = format!("x = {{ {key} = {{ }} }}\n");
        assert_eq!(codes(&src), ["CW281"], "{key}");
    }
}

#[test]
fn if_with_only_a_limit_is_empty_in_every_casing() {
    // The limit doesn't count as an effect, so the `if` is still empty.
    let src = "x = { IF = { LIMIT = { tag = GER } } }\n";
    assert_eq!(codes(src), ["CW121"]);
}

#[test]
fn redundant_and_flagged_in_every_casing() {
    for key in ["AND", "and", "And"] {
        // The root context is already AND, so a top-level AND is redundant.
        let src = format!("{key} = {{ tag = GER }}\n");
        assert_eq!(codes(&src), ["CW251"], "{key}");
    }
}

#[test]
fn redundant_or_flagged_in_every_casing() {
    for (outer, inner) in [("OR", "OR"), ("or", "OR"), ("OR", "or"), ("or", "or")] {
        let src = format!("{outer} = {{ {inner} = {{ tag = GER }} }}\n");
        assert_eq!(codes(&src), ["CW251"], "{outer} / {inner}");
    }
}

#[test]
fn nor_opens_an_or_context_in_every_casing() {
    for key in ["NOR", "nor"] {
        // NOR is never redundant itself, but an OR directly inside it is.
        let src = format!("{key} = {{ OR = {{ tag = GER }} }}\n");
        assert_eq!(codes(&src), ["CW251"], "{key}");
    }
}

// A lowercase `or` is an OR too, so the AND grouping inside it does something.
#[test]
fn and_inside_or_is_not_redundant_in_every_casing() {
    for key in ["OR", "or"] {
        let src = format!(
            "{key} = {{ AND = {{ has_war = yes tag = GER }} has_capitulated = yes }}\n"
        );
        assert!(codes(&src).is_empty(), "{key}: {:?}", codes(&src));
    }
}

#[test]
fn and_inside_not_is_not_redundant_in_every_casing() {
    for key in ["NOT", "not"] {
        let src = format!("{key} = {{ AND = {{ has_war = yes tag = GER }} }}\n");
        assert!(codes(&src).is_empty(), "{key}: {:?}", codes(&src));
    }
}

// HOI4's dynamic-value syntax reuses the operator names on values, where the
// boolean rules don't hold: `and = { value = … }` inside a `check_expr` is
// arithmetic, not a redundant AND.
#[test]
fn math_expression_operators_are_not_boolean() {
    let src = "x = { check_expr = {\n\
               value = { value = global.num_days mod = 365 greater_than = 90 }\n\
               and = { value = global.num_days mod = 365 less_than = 300 }\n\
               } }\n";
    assert!(codes(src).is_empty(), "{:?}", codes(src));
}

#[test]
fn math_expression_not_is_not_a_trigger() {
    let src = "x = { not = { value = current_level equals = 3 } }\n";
    assert!(codes(src).is_empty(), "{:?}", codes(src));
}

#[test]
fn triggers_below_a_math_block_are_still_checked() {
    // The `limit` of a math `if` holds real triggers, so the walk must keep
    // descending rather than write off the whole subtree.
    let src = "x = { set_temp_variable = { v = { value = 0\n\
               if = { limit = { NOT = { has_war = yes tag = GER } } add = 1 }\n\
               } } }\n";
    assert_eq!(codes(src), ["CW223"]);
}

#[test]
fn count_triggers_is_neutral_in_every_casing() {
    for key in ["count_triggers", "COUNT_TRIGGERS"] {
        let src = format!("{key} = {{ amount = 2 AND = {{ has_war = yes tag = GER }} }}\n");
        assert!(codes(&src).is_empty(), "{key}: {:?}", codes(&src));
    }
}
