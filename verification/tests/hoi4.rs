//! Fields that only say what is said anyway.

use cwtools::ast::{
    Child, Comment, Leaf, LeafValue, Operator, ParsedFile, SourcePos, SourceRange, Value,
};
use cwtools::diagnostic::ValidationError;
use cwtools::game_hoi4::validate_hoi4;
use cwtools::ruleset::RuleSet;

/// A small reader of script, enough for the inputs below. The range of a child
/// reaches to the next one.
struct Reader {
    chars: Vec<char>,
    at: usize,
    line: u32,
    col: u16,
}

impl Reader {
    fn pos(&self) -> SourcePos {
        SourcePos { line: self.line, col: self.col }
    }

    fn peek(&self) -> Option<char> {
        self.chars.get(self.at).copied()
    }

    fn next_is(&self, c: char) -> bool {
        self.chars.get(self.at + 1) == Some(&c)
    }

    fn bump(&mut self) -> char {
        let c = self.chars[self.at];
        if c == '\n' {
            self.line += 1;
            self.col = 0;
        } else {
            self.col += 1;
        }
        self.at += 1;
        c
    }

    fn skip_white(&mut self) {
        while self.peek().is_some_and(|c| c.is_whitespace()) {
            self.bump();
        }
    }

    fn token(&mut self) -> String {
        let mut out = String::new();
        if self.peek() == Some('"') {
            out.push(self.bump());
            while let Some(c) = self.peek() {
                out.push(self.bump());
                if c == '"' {
                    break;
                }
            }
            return out;
        }
        while let Some(c) = self.peek() {
            let ends = c.is_whitespace()
                || matches!(c, '{' | '}' | '=' | '#' | '"')
                || (matches!(c, '!' | '?') && self.next_is('='));
            if ends {
                break;
            }
            out.push(self.bump());
        }
        out
    }

    fn operator(&mut self) -> Option<Operator> {
        let c = self.peek()?;
        let op = match c {
            '=' if self.next_is('=') => Operator::EqualEqual,
            '=' => Operator::Equals,
            '!' if self.next_is('=') => Operator::NotEqual,
            '?' if self.next_is('=') => Operator::QuestionEqual,
            '<' if self.next_is('=') => Operator::LessThanOrEqual,
            '<' if self.next_is('>') => Operator::NotEqual,
            '<' if self.next_is(' ') => Operator::LessThan,
            '>' if self.next_is('=') => Operator::GreaterThanOrEqual,
            '>' if self.next_is(' ') => Operator::GreaterThan,
            _ => return None,
        };
        self.bump();
        if !matches!(op, Operator::Equals | Operator::LessThan | Operator::GreaterThan) {
            self.bump();
        }
        Some(op)
    }

    fn value(&mut self) -> Value {
        if self.peek() == Some('{') {
            self.bump();
            let inner = self.children();
            if self.peek() == Some('}') {
                self.bump();
            }
            return Value::Clause(inner);
        }
        let t = self.token();
        if t.starts_with('"') {
            Value::QString(t)
        } else if t == "yes" {
            Value::Bool(true)
        } else if t == "no" {
            Value::Bool(false)
        } else if let Ok(n) = t.parse::<i64>() {
            Value::Int(n)
        } else if t.contains('.') && t.parse::<f64>().is_ok() {
            Value::Float(t)
        } else {
            Value::String(t)
        }
    }

    fn children(&mut self) -> Vec<Child> {
        let mut out = Vec::new();
        loop {
            self.skip_white();
            let start = self.pos();
            match self.peek() {
                None | Some('}') => return out,
                Some('#') => {
                    let mut text = String::new();
                    while self.peek().is_some_and(|c| c != '\n') {
                        text.push(self.bump());
                    }
                    let end = self.pos();
                    out.push(Child::Comment(Comment { text, pos: SourceRange { start, end } }));
                }
                Some('{') => {
                    let value = self.value();
                    self.skip_white();
                    let end = self.pos();
                    out.push(Child::LeafValue(LeafValue { value, pos: SourceRange { start, end } }));
                }
                Some(_) => {
                    let (at, line, col) = (self.at, self.line, self.col);
                    let key = self.token();
                    self.skip_white();
                    if let Some(op) = self.operator() {
                        self.skip_white();
                        let value_start = self.pos();
                        let value = self.value();
                        let value_end = self.pos();
                        self.skip_white();
                        let end = self.pos();
                        out.push(Child::Leaf(Leaf {
                            key,
                            value,
                            op,
                            pos: SourceRange { start, end },
                            value_pos: SourceRange { start: value_start, end: value_end },
                        }));
                    } else {
                        self.at = at;
                        self.line = line;
                        self.col = col;
                        let value = self.value();
                        self.skip_white();
                        let end = self.pos();
                        out.push(Child::LeafValue(LeafValue {
                            value,
                            pos: SourceRange { start, end },
                        }));
                    }
                }
            }
        }
    }
}

fn parse(text: &str) -> ParsedFile {
    let mut r = Reader { chars: text.chars().collect(), at: 0, line: 1, col: 0 };
    ParsedFile { root_children: r.children() }
}

fn run(src: &str) -> Vec<ValidationError> {
    let ast = parse(src);
    let ruleset = RuleSet::new();
    let mut errors = Vec::new();
    validate_hoi4(&ast, &ruleset, "test.txt", &mut errors);
    errors
}

#[test]
fn flags_redundant_allowed_civil_war() {
    let errors = run("my_idea = {\n allowed_civil_war = { always = no }\n}\n");
    assert_eq!(errors.len(), 1, "expected one CW280");
    assert_eq!(errors[0].code, Some("CW280"));
}

#[test]
fn ignores_non_default_value() {
    // always = yes is not the default for allowed_civil_war, so not redundant.
    let errors = run("my_idea = {\n allowed_civil_war = { always = yes }\n}\n");
    assert!(errors.is_empty());
}

#[test]
fn ignores_real_trigger_body() {
    // A real trigger (not a bare always) does work — leave it alone.
    let errors = run("my_idea = {\n allowed_civil_war = { has_war = no }\n}\n");
    assert!(errors.is_empty());
}

#[test]
fn flags_mixed_case_key() {
    // Paradox keys are case-insensitive; dispatch must be too.
    let errors = run("my_idea = {\n Allowed_Civil_War = { Always = no }\n}\n");
    assert_eq!(errors.len(), 1, "expected one CW280");
    assert_eq!(errors[0].code, Some("CW280"));
}

#[test]
fn ignores_unlisted_fields() {
    // always = no on an unlisted field is not flagged (e.g. event guard).
    let errors = run("country_event = {\n trigger = { always = no }\n}\n");
    assert!(errors.is_empty());
}
