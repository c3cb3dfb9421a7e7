//! Which type a file belongs to, and the localisation that its entries owe.

use cwtools::ast::{
    Child, Comment, Leaf, LeafValue, Operator, ParsedFile, SourcePos, SourceRange, Value,
};
use cwtools::diagnostic::ValidationError;
use cwtools::missing_loc::check_missing_localisation;
use cwtools::text::NameSet;
use cwtools::resolve::{path_candidates_for_file, type_path_matches};
use cwtools::rules_converter::ast_to_ruleset;
use cwtools::type_index::TypeInstance;

/// A small reader of script, enough for the inputs below. The range of a child
/// reaches to the next one.
struct Reader {
    chars: Vec<char>,
    at: usize,
    line: u32,
    col: u16,
}

impl Reader {
    fn pos(&self) -> SourcePos {
        SourcePos { line: self.line, col: self.col }
    }

    fn peek(&self) -> Option<char> {
        self.chars.get(self.at).copied()
    }

    fn next_is(&self, c: char) -> bool {
        self.chars.get(self.at + 1) == Some(&c)
    }

    fn bump(&mut self) -> char {
        let c = self.chars[self.at];
        if c == '\n' {
            self.line += 1;
            self.col = 0;
        } else {
            self.col += 1;
        }
        self.at += 1;
        c
    }

    fn skip_white(&mut self) {
        while self.peek().is_some_and(|c| c.is_whitespace()) {
            self.bump();
        }
    }

    fn token(&mut self) -> String {
        let mut out = String::new();
        if self.peek() == Some('"') {
            out.push(self.bump());
            while let Some(c) = self.peek() {
                out.push(self.bump());
                if c == '"' {
                    break;
                }
            }
            return out;
        }
        while let Some(c) = self.peek() {
            let ends = c.is_whitespace()
                || matches!(c, '{' | '}' | '=' | '#' | '"')
                || (matches!(c, '!' | '?') && self.next_is('='));
            if ends {
                break;
            }
            out.push(self.bump());
        }
        out
    }

    fn operator(&mut self) -> Option<Operator> {
        let c = self.peek()?;
        let op = match c {
            '=' if self.next_is('=') => Operator::EqualEqual,
            '=' => Operator::Equals,
            '!' if self.next_is('=') => Operator::NotEqual,
            '?' if self.next_is('=') => Operator::QuestionEqual,
            '<' if self.next_is('=') => Operator::LessThanOrEqual,
            '<' if self.next_is('>') => Operator::NotEqual,
            '<' if self.next_is(' ') => Operator::LessThan,
            '>' if self.next_is('=') => Operator::GreaterThanOrEqual,
            '>' if self.next_is(' ') => Operator::GreaterThan,
            _ => return None,
        };
        self.bump();
        if !matches!(op, Operator::Equals | Operator::LessThan | Operator::GreaterThan) {
            self.bump();
        }
        Some(op)
    }

    fn value(&mut self) -> Value {
        if self.peek() == Some('{') {
            self.bump();
            let inner = self.children();
            if self.peek() == Some('}') {
                self.bump();
            }
            return Value::Clause(inner);
        }
        let t = self.token();
        if t.starts_with('"') {
            Value::QString(t)
        } else if t == "yes" {
            Value::Bool(true)
        } else if t == "no" {
            Value::Bool(false)
        } else if let Ok(n) = t.parse::<i64>() {
            Value::Int(n)
        } else if t.contains('.') && t.parse::<f64>().is_ok() {
            Value::Float(t)
        } else {
            Value::String(t)
        }
    }

    fn children(&mut self) -> Vec<Child> {
        let mut out = Vec::new();
        loop {
            self.skip_white();
            let start = self.pos();
            match self.peek() {
                None | Some('}') => return out,
                Some('#') => {
                    let mut text = String::new();
                    while self.peek().is_some_and(|c| c != '\n') {
                        text.push(self.bump());
                    }
                    let end = self.pos();
                    out.push(Child::Comment(Comment { text, pos: SourceRange { start, end } }));
                }
                Some('{') => {
                    let value = self.value();
                    self.skip_white();
                    let end = self.pos();
                    out.push(Child::LeafValue(LeafValue { value, pos: SourceRange { start, end } }));
                }
                Some(_) => {
                    let (at, line, col) = (self.at, self.line, self.col);
                    let key = self.token();
                    self.skip_white();
                    if let Some(op) = self.operator() {
                        self.skip_white();
                        let value_start = self.pos();
                        let value = self.value();
                        let value_end = self.pos();
                        self.skip_white();
                        let end = self.pos();
                        out.push(Child::Leaf(Leaf {
                            key,
                            value,
                            op,
                            pos: SourceRange { start, end },
                            value_pos: SourceRange { start: value_start, end: value_end },
                        }));
                    } else {
                        self.at = at;
                        self.line = line;
                        self.col = col;
                        let value = self.value();
                        self.skip_white();
                        let end = self.pos();
                        out.push(Child::LeafValue(LeafValue {
                            value,
                            pos: SourceRange { start, end },
                        }));
                    }
                }
            }
        }
    }
}

fn parse(text: &str) -> ParsedFile {
    let mut r = Reader { chars: text.chars().collect(), at: 0, line: 1, col: 0 };
    ParsedFile { root_children: r.children() }
}

#[test]
fn path_candidates_handle_backslash_paths() {
    let cwt = "types = { type[foo] = { path = \"common/foo\" } }";
    let parsed = parse(cwt);
    let rs = ast_to_ruleset(&parsed);

    // Forward-slash resolves the type.
    assert!(
        !path_candidates_for_file("common/foo/x.txt", &rs).is_empty(),
        "forward-slash path should resolve type foo"
    );
    // A Windows backslash path must resolve the same type, not silently
    // fail (which would break hover/goto/validation for the file).
    assert!(
        !path_candidates_for_file("common\\foo\\x.txt", &rs).is_empty(),
        "backslash path should resolve type foo too"
    );
}

#[test]
fn type_path_matches_handles_backslash_paths() {
    let cwt = "types = { type[foo] = { path = \"common/foo\" } }";
    let parsed = parse(cwt);
    let rs = ast_to_ruleset(&parsed);
    let t = &rs.types[0];
    assert!(
        type_path_matches("common/foo/x.txt", t),
        "forward-slash path should match"
    );
    assert!(
        type_path_matches("common\\foo\\x.txt", t),
        "backslash path should match too"
    );
}

const RULES: &str = r#"
types = {
    type[thing] = {
        path = "game/common/things"
        localisation = {
            ## required
            name = "$"
            ## required
            desc = "$_desc"
        }
    }
}
thing = { x = scalar }
"#;

fn run_at(logical_path: &str, script: &str, has: &[&str]) -> Vec<ValidationError> {
    let parsed_cwt = parse(RULES);
    let ruleset = ast_to_ruleset(&parsed_cwt);
    let parsed = parse(script);
    let mut present = NameSet::new();
    for key in has {
        present.insert(key.to_ascii_lowercase());
    }
    let instances: Vec<(String, TypeInstance)> = parsed
        .root_children
        .iter()
        .filter_map(|c| match c {
            Child::Leaf(l) if matches!(l.value, Value::Clause(_)) => Some((
                "thing".to_string(),
                TypeInstance { name: l.key.clone(), location: l.pos.start },
            )),
            _ => None,
        })
        .collect();
    check_missing_localisation(&instances, logical_path, logical_path, &ruleset, &present)
}

fn run(script: &str, has: &[&str]) -> Vec<ValidationError> {
    run_at("common/things/test.txt", script, has)
}

#[test]
fn flags_instance_missing_required_loc() {
    // `my_thing` has its name loc but not `my_thing_desc`.
    let errs = run("my_thing = { x = yes }\n", &["my_thing"]);
    let msgs: Vec<&str> = errs.iter().map(|e| e.message.as_str()).collect();
    assert_eq!(
        errs.len(),
        1,
        "expected one missing-loc warning, got: {:?}",
        msgs
    );
    assert!(errs[0].message.contains("my_thing_desc"), "got: {:?}", msgs);
    assert_eq!(errs[0].code, Some("CW100"));

    // The fix carries the missing key for the LSP's "create localisation
    // key" action, not a span edit — there's no existing text to replace.
    let fix = errs[0].fix.as_ref().expect("CW100 carries a fix");
    assert_eq!(fix.create_loc_key.as_deref(), Some("my_thing_desc"));
    assert!(fix.edits.is_empty());
    assert_eq!(fix.title, "Create localisation key my_thing_desc");
}

#[test]
fn clean_when_no_loc_bearing_type_owns_the_path() {
    // No type declaring a required loc key covers `events/`, so the file is
    // skipped whole — same instance name, nothing flagged.
    let errs = run_at("events/test.txt", "my_thing = { x = yes }\n", &[]);
    assert!(
        errs.is_empty(),
        "got: {:?}",
        errs.iter().map(|e| &e.message).collect::<Vec<_>>()
    );
}

#[test]
fn clean_when_all_required_loc_present() {
    let errs = run("my_thing = { x = yes }\n", &["my_thing", "my_thing_desc"]);
    assert!(
        errs.is_empty(),
        "got: {:?}",
        errs.iter().map(|e| &e.message).collect::<Vec<_>>()
    );
}
