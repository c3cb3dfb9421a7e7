//! What gives rise to each diagnostic.

use cwtools::ast::{
    Child, Comment, Leaf, LeafValue, Operator, ParsedFile, SourcePos, SourceRange, Value,
};
use cwtools::context::{LocCommandDiagnostic, LocCommands, LocIndex, LocLanguage};
use cwtools::diagnostic::ValidationError;
use cwtools::post_process::post_process;
use cwtools::rules_converter::ast_to_ruleset;
use cwtools::ruleset::RuleSet;
use cwtools::ruleset_loader::directory_read_error;
use cwtools::scope::build_scope_registry;
use cwtools::scope_engine::{ScopeContext, ScopeId, ScopeRegistry, ScopeResult};
use cwtools::text::NameSet;
use cwtools::type_index::{Game, TypeIndex};
use cwtools::validate::validate_ast_with_loc;

/// A small reader of script, enough for the inputs below. The range of a child
/// reaches to the next one.
struct Reader {
    chars: Vec<char>,
    at: usize,
    line: u32,
    col: u16,
}

impl Reader {
    fn pos(&self) -> SourcePos {
        SourcePos { line: self.line, col: self.col }
    }

    fn peek(&self) -> Option<char> {
        self.chars.get(self.at).copied()
    }

    fn next_is(&self, c: char) -> bool {
        self.chars.get(self.at + 1) == Some(&c)
    }

    fn bump(&mut self) -> char {
        let c = self.chars[self.at];
        if c == '\n' {
            self.line += 1;
            self.col = 0;
        } else {
            self.col += 1;
        }
        self.at += 1;
        c
    }

    fn skip_white(&mut self) {
        while self.peek().is_some_and(|c| c.is_whitespace()) {
            self.bump();
        }
    }

    fn token(&mut self) -> String {
        let mut out = String::new();
        if self.peek() == Some('"') {
            out.push(self.bump());
            while let Some(c) = self.peek() {
                out.push(self.bump());
                if c == '"' {
                    break;
                }
            }
            return out;
        }
        while let Some(c) = self.peek() {
            let ends = c.is_whitespace()
                || matches!(c, '{' | '}' | '=' | '#' | '"')
                || (matches!(c, '!' | '?') && self.next_is('='));
            if ends {
                break;
            }
            out.push(self.bump());
        }
        out
    }

    fn operator(&mut self) -> Option<Operator> {
        let c = self.peek()?;
        let op = match c {
            '=' if self.next_is('=') => Operator::EqualEqual,
            '=' => Operator::Equals,
            '!' if self.next_is('=') => Operator::NotEqual,
            '?' if self.next_is('=') => Operator::QuestionEqual,
            '<' if self.next_is('=') => Operator::LessThanOrEqual,
            '<' if self.next_is('>') => Operator::NotEqual,
            '<' if self.next_is(' ') => Operator::LessThan,
            '>' if self.next_is('=') => Operator::GreaterThanOrEqual,
            '>' if self.next_is(' ') => Operator::GreaterThan,
            _ => return None,
        };
        self.bump();
        if !matches!(op, Operator::Equals | Operator::LessThan | Operator::GreaterThan) {
            self.bump();
        }
        Some(op)
    }

    fn value(&mut self) -> Value {
        if self.peek() == Some('{') {
            self.bump();
            let inner = self.children();
            if self.peek() == Some('}') {
                self.bump();
            }
            return Value::Clause(inner);
        }
        let t = self.token();
        if t.starts_with('"') {
            Value::QString(t)
        } else if t == "yes" {
            Value::Bool(true)
        } else if t == "no" {
            Value::Bool(false)
        } else if let Ok(n) = t.parse::<i64>() {
            Value::Int(n)
        } else if t.contains('.') && t.parse::<f64>().is_ok() {
            Value::Float(t)
        } else {
            Value::String(t)
        }
    }

    fn children(&mut self) -> Vec<Child> {
        let mut out = Vec::new();
        loop {
            self.skip_white();
            let start = self.pos();
            match self.peek() {
                None | Some('}') => return out,
                Some('#') => {
                    let mut text = String::new();
                    while self.peek().is_some_and(|c| c != '\n') {
                        text.push(self.bump());
                    }
                    let end = self.pos();
                    out.push(Child::Comment(Comment { text, pos: SourceRange { start, end } }));
                }
                Some('{') => {
                    let value = self.value();
                    self.skip_white();
                    let end = self.pos();
                    out.push(Child::LeafValue(LeafValue { value, pos: SourceRange { start, end } }));
                }
                Some(_) => {
                    let (at, line, col) = (self.at, self.line, self.col);
                    let key = self.token();
                    self.skip_white();
                    if let Some(op) = self.operator() {
                        self.skip_white();
                        let value_start = self.pos();
                        let value = self.value();
                        let value_end = self.pos();
                        self.skip_white();
                        let end = self.pos();
                        out.push(Child::Leaf(Leaf {
                            key,
                            value,
                            op,
                            pos: SourceRange { start, end },
                            value_pos: SourceRange { start: value_start, end: value_end },
                        }));
                    } else {
                        self.at = at;
                        self.line = line;
                        self.col = col;
                        let value = self.value();
                        self.skip_white();
                        let end = self.pos();
                        out.push(Child::LeafValue(LeafValue {
                            value,
                            pos: SourceRange { start, end },
                        }));
                    }
                }
            }
        }
    }
}

fn parse(text: &str) -> ParsedFile {
    let mut r = Reader { chars: text.chars().collect(), at: 0, line: 1, col: 0 };
    ParsedFile { root_children: r.children() }
}

const FILE: &str = "common/things/a.txt";

const CONFIG: &str = "
scopes = {
    Country = { aliases = { country } }
    State = { aliases = { state } }
    Province = { aliases = { province } is_subscope_of = { state } }
    Everything = { aliases = { all } }
}
links = {
    capital = { output_scope = state input_scopes = { country } }
    owner = { output_scope = country input_scopes = { state } }
}
types = {
    type[thing] = { path = \"game/common/things\" }
    type[event] = { path = \"game/events\" }
    type[sprite] = { path = \"game/gfx\" }
}
## push_scope = country
thing = {
    ## cardinality = 0..inf
    alias_name[effect] = alias_match_left[effect]
    ## cardinality = 0..inf
    alias_name[trigger] = alias_match_left[trigger]
    ## cardinality = 0..inf
    alias_name[other] = alias_match_left[other]
    ## cardinality = 0..1
    ## scope = state
    only_in_state = int
    ## cardinality = 0..1
    target = scope[state]
    ## cardinality = 0..1
    title = localisation
    ## cardinality = 0..1
    everywhere = localisation_synced
    ## cardinality = 0..1
    inline = localisation_inline
    ## cardinality = 0..1
    icon = filepath[gfx/,.dds]
    ## cardinality = 0..1
    fires = <event>
    ## cardinality = 0..1
    sprite = GFX_<sprite>
    ## cardinality = 0..1
    whole = int_variable_field
    ## cardinality = 0..1
    short = variable_field_32
    ## cardinality = 0..1
    ## default_bool = no
    flag = bool
    ## cardinality = 0..1
    body = { }
}
## scope = state
alias[trigger:is_coastal] = bool
## scope = state
alias[effect:build] = int
## scope = state
alias[other:place] = int
## push_scope = state
alias[effect:every_place] = {
    ## cardinality = 0..inf
    alias_name[effect] = alias_match_left[effect]
}
## push_scope = all
alias[effect:every_thing] = {
    ## cardinality = 0..inf
    alias_name[effect] = alias_match_left[effect]
}
alias[effect:scope_field] = {
    ## cardinality = 0..inf
    alias_name[effect] = alias_match_left[effect]
}
";

fn rules() -> RuleSet {
    let mut rs = ast_to_ruleset(&parse(CONFIG));
    post_process(&mut rs);
    rs
}

fn index() -> TypeIndex {
    let mut idx = TypeIndex::new();
    let at = SourcePos { line: 1, col: 0 };
    idx.complete = true;
    idx.add("event", "country.1", at);
    idx.add("sprite", "tank", at);
    idx.var_index.insert("known_variable");
    idx.file_index.insert("gfx/there.dds");
    idx.file_index.insert("gfx/other.tga");
    idx
}

fn loc_index(rs: &RuleSet) -> LocIndex {
    let keys = |names: &[&str]| {
        let mut s = NameSet::new();
        for n in names {
            s.insert(n.to_string());
        }
        s
    };
    let reg = build_scope_registry(rs, ScopeRegistry::new());
    let country = reg.id_of("country").unwrap();
    let state = reg.id_of("state").unwrap();
    LocIndex {
        languages: vec![
            LocLanguage { name: "english".to_string(), keys: keys(&["both", "one", "bad"]) },
            LocLanguage { name: "french".to_string(), keys: keys(&["both"]) },
        ],
        commands: vec![LocCommands {
            key: "bad".to_string(),
            scope: country,
            diagnostics: vec![
                LocCommandDiagnostic::WrongScope {
                    command: "GetName".to_string(),
                    current_scope: country,
                    expected_scopes: vec![state],
                },
                LocCommandDiagnostic::ChainEndsInScope { command: "Capital".to_string() },
                LocCommandDiagnostic::NotFound { command: "GetNothing".to_string() },
            ],
        }],
    }
}

fn check(body: &str) -> Vec<ValidationError> {
    let rs = rules();
    let idx = index();
    let loc = loc_index(&rs);
    let mut modifiers = NameSet::new();
    modifiers.insert("stability".to_string());
    validate_ast_with_loc(
        &parse(&format!("x = {{ {body} }}\n")),
        &rs,
        FILE,
        Some(Game::Hoi4),
        Some(&idx),
        Some(&modifiers),
        Some(&loc),
        ScopeRegistry::new(),
    )
}

fn found(body: &str) -> Vec<(&'static str, String)> {
    check(body).into_iter().map(|e| (e.code.unwrap(), e.message)).collect()
}

fn one(code: &'static str, message: &str) -> Vec<(&'static str, String)> {
    vec![(code, message.to_string())]
}

#[test]
fn triggers_effects_and_others_in_the_wrong_scope() {
    assert_eq!(
        found("is_coastal = yes"),
        one("CW104", "Trigger is_coastal is used in wrong scope (Country instead of state)")
    );
    assert_eq!(
        found("build = 1"),
        one("CW105", "Effect build is used in wrong scope (Country instead of state)")
    );
    assert_eq!(
        found("place = 1"),
        one("CW106", "Scope command place is used in wrong scope (Country instead of state)")
    );
    assert!(found("every_place = { build = 1 }").is_empty());
    assert!(found("every_thing = { build = 1 }").is_empty());
    assert!(found("capital = { build = 1 }").is_empty());
    assert!(found("GER = { build = 1 }").is_empty());
}

#[test]
fn fields_in_the_wrong_scope() {
    assert_eq!(
        found("only_in_state = 1"),
        one("CW247", "only_in_state is used in wrong scope (Country instead of state)")
    );
}

#[test]
fn chains_that_lead_nowhere() {
    assert_eq!(
        found("capital.nowhere = { }"),
        one("CW248", "capital.nowhere is not a valid scope command")
    );
    assert!(found("capital.owner = { }").is_empty());
}

#[test]
fn targets() {
    assert!(found("target = capital").is_empty());
    assert_eq!(
        found("target = capital.owner"),
        one("CW243", "Target capital.owner has scope Country but expected state")
    );
    assert_eq!(
        found("target = nothing"),
        one("CW244", "nothing is not a target. Expected a target in scope state")
    );
    assert_eq!(
        found("target = owner"),
        one(
            "CW245",
            "Error in target: command owner was used in scope Country but expected State"
        )
    );
    assert!(found("target = GER").is_empty());
}

#[test]
fn localisation() {
    assert!(found("title = both").is_empty());
    assert!(found("title = ONE").is_empty());
    assert_eq!(
        found("title = none"),
        one("CW100", "Localisation key none is not defined for any language")
    );
    assert!(found("everywhere = both").is_empty());
    assert_eq!(
        found("everywhere = one"),
        one("CW100", "Localisation key one is not defined for french")
    );
    assert_eq!(
        found("inline = \"both\""),
        one("CW122", "Localisation key both is quoted, it will be used as literal text")
    );
    assert!(found("inline = \"free text\"").is_empty());
    assert_eq!(
        found("inline = none"),
        one("CW100", "Localisation key none is not defined for any language")
    );
    for skipped in ["\"two words\"", "\"[Command]\"", "\"$VAR$\"", "@constant"] {
        assert!(found(&format!("title = {skipped}")).is_empty(), "{skipped}");
    }
}

#[test]
fn commands_in_localisation() {
    assert_eq!(
        found("title = bad"),
        vec![
            (
                "CW260",
                "Localisation command GetName is used in wrong scope (Country instead of State)"
                    .to_string()
            ),
            (
                "CW266",
                "Localisation key bad uses the command Capital which ends in a scope".to_string()
            ),
            (
                "CW226",
                "Localisation key bad uses the command GetNothing which does not exist"
                    .to_string()
            ),
        ]
    );
}

#[test]
fn a_quoted_key_can_lose_its_quotes() {
    let e = check("inline = \"both\"");
    let fix = e[0].fix.as_ref().unwrap();
    assert_eq!(fix.title, "Remove unnecessary quotes");
    assert_eq!(fix.edits.len(), 1);
    assert_eq!(fix.edits[0].new_text, "both");
    assert_eq!(fix.edits[0].range.start, SourcePos { line: 1, col: 15 });
    assert_eq!(fix.edits[0].range.end, SourcePos { line: 1, col: 21 });
}

#[test]
fn files() {
    assert!(found("icon = there").is_empty());
    assert!(found("icon = \"gfx/there.dds\"").is_empty());
    assert!(found("icon = other").is_empty());
    assert!(found("icon = \"[dynamic]\"").is_empty());
    assert_eq!(
        found("icon = gone"),
        one(
            "CW113",
            "File gfx/gone.dds is not found. The path might be wrong, or the file might be missing."
        )
    );
}

#[test]
fn instances() {
    assert!(found("fires = country.1").is_empty());
    assert_eq!(found("fires = country.2"), one("CW222", "The event id country.2 is not defined"));
    assert!(found("sprite = tank").is_empty());
    assert!(found("sprite = GFX_tank").is_empty());
    assert_eq!(
        found("sprite = GFX_plane"),
        one(
            "CW500",
            "Field 'sprite' references 'plane' which is not a known instance of type 'sprite'"
        )
    );
}

#[test]
fn variables() {
    assert!(found("whole = 3").is_empty());
    assert!(found("whole = 3.0").is_empty());
    assert_eq!(found("whole = 3.5"), one("CW271", "This variable must be an integer"));
    assert!(found("short = 0.1230").is_empty());
    assert_eq!(found("short = 0.1234"), one("CW270", "Variables hold three decimal places only"));
    assert!(found("whole = known_variable").is_empty());
    assert!(found("whole = known_variable?0").is_empty());
    assert_eq!(
        found("whole = unknown_variable"),
        one("CW246", "The variable unknown_variable has not been set")
    );
    assert!(found("whole = capital").is_empty());
}

#[test]
fn values_of_the_wrong_kind() {
    assert_eq!(
        found("build = many").last().unwrap(),
        &(
            "CW240",
            "Field 'build' has value 'many', expected Int { min: -2147483648, max: 2147483647 }"
                .to_string()
        )
    );
    assert_eq!(found("flag = no"), one("CW282", "The value false is the default and can be omitted"));
    assert!(found("flag = yes").is_empty());
    assert_eq!(found("body = 1"), one("CW267", "Unexpected alias key/value: body = 1"));
    assert_eq!(found("every_place = 1"), one("CW267", "Unexpected alias key/value: effect = 1"));
}

#[test]
fn what_no_rule_is_for() {
    assert!(found("stability = 1").is_empty());
    assert_eq!(
        found("Stability = 0"),
        one(
            "CW235",
            "Modifier Stability has value 0. Modifiers are additive so this does nothing."
        )
    );
    assert!(found("@constant = 1").is_empty());
    assert_eq!(found("word"), one("CW264", "Unexpected bare value 'word'"));
    assert_eq!(found("{ }"), one("CW265", "Unexpected value clause '{...}'"));
    assert_eq!(found("odd = 1"), one("CW263", "Unexpected field 'odd'"));
    assert_eq!(found("odd = { }"), one("CW262", "Unexpected block 'odd'"));
}

#[test]
fn numbers_of_children() {
    assert_eq!(
        found("flag = yes flag = yes"),
        one("CW242", "Field 'flag' appears 2 time(s), expected at most 1")
    );
}

#[test]
fn a_key_with_several_rules_is_counted_once() {
    let rs = ast_to_ruleset(&parse(
        "types = { type[thing] = { path = \"game/common/things\" } }\n\
         thing = { A = int a = bool\n## cardinality = 2..3\nb = int\n## cardinality = 1..5\nB = bool }\n",
    ));
    let run = |s: &str| {
        validate_ast_with_loc(&parse(s), &rs, FILE, None, None, None, None, ScopeRegistry::new())
            .into_iter()
            .map(|e| e.message)
            .collect::<Vec<_>>()
    };
    assert_eq!(
        run("x = { }\n"),
        [
            "Field 'A' appears 0 time(s), expected at least 1",
            "Field 'b' appears 0 time(s), expected at least 1"
        ]
    );
    assert!(run("x = { a = yes b = 1 b = 2 b = 3 b = 4 b = 5 }\n").is_empty());
}

#[test]
fn subtypes_that_exclude_each_other() {
    let rs = ast_to_ruleset(&parse(
        "types = { type[thing] = { path = \"game/common/things\"\n\
         subtype[big] = { size = large }\n\
         ## only_if_not = { big }\n\
         subtype[red] = { colour = red } } }\n\
         thing = {\n## cardinality = 0..1\nsize = scalar\n## cardinality = 0..1\ncolour = scalar\n\
         subtype[red] = { shade = int }\n}\n",
    ));
    let run = |s: &str| {
        validate_ast_with_loc(&parse(s), &rs, FILE, None, None, None, None, ScopeRegistry::new())
            .into_iter()
            .map(|e| e.message)
            .collect::<Vec<_>>()
    };
    assert!(run("x = { colour = red shade = 1 }\n").is_empty());
    assert_eq!(
        run("x = { colour = red size = large shade = 1 }\n"),
        ["Unexpected field 'shade'"]
    );
}

#[test]
fn commands_of_scopes() {
    let rs = rules();
    let reg = build_scope_registry(&rs, ScopeRegistry::new());
    let country = reg.id_of("country").unwrap();
    let state = reg.id_of("state").unwrap();
    let mut sc = ScopeContext::from_registry(&reg, country);
    assert!(matches!(sc.change_scope("nothing"), ScopeResult::NotFound));
    assert_eq!(sc.scope_depth(), 1);
    match sc.change_scope("owner") {
        ScopeResult::WrongScope { command, current, expected } => {
            assert_eq!(command, "owner");
            assert_eq!(current, country);
            assert_eq!(expected, [state]);
        }
        _ => panic!("owner is no command of a country"),
    }
    assert!(matches!(sc.change_scope("every_state"), ScopeResult::NewScope { .. }));
    assert_eq!(sc.current(), state);
    assert!(reg.is_subscope_or_eq(reg.id_of("province").unwrap(), state));
    assert_eq!(reg.id_of("ALL"), Some(ScopeId::Any));
}

#[test]
fn unreadable_directories() {
    let e = directory_read_error("config", "not found");
    assert_eq!(e.to_text(), "config:1:0: read directory error: not found");
}
