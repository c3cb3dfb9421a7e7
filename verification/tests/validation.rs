//! Whole files against whole configurations.

use cwtools::ast::{
    Child, Comment, Leaf, LeafValue, Operator, ParsedFile, SourcePos, SourceRange, Value,
};
use cwtools::common::{decimal_places, is_date_shape, is_datetime_shape, value_is_zero};
use cwtools::context::{LocIndex, LocLanguage};
use cwtools::describe::{describe_field, field_to_description};
use cwtools::diagnostic::{error_hash, key_token_range, ValidationError};
use cwtools::error_codes::{
    cw100_missing_localisation, cw203_cardinality_min, error_code_hash, ErrorSeverity,
};
use cwtools::field_parser::field_from_string;
use cwtools::game_common::{as_block, under_dir_segment};
use cwtools::game_validators::run_game_validators;
use cwtools::loc_field::build_modifier_keys;
use cwtools::position::{alias_category_for_key, rules_at_pos, value_rules_for_key};
use cwtools::post_process::post_process;
use cwtools::resolve::{find_type_by_path, resolve_root_child, ResolvedType};
use cwtools::rules_converter::ast_to_ruleset;
use cwtools::rules_types::{NewField, RootRule, RuleType};
use cwtools::ruleset::RuleSet;
use cwtools::scope::{build_scope_registry, scope_matches_required};
use cwtools::scope_engine::{ScopeContext, ScopeId, ScopeRegistry, ScopeResult};
use cwtools::subtype::find_active_subtypes;
use cwtools::text::NameSet;
use cwtools::type_index::{Game, TypeIndex};
use cwtools::validate::{build_enum_map, validate_ast, validate_ast_with_loc, Prepared};

/// A small reader of script, enough for the inputs below. The range of a child
/// reaches to the next one.
struct Reader {
    chars: Vec<char>,
    at: usize,
    line: u32,
    col: u16,
}

impl Reader {
    fn pos(&self) -> SourcePos {
        SourcePos { line: self.line, col: self.col }
    }

    fn peek(&self) -> Option<char> {
        self.chars.get(self.at).copied()
    }

    fn next_is(&self, c: char) -> bool {
        self.chars.get(self.at + 1) == Some(&c)
    }

    fn bump(&mut self) -> char {
        let c = self.chars[self.at];
        if c == '\n' {
            self.line += 1;
            self.col = 0;
        } else {
            self.col += 1;
        }
        self.at += 1;
        c
    }

    fn skip_white(&mut self) {
        while self.peek().is_some_and(|c| c.is_whitespace()) {
            self.bump();
        }
    }

    fn token(&mut self) -> String {
        let mut out = String::new();
        if self.peek() == Some('"') {
            out.push(self.bump());
            while let Some(c) = self.peek() {
                out.push(self.bump());
                if c == '"' {
                    break;
                }
            }
            return out;
        }
        while let Some(c) = self.peek() {
            let ends = c.is_whitespace()
                || matches!(c, '{' | '}' | '=' | '#' | '"')
                || (matches!(c, '!' | '?') && self.next_is('='));
            if ends {
                break;
            }
            out.push(self.bump());
        }
        out
    }

    fn operator(&mut self) -> Option<Operator> {
        let c = self.peek()?;
        let op = match c {
            '=' if self.next_is('=') => Operator::EqualEqual,
            '=' => Operator::Equals,
            '!' if self.next_is('=') => Operator::NotEqual,
            '?' if self.next_is('=') => Operator::QuestionEqual,
            '<' if self.next_is('=') => Operator::LessThanOrEqual,
            '<' if self.next_is('>') => Operator::NotEqual,
            '<' if self.next_is(' ') => Operator::LessThan,
            '>' if self.next_is('=') => Operator::GreaterThanOrEqual,
            '>' if self.next_is(' ') => Operator::GreaterThan,
            _ => return None,
        };
        self.bump();
        if !matches!(op, Operator::Equals | Operator::LessThan | Operator::GreaterThan) {
            self.bump();
        }
        Some(op)
    }

    fn value(&mut self) -> Value {
        if self.peek() == Some('{') {
            self.bump();
            let inner = self.children();
            if self.peek() == Some('}') {
                self.bump();
            }
            return Value::Clause(inner);
        }
        let t = self.token();
        if t.starts_with('"') {
            Value::QString(t)
        } else if t == "yes" {
            Value::Bool(true)
        } else if t == "no" {
            Value::Bool(false)
        } else if let Ok(n) = t.parse::<i64>() {
            Value::Int(n)
        } else if t.contains('.') && t.parse::<f64>().is_ok() {
            Value::Float(t)
        } else {
            Value::String(t)
        }
    }

    fn children(&mut self) -> Vec<Child> {
        let mut out = Vec::new();
        loop {
            self.skip_white();
            let start = self.pos();
            match self.peek() {
                None | Some('}') => return out,
                Some('#') => {
                    let mut text = String::new();
                    while self.peek().is_some_and(|c| c != '\n') {
                        text.push(self.bump());
                    }
                    let end = self.pos();
                    out.push(Child::Comment(Comment { text, pos: SourceRange { start, end } }));
                }
                Some('{') => {
                    let value = self.value();
                    self.skip_white();
                    let end = self.pos();
                    out.push(Child::LeafValue(LeafValue { value, pos: SourceRange { start, end } }));
                }
                Some(_) => {
                    let (at, line, col) = (self.at, self.line, self.col);
                    let key = self.token();
                    self.skip_white();
                    if let Some(op) = self.operator() {
                        self.skip_white();
                        let value_start = self.pos();
                        let value = self.value();
                        let value_end = self.pos();
                        self.skip_white();
                        let end = self.pos();
                        out.push(Child::Leaf(Leaf {
                            key,
                            value,
                            op,
                            pos: SourceRange { start, end },
                            value_pos: SourceRange { start: value_start, end: value_end },
                        }));
                    } else {
                        self.at = at;
                        self.line = line;
                        self.col = col;
                        let value = self.value();
                        self.skip_white();
                        let end = self.pos();
                        out.push(Child::LeafValue(LeafValue {
                            value,
                            pos: SourceRange { start, end },
                        }));
                    }
                }
            }
        }
    }
}

fn parse(text: &str) -> ParsedFile {
    let mut r = Reader { chars: text.chars().collect(), at: 0, line: 1, col: 0 };
    ParsedFile { root_children: r.children() }
}

fn rules_of(text: &str) -> RuleSet {
    let mut rs = ast_to_ruleset(&parse(text));
    post_process(&mut rs);
    rs
}

const FILE: &str = "common/things/a.txt";

/// What is wrong with `script`, at a file of the type `thing` with these fields.
fn check(fields: &str, script: &str) -> Vec<ValidationError> {
    check_in(fields, script, None, None)
}

fn check_in(
    fields: &str,
    script: &str,
    game: Option<Game>,
    idx: Option<&TypeIndex>,
) -> Vec<ValidationError> {
    let rs = rules_of(&format!(
        "types = {{ type[thing] = {{ path = \"game/common/things\" }} }}\nthing = {{\n{fields}\n}}\n\
         enums = {{ enum[colour] = {{ red green blue }} }}\n"
    ));
    validate_ast(&parse(script), &rs, FILE, game, idx, None, ScopeRegistry::new())
}

fn codes(errors: &[ValidationError]) -> Vec<&'static str> {
    errors.iter().filter_map(|e| e.code).collect()
}

fn messages(errors: &[ValidationError]) -> Vec<&str> {
    errors.iter().map(|e| e.message.as_str()).collect()
}

// ---------------------------------------------------------------------------
// Values

#[test]
fn integers_are_held_to_their_range() {
    let rule = "n = int[0..10]";
    assert!(check(rule, "x = { n = 10 }\n").is_empty());
    assert_eq!(check(rule, "x = { n = 11 }\n").len(), 1);
    assert_eq!(check(rule, "x = { n = many }\n").len(), 1);
}

#[test]
fn decimals_are_held_to_their_range() {
    let rule = "n = float[-0.5..0.5]";
    assert!(check(rule, "x = { n = 0.50 }\n").is_empty());
    assert_eq!(check(rule, "x = { n = 0.51 }\n").len(), 1);
}

#[test]
fn booleans_are_yes_or_no() {
    assert!(check("b = bool", "x = { b = yes }\n").is_empty());
    assert_eq!(check("b = bool", "x = { b = maybe }\n").len(), 1);
}

#[test]
fn enums_hold_their_values() {
    assert!(check("c = enum[colour]", "x = { c = red }\n").is_empty());
    assert!(check("c = enum[colour]", "x = { c = RED }\n").is_empty());
    assert_eq!(check("c = enum[colour]", "x = { c = pink }\n").len(), 1);
    // One with many values is taken to be incomplete.
    let rs = rules_of(
        "types = { type[thing] = { path = \"game/common/things\" } }\nthing = { c = enum[big] }\n\
         enums = { enum[big] = { a b c d e f } }\n",
    );
    let e = validate_ast(
        &parse("x = { c = z }\n"),
        &rs,
        FILE,
        None,
        None,
        None,
        ScopeRegistry::new(),
    );
    assert!(e.is_empty());
}

#[test]
fn dates_have_three_parts() {
    assert!(is_date_shape("1936.1.1"));
    assert!(!is_date_shape("1936.1"));
    assert!(is_datetime_shape("1936.1.1.12"));
    assert!(!is_datetime_shape("1936.1"));
}

#[test]
fn decimal_places_do_not_count_trailing_zeros() {
    assert_eq!(decimal_places("1.2500"), 2);
    assert_eq!(decimal_places("7"), 0);
    // What is no digit counts by its bytes.
    assert_eq!(decimal_places("1.\u{e9}"), 2);
    assert_eq!(decimal_places("1.5\u{20ac}00"), 4);
    assert!(value_is_zero(&Value::Float("0.000".to_string())));
    assert!(value_is_zero(&Value::Int(0)));
    assert!(!value_is_zero(&Value::Int(1)));
}

#[test]
fn references_need_an_instance() {
    let fields = "other = <thing>";
    let mut idx = TypeIndex::new();
    idx.add("thing", "known", SourcePos { line: 1, col: 0 });
    idx.complete = true;
    assert!(check_in(fields, "x = { other = known }\n", None, Some(&idx)).is_empty());
    assert!(check_in(fields, "x = { other = KNOWN }\n", None, Some(&idx)).is_empty());
    assert_eq!(check_in(fields, "x = { other = lost }\n", None, Some(&idx)).len(), 1);
}

// ---------------------------------------------------------------------------
// Fields

#[test]
fn unknown_fields_are_unexpected() {
    let e = check("a = scalar", "x = {\n    a = 1\n    b = 2\n}\n");
    assert_eq!(codes(&e), ["CW263"]);
    assert_eq!((e[0].line, e[0].col), (3, 4));
    assert_eq!(e[0].file, FILE);
    let e = check("a = scalar", "x = { a = 1 b = { } }\n");
    assert_eq!(codes(&e), ["CW262"]);
}

#[test]
fn a_field_is_required_once_unless_said_otherwise() {
    let e = check("a = scalar", "x = { }\n");
    assert_eq!(messages(&e), ["Field 'a' appears 0 time(s), expected at least 1"]);
    let e = check("a = scalar", "x = { a = 1 a = 2 }\n");
    assert_eq!(messages(&e), ["Field 'a' appears 2 time(s), expected at most 1"]);
    assert!(check("## cardinality = 0..2\na = scalar", "x = { a = 1 A = 2 }\n").is_empty());
    assert!(check("## cardinality = ~1..2\na = scalar", "x = { }\n").is_empty());
    assert!(check("## cardinality = 0..inf\na = scalar", "x = { a = 1 a = 2 a = 3 }\n").is_empty());
}

#[test]
fn severity_comes_from_the_rule() {
    let e = check("## severity = error\na = scalar", "x = { }\n");
    assert_eq!(e[0].severity, ErrorSeverity::Error);
    let e = check("a = scalar", "x = { }\n");
    assert_eq!(e[0].severity, ErrorSeverity::Warning);
}

#[test]
fn the_rule_with_the_fewest_problems_counts() {
    let rules = "## cardinality = 0..inf\na = int\n## cardinality = 0..inf\na = { b = scalar }";
    assert!(check(rules, "x = { a = 1 a = { b = 2 } }\n").is_empty());
    assert!(!check(rules, "x = { a = { c = 2 } }\n").is_empty());
}

#[test]
fn a_rule_for_a_key_by_name_wins() {
    let rules = "## cardinality = 0..inf\nscalar = scalar\n## cardinality = 0..1\na = int";
    assert!(check(rules, "x = { anything = goes }\n").is_empty());
    assert_eq!(check(rules, "x = { a = word }\n").len(), 1);
}

#[test]
fn ignored_fields_hold_anything() {
    let rules = "a = ignore_field";
    assert!(check(rules, "x = { a = { b = { c = d } } }\n").is_empty());
    assert!(check(rules, "x = { a = 1 }\n").is_empty());
}

#[test]
fn colours_have_three_parts() {
    let rules = "c = colour_field";
    assert!(check(rules, "x = { c = { 1 2 3 } }\n").is_empty());
    assert!(!check(rules, "x = { c = { 1 2 } }\n").is_empty());
}

#[test]
fn non_ascii_keys_are_quoted_as_they_stand() {
    let e = check("a = scalar", "x = { a = 1 Größe = 2 }\n");
    assert!(e[0].message.contains("Größe"), "got {:?}", e[0].message);
}

// ---------------------------------------------------------------------------
// Aliases

fn with_aliases(script: &str) -> Vec<ValidationError> {
    let rs = rules_of(
        "types = { type[thing] = { path = \"game/common/things\" } }\n\
         thing = {\n    ## cardinality = 0..inf\n    alias_name[effect] = alias_match_left[effect]\n}\n\
         alias[effect:add] = int\n\
         alias[effect:add] = { amount = int }\n\
         alias[effect:all] = {\n    ## cardinality = 0..inf\n    alias_name[effect] = alias_match_left[effect]\n}\n",
    );
    validate_ast(&parse(script), &rs, FILE, None, None, None, ScopeRegistry::new())
}

#[test]
fn any_overload_of_an_alias_will_do() {
    assert!(with_aliases("x = { add = 3 }\n").is_empty());
    assert!(with_aliases("x = { ADD = { amount = 3 } }\n").is_empty());
    assert!(with_aliases("x = { all = { add = 1 all = { add = 2 } } }\n").is_empty());
}

#[test]
fn unknown_aliases_are_reported() {
    assert_eq!(with_aliases("x = { lose = 3 }\n").len(), 1);
    assert_eq!(with_aliases("x = { all = { lose = 3 } }\n").len(), 1);
}

#[test]
fn the_variables_of_a_loop_are_set_in_its_body_alone() {
    let rs = rules_of(
        "types = { type[thing] = { path = \"game/common/things\" } }\n\
         thing = {\n    ## cardinality = 0..inf\n    alias_name[effect] = alias_match_left[effect]\n}\n\
         alias[effect:read] = value[variable]\n\
         alias[effect:loop] = {\n    ## cardinality = 0..1\n    value = value_set[variable]\n    \
         ## cardinality = 0..inf\n    alias_name[effect] = alias_match_left[effect]\n}\n",
    );
    let mut idx = TypeIndex::new();
    idx.var_index.insert("known");
    let run = |s: &str| {
        let e = validate_ast(&parse(s), &rs, FILE, None, Some(&idx), None, ScopeRegistry::new());
        e.iter().map(|e| (e.code, e.line)).collect::<Vec<_>>()
    };
    assert!(run("x = { read = known }\n").is_empty());
    assert!(run("x = { loop = { read = v } }\n").is_empty());
    assert!(run("x = { loop = { value = elem read = elem read = v } }\n").is_empty());
    assert_eq!(
        run("x = {\n    loop = { value = elem }\n    read = elem\n}\n"),
        [(Some("CW246"), 3)]
    );
}

#[test]
fn what_a_key_of_an_alias_stands_for() {
    let rs = rules_of(
        "alias[effect:add] = int\nalias[effect:add] = { a = int }\n\
         thing = { alias_name[effect] = alias_match_left[effect] size = int }\n",
    );
    let rules = match &rs.root_rules[0] {
        RootRule::TypeRule(_, (RuleType::NodeRule { rules, .. }, _)) => rules,
        other => panic!("expected the rules of a type, got {other:?}"),
    };
    assert_eq!(alias_category_for_key(&rs, None, rules, "add").as_deref(), Some("effect"));
    assert_eq!(alias_category_for_key(&rs, None, rules, "size"), None);
    assert_eq!(value_rules_for_key(&rs, None, rules, "add").len(), 2);
    assert_eq!(value_rules_for_key(&rs, None, rules, "size").len(), 1);
    assert!(value_rules_for_key(&rs, None, rules, "lose").is_empty());
}

// ---------------------------------------------------------------------------
// Subtypes

#[test]
fn subtypes_add_their_fields() {
    let rules = "types = { type[thing] = { path = \"game/common/things\"\n\
                 subtype[big] = { size = large } } }\n\
                 thing = {\n    ## cardinality = 0..1\n    size = scalar\n    \
                 subtype[big] = { extra = int }\n}\n";
    let rs = rules_of(rules);
    let run = |s: &str| validate_ast(&parse(s), &rs, FILE, None, None, None, ScopeRegistry::new());
    assert!(run("x = { size = large extra = 1 }\n").is_empty());
    assert!(run("x = { size = large }\n").is_empty());
    assert_eq!(run("x = { size = small extra = 1 }\n").len(), 1);
    let active = |s: &str| match &parse(s).root_children[0] {
        Child::Leaf(Leaf { value: Value::Clause(c), .. }) => {
            find_active_subtypes(&rs.types[0], c, &rs, Some("x"), None)
        }
        _ => panic!("a block"),
    };
    assert_eq!(active("x = { size = large }\n"), ["big"]);
    assert!(active("x = { size = small }\n").is_empty());
}

// ---------------------------------------------------------------------------
// Types by path

#[test]
fn the_longest_path_wins() {
    let rs = rules_of(
        "types = { type[outer] = { path = \"game/common\" } type[inner] = { path = \"game/common/things\" } }\n\
         outer = { a = scalar }\ninner = { b = scalar }\n",
    );
    assert_eq!(find_type_by_path(FILE, &rs).unwrap().name, "inner");
    assert_eq!(find_type_by_path("common\\things\\a.txt", &rs).unwrap().name, "inner");
    assert_eq!(find_type_by_path("common/other/a.txt", &rs).unwrap().name, "outer");
    assert!(find_type_by_path("events/a.txt", &rs).is_none());
}

#[test]
fn wrappers_are_entered() {
    let rs = rules_of(
        "types = { type[thing] = { path = \"game/common/things\" skip_root_key = things } }\n\
         thing = { a = scalar }\n",
    );
    let run = |s: &str| validate_ast(&parse(s), &rs, FILE, None, None, None, ScopeRegistry::new());
    assert!(run("things = { x = { a = 1 } }\n").is_empty());
    assert_eq!(codes(&run("things = { x = { a = 1 b = 2 } }\n")), ["CW263"]);
    assert!(matches!(resolve_root_child(&rs, FILE, "things", false), ResolvedType::Wrapper { .. }));
}

#[test]
fn files_of_no_type_are_not_checked() {
    let rs = rules_of("types = { type[thing] = { path = \"game/common/things\" } }\nthing = { }\n");
    let e = validate_ast(
        &parse("x = { a = 1 }\n"),
        &rs,
        "music/a.txt",
        None,
        None,
        None,
        ScopeRegistry::new(),
    );
    assert!(e.is_empty());
}

// ---------------------------------------------------------------------------
// Scopes

fn scoped() -> RuleSet {
    rules_of(
        "scopes = { Country = { aliases = { country } } State = { aliases = { state } } }\n\
         links = { capital = { output_scope = state input_scopes = { country } } }\n\
         types = { type[thing] = { path = \"game/common/things\" } }\n\
         ## push_scope = country\n\
         thing = {\n    ## cardinality = 0..inf\n    alias_name[effect] = alias_match_left[effect]\n}\n\
         ## scope = country\nalias[effect:tax] = int\n\
         ## scope = state\nalias[effect:build] = int\n",
    )
}

#[test]
fn declared_scopes_and_links_are_found() {
    let reg = build_scope_registry(&scoped(), ScopeRegistry::new());
    let country = reg.id_of("country").unwrap();
    assert_eq!(reg.id_of("COUNTRY"), Some(country));
    let mut sc = ScopeContext::from_registry(&reg, country);
    assert_eq!(sc.scope_depth(), 1);
    assert!(matches!(sc.change_scope("capital"), ScopeResult::NewScope { .. }));
    assert_eq!(sc.scope_depth(), 2);
    assert_eq!(Some(sc.current()), reg.id_of("state"));
    assert!(matches!(sc.change_scope("prev"), ScopeResult::NewScope { .. }));
    assert_eq!(sc.current(), country);
    assert!(reg.is_subscope_or_eq(country, country));
    assert!(!reg.is_subscope_or_eq(reg.id_of("state").unwrap(), country));
    assert_eq!(reg.id_of("nowhere"), None);
    assert!(scope_matches_required(ScopeId::Any, &reg, &vec!["country".to_string()]));
}

#[test]
fn effects_belong_to_scopes() {
    let rs = scoped();
    let run = |s: &str| {
        validate_ast(&parse(s), &rs, FILE, Some(Game::Hoi4), None, None, ScopeRegistry::new())
    };
    assert!(run("x = { tax = 3 }\n").is_empty(), "{:?}", run("x = { tax = 3 }\n"));
    assert_eq!(codes(&run("x = { build = 3 }\n")), ["CW105"]);
}

// ---------------------------------------------------------------------------
// Localisation

#[test]
fn localisation_keys_must_exist() {
    let rs = rules_of(
        "types = { type[thing] = { path = \"game/common/things\" } }\nthing = { name = localisation }\n",
    );
    let mut keys = NameSet::new();
    keys.insert("known_key".to_string());
    keys.insert("ärger".to_string());
    let loc = LocIndex {
        languages: vec![LocLanguage { name: "english".to_string(), keys }],
        commands: Vec::new(),
    };
    let run = |s: &str| {
        validate_ast_with_loc(
            &parse(s),
            &rs,
            FILE,
            None,
            None,
            None,
            Some(&loc),
            ScopeRegistry::new(),
        )
    };
    assert!(run("x = { name = known_key }\n").is_empty());
    assert!(run("x = { name = KNOWN_KEY }\n").is_empty());
    assert!(run("x = { name = ÄRGER }\n").is_empty());
    assert_eq!(codes(&run("x = { name = lost_key }\n")), ["CW100"]);
}

#[test]
fn modifier_names_are_filled_in() {
    let rs = rules_of(
        "modifiers = { plain = country\n<thing>_cost = country }\n\
         modifier_categories = { country = { supported_scopes = { any } } }\n",
    );
    let mut idx = TypeIndex::new();
    idx.add("thing", "Tank", SourcePos { line: 1, col: 0 });
    let keys = build_modifier_keys(&rs, &idx);
    assert!(keys.contains("plain"));
    assert!(keys.contains("tank_cost"));
    assert!(!keys.contains("plane_cost"));
}

// ---------------------------------------------------------------------------
// Positions

#[test]
fn the_rules_at_a_position_are_those_of_its_block() {
    let rs = rules_of(
        "types = { type[thing] = { path = \"game/common/things\" } }\n\
         thing = { a = { b = scalar } c = int }\n",
    );
    let prepared = Prepared {
        ruleset: &rs,
        game: None,
        type_index: None,
        modifier_keys: None,
        loc_index: None,
        extra_loc_keys: None,
        registry: None,
        scope_checks: true,
        var_checks: true,
    };
    let ast = parse("x = {\n    a = {\n        b = 1\n    }\n    c = 2\n}\n");
    let inner = rules_at_pos(&ast, FILE, &prepared, 3, 9).unwrap();
    assert_eq!(inner.child_rules.len(), 1);
    let outer = rules_at_pos(&ast, FILE, &prepared, 5, 5).unwrap();
    assert_eq!(outer.child_rules.len(), 2);
    assert!(rules_at_pos(&ast, FILE, &prepared, 40, 0).is_none());
}

// ---------------------------------------------------------------------------
// Games

#[test]
fn every_game_gets_the_hints_on_logic_keywords() {
    let rs = RuleSet::new();
    let run = |s: &str, game: Game| {
        codes(&run_game_validators(&parse(s), &rs, "events/a.txt", None, game))
    };
    let not = "x = { NOT = { a = 1 b = 2 } }\n";
    assert_eq!(run(not, Game::Hoi4), ["CW223"]);
    assert_eq!(run(not, Game::Eu4), ["CW223"]);
    let default = "x = { allowed_civil_war = { always = no } }\n";
    assert_eq!(run(default, Game::Hoi4), ["CW280"]);
    assert!(run(default, Game::Eu4).is_empty());
    assert_eq!(run("my_event = { }\n", Game::Stellaris), ["CW107"]);
    assert!(run("my_event = { }\n", Game::Eu4).is_empty());
}

#[test]
fn files_are_told_by_their_directories() {
    assert!(under_dir_segment("mod\\Events\\a.txt", "events"));
    assert!(!under_dir_segment("my_events/a.txt", "events"));
    assert!(!under_dir_segment("common/events", "events"));
    let ast = parse("Ship_Design = { }\n");
    let block = as_block(&ast.root_children[0]).unwrap();
    assert_eq!(block.key_string_lower(), "ship_design");
}

#[test]
fn a_unique_type_is_reported_at_its_second_place() {
    let rs = rules_of("types = { type[only] = { path = \"game/common/x\" unique = yes } }\n");
    let e = run_game_validators(
        &parse("only = { }\nother = { }\nonly = { }\nonly = { }\n"),
        &rs,
        "common/x/a.txt",
        None,
        Game::Eu4,
    );
    assert_eq!(codes(&e), ["CW261"]);
    assert_eq!((e[0].line, e[0].end), (3, Some((3, 4))));
    assert_eq!(e[0].message, "Key only of type only is defined multiple times");
}

// ---------------------------------------------------------------------------
// Diagnostics

#[test]
fn codes_fill_their_templates() {
    let c = cw203_cardinality_min();
    assert_eq!(
        c.format(&["a", "0", "1"]),
        "Field 'a' appears 0 time(s), expected at least 1"
    );
    assert_eq!(
        cw100_missing_localisation().format(&["k", "english"]),
        "Localisation key k is not defined for english"
    );
}

#[test]
fn the_hash_of_a_diagnostic_is_that_of_its_code() {
    let c = cw203_cardinality_min();
    let e = ValidationError::from_code(&c, FILE, 7, 2, &["a", "0", "1"]);
    assert_eq!(error_hash(&e), error_code_hash(&c, FILE, 7, &["a", "0", "1"]));
    assert_eq!(
        error_hash(&e),
        "error|common/things/a.txt|7|Field 'a' appears 0 time(s), expected at least 1"
    );
}

#[test]
fn columns_are_held_at_the_last_one() {
    let start = SourcePos { line: 3, col: 65_530 };
    assert_eq!(key_token_range(start, 3).end.col, 65_533);
    assert_eq!(key_token_range(start, 30).end.col, u16::MAX);
    assert_eq!(key_token_range(start, 30).end.line, 3);
}

#[test]
fn fields_are_described() {
    assert_eq!(field_to_description(&field_from_string("bool")), "Bool");
    assert_eq!(field_to_description(&field_from_string("scalar")), "any value");
    assert_eq!(field_to_description(&field_from_string("enum[e]")), "Enum(\"e\")");
    assert_eq!(
        field_to_description(&field_from_string("int[1..3]")),
        "Int { min: 1, max: 3 }"
    );
    assert_eq!(
        field_to_description(&field_from_string("float[-00.50..1]")),
        "Float { min: -0.5, max: 1.0 }"
    );
    assert_eq!(
        field_to_description(&field_from_string("float")),
        "Float { min: -1000000000000.0, max: 1000000000000.0 }"
    );
    let ranges = [
        ("float[1e3..2.50e1]", "Float { min: 1000.0, max: 25.0 }"),
        ("float[-12e-1..1e16]", "Float { min: -1.2, max: 1e16 }"),
        ("float[0.0001..9007199254740992]", "Float { min: 0.0001, max: 9007199254740992.0 }"),
        ("float[0.00001..1.5e300]", "Float { min: 1e-5, max: 1.5e300 }"),
        ("float[-1e400..1e-400]", "Float { min: -inf, max: 0.0 }"),
        ("float[-0..12345e-7]", "Float { min: -0.0, max: 0.0012345 }"),
    ];
    for (text, want) in ranges {
        assert_eq!(field_to_description(&field_from_string(text)), want);
    }
    assert_eq!(describe_field(&NewField::SpecificField("a\tb".to_string())), "SpecificField(\"a\\tb\")");
}

#[test]
fn enums_are_mapped_by_name() {
    let rs = rules_of("enums = { enum[a] = { x } enum[b] = { y z } }\n");
    let m = build_enum_map(&rs);
    assert_eq!(m.get("b").unwrap().def.values, ["y", "z"]);
    assert!(m.get("c").is_none());
}

// ---------------------------------------------------------------------------
// Arithmetic expressions

fn check_math(script: &str) -> Vec<ValidationError> {
    let rs = rules_of(
        "types = { type[thing] = { path = \"game/common/things\" } }\n\
         thing = {\n    ## cardinality = 0..inf\n    calc = math_expr\n\
         ## cardinality = 0..inf\n    calc = { any = scalar }\n\
         ## cardinality = 0..inf\n    alias_name[effect] = alias_match_left[effect]\n}\n\
         alias[effect:set_it] = math_expr\n\
         alias[effect:set_it] = { any = scalar }\n\
         alias[mathexpr:add] = math_expr\n\
         alias[mathexpr:subtract] = math_expr\n",
    );
    validate_ast(&parse(script), &rs, FILE, None, None, None, ScopeRegistry::new())
}

#[test]
fn operands_are_values_or_expressions() {
    assert!(check_math("x = { calc = 5 calc = some_variable }\n").is_empty());
    assert!(check_math("x = { calc = { value = 5 add = 3 } }\n").is_empty());
    assert!(check_math("x = { calc = { VALUE = a add = { value = 1 subtract = b } } }\n").is_empty());
    assert!(check_math("x = { set_it = { value = 5 # base\n add = 3 } }\n").is_empty());
}

#[test]
fn unknown_operators_are_reported() {
    let e = check_math("x = { calc = { value = 5 ad = 3 } }\n");
    assert_eq!(codes(&e), vec!["CW263"]);
    assert_eq!(messages(&e), vec!["Unexpected field 'ad'"]);
    let e = check_math("x = { calc = { value = 5 ad = { value = 3 } } }\n");
    assert_eq!(codes(&e), vec!["CW262"]);
    // A rule for blocks beside the expression changes nothing.
    assert_eq!(codes(&check_math("x = { calc = { any = 3 } }\n")), vec!["CW263"]);
    assert_eq!(codes(&check_math("x = { set_it = { any = 3 } }\n")), vec!["CW263"]);
}

#[test]
fn unknown_operators_are_reported_at_any_depth() {
    let e = check_math("x = { calc = { value = { value = 1 tpyo = 2 } } }\n");
    assert_eq!(messages(&e), vec!["Unexpected field 'tpyo'"]);
    let e = check_math("x = { calc = { add = { value = 1 subtract = { tpyo = 2 } } } }\n");
    assert_eq!(messages(&e), vec!["Unexpected field 'tpyo'"]);
    let e = check_math("x = { set_it = { add = { tpyo = { } } } }\n");
    assert_eq!(messages(&e), vec!["Unexpected block 'tpyo'"]);
    assert_eq!(check_math("x = { calc = { value = 1 bare } }\n").len(), 1);
    assert_eq!(check_math("x = { calc = { value = 1 { value = 2 } } }\n").len(), 1);
}
