//! Events, technologies, ship designs and conditions of Stellaris.

use cwtools::ast::{
    Child, Comment, Leaf, LeafValue, Operator, ParsedFile, SourcePos, SourceRange, Value,
};
use cwtools::game_common::{as_block, child_key_eq};
use cwtools::game_stellaris::validate_stellaris;
use cwtools::ruleset::RuleSet;
use cwtools::type_index::TypeIndex;

/// A small reader of script, enough for the inputs below. The range of a child
/// reaches to the next one.
struct Reader {
    chars: Vec<char>,
    at: usize,
    line: u32,
    col: u16,
}

impl Reader {
    fn pos(&self) -> SourcePos {
        SourcePos { line: self.line, col: self.col }
    }

    fn peek(&self) -> Option<char> {
        self.chars.get(self.at).copied()
    }

    fn next_is(&self, c: char) -> bool {
        self.chars.get(self.at + 1) == Some(&c)
    }

    fn bump(&mut self) -> char {
        let c = self.chars[self.at];
        if c == '\n' {
            self.line += 1;
            self.col = 0;
        } else {
            self.col += 1;
        }
        self.at += 1;
        c
    }

    fn skip_white(&mut self) {
        while self.peek().is_some_and(|c| c.is_whitespace()) {
            self.bump();
        }
    }

    fn token(&mut self) -> String {
        let mut out = String::new();
        if self.peek() == Some('"') {
            out.push(self.bump());
            while let Some(c) = self.peek() {
                out.push(self.bump());
                if c == '"' {
                    break;
                }
            }
            return out;
        }
        while let Some(c) = self.peek() {
            let ends = c.is_whitespace()
                || matches!(c, '{' | '}' | '=' | '#' | '"')
                || (matches!(c, '!' | '?') && self.next_is('='));
            if ends {
                break;
            }
            out.push(self.bump());
        }
        out
    }

    fn operator(&mut self) -> Option<Operator> {
        let c = self.peek()?;
        let op = match c {
            '=' if self.next_is('=') => Operator::EqualEqual,
            '=' => Operator::Equals,
            '!' if self.next_is('=') => Operator::NotEqual,
            '?' if self.next_is('=') => Operator::QuestionEqual,
            '<' if self.next_is('=') => Operator::LessThanOrEqual,
            '<' if self.next_is('>') => Operator::NotEqual,
            '<' if self.next_is(' ') => Operator::LessThan,
            '>' if self.next_is('=') => Operator::GreaterThanOrEqual,
            '>' if self.next_is(' ') => Operator::GreaterThan,
            _ => return None,
        };
        self.bump();
        if !matches!(op, Operator::Equals | Operator::LessThan | Operator::GreaterThan) {
            self.bump();
        }
        Some(op)
    }

    fn value(&mut self) -> Value {
        if self.peek() == Some('{') {
            self.bump();
            let inner = self.children();
            if self.peek() == Some('}') {
                self.bump();
            }
            return Value::Clause(inner);
        }
        let t = self.token();
        if t.starts_with('"') {
            Value::QString(t)
        } else if t == "yes" {
            Value::Bool(true)
        } else if t == "no" {
            Value::Bool(false)
        } else if let Ok(n) = t.parse::<i64>() {
            Value::Int(n)
        } else if t.contains('.') && t.parse::<f64>().is_ok() {
            Value::Float(t)
        } else {
            Value::String(t)
        }
    }

    fn children(&mut self) -> Vec<Child> {
        let mut out = Vec::new();
        loop {
            self.skip_white();
            let start = self.pos();
            match self.peek() {
                None | Some('}') => return out,
                Some('#') => {
                    let mut text = String::new();
                    while self.peek().is_some_and(|c| c != '\n') {
                        text.push(self.bump());
                    }
                    let end = self.pos();
                    out.push(Child::Comment(Comment { text, pos: SourceRange { start, end } }));
                }
                Some('{') => {
                    let value = self.value();
                    self.skip_white();
                    let end = self.pos();
                    out.push(Child::LeafValue(LeafValue { value, pos: SourceRange { start, end } }));
                }
                Some(_) => {
                    let (at, line, col) = (self.at, self.line, self.col);
                    let key = self.token();
                    self.skip_white();
                    if let Some(op) = self.operator() {
                        self.skip_white();
                        let value_start = self.pos();
                        let value = self.value();
                        let value_end = self.pos();
                        self.skip_white();
                        let end = self.pos();
                        out.push(Child::Leaf(Leaf {
                            key,
                            value,
                            op,
                            pos: SourceRange { start, end },
                            value_pos: SourceRange { start: value_start, end: value_end },
                        }));
                    } else {
                        self.at = at;
                        self.line = line;
                        self.col = col;
                        let value = self.value();
                        self.skip_white();
                        let end = self.pos();
                        out.push(Child::LeafValue(LeafValue {
                            value,
                            pos: SourceRange { start, end },
                        }));
                    }
                }
            }
        }
    }
}

fn parse(text: &str) -> ParsedFile {
    let mut r = Reader { chars: text.chars().collect(), at: 0, line: 1, col: 0 };
    ParsedFile { root_children: r.children() }
}

fn codes(script: &str) -> Vec<(String, u32, u16)> {
    codes_with(script, &RuleSet::new())
}

/// Build a RuleSet whose pretrigger set contains every name in `pretriggers`.
/// Mirrors what `reindex()` produces for the cwtools-stellaris-config's
/// `alias[<scope>_pre_trigger:<name>] = bool` declarations.
fn ruleset_with_pretriggers(pretriggers: &[&str]) -> RuleSet {
    let mut rs = RuleSet::new();
    for name in pretriggers {
        rs.pretriggers.insert((*name).to_string());
    }
    rs
}

fn codes_with(script: &str, ruleset: &RuleSet) -> Vec<(String, u32, u16)> {
    let ast = parse(script);
    let mut errors = Vec::new();
    validate_stellaris(&ast, ruleset, "test.txt", None, &mut errors);
    errors
        .into_iter()
        .filter_map(|e| e.code.map(|c| (c.to_string(), e.line, e.col)))
        .collect()
}

fn has_code(codes: &[(String, u32, u16)], code: &str) -> bool {
    codes.iter().any(|(c, _, _)| c == code)
}

#[test]
fn child_key_eq_is_case_insensitive() {
    let ast = parse("root = {\n IF = {}\n Trigger = {}\n}\n");
    let block = as_block(&ast.root_children[0]).expect("root is a block");
    assert!(
        block
            .children
            .iter()
            .any(|c| child_key_eq(c, "if")),
        "`IF` should match expected `if`"
    );
    assert!(
        block
            .children
            .iter()
            .any(|c| child_key_eq(c, "trigger")),
        "`Trigger` should match expected `trigger`"
    );
}

// Event validation (CW107)

#[test]
fn event_without_mtth_or_trigger_is_cw107() {
    let c = codes("my_event = { }\n");
    assert!(
        has_code(&c, "CW107"),
        "event with no MTTH/trigger/once should emit CW107, got: {:?}",
        c
    );
}

#[test]
fn event_with_mtth_is_clean() {
    let c = codes("my_event = { mean_time_to_happen = { years = 5 } }\n");
    assert!(!has_code(&c, "CW107"), "got: {:?}", c);
}

#[test]
fn event_is_triggered_only_is_clean() {
    let c = codes("my_event = { is_triggered_only = yes }\n");
    assert!(!has_code(&c, "CW107"), "got: {:?}", c);
}

#[test]
fn event_fire_only_once_is_clean() {
    let c = codes("my_event = { fire_only_once = yes }\n");
    assert!(!has_code(&c, "CW107"), "got: {:?}", c);
}

#[test]
fn event_trigger_always_no_is_clean() {
    let c = codes("my_event = { trigger = { always = no } }\n");
    assert!(!has_code(&c, "CW107"), "got: {:?}", c);
}

#[test]
fn event_trigger_always_yes_still_cw107() {
    // `trigger = { always = yes }` does NOT suppress CW107; only always=no does.
    let c = codes("my_event = { trigger = { always = yes } }\n");
    assert!(has_code(&c, "CW107"), "got: {:?}", c);
}

#[test]
fn non_event_root_is_not_cw107() {
    // The CW107 check is scoped to *_event / event keys only.
    let c = codes("foo = { }\n");
    assert!(!has_code(&c, "CW107"), "got: {:?}", c);
}

// Pre-trigger placement (CW301)

#[test]
fn pre_trigger_inside_trigger_is_cw301() {
    let rs = ruleset_with_pretriggers(&["is_ai"]);
    let c = codes_with(
        "my_event = {\n\
         mean_time_to_happen = { years = 5 }\n\
         trigger = { is_ai = yes }\n\
         }\n",
        &rs,
    );
    assert!(
        has_code(&c, "CW301"),
        "pre-trigger inside trigger block should emit CW301, got: {:?}",
        c
    );
}

#[test]
fn pre_trigger_at_root_is_clean() {
    // `is_ai` at the event root is the preferred (pre-trigger) location.
    let rs = ruleset_with_pretriggers(&["is_ai"]);
    let c = codes_with(
        "my_event = {\n\
         mean_time_to_happen = { years = 5 }\n\
         is_ai = yes\n\
         }\n",
        &rs,
    );
    assert!(!has_code(&c, "CW301"), "got: {:?}", c);
}

/// The configuration says what a pretrigger is.
#[test]
fn pre_trigger_set_drives_cw301_from_config() {
    let rs = ruleset_with_pretriggers(&["is_being_purged", "is_enslaved"]);
    let c = codes_with(
        "my_event = {\n\
         mean_time_to_happen = { years = 5 }\n\
         trigger = { is_being_purged = yes }\n\
         }\n",
        &rs,
    );
    assert!(
        has_code(&c, "CW301"),
        "config-driven pretrigger `is_being_purged` inside trigger should emit CW301, got: {:?}",
        c
    );
}

/// Where the configuration declares no pretrigger, nothing is one.
#[test]
fn empty_pretrigger_set_emits_no_cw301() {
    let c = codes(
        "my_event = {\n\
         mean_time_to_happen = { years = 5 }\n\
         trigger = { is_ai = yes }\n\
         }\n",
    );
    assert!(
        !has_code(&c, "CW301"),
        "without pretriggers in the ruleset, no CW301 should fire, got: {:?}",
        c
    );
}

// Deprecated set_name (CW253)

#[test]
fn set_empire_name_is_cw253() {
    let c = codes("foo = { set_empire_name = { key = \"X\" } }\n");
    assert!(has_code(&c, "CW253"), "got: {:?}", c);
}

#[test]
fn set_planet_name_is_cw253() {
    let c = codes("foo = { set_planet_name = { key = \"Y\" } }\n");
    assert!(has_code(&c, "CW253"), "got: {:?}", c);
}

// If/else structural hints (CW236/CW237/CW238)

#[test]
fn deprecated_nested_else_is_cw236() {
    // Old Stellaris style: if = { else = { ... } } without an inner if.
    let c = codes("foo = { if = { limit = { } else = { a = 1 } } }\n");
    assert!(has_code(&c, "CW236"), "got: {:?}", c);
}

#[test]
fn ambiguous_if_with_else_and_inner_if_is_cw237() {
    // `if = { if ... else }` is ambiguous nesting.
    let c = codes("foo = { if = { limit = { } if = { a = 1 } else = { b = 2 } } }\n");
    assert!(has_code(&c, "CW237"), "got: {:?}", c);
}

#[test]
fn else_without_preceding_if_is_cw238() {
    let c = codes("foo = { else = { a = 1 } }\n");
    assert!(has_code(&c, "CW238"), "got: {:?}", c);
}

#[test]
fn properly_ordered_if_else_if_is_clean() {
    let c = codes("foo = { if = { limit = { } a = 1 } else_if = { limit = { } b = 2 } }\n");
    assert!(!has_code(&c, "CW238"), "got: {:?}", c);
}

#[test]
fn nested_limit_and_modifier_do_not_false_positive() {
    // `limit` and `modifier` blocks are excluded from the if/else order walk.
    let c = codes("foo = { limit = { } modifier = { } }\n");
    assert!(!has_code(&c, "CW236") && !has_code(&c, "CW237") && !has_code(&c, "CW238"));
}

// Technology (CW110)

#[test]
fn technology_without_category_is_cw110() {
    let c = codes("tech_my_thing = { cost = 100 }\n");
    assert!(
        has_code(&c, "CW110"),
        "tech without category should emit CW110, got: {:?}",
        c
    );
}

#[test]
fn technology_with_category_is_clean() {
    let c = codes("tech_my_thing = { cost = 100 category = physics }\n");
    assert!(!has_code(&c, "CW110"), "got: {:?}", c);
}

#[test]
fn technology_category_is_case_insensitive() {
    let c = codes("tech_my_thing = { cost = 100 Category = physics }\n");
    assert!(!has_code(&c, "CW110"), "got: {:?}", c);
}

// Research Leader (CW108)

#[test]
fn research_leader_without_area_is_cw108() {
    let c = codes("research_leader = { name = \"Dr. Smith\" }\n");
    assert!(
        has_code(&c, "CW108"),
        "research_leader without area should emit CW108, got: {:?}",
        c
    );
}

#[test]
fn research_leader_with_area_is_clean() {
    let c = codes("research_leader = { name = \"Dr. Smith\" area = physics }\n");
    assert!(!has_code(&c, "CW108"), "got: {:?}", c);
}

// Planet Killer (CW250)

#[test]
fn planet_killer_without_required_fields_is_cw250() {
    // Empty planet_killer — missing both `type` and a damage key.
    let c = codes("planet_killer = { }\n");
    assert!(
        has_code(&c, "CW250"),
        "empty planet_killer should emit CW250, got: {:?}",
        c
    );
}

#[test]
fn planet_killer_with_type_only_is_cw250() {
    // Has `type` but no damage key — still incomplete.
    let c = codes("planet_killer = { type = something }\n");
    assert!(
        has_code(&c, "CW250"),
        "planet_killer with only type should emit CW250, got: {:?}",
        c
    );
}

#[test]
fn planet_killer_with_damage_only_is_cw250() {
    // Has damage but no `type` — still incomplete.
    let c = codes("planet_killer = { planet_damage = 100 }\n");
    assert!(
        has_code(&c, "CW250"),
        "planet_killer with only damage should emit CW250, got: {:?}",
        c
    );
}

#[test]
fn planet_killer_with_type_and_damage_is_clean() {
    let c = codes("planet_killer = { type = something planet_damage = 100 }\n");
    assert!(!has_code(&c, "CW250"), "got: {:?}", c);
}

// Global Pretrigger (CW120)

#[test]
fn global_pretrigger_in_trigger_block_is_cw120() {
    let rs = ruleset_with_pretriggers(&["is_ai"]);
    let c = codes_with("some_effect = { trigger = { is_ai = yes } }\n", &rs);
    assert!(
        has_code(&c, "CW120"),
        "pretrigger inside any trigger block should emit CW120, got: {:?}",
        c
    );
}

#[test]
fn global_pretrigger_without_ruleset_emits_no_cw120() {
    // Empty ruleset — no pretriggers known.
    let c = codes("some_effect = { trigger = { is_ai = yes } }\n");
    assert!(
        !has_code(&c, "CW120"),
        "without pretriggers in the ruleset, no CW120 should fire, got: {:?}",
        c
    );
}

#[test]
fn global_pretrigger_nested_in_limit_does_not_fire() {
    // Only direct children of a `trigger = { ... }` block count, not those of
    // a `limit = { ... }` or `modifier = { ... }` inside it. CW301 follows the
    // same rule.
    let rs = ruleset_with_pretriggers(&["is_ai"]);
    let c = codes_with(
        "some_effect = { trigger = { limit = { is_ai = yes } } }\n",
        &rs,
    );
    assert!(
        !has_code(&c, "CW120"),
        "pretrigger nested inside trigger.limit should NOT fire CW120, got: {:?}",
        c
    );
}

// Ship Design (CW227 / CW229)

fn codes_with_type_index(
    script: &str,
    ruleset: &RuleSet,
    type_index: &TypeIndex,
) -> Vec<(String, u32, u16)> {
    let ast = parse(script);
    let mut errors = Vec::new();
    validate_stellaris(
        &ast,
        ruleset,
        "test.txt",
        Some(type_index),
        &mut errors,
    );
    errors
        .into_iter()
        .filter_map(|e| e.code.map(|c| (c.to_string(), e.line, e.col)))
        .collect()
}

/// TypeIndex::new() is empty; adding a name populates `contains` for it.
#[test]
fn ship_design_section_template_not_found_is_cw227() {
    let index = TypeIndex::new();
    // No section_template names registered — every reference is unknown.
    let c = codes_with_type_index(
        "ship_design = { section = { template = \"SSM_unknown_01\" slot = \"A\" } }\n",
        &RuleSet::new(),
        &index,
    );
    assert!(
        has_code(&c, "CW227"),
        "unknown section template should emit CW227, got: {:?}",
        c
    );
}

#[test]
fn ship_design_known_section_template_is_clean() {
    let index = TypeIndex::new();
    let c = codes_with_type_index(
        "\
            section_template = { key = \"SSM_known_01\" }\n\
            ship_design = { section = { template = \"SSM_known_01\" slot = \"A\" } }\n\
        ",
        &RuleSet::new(),
        &index,
    );
    // Templates are looked up in the index alone, not in the file.
    assert!(
        has_code(&c, "CW227"),
        "with no TypeIndex data, unknown template path should fire CW227, got: {:?}",
        c
    );
}

#[test]
fn ship_design_component_template_not_found_is_cw229() {
    let index = TypeIndex::new();
    let c = codes_with_type_index(
        "ship_design = { component = { template = \"WEAPON_unknown\" slot = \"X\" } }\n",
        &RuleSet::new(),
        &index,
    );
    assert!(
        has_code(&c, "CW229"),
        "unknown component template should emit CW229, got: {:?}",
        c
    );
}

#[test]
fn ship_design_walker_skips_non_ship_design_root() {
    // A `foo = { ... }` block at root is not a ship_design, so its inner
    // section/component entries are not validated.
    let index = TypeIndex::new();
    let c = codes_with_type_index(
        "foo = { section = { template = \"X\" slot = \"A\" } }\n",
        &RuleSet::new(),
        &index,
    );
    assert!(
        !has_code(&c, "CW227") && !has_code(&c, "CW229"),
        "non-ship-design blocks shouldn't fire ship-design validators, got: {:?}",
        c
    );
}

#[test]
fn ship_design_no_type_index_skips_silently() {
    // Passing None for type_index — the validator must not crash and must
    // not emit CW227/CW229 (it has nothing to look up against).
    let c = codes("ship_design = { section = { template = \"X\" slot = \"A\" } }\n");
    assert!(
        !has_code(&c, "CW227") && !has_code(&c, "CW229"),
        "without a type index, ship-design validators should stay quiet, got: {:?}",
        c
    );
}
