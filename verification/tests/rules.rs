//! Configurations: reading them, putting them together, and what is wrong with them.

use cwtools::ast::{
    Child, Comment, Leaf, LeafValue, Operator, ParsedFile, SourcePos, SourceRange, Value,
};
use cwtools::comment_directives::{extract_description_from_comments, options_from_comments};
use cwtools::config_validation::{validate_ruleset_references, ConfigFile, RuleParseError};
use cwtools::field_parser::field_from_string;
use cwtools::number::{has_fraction, is_zero, le, read};
use cwtools::post_process::post_process;
use cwtools::rules_converter::ast_to_ruleset;
use cwtools::rules_types::{
    LinkInput, Marker, MatchKind, NewField, NewRule, Options, ParsedAliasPattern, PatternKind, RootRule,
    RuleType, Severity, SkipRootKey, TypeType, ValueType,
};
use cwtools::ruleset::RuleSet;
use cwtools::ruleset_loader::{load_ruleset, merge_ruleset, parse_folders_list, LoadedFile};

/// A small reader of script, enough for the inputs below. The range of a child
/// reaches to the next one.
struct Reader {
    chars: Vec<char>,
    at: usize,
    line: u32,
    col: u16,
}

impl Reader {
    fn pos(&self) -> SourcePos {
        SourcePos { line: self.line, col: self.col }
    }

    fn peek(&self) -> Option<char> {
        self.chars.get(self.at).copied()
    }

    fn next_is(&self, c: char) -> bool {
        self.chars.get(self.at + 1) == Some(&c)
    }

    fn bump(&mut self) -> char {
        let c = self.chars[self.at];
        if c == '\n' {
            self.line += 1;
            self.col = 0;
        } else {
            self.col += 1;
        }
        self.at += 1;
        c
    }

    fn skip_white(&mut self) {
        while self.peek().is_some_and(|c| c.is_whitespace()) {
            self.bump();
        }
    }

    fn token(&mut self) -> String {
        let mut out = String::new();
        if self.peek() == Some('"') {
            out.push(self.bump());
            while let Some(c) = self.peek() {
                out.push(self.bump());
                if c == '"' {
                    break;
                }
            }
            return out;
        }
        while let Some(c) = self.peek() {
            let ends = c.is_whitespace()
                || matches!(c, '{' | '}' | '=' | '#' | '"')
                || (matches!(c, '!' | '?') && self.next_is('='));
            if ends {
                break;
            }
            out.push(self.bump());
        }
        out
    }

    fn operator(&mut self) -> Option<Operator> {
        let c = self.peek()?;
        let op = match c {
            '=' if self.next_is('=') => Operator::EqualEqual,
            '=' => Operator::Equals,
            '!' if self.next_is('=') => Operator::NotEqual,
            '?' if self.next_is('=') => Operator::QuestionEqual,
            '<' if self.next_is('=') => Operator::LessThanOrEqual,
            '<' if self.next_is('>') => Operator::NotEqual,
            '<' if self.next_is(' ') => Operator::LessThan,
            '>' if self.next_is('=') => Operator::GreaterThanOrEqual,
            '>' if self.next_is(' ') => Operator::GreaterThan,
            _ => return None,
        };
        self.bump();
        if !matches!(op, Operator::Equals | Operator::LessThan | Operator::GreaterThan) {
            self.bump();
        }
        Some(op)
    }

    fn value(&mut self) -> Value {
        if self.peek() == Some('{') {
            self.bump();
            let inner = self.children();
            if self.peek() == Some('}') {
                self.bump();
            }
            return Value::Clause(inner);
        }
        let t = self.token();
        if t.starts_with('"') {
            Value::QString(t)
        } else if t == "yes" {
            Value::Bool(true)
        } else if t == "no" {
            Value::Bool(false)
        } else if let Ok(n) = t.parse::<i64>() {
            Value::Int(n)
        } else if t.contains('.') && t.parse::<f64>().is_ok() {
            Value::Float(t)
        } else {
            Value::String(t)
        }
    }

    fn children(&mut self) -> Vec<Child> {
        let mut out = Vec::new();
        loop {
            self.skip_white();
            let start = self.pos();
            match self.peek() {
                None | Some('}') => return out,
                Some('#') => {
                    let mut text = String::new();
                    while self.peek().is_some_and(|c| c != '\n') {
                        text.push(self.bump());
                    }
                    let end = self.pos();
                    out.push(Child::Comment(Comment { text, pos: SourceRange { start, end } }));
                }
                Some('{') => {
                    let value = self.value();
                    self.skip_white();
                    let end = self.pos();
                    out.push(Child::LeafValue(LeafValue { value, pos: SourceRange { start, end } }));
                }
                Some(_) => {
                    let (at, line, col) = (self.at, self.line, self.col);
                    let key = self.token();
                    self.skip_white();
                    if let Some(op) = self.operator() {
                        self.skip_white();
                        let value_start = self.pos();
                        let value = self.value();
                        let value_end = self.pos();
                        self.skip_white();
                        let end = self.pos();
                        out.push(Child::Leaf(Leaf {
                            key,
                            value,
                            op,
                            pos: SourceRange { start, end },
                            value_pos: SourceRange { start: value_start, end: value_end },
                        }));
                    } else {
                        self.at = at;
                        self.line = line;
                        self.col = col;
                        let value = self.value();
                        self.skip_white();
                        let end = self.pos();
                        out.push(Child::LeafValue(LeafValue {
                            value,
                            pos: SourceRange { start, end },
                        }));
                    }
                }
            }
        }
    }
}

fn parse(text: &str) -> ParsedFile {
    let mut r = Reader { chars: text.chars().collect(), at: 0, line: 1, col: 0 };
    ParsedFile { root_children: r.children() }
}

fn rules_of(text: &str) -> RuleSet {
    ast_to_ruleset(&parse(text))
}

fn config(path: &str, text: &str) -> LoadedFile {
    LoadedFile::Rules { path: path.to_string(), size: text.len() as u64, ast: parse(text) }
}

// ---------------------------------------------------------------------------
// References

fn check(src: &str) -> Vec<RuleParseError> {
    let ruleset = rules_of(src);
    let files = vec![ConfigFile { path: "test.cwt".to_string(), ast: parse(src) }];
    validate_ruleset_references(&files, &ruleset)
}

#[test]
fn flags_undefined_type_reference_but_not_defined_one() {
    let src = "types = {\n    type[foo] = { path = \"common/foo\" }\n}\n\
               some_rule = {\n    a = <foo>\n    b = <undefined_type>\n}\n";
    let errors = check(src);
    assert!(
        errors.iter().any(|e| e.message.contains("undefined_type")),
        "should flag undefined type, got: {:?}",
        errors
    );
    assert!(
        !errors.iter().any(|e| e.message.contains("`foo`")),
        "must NOT flag the defined type `foo`, got: {:?}",
        errors
    );
}

#[test]
fn defined_type_reference_is_clean() {
    let src = "types = {\n    type[foo] = { path = \"common/foo\" }\n}\n\
               r = { a = <foo> }\n";
    assert!(check(src).is_empty(), "got: {:?}", check(src));
}

#[test]
fn type_subtype_reference_resolves_to_base_type() {
    let src = "types = {\n    type[decision] = { path = \"common/decisions\" }\n}\n\
               r = { a = <decision.timed> }\n";
    assert!(check(src).is_empty(), "got: {:?}", check(src));
}

#[test]
fn undefined_enum_and_single_alias_are_reported_where_they_stand() {
    let errors = check("r = {\n    a = enum[gone]\n    b = single_alias_right[lost]\n}\n");
    let got: Vec<(String, u32, u16)> =
        errors.iter().map(|e| (e.message.clone(), e.line, e.col)).collect();
    assert_eq!(
        got,
        vec![
            ("rule references undefined enum `gone`".to_string(), 2, 4),
            ("rule references undefined single_alias `lost`".to_string(), 3, 4),
        ]
    );
    assert_eq!(
        errors[0].to_text(),
        "test.cwt:2:4: rule references undefined enum `gone`"
    );
}

#[test]
fn definitions_do_not_refer_to_themselves() {
    assert!(check("types = { type[thing] = { path = \"common/x\" } }\n").is_empty());
    assert!(check("single_alias[clause] = { a = scalar }\n").is_empty());
}

// ---------------------------------------------------------------------------
// Expanding

fn parse_and_post(input: &str) -> RuleSet {
    let mut ruleset = rules_of(input);
    post_process(&mut ruleset);
    ruleset
}

fn body_at<'a>(rule: &'a NewRule, path: &[&str]) -> &'a Vec<NewRule> {
    let mut rules: &Vec<NewRule> = match &rule.0 {
        RuleType::NodeRule { rules, .. } => rules,
        other => panic!("expected a NodeRule, got {other:?}"),
    };
    for key in path {
        let next = rules
            .iter()
            .find(|(rt, _)| {
                matches!(rt, RuleType::NodeRule { left: NewField::SpecificField(s), .. } if s == key)
            })
            .unwrap_or_else(|| panic!("no `{key}` block in {rules:?}"));
        rules = match &next.0 {
            RuleType::NodeRule { rules, .. } => rules,
            _ => unreachable!(),
        };
    }
    rules
}

fn rule_named<'a>(rules: &'a [NewRule], key: &str) -> &'a NewRule {
    rules
        .iter()
        .find(|(rt, _)| match rt {
            RuleType::LeafRule { left: NewField::SpecificField(s), .. }
            | RuleType::NodeRule { left: NewField::SpecificField(s), .. } => s == key,
            _ => false,
        })
        .unwrap_or_else(|| panic!("no `{key}` rule in {rules:?}"))
}

fn alias<'a>(rs: &'a RuleSet, name: &str) -> &'a NewRule {
    &rs.aliases.iter().find(|(n, _)| n == name).unwrap().1
}

#[test]
fn a_marker_nested_below_the_top_level_still_expands() {
    let input = r#"
single_alias[deep_sa] = {
    ## cardinality = 0..1
    from_alias = scalar
}

alias[effect:nested] = {
    outer = {
        inner = {
            colour = colour_field
            amount = value_field
            skipped = ignore_field
            aliased = single_alias_right[deep_sa]
        }
    }
}
"#;
    let rs = parse_and_post(input);
    let rule = alias(&rs, "effect:nested");
    let inner = body_at(rule, &["outer", "inner"]);

    match &rule_named(inner, "amount").0 {
        RuleType::LeafRule { right, .. } => assert!(
            matches!(right, NewField::ValueScopeField { .. }),
            "value_field not rewritten: {right:?}"
        ),
        other => panic!("expected a LeafRule for `amount`, got {other:?}"),
    }

    let aliased = body_at(rule_named(inner, "aliased"), &[]);
    assert!(
        aliased.iter().any(|(rt, _)| matches!(
            rt,
            RuleType::LeafRule { left: NewField::SpecificField(s), .. } if s == "from_alias"
        )),
        "single_alias not inlined: {aliased:?}"
    );

    let colour = body_at(rule_named(inner, "colour"), &[]);
    assert_eq!(colour.len(), 1, "colour body: {colour:?}");
    assert!(
        matches!(
            &colour[0].0,
            RuleType::LeafValueRule { right: NewField::ValueField(ValueType::Float { .. }) }
        ) && colour[0].1.min == 3,
        "colour_field not expanded: {colour:?}"
    );

    assert!(
        inner
            .iter()
            .any(|(rt, _)| matches!(rt, RuleType::NodeRule { left: NewField::IgnoreField(_), .. })),
        "ignore_field not expanded: {inner:?}"
    );
}

#[test]
fn test_single_alias_inline_leaf() {
    let input = r#"
single_alias[my_sa] = scalar

alias[effect:test] = {
    ## cardinality = 0..inf
    my_field = single_alias_right[my_sa]
}
"#;
    let rs = parse_and_post(input);
    if let RuleType::NodeRule { rules, .. } = &alias(&rs, "effect:test").0 {
        match &rules[0].0 {
            RuleType::LeafRule { right, .. } => assert!(
                matches!(right, NewField::ScalarField),
                "expected ScalarField after single_alias inline, got {:?}",
                right
            ),
            other => panic!("expected LeafRule, got {:?}", other),
        }
    } else {
        panic!("expected NodeRule");
    }
}

#[test]
fn test_single_alias_inline_node() {
    let input = r#"
single_alias[my_node_sa] = {
    ## cardinality = 0..1
    inner_key = scalar
}

alias[effect:node_test] = {
    ## cardinality = 0..inf
    block_ref = single_alias_right[my_node_sa]
}
"#;
    let rs = parse_and_post(input);
    if let RuleType::NodeRule { rules, .. } = &alias(&rs, "effect:node_test").0 {
        match &rules[0].0 {
            RuleType::NodeRule { rules: inner_rules, .. } => {
                assert!(!inner_rules.is_empty(), "inlined node alias should have inner rules");
            }
            other => panic!("expected NodeRule after node-alias inline, got {:?}", other),
        }
    } else {
        panic!("expected outer NodeRule");
    }
}

#[test]
fn test_single_alias_inline_whole_body() {
    let input = r#"
single_alias[every_clause] = {
    ## cardinality = 0..1
    limit = scalar
}

alias[effect:every_country] = single_alias_right[every_clause]
"#;
    let rs = parse_and_post(input);
    match &alias(&rs, "effect:every_country").0 {
        RuleType::NodeRule { rules, .. } => assert!(
            rules.iter().any(|(rt, _)| matches!(
                rt,
                RuleType::LeafRule { left: NewField::SpecificField(s), .. } if s == "limit"
            )),
            "expected 'limit' rule from inlined every_clause, got {:?}",
            rules
        ),
        other => panic!(
            "expected NodeRule after whole-body single_alias inline, got {:?}",
            other
        ),
    }
}

#[test]
fn test_colour_field_expands_to_node_rule() {
    let input = r#"
alias[effect:colour_test] = {
    ## cardinality = 0..1
    colour = colour_field
}
"#;
    let rs = parse_and_post(input);
    if let RuleType::NodeRule { rules, .. } = &alias(&rs, "effect:colour_test").0 {
        match &rules[0].0 {
            RuleType::NodeRule { rules: colour_inner, .. } => {
                assert_eq!(colour_inner.len(), 1, "colour NodeRule should have 1 LeafValue child");
                let (lv, lv_opts) = &colour_inner[0];
                match lv {
                    RuleType::LeafValueRule {
                        right: NewField::ValueField(ValueType::Float { min, max }),
                    } => {
                        assert_eq!(min.parse::<f64>(), Ok(-256.0), "colour float min");
                        assert_eq!(max.parse::<f64>(), Ok(256.0), "colour float max");
                    }
                    other => panic!("colour child should be Float(-256..256), got {:?}", other),
                }
                assert_eq!(lv_opts.min, 3);
                assert_eq!(lv_opts.max, 3);
            }
            other => panic!("expected NodeRule from colour_field expansion, got {:?}", other),
        }
    } else {
        panic!("expected outer NodeRule");
    }
}

#[test]
fn test_value_scope_marker_rewrite() {
    let input = r#"
alias[trigger:val_test] = {
    ## cardinality = 0..inf
    amount = value_field
}
"#;
    let rs = parse_and_post(input);
    if let RuleType::NodeRule { rules, .. } = &alias(&rs, "trigger:val_test").0 {
        match &rules[0].0 {
            RuleType::LeafRule { right, .. } => assert!(
                matches!(right, NewField::ValueScopeField { is_int: false, .. }),
                "expected ValueScopeField, got {:?}",
                right
            ),
            other => panic!("expected LeafRule, got {:?}", other),
        }
    } else {
        panic!("expected outer NodeRule");
    }
}

#[test]
fn test_ignore_marker_expands() {
    let input = r#"
alias[effect:ignore_test] = {
    ## cardinality = 0..inf
    some_key = ignore_field
}
"#;
    let rs = parse_and_post(input);
    if let RuleType::NodeRule { rules, .. } = &alias(&rs, "effect:ignore_test").0 {
        match &rules[0].0 {
            RuleType::NodeRule { left: NewField::IgnoreField(boxed), rules: inner_rules } => {
                assert!(
                    matches!(boxed.as_ref(), NewField::SpecificField(_)),
                    "IgnoreField should wrap the original key field"
                );
                assert!(
                    inner_rules.is_empty(),
                    "IgnoreField NodeRule should have no children"
                );
            }
            other => panic!("expected NodeRule(IgnoreField(..), []), got {:?}", other),
        }
    } else {
        panic!("expected outer NodeRule");
    }
}

#[test]
fn expanding_keeps_the_names_of_aliases() {
    let input = "single_alias[a] = scalar\nalias[effect:x] = { c = colour_field }\n\
                 alias[trigger:y] = bool\n";
    let before = rules_of(input);
    let after = parse_and_post(input);
    let names = |rs: &RuleSet| rs.aliases.iter().map(|(n, _)| n.clone()).collect::<Vec<_>>();
    assert_eq!(names(&before), names(&after));
    assert_eq!(names(&after), vec!["effect:x", "trigger:y"]);
    assert_eq!(after.single_aliases.len(), 1);
}

#[test]
fn single_aliases_that_refer_to_each_other_are_refused() {
    let mut rs = rules_of(
        "single_alias[loop_a] = { x = single_alias_right[loop_b] }\n\
         single_alias[loop_b] = { y = single_alias_right[loop_a] }\n",
    );
    let refused = post_process(&mut rs);
    assert!(!refused.is_empty());
}

// ---------------------------------------------------------------------------
// Comments

#[test]
fn only_triple_hash_is_documentation() {
    let comments = vec![
        "### Numeric index of an ai_area (see common/ai_areas), not a name.".to_string(),
        "## cardinality = 0..1".to_string(),
        "## scope = country".to_string(),
    ];
    let desc = extract_description_from_comments(&comments).unwrap();
    assert_eq!(
        desc,
        "Numeric index of an ai_area (see common/ai_areas), not a name."
    );
    assert!(!desc.contains("cardinality"));
    assert!(!desc.contains("scope"));
}

#[test]
fn multiple_doc_lines_join() {
    let comments = vec![
        "### First line.".to_string(),
        "## cardinality = 0..1".to_string(),
        "### Second line.".to_string(),
    ];
    assert_eq!(
        extract_description_from_comments(&comments).unwrap(),
        "First line.\nSecond line."
    );
}

#[test]
fn no_doc_lines_yields_none() {
    let comments = vec![
        "## cardinality = 0..1".to_string(),
        "# plain note".to_string(),
    ];
    assert!(extract_description_from_comments(&comments).is_none());
}

fn options(lines: &[&str]) -> Options {
    let comments: Vec<String> = lines.iter().map(|s| s.to_string()).collect();
    options_from_comments(&comments, false)
}

#[test]
fn cardinality_is_one_unless_said_otherwise() {
    let none = options(&["## severity = warning"]);
    assert_eq!((none.min, none.max, none.strict_min), (1, 1, true));
    assert_eq!(none.severity, Some(Severity::Warning));
    let range = options(&["## cardinality = 0..5"]);
    assert_eq!((range.min, range.max, range.strict_min), (0, 5, true));
    let soft = options(&["## cardinality = ~1..inf"]);
    assert_eq!((soft.min, soft.max, soft.strict_min), (1, i32::MAX, false));
}

#[test]
fn scopes_of_a_rule_are_read() {
    let o = options(&["## scope = { country state }", "## push_scope = state"]);
    assert_eq!(o.required_scopes, vec!["country", "state"]);
    assert_eq!(o.push_scope.as_deref(), Some("state"));
}

// ---------------------------------------------------------------------------
// Fields

#[test]
fn words_are_fields() {
    assert_eq!(field_from_string("scalar"), NewField::ScalarField);
    assert_eq!(field_from_string("bool"), NewField::ValueField(ValueType::Bool));
    assert_eq!(
        field_from_string("localisation_synced"),
        NewField::LocalisationField { synced: true, is_inline: false }
    );
    assert_eq!(field_from_string("colour_field"), NewField::MarkerField(Marker::ColourField));
    assert_eq!(
        field_from_string("some_key"),
        NewField::SpecificField("some_key".to_string())
    );
}

#[test]
fn bracketed_words_are_fields() {
    assert_eq!(
        field_from_string("int[-5..inf]"),
        NewField::ValueField(ValueType::Int { min: -5, max: i32::MAX })
    );
    assert_eq!(
        field_from_string("enum[gender]"),
        NewField::ValueField(ValueType::Enum("gender".to_string()))
    );
    assert_eq!(
        field_from_string("alias_name[effect]"),
        NewField::AliasField("effect".to_string())
    );
    assert_eq!(
        field_from_string("filepath[gfx/,.dds]"),
        NewField::FilepathField {
            prefix: Some("gfx/".to_string()),
            extension: Some(".dds".to_string())
        }
    );
}

#[test]
fn angle_brackets_name_types() {
    assert_eq!(
        field_from_string("<focus>"),
        NewField::TypeField(TypeType::Simple("focus".to_string()))
    );
    assert_eq!(
        field_from_string("GFX_<idea>_big"),
        NewField::TypeField(TypeType::Complex {
            prefix: "GFX_".to_string(),
            name: "idea".to_string(),
            suffix: "_big".to_string()
        })
    );
}

#[test]
fn alias_patterns_are_parsed() {
    let p = ParsedAliasPattern::parse("modify_<building>_speed", 7).unwrap();
    assert_eq!(p.prefix, "modify_");
    assert_eq!(p.suffix, "_speed");
    assert_eq!(p.placeholder_name, "building");
    assert_eq!(p.kind, PatternKind::Type);
    assert_eq!(p.alias_idx, 7);
    assert!(ParsedAliasPattern::parse("plain_name", 0).is_none());
}

#[test]
fn match_kinds() {
    assert_eq!(MatchKind::from_equals(true), MatchKind::Equals);
    assert!(MatchKind::from_equals(true).is_equals());
    assert!(!MatchKind::from_equals(false).is_equals());
}

// ---------------------------------------------------------------------------
// Numbers

#[test]
fn numbers_compare_exactly() {
    let n = |s: &str| read(s).unwrap();
    assert!(le(&n("0.1"), &n("0.10")));
    assert!(le(&n("-3"), &n("2.5")));
    assert!(!le(&n("2.5"), &n("-3")));
    assert!(le(&n("1e3"), &n("1000")));
    assert!(!le(&n("1000.0000000000000000001"), &n("1000")));
    assert!(is_zero(&n("-0.00")));
    assert!(has_fraction(&n("0.5")));
    assert!(!has_fraction(&n("50e-1")));
    assert!(read("abc").is_none());
    assert!(read("").is_none());
}

// ---------------------------------------------------------------------------
// Types

fn parse_type(cwt: &str) -> Vec<SkipRootKey> {
    rules_of(cwt)
        .types
        .into_iter()
        .next()
        .map(|t| t.skip_root_key)
        .unwrap_or_default()
}

#[test]
fn single_leaf_produces_specific_key() {
    let srk = parse_type(
        r#"types = { type[idea] = { path = "game/common/ideas" skip_root_key = ideas } }"#,
    );
    assert_eq!(srk, vec![SkipRootKey::SpecificKey("ideas".into())]);
}

#[test]
fn single_any_leaf_produces_any_key() {
    let srk = parse_type(
        r#"types = { type[idea] = { path = "game/common/ideas" skip_root_key = any } }"#,
    );
    assert_eq!(srk, vec![SkipRootKey::AnyKey]);
}

#[test]
fn block_form_produces_nested_levels() {
    let srk = parse_type(
        r#"types = { type[idea] = { path = "game/common/ideas" skip_root_key = { ideas any } } }"#,
    );
    assert_eq!(
        srk,
        vec![
            SkipRootKey::SpecificKey("ideas".into()),
            SkipRootKey::AnyKey,
        ],
        "block form must produce one entry per element (nested levels)"
    );
}

#[test]
fn block_form_two_named_keys_are_two_levels() {
    let srk = parse_type(
        r#"types = { type[foo] = { path = "game/x" skip_root_key = { wrapper inner } } }"#,
    );
    assert_eq!(
        srk,
        vec![
            SkipRootKey::SpecificKey("wrapper".into()),
            SkipRootKey::SpecificKey("inner".into()),
        ]
    );
}

#[test]
fn multiple_leaves_produce_multiple_keys() {
    let srk = parse_type(
        r#"types = { type[foo] = { path = "game/x" skip_root_key = a skip_root_key = b } }"#,
    );
    assert_eq!(srk.len(), 1, "multiple leaves must collapse to ONE entry");
    match &srk[0] {
        SkipRootKey::MultipleKeys(keys, MatchKind::Equals) => {
            assert!(keys.contains(&"a".to_string()));
            assert!(keys.contains(&"b".to_string()));
        }
        other => panic!("expected MultipleKeys, got {other:?}"),
    }
}

#[test]
fn alternatives_have_the_operator_of_the_first() {
    let srk = parse_type(
        r#"types = { type[foo] = { path = "game/x" skip_root_key != a skip_root_key = b } }"#,
    );
    assert_eq!(
        srk,
        vec![SkipRootKey::MultipleKeys(
            vec!["a".to_string(), "b".to_string()],
            MatchKind::NotEquals
        )]
    );
}

#[test]
fn test_parse_test_cwt() {
    let input = r#"
alias[effect:create_starbase] = {
    ## cardinality = 1..1
    owner = scalar

    ## cardinality = 1..1
    size = scalar
}

types = {
    type[ship_size] = {
        path = "game/common/ship_sizes"
        subtype[starbase] = {
            class = shipclass_starbase
        }
    }
}

enums = {
    enum[shipsize_class] = {
        shipclass_military
        shipclass_starbase
    }
}
"#;
    let ruleset = rules_of(input);

    assert_eq!(ruleset.aliases.len(), 1);
    assert_eq!(ruleset.root_rules.len(), 0);
    assert_eq!(ruleset.types.len(), 1);
    assert!(ruleset.root_rules.is_empty());
    assert_eq!(ruleset.types[0].name, "ship_size");
    assert_eq!(
        ruleset.types[0].path_options.paths,
        vec!["common/ship_sizes"]
    );
    assert_eq!(ruleset.types[0].subtypes.len(), 1);
    assert_eq!(ruleset.types[0].subtypes[0].name, "starbase");

    assert_eq!(ruleset.enums.len(), 1);
    assert_eq!(ruleset.enums[0].key, "shipsize_class");
    assert_eq!(
        ruleset.enums[0].values,
        vec!["shipclass_military", "shipclass_starbase"]
    );
}

#[test]
fn debug_simple_cwt() {
    let input = r#"
types = {
    type[ship_size] = {
        path = "game/common/ship_sizes"
        subtype[starbase] = {
            class = shipclass_starbase
        }
    }
}
"#;
    let parsed = parse(input);
    assert_eq!(parsed.root_children.len(), 1);
    match &parsed.root_children[0] {
        Child::Leaf(l) => {
            assert_eq!(l.key, "types");
            assert!(matches!(&l.value, Value::Clause(c) if c.len() == 1));
        }
        other => panic!("expected a leaf, got {other:?}"),
    }
}

// ---------------------------------------------------------------------------
// Rule sets

#[test]
fn merge_preserves_scope_links() {
    let mut a = rules_of("links = { character = { from_data = yes } }");
    let b = rules_of("types = { type[evt] = { path = \"game/events\" } }");

    merge_ruleset(&mut a, b);
    assert!(
        a.scope_links.contains("character"),
        "scope_links lost during merge"
    );
}

#[test]
fn links_are_known_by_name_and_prefix() {
    let rs = rules_of("links = { Capital = { output_scope = state } var = { prefix = VAR: } Owner = x }");
    assert!(rs.scope_links.contains("capital"));
    assert!(rs.scope_links.contains("var:"));
    assert!(rs.scope_links.contains("owner"));
    assert_eq!(rs.link_inputs.len(), 2);
    assert_eq!(rs.link_inputs[0].name, "Capital");
}

#[test]
fn merging_nothing_changes_nothing() {
    let mut a = rules_of("types = { type[evt] = { path = \"game/events\" } }\nevt = { a = scalar }");
    merge_ruleset(&mut a, RuleSet::new());
    assert_eq!(a.types.len(), 1);
    assert_eq!(a.root_rules.len(), 1);
}

#[test]
fn indexes_find_the_last_type_and_the_first_rule() {
    let mut rs = rules_of(
        "types = { type[a] = { path = \"x\" } type[a] = { path = \"y\" } }\n\
         a = { one = scalar }\na = { two = scalar }\n",
    );
    rs.reindex();
    assert_eq!(rs.type_by_name.get("a"), Some(&1));
    assert_eq!(rs.type_rules_idx.get("a"), Some(&0));
    assert!(rs.type_by_name.get("b").is_none());
    rs.reindex();
    assert_eq!(rs.type_by_name.get("a"), Some(&1));
}

#[test]
fn aliases_are_listed_in_lower_case_too() {
    let rs = rules_of("alias[effect:Add_Thing] = scalar\nalias[effect:<building>_x] = scalar\n");
    let exact = rs.alias_exact.get("effect").unwrap();
    assert_eq!(exact.get("Add_Thing"), Some(&vec![0]));
    assert_eq!(exact.get("add_thing"), Some(&vec![0]));
    let cat = rs.alias_categories.get("effect").unwrap();
    assert_eq!(cat.parsed_patterns.len(), 1);
    assert_eq!(cat.parsed_patterns[0].alias_idx, 1);
}

#[test]
fn paths_are_indexed_in_lower_case() {
    let rs = rules_of(
        "types = { type[a] = { path = \"game/Common\\\\Ideas\" path_extension = .TXT } }",
    );
    let p = &rs.types[0].path_options;
    assert!(p.paths_lower[0].starts_with("common"), "got {:?}", p.paths_lower);
    assert_eq!(p.path_ext_lower.as_deref(), Some("txt"));
}

// ---------------------------------------------------------------------------
// Loading

#[test]
fn load_ruleset_dir_merges_every_cwt_file() {
    let types = "types = {\n    type[guard_idea] = {\n        name_field = id\n        \
                 path = \"game/common/ideas\"\n    }\n}\nguard_idea = { id = scalar }\n";
    let enums = "enums = { enum[guard_gender] = { male female } }\n";
    let nested = "types = { type[guard_decision] = { path = \"game/common/decisions\" } }\n\
                  guard_decision = { cost = int }\n\
                  alias[effect:guard_set_flag] = scalar\n\
                  alias[effect:guard_if] = { limit = single_alias_right[guard_limit] }\n\
                  single_alias[guard_limit] = { always = bool }\n";
    let folders = "common\nevents\nlocalisation\n";
    let files = vec![
        config("enums.cwt", enums),
        LoadedFile::Folders {
            path: "folders.cwt".to_string(),
            size: folders.len() as u64,
            text: folders.to_string(),
        },
        config("nested/effects.cwt", nested),
        config("types.cwt", types),
    ];
    let (ruleset, errors) = load_ruleset(&files, "ruleset", 1_000_000);

    assert!(
        errors.is_empty(),
        "fixture should parse clean, got {errors:?}"
    );

    let type_names: Vec<&str> = ruleset.types.iter().map(|t| t.name.as_str()).collect();
    assert!(
        type_names.contains(&"guard_idea"),
        "top-level types.cwt missing from {type_names:?}"
    );
    assert!(
        type_names.contains(&"guard_decision"),
        "nested/effects.cwt missing from {type_names:?}, the walk is not recursive"
    );
    assert!(
        !type_names.contains(&"should_never_load"),
        "loader parsed a non-.cwt file: {type_names:?}"
    );

    let idea = ruleset
        .types
        .iter()
        .find(|t| t.name == "guard_idea")
        .expect("guard_idea");
    assert_eq!(idea.name_field.as_deref(), Some("id"));
    assert_eq!(idea.path_options.paths, vec!["common/ideas".to_string()]);

    let gender = ruleset
        .enums
        .iter()
        .find(|e| e.key == "guard_gender")
        .expect("enums.cwt did not contribute enum[guard_gender]");
    assert_eq!(
        gender.values,
        vec!["male".to_string(), "female".to_string()]
    );

    let alias_names: Vec<&str> = ruleset.aliases.iter().map(|(k, _)| k.as_str()).collect();
    assert!(
        alias_names.contains(&"effect:guard_set_flag") && alias_names.contains(&"effect:guard_if"),
        "aliases from nested/effects.cwt missing from {alias_names:?}"
    );
    assert!(
        ruleset
            .single_aliases
            .iter()
            .any(|(k, _)| k == "guard_limit"),
        "single_alias[guard_limit] missing"
    );

    let root_types: Vec<&str> = ruleset
        .root_rules
        .iter()
        .filter_map(|r| match r {
            RootRule::TypeRule(name, _) => Some(name.as_str()),
            _ => None,
        })
        .collect();
    assert!(
        root_types.contains(&"guard_idea") && root_types.contains(&"guard_decision"),
        "root rules missing from {root_types:?}"
    );

    assert_eq!(
        ruleset.folders,
        vec![
            "common".to_string(),
            "events".to_string(),
            "localisation".to_string()
        ]
    );
}

#[test]
fn an_unexpanded_single_alias_is_reported_at_its_definition() {
    let text = "single_alias[loop_a] = {\n    x = single_alias_right[loop_b]\n}\n\
                single_alias[loop_b] = {\n    y = single_alias_right[loop_a]\n}\n";
    let (_, errors) = load_ruleset(&vec![config("dir/cycle.cwt", text)], "dir", 1_000_000);
    let cycle = errors
        .iter()
        .find(|e| e.message.contains("reference cycle"))
        .unwrap_or_else(|| panic!("no cycle diagnostic in {errors:?}"));
    assert!(cycle.file.ends_with("cycle.cwt"), "error: {cycle:?}");
    assert_eq!(cycle.line, 1, "error: {cycle:?}");
}

#[test]
fn unreadable_files_are_reported_and_the_rest_is_loaded() {
    let ok = "types = { }\n";
    let files = vec![
        LoadedFile::Unreadable {
            path: "huge.cwt".to_string(),
            message: "file too large".to_string(),
        },
        config("ok.cwt", ok),
    ];
    let (ruleset, errors) = load_ruleset(&files, "dir", 1_000_000);
    assert!(!errors.iter().any(|e| e.file.ends_with("ok.cwt")));
    assert!(errors.iter().any(|e| e.file.ends_with("huge.cwt")));
    assert!(ruleset.types.is_empty());
}

#[test]
fn files_over_the_total_budget_are_left_out() {
    let a = "types = { type[a] = { path = \"x\" } }\n";
    let b = "types = { type[b] = { path = \"y\" } }\n";
    let files = vec![config("a.cwt", a), config("b.cwt", b)];
    let (ruleset, errors) = load_ruleset(&files, "dir", a.len() as u64);
    let names: Vec<&str> = ruleset.types.iter().map(|t| t.name.as_str()).collect();
    assert_eq!(names, vec!["a"]);
    assert_eq!(errors.len(), 1, "got {errors:?}");
}

#[test]
fn folder_lists_skip_comments_and_blank_lines() {
    assert_eq!(
        parse_folders_list("common\n\n# note\n  events  \n"),
        vec!["common".to_string(), "events".to_string()]
    );
}

#[test]
fn reindexing_knows_the_links() {
    let mut rs = RuleSet::new();
    rs.link_inputs.push(LinkInput {
        name: "Capital_Scope".to_string(),
        output_scope: Some("state".to_string()),
        input_scopes: vec!["country".to_string()],
        prefix: Some("Var:".to_string()),
        from_data: true,
        data_source: Vec::new(),
    });
    assert!(!rs.scope_links.contains("capital_scope"));
    rs.reindex();
    assert!(rs.scope_links.contains("capital_scope"));
    assert!(rs.scope_links.contains("var:"));
    assert!(!rs.scope_links.contains("Capital_Scope"));
}

/// The names of the single aliases that a rule, or one in its body, refers to.
fn references(rt: &RuleType) -> Vec<String> {
    match rt {
        RuleType::LeafRule { right: NewField::SingleAliasField(name), .. } => vec![name.clone()],
        RuleType::NodeRule { rules, .. }
        | RuleType::ValueClauseRule { rules }
        | RuleType::SubtypeRule { rules, .. } => {
            rules.iter().flat_map(|(r, _)| references(r)).collect()
        }
        _ => Vec::new(),
    }
}

#[test]
fn chains_of_single_aliases_are_expanded_to_the_end() {
    // The number of references goes up and down from round to round.
    let text = "single_alias[a] = { x = single_alias_right[b] }\n\
                single_alias[b] = { x = single_alias_right[c] }\n\
                single_alias[c] = { x = single_alias_right[d] y = single_alias_right[d] }\n\
                single_alias[d] = { x = single_alias_right[e] y = single_alias_right[e] }\n\
                single_alias[e] = { x = single_alias_right[f] }\n\
                single_alias[f] = { x = single_alias_right[g] }\n\
                single_alias[g] = { x = single_alias_right[h] }\n\
                single_alias[h] = { x = single_alias_right[i] }\n\
                single_alias[i] = { leaf = bool }\n\
                thing = { top = single_alias_right[a] }\n\
                alias[effect:go] = { top = single_alias_right[c] }\n";
    let mut rs = ast_to_ruleset(&parse(text));
    assert!(post_process(&mut rs).is_empty());
    for (name, (rule, _)) in &rs.single_aliases {
        assert!(references(rule).is_empty(), "left in {name}");
    }
    for (name, (rule, _)) in &rs.aliases {
        assert!(references(rule).is_empty(), "left in {name}");
    }
    for rule in &rs.root_rules {
        match rule {
            RootRule::TypeRule(_, (r, _))
            | RootRule::AliasRule(_, (r, _))
            | RootRule::SingleAliasRule(_, (r, _)) => assert!(references(r).is_empty()),
        }
    }
}

#[test]
fn only_names_that_reach_themselves_are_cycles() {
    let text = "single_alias[a] = { x = single_alias_right[b] }\n\
                single_alias[b] = { x = single_alias_right[a] }\n\
                single_alias[self_made] = { x = single_alias_right[self_made] }\n\
                single_alias[outside] = { x = single_alias_right[a] y = single_alias_right[plain] }\n\
                single_alias[plain] = { z = bool }\n\
                single_alias[dangling] = { z = single_alias_right[nowhere] }\n";
    let mut rs = ast_to_ruleset(&parse(text));
    let refused = post_process(&mut rs);
    let names: Vec<&str> = refused.iter().map(|e| e.name.as_str()).collect();
    assert_eq!(names, vec!["a", "b", "self_made"]);
    assert!(refused.iter().all(|e| e.message.contains("reference cycle")));
    let outside = &rs.single_aliases.iter().find(|(n, _)| n == "outside").unwrap().1 .0;
    assert!(!references(outside).contains(&"plain".to_string()));
}

#[test]
fn single_aliases_that_nest_too_deep_are_reported() {
    let mut text = String::new();
    for i in 0..1100 {
        text.push_str(&format!("single_alias[n{i}] = single_alias_right[n{}]\n", i + 1));
    }
    text.push_str("single_alias[n1100] = bool\n");
    let mut rs = ast_to_ruleset(&parse(&text));
    let refused = post_process(&mut rs);
    assert!(!refused.is_empty());
    assert!(refused.iter().all(|e| e.message.contains("nest too deep")));
    assert!(refused.iter().any(|e| e.name == "n0"));
    assert!(refused.iter().all(|e| e.name != "n100"));
}

#[test]
fn math_expressions_are_a_field_type() {
    assert!(matches!(
        field_from_string("math_expr"),
        NewField::ValueField(ValueType::MathExpr)
    ));
}
