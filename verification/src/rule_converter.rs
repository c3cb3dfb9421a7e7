//! Turning the children of a block into rules.

use vstd::prelude::*;
use vstd::string::*;

use crate::ast::{Child, Comment, Leaf, LeafValue, Operator, Value};
use crate::comment_directives::{options_from_comments, options_of};
use crate::field_parser::{field_from_string, field_of};
use crate::rules_types::{
    FieldV, NewField, Options, OptionsV, RuleType, RuleTypeV, RuleV, ValueType, ValueTypeV,
    default_options, lemma_rules_empty, lemma_rules_push, rules_view,
};
use crate::text::{
    bracket_inner, decimal, in_brackets, opt_text, print_i64, replace_char, replace_char_spec,
    same, split_once, split_once_spec, starts, starts_char, starts_with, starts_with_char,
    strip_prefix, strip_start, texts, trim, trimmed,
};

verus! {

/// Whether a text stands in quotes.
pub open spec fn is_quoted(s: Seq<char>) -> bool {
    s.len() >= 2 && s[0] == '"' && s.last() == '"'
}

/// A text without the quotes around it.
pub open spec fn unquoted(s: Seq<char>) -> Seq<char> {
    if is_quoted(s) {
        s.subrange(1, s.len() - 1)
    } else {
        s
    }
}

/// A text without the quotes around it.
pub fn unquote_key(s: &str) -> (r: &str)
    ensures
        r@ == unquoted(s@),
{
    let n: usize = s.unicode_len();
    if n >= 2 && s.get_char(0) == '"' && s.get_char(n - 1) == '"' {
        s.substring_char(1, n - 1)
    } else {
        s
    }
}

/// The text of a value in a configuration file: without quotes, `yes` or `no` for
/// a boolean, and empty for a block.
pub open spec fn config_text(v: Value) -> Seq<char> {
    match v {
        Value::String(s) => unquoted(s@),
        Value::QString(s) => unquoted(s@),
        Value::Float(s) => s@,
        Value::Int(i) => decimal(i as int),
        Value::Bool(b) => if b {
            "yes"@
        } else {
            "no"@
        },
        Value::Clause(_) => Seq::empty(),
    }
}

/// The text of a value in a configuration file.
pub fn value_to_string(value: &Value) -> (r: String)
    ensures
        r@ == config_text(*value),
{
    match value {
        Value::String(s) => unquote_key(s.as_str()).to_owned(),
        Value::QString(s) => unquote_key(s.as_str()).to_owned(),
        Value::Float(s) => s.clone(),
        Value::Int(i) => print_i64(*i),
        Value::Bool(b) => if *b {
            "yes".to_owned()
        } else {
            "no".to_owned()
        },
        Value::Clause(_) => String::new(),
    }
}

/// What stands in brackets behind `prefix`, as `name` in `prefix[name]`.
pub open spec fn bracket_content(full: Seq<char>, prefix: Seq<char>) -> Option<Seq<char>> {
    bracket_inner(full, prefix + "["@)
}

/// What stands in brackets behind `prefix`.
pub fn extract_bracket_content(full: &str, prefix: &str) -> (r: Option<String>)
    ensures
        opt_text(r) == bracket_content(full@, prefix@),
{
    let mut p = prefix.to_owned();
    p.append("[");
    match in_brackets(full, p.as_str()) {
        Some(s) => Some(s.to_owned()),
        None => None,
    }
}

/// The setting in `key[setting]`.
pub fn get_setting_from_string(full: &str, key: &str) -> (r: Option<String>)
    ensures
        opt_text(r) == bracket_content(full@, key@),
{
    extract_bracket_content(full, key)
}

/// The category and the name in `prefix[category:name]`.
pub open spec fn alias_settings(full: Seq<char>, prefix: Seq<char>) -> Option<
    (Seq<char>, Seq<char>),
> {
    match bracket_content(full, prefix) {
        Some(setting) => split_once_spec(setting, ':'),
        None => None,
    }
}

/// The category and the name in `prefix[category:name]`.
pub fn get_alias_settings(full: &str, prefix: &str) -> (r: Option<(String, String)>)
    ensures
        match r {
            Some(p) => alias_settings(full@, prefix@) == Some((p.0@, p.1@)),
            None => alias_settings(full@, prefix@) is None,
        },
{
    match get_setting_from_string(full, prefix) {
        Some(setting) => match split_once(setting.as_str(), ':') {
            Some((a, b)) => Some((a.to_owned(), b.to_owned())),
            None => None,
        },
        None => None,
    }
}

/// A path of the configuration: with `/` throughout, without a leading `game/`.
pub open spec fn cleaned_path(path: Seq<char>) -> Seq<char> {
    let p = replace_char_spec(path, '\\', '/');
    match strip_start(p, "game/"@) {
        Some(rest) => rest,
        None => p,
    }
}

/// A path of the configuration.
pub fn clean_path(path: &str) -> (r: String)
    ensures
        r@ == cleaned_path(path@),
{
    let p = replace_char(path, '\\', '/');
    match strip_prefix(p.as_str(), "game/") {
        Some(rest) => rest.to_owned(),
        None => p,
    }
}

// ---------------------------------------------------------------------------
// Comments in front of a child

/// The comments directly in front of child `i`, in order, without white space
/// around them.
pub open spec fn comments_before(ch: Seq<Child>, i: int) -> Seq<Seq<char>>
    decreases i,
{
    if i <= 0 || i > ch.len() {
        Seq::empty()
    } else {
        match ch[i - 1] {
            Child::Comment(c) => comments_before(ch, i - 1).push(trimmed(c.text@)),
            _ => Seq::empty(),
        }
    }
}

/// For each child the comments directly in front of it; empty for a comment.
pub fn precompute_comments(children: &Vec<Child>) -> (r: Vec<Vec<String>>)
    ensures
        r@.len() == children@.len(),
        forall|i: int|
            0 <= i < children@.len() ==> texts((#[trigger] r@[i])@) == (if children@[i] is Comment {
                Seq::empty()
            } else {
                comments_before(children@, i)
            }),
{
    let mut result: Vec<Vec<String>> = Vec::new();
    let mut pending: Vec<String> = Vec::new();
    let mut i: usize = 0;
    assert(texts(pending@) =~= comments_before(children@, 0));
    while i < children.len()
        invariant
            i <= children@.len(),
            result@.len() == i,
            texts(pending@) == comments_before(children@, i as int),
            forall|j: int|
                0 <= j < i ==> texts((#[trigger] result@[j])@) == (if children@[j] is Comment {
                    Seq::empty()
                } else {
                    comments_before(children@, j)
                }),
        decreases children@.len() - i,
    {
        let empty: Vec<String> = Vec::new();
        assert(texts(empty@) =~= Seq::empty());
        match &children[i] {
            Child::Comment(c) => {
                let ghost before = texts(pending@);
                let line = trim(c.text.as_str()).to_owned();
                pending.push(line);
                assert(texts(pending@) =~= before.push(line@));
                result.push(empty);
            },
            _ => {
                result.push(pending);
                pending = empty;
            },
        }
        i += 1;
    }
    result
}

// ---------------------------------------------------------------------------
// Colours

pub open spec fn colour_options() -> OptionsV {
    OptionsV { min: 3, max: 4, strict_min: true, leafvalue: true, ..default_options() }
}

pub open spec fn rgb_rule() -> RuleV {
    (
        RuleTypeV::LeafValueRule {
            right: FieldV::ValueField(ValueTypeV::Int { min: 0, max: 255 }),
        },
        colour_options(),
    )
}

pub open spec fn hsv_rule() -> RuleV {
    (
        RuleTypeV::LeafValueRule {
            right: FieldV::ValueField(ValueTypeV::Float { min: "0.0"@, max: "2.0"@ }),
        },
        colour_options(),
    )
}

/// The rules for the body of a colour: three or four components, of the kind
/// that `colour[kind]` names, or of both kinds.
pub open spec fn colour_rules(spec: Seq<char>) -> Seq<RuleV> {
    match bracket_inner(spec, "colour["@) {
        Some(kind) => if kind == "rgb"@ {
            seq![rgb_rule()]
        } else if kind == "hsv"@ {
            seq![hsv_rule()]
        } else {
            seq![rgb_rule(), hsv_rule()]
        },
        None => seq![rgb_rule(), hsv_rule()],
    }
}

fn make_colour_options() -> (r: Options)
    ensures
        r@ == colour_options(),
{
    let mut o = Options::default();
    o.min = 3;
    o.max = 4;
    o.strict_min = true;
    o.leafvalue = true;
    assert(o@ =~= colour_options());
    o
}

fn make_rgb_rule() -> (r: (RuleType, Options))
    ensures
        r@ == rgb_rule(),
{
    (
        RuleType::LeafValueRule {
            right: NewField::ValueField(ValueType::Int { min: 0, max: 255 }),
        },
        make_colour_options(),
    )
}

fn make_hsv_rule() -> (r: (RuleType, Options))
    ensures
        r@ == hsv_rule(),
{
    (
        RuleType::LeafValueRule {
            right: NewField::ValueField(
                ValueType::Float { min: "0.0".to_owned(), max: "2.0".to_owned() },
            ),
        },
        make_colour_options(),
    )
}

/// The rules for the body of a colour.
pub fn build_colour_rules(colour_spec: &str) -> (r: Vec<(RuleType, Options)>)
    ensures
        rules_view(r@) == colour_rules(colour_spec@),
{
    let mut v: Vec<(RuleType, Options)> = Vec::new();
    let (rgb, hsv) = match in_brackets(colour_spec, "colour[") {
        Some(kind) => if same(kind, "rgb") {
            (true, false)
        } else if same(kind, "hsv") {
            (false, true)
        } else {
            (true, true)
        },
        None => (true, true),
    };
    if rgb {
        v.push(make_rgb_rule());
    }
    if hsv {
        v.push(make_hsv_rule());
    }
    assert(rules_view(v@) =~= colour_rules(colour_spec@));
    v
}

// ---------------------------------------------------------------------------
// Children to rules

/// The name of the subtype in `subtype[name]` or `subtype[!name]`, and whether it
/// is asked for.
pub open spec fn subtype_condition(name: Seq<char>) -> (Seq<char>, bool) {
    if starts_char(name, '!') {
        (name.subrange(1, name.len() as int), false)
    } else {
        (name, true)
    }
}

/// The rules of a block: those that its children stand for.
pub open spec fn block_rules(ch: Seq<Child>) -> Seq<RuleV>
    decreases ch, ch.len() + 1,
{
    rules_fold(ch, ch.len() as int, false).0
}

/// The rules of a block whose `type_key_field` leaf is set aside.
pub open spec fn subtype_rules(ch: Seq<Child>) -> Seq<RuleV> {
    rules_fold(ch, ch.len() as int, true).0
}

/// The rules that the first `n` children stand for, and the comments that wait
/// for the next child. With `set_aside`, a `type_key_field` leaf stands for
/// nothing, as if it were not there.
pub open spec fn rules_fold(ch: Seq<Child>, n: int, set_aside: bool) -> (
    Seq<RuleV>,
    Seq<Seq<char>>,
)
    decreases ch, n,
{
    if n <= 0 || n > ch.len() {
        (Seq::empty(), Seq::empty())
    } else {
        let (rules, pending) = rules_fold(ch, n - 1, set_aside);
        match ch[n - 1] {
            Child::Comment(c) => (rules, pending.push(trimmed(c.text@))),
            Child::Leaf(l) => if set_aside && l.key@ == "type_key_field"@ {
                (rules, pending)
            } else {
                (
                    match leaf_rule(l, pending) {
                        Some(r) => rules.push(r),
                        None => rules,
                    },
                    Seq::empty(),
                )
            },
            Child::LeafValue(lv) => (rules.push(leaf_value_rule(lv, pending)), Seq::empty()),
        }
    }
}

/// The rule that `key = value` stands for: a condition on a subtype, a block, a
/// colour, or a single field. A `subtype[` that is not closed stands for none.
pub open spec fn leaf_rule(l: Leaf, comments: Seq<Seq<char>>) -> Option<RuleV>
    decreases l,
{
    if starts(l.key@, "subtype["@) {
        match bracket_content(l.key@, "subtype"@) {
            Some(name) => Some(
                (
                    RuleTypeV::SubtypeRule {
                        name: subtype_condition(name).0,
                        positive: subtype_condition(name).1,
                        rules: match l.value {
                            Value::Clause(c) => block_rules(c@),
                            _ => Seq::empty(),
                        },
                    },
                    options_of(comments, false),
                ),
            ),
            None => None,
        }
    } else {
        let options = options_of(comments, l.op == Operator::EqualEqual);
        let left = field_of(l.key@);
        Some(
            match l.value {
                Value::Clause(c) => (RuleTypeV::NodeRule { left, rules: block_rules(c@) }, options),
                _ => {
                    let right = config_text(l.value);
                    if bracket_inner(right, "colour["@) is Some {
                        (RuleTypeV::NodeRule { left, rules: colour_rules(right) }, options)
                    } else {
                        (RuleTypeV::LeafRule { left, right: field_of(right) }, options)
                    }
                },
            },
        )
    }
}

/// The rule that a value without a key stands for.
pub open spec fn leaf_value_rule(lv: LeafValue, comments: Seq<Seq<char>>) -> RuleV
    decreases lv,
{
    match lv.value {
        Value::Clause(c) => (
            RuleTypeV::ValueClauseRule { rules: block_rules(c@) },
            options_of(comments, false),
        ),
        _ => (
            RuleTypeV::LeafValueRule { right: field_of(config_text(lv.value)) },
            OptionsV { leafvalue: true, ..options_of(comments, false) },
        ),
    }
}

/// The rules that the children of a block stand for.
pub fn children_to_rules(children: &Vec<Child>) -> (r: Vec<(RuleType, Options)>)
    ensures
        rules_view(r@) == block_rules(children@),
    decreases children, 1int,
{
    convert_children(children, false)
}

/// [`children_to_rules`], with or without a `type_key_field` leaf set aside.
pub fn convert_children(children: &Vec<Child>, set_aside: bool) -> (r: Vec<(RuleType, Options)>)
    ensures
        rules_view(r@) == rules_fold(children@, children@.len() as int, set_aside).0,
    decreases children, 0int,
{
    let mut rules: Vec<(RuleType, Options)> = Vec::new();
    let mut pending: Vec<String> = Vec::new();
    let mut i: usize = 0;
    proof {
        lemma_rules_empty();
        assert(texts(pending@) =~= Seq::empty());
    }
    while i < children.len()
        invariant
            i <= children@.len(),
            (rules_view(rules@), texts(pending@)) == rules_fold(children@, i as int, set_aside),
        decreases children@.len() - i,
    {
        let ghost before = rules@;
        let ghost waiting = texts(pending@);
        let empty: Vec<String> = Vec::new();
        assert(texts(empty@) =~= Seq::empty());
        match &children[i] {
            Child::Comment(c) => {
                let line = trim(c.text.as_str()).to_owned();
                pending.push(line);
                assert(texts(pending@) =~= waiting.push(line@));
            },
            Child::Leaf(l) => {
                if !(set_aside && same(l.key.as_str(), "type_key_field")) {
                    match convert_leaf(l, &pending) {
                        Some(r) => {
                            rules.push(r);
                            proof {
                                lemma_rules_push(before, r);
                            }
                        },
                        None => {},
                    }
                    pending = empty;
                }
            },
            Child::LeafValue(lv) => {
                let r = convert_leaf_value(lv, &pending);
                rules.push(r);
                proof {
                    lemma_rules_push(before, r);
                }
                pending = empty;
            },
        }
        i += 1;
    }
    rules
}

fn convert_leaf(l: &Leaf, comments: &Vec<String>) -> (r: Option<(RuleType, Options)>)
    ensures
        match r {
            Some(x) => leaf_rule(*l, texts(comments@)) == Some(x@),
            None => leaf_rule(*l, texts(comments@)) is None,
        },
    decreases l, 0int,
{
    if starts_with(l.key.as_str(), "subtype[") {
        match extract_bracket_content(l.key.as_str(), "subtype") {
            Some(name) => {
                let n: usize = name.as_str().unicode_len();
                let negative = starts_with_char(name.as_str(), '!');
                let wanted = if negative {
                    name.as_str().substring_char(1, n).to_owned()
                } else {
                    name
                };
                let inner = match &l.value {
                    Value::Clause(c) => children_to_rules(c),
                    _ => {
                        proof {
                            lemma_rules_empty();
                        }
                        Vec::new()
                    },
                };
                Some(
                    (
                        RuleType::SubtypeRule { name: wanted, positive: !negative, rules: inner },
                        options_from_comments(comments, false),
                    ),
                )
            },
            None => None,
        }
    } else {
        let options = options_from_comments(comments, l.op == Operator::EqualEqual);
        let left = field_from_string(l.key.as_str());
        match &l.value {
            Value::Clause(c) => Some(
                (RuleType::NodeRule { left, rules: children_to_rules(c) }, options),
            ),
            _ => {
                let right = value_to_string(&l.value);
                if in_brackets(right.as_str(), "colour[").is_some() {
                    Some(
                        (
                            RuleType::NodeRule { left, rules: build_colour_rules(right.as_str()) },
                            options,
                        ),
                    )
                } else {
                    Some(
                        (
                            RuleType::LeafRule { left, right: field_from_string(right.as_str()) },
                            options,
                        ),
                    )
                }
            },
        }
    }
}

fn convert_leaf_value(lv: &LeafValue, comments: &Vec<String>) -> (r: (RuleType, Options))
    ensures
        r@ == leaf_value_rule(*lv, texts(comments@)),
    decreases lv, 0int,
{
    match &lv.value {
        Value::Clause(c) => (
            RuleType::ValueClauseRule { rules: children_to_rules(c) },
            options_from_comments(comments, false),
        ),
        _ => {
            let text = value_to_string(&lv.value);
            let mut options = options_from_comments(comments, false);
            options.leafvalue = true;
            (RuleType::LeafValueRule { right: field_from_string(text.as_str()) }, options)
        },
    }
}

} // verus!
