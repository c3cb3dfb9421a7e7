//! Turning a parsed configuration file into a rule set.

use vstd::prelude::*;
use vstd::string::*;

use crate::ast::{Child, Comment, Leaf, Operator, ParsedFile, Value};
use crate::comment_directives::{options_from_comments, options_of};
use crate::enum_converter::{
    extract_enums_from_children, extract_values_from_children, with_enums, with_values,
};
use crate::field_parser::{field_from_string, field_of};
use crate::link_converter::{
    extract_links, extract_modifier_names, extract_scope_defs, with_links, with_modifiers,
    with_scopes,
};
use crate::rule_converter::{
    alias_settings, block_rules, bracket_content, children_to_rules, comments_before, config_text,
    get_alias_settings, get_setting_from_string, precompute_comments, value_to_string,
};
use crate::rules_types::{
    FieldV, NewField, RootRule, RootRuleV, RuleType, RuleTypeV, lemma_views_push,
};
use crate::ruleset::{RuleSet, RuleSetV, empty_ruleset, reindexed};
use crate::text::{same, starts, starts_with, texts};
use crate::type_converter::{extract_types_from_children, with_types};

verus! {

/// The rule that a leaf at the top level stands for.
pub open spec fn root_rule(l: Leaf) -> RuleTypeV {
    match l.value {
        Value::Clause(c) => RuleTypeV::NodeRule {
            left: FieldV::SpecificField(l.key@),
            rules: block_rules(c@),
        },
        _ => RuleTypeV::LeafRule { left: field_of(l.key@), right: field_of(config_text(l.value)) },
    }
}

/// The rule that a leaf at the top level stands for.
pub fn leaf_to_rule(leaf: &Leaf) -> (r: RuleType)
    ensures
        r@ == root_rule(*leaf),
{
    match &leaf.value {
        Value::Clause(c) => RuleType::NodeRule {
            left: NewField::SpecificField(leaf.key.clone()),
            rules: children_to_rules(c),
        },
        _ => {
            let right = value_to_string(&leaf.value);
            RuleType::LeafRule {
                left: field_from_string(leaf.key.as_str()),
                right: field_from_string(right.as_str()),
            }
        },
    }
}

/// The rule set with an alias, a single alias, or a rule for a type taken in.
pub open spec fn with_root_leaf(rs: RuleSetV, l: Leaf, comments: Seq<Seq<char>>) -> RuleSetV {
    let rule = (root_rule(l), options_of(comments, l.op == Operator::EqualEqual));
    if starts(l.key@, "alias["@) {
        match alias_settings(l.key@, "alias"@) {
            Some((category, name)) => RuleSetV {
                aliases: rs.aliases.push((category + ":"@ + name, rule)),
                ..rs
            },
            None => rs,
        }
    } else if starts(l.key@, "single_alias["@) {
        match bracket_content(l.key@, "single_alias"@) {
            Some(name) => RuleSetV { single_aliases: rs.single_aliases.push((name, rule)), ..rs },
            None => rs,
        }
    } else {
        RuleSetV { root_rules: rs.root_rules.push(RootRuleV::TypeRule(l.key@, rule)), ..rs }
    }
}

/// Takes in a leaf at the top level.
pub fn process_root_leaf(leaf: &Leaf, comments: &Vec<String>, ruleset: &mut RuleSet)
    ensures
        final(ruleset)@ == with_root_leaf(old(ruleset)@, *leaf, texts(comments@)),
{
    let key = leaf.key.as_str();
    if starts_with(key, "alias[") {
        if let Some((category, name)) = get_alias_settings(key, "alias") {
            let mut full = category;
            full.append(":");
            full.append(name.as_str());
            let rule = (
                leaf_to_rule(leaf),
                options_from_comments(comments, leaf.op == Operator::EqualEqual),
            );
            let ghost held = ruleset.aliases@;
            let x = (full, rule);
            ruleset.aliases.push(x);
            proof {
                lemma_views_push(held, x);
            }
        }
    } else if starts_with(key, "single_alias[") {
        if let Some(name) = get_setting_from_string(key, "single_alias") {
            let rule = (
                leaf_to_rule(leaf),
                options_from_comments(comments, leaf.op == Operator::EqualEqual),
            );
            let ghost held = ruleset.single_aliases@;
            let x = (name, rule);
            ruleset.single_aliases.push(x);
            proof {
                lemma_views_push(held, x);
            }
        }
    } else {
        let rule = (
            leaf_to_rule(leaf),
            options_from_comments(comments, leaf.op == Operator::EqualEqual),
        );
        let ghost held = ruleset.root_rules@;
        let x = RootRule::TypeRule(leaf.key.clone(), rule);
        ruleset.root_rules.push(x);
        proof {
            lemma_views_push(held, x);
        }
    }
    assert(ruleset@ =~= with_root_leaf(old(ruleset)@, *leaf, texts(comments@)));
}

/// The rule set with child `i` of a file taken in.
pub open spec fn with_root_child(rs: RuleSetV, ch: Seq<Child>, i: int) -> RuleSetV {
    match ch[i] {
        Child::Leaf(l) => {
            let body = l.value.clause();
            let c = body->0;
            let n = c.len() as int;
            if l.key@ == "types"@ {
                if body is Some {
                    RuleSetV { types: with_types(rs.types, c, n), ..rs }
                } else {
                    rs
                }
            } else if l.key@ == "enums"@ {
                if body is Some {
                    with_enums(rs, c, n)
                } else {
                    rs
                }
            } else if l.key@ == "values"@ {
                if body is Some {
                    RuleSetV { values: with_values(rs.values, c, n), ..rs }
                } else {
                    rs
                }
            } else if l.key@ == "modifiers"@ {
                if body is Some {
                    RuleSetV { modifiers: with_modifiers(rs.modifiers, c, n), ..rs }
                } else {
                    rs
                }
            } else if l.key@ == "links"@ {
                if body is Some {
                    with_links(rs, c, n)
                } else {
                    rs
                }
            } else if l.key@ == "scopes"@ {
                if body is Some {
                    RuleSetV { scope_inputs: with_scopes(rs.scope_inputs, c, n), ..rs }
                } else {
                    rs
                }
            } else {
                with_root_leaf(rs, l, comments_before(ch, i))
            }
        },
        _ => rs,
    }
}

/// The rule set with the first `n` children of a file taken in.
pub open spec fn root_fold(rs: RuleSetV, ch: Seq<Child>, n: int) -> RuleSetV
    decreases n,
{
    if n <= 0 {
        rs
    } else {
        with_root_child(root_fold(rs, ch, n - 1), ch, n - 1)
    }
}

/// The rule set of a configuration file, without its indexes.
pub open spec fn raw_ruleset_of(ast: ParsedFile) -> RuleSetV {
    root_fold(empty_ruleset(), ast.root_children@, ast.root_children@.len() as int)
}

/// The rule set of a configuration file, with its indexes.
pub open spec fn ruleset_of(ast: ParsedFile) -> RuleSetV {
    reindexed(raw_ruleset_of(ast))
}

fn take_root_leaf(l: &Leaf, comments: &Vec<String>, ruleset: &mut RuleSet, Ghost(ch): Ghost<
    Seq<Child>,
>, Ghost(i): Ghost<int>)
    requires
        0 <= i < ch.len(),
        ch[i] == Child::Leaf(*l),
        texts(comments@) == comments_before(ch, i),
    ensures
        final(ruleset)@ == with_root_child(old(ruleset)@, ch, i),
{
    let key = l.key.as_str();
    if same(key, "types") {
        if let Value::Clause(c) = &l.value {
            extract_types_from_children(c, ruleset);
        }
    } else if same(key, "enums") {
        if let Value::Clause(c) = &l.value {
            extract_enums_from_children(c, ruleset);
        }
    } else if same(key, "values") {
        if let Value::Clause(c) = &l.value {
            extract_values_from_children(c, ruleset);
        }
    } else if same(key, "modifiers") {
        if let Value::Clause(c) = &l.value {
            extract_modifier_names(c, ruleset);
        }
    } else if same(key, "links") {
        if let Value::Clause(c) = &l.value {
            extract_links(c, ruleset);
        }
    } else if same(key, "scopes") {
        if let Value::Clause(c) = &l.value {
            extract_scope_defs(c, ruleset);
        }
    } else {
        process_root_leaf(l, comments, ruleset);
    }
}

/// The rule set of a configuration file, without its indexes.
pub fn ast_to_ruleset_raw(ast: &ParsedFile) -> (r: RuleSet)
    ensures
        r@ == raw_ruleset_of(*ast),
{
    let mut ruleset = RuleSet::new();
    let children = &ast.root_children;
    let precomputed = precompute_comments(children);
    let mut i: usize = 0;
    while i < children.len()
        invariant
            i <= children@.len(),
            precomputed@.len() == children@.len(),
            forall|j: int|
                0 <= j < children@.len() ==> texts((#[trigger] precomputed@[j])@) == (
                if children@[j] is Comment {
                    Seq::empty()
                } else {
                    comments_before(children@, j)
                }),
            ruleset@ == root_fold(empty_ruleset(), children@, i as int),
        decreases children@.len() - i,
    {
        if let Child::Leaf(l) = &children[i] {
            take_root_leaf(
                l,
                &precomputed[i],
                &mut ruleset,
                Ghost(children@),
                Ghost(i as int),
            );
        }
        i += 1;
    }
    ruleset
}

/// The rule set of a configuration file.
pub fn ast_to_ruleset(ast: &ParsedFile) -> (r: RuleSet)
    ensures
        r@ == ruleset_of(*ast),
{
    let mut ruleset = ast_to_ruleset_raw(ast);
    ruleset.reindex();
    ruleset
}

} // verus!
