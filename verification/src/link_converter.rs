//! Reading scopes, links and modifiers from a configuration.

use vstd::prelude::*;
use vstd::string::*;

use crate::ast::{Child, Leaf, Value};
use crate::enum_converter::{clause_members, collect_leaf_values_from_clause};
use crate::rule_converter::{config_text, value_to_string};
use crate::rules_types::{LinkInput, LinkInputV, ScopeInput, ScopeInputV, lemma_views_push};
use crate::ruleset::{RuleSet, RuleSetV, add_link_names, with_link_names};
use crate::text::{
    CharSet, ascii_lower, eq_ci, opt_text, same, same_ci, texts, to_ascii_lower, trim_matches,
    trim_of,
};

verus! {

// ---------------------------------------------------------------------------
// Entries of a block

/// The members of the first `key = { ... }` in `ch[i..]`.
pub open spec fn clause_values(ch: Seq<Child>, key: Seq<char>, i: int) -> Seq<Seq<char>>
    decreases ch.len() - i,
{
    if i < 0 || i >= ch.len() {
        Seq::empty()
    } else {
        match ch[i] {
            Child::Leaf(l) => if l.key@ == key {
                clause_members(l.value)
            } else {
                clause_values(ch, key, i + 1)
            },
            _ => clause_values(ch, key, i + 1),
        }
    }
}

/// The members of the first `key = { ... }` of a block.
pub fn child_clause_values(children: &Vec<Child>, key: &str) -> (r: Vec<String>)
    ensures
        texts(r@) == clause_values(children@, key@, 0),
{
    let mut i: usize = 0;
    while i < children.len()
        invariant
            i <= children@.len(),
            clause_values(children@, key@, 0) == clause_values(children@, key@, i as int),
        decreases children@.len() - i,
    {
        if let Child::Leaf(l) = &children[i] {
            if same(l.key.as_str(), key) {
                return collect_leaf_values_from_clause(&l.value);
            }
        }
        i += 1;
    }
    let v: Vec<String> = Vec::new();
    assert(texts(v@) =~= Seq::empty());
    v
}

/// The text of a child that is `key = value` with a value that is no block.
pub open spec fn scalar_of(c: Child, key: Seq<char>) -> Option<Seq<char>> {
    match c {
        Child::Leaf(l) => if l.key@ == key && !(l.value is Clause) {
            Some(config_text(l.value))
        } else {
            None
        },
        _ => None,
    }
}

/// The first `key = value` in `ch[i..]` whose value is no block.
pub open spec fn scalar_value(ch: Seq<Child>, key: Seq<char>, i: int) -> Option<Seq<char>>
    decreases ch.len() - i,
{
    if i < 0 || i >= ch.len() {
        None
    } else {
        match scalar_of(ch[i], key) {
            Some(s) => Some(s),
            None => scalar_value(ch, key, i + 1),
        }
    }
}

/// Every `key = value` among the first `n` children whose value is no block.
pub open spec fn scalar_values(ch: Seq<Child>, key: Seq<char>, n: int) -> Seq<Seq<char>>
    decreases n,
{
    if n <= 0 {
        Seq::empty()
    } else {
        match scalar_of(ch[n - 1], key) {
            Some(s) => scalar_values(ch, key, n - 1).push(s),
            None => scalar_values(ch, key, n - 1),
        }
    }
}

fn scalar_in(c: &Child, key: &str) -> (r: Option<String>)
    ensures
        opt_text(r) == scalar_of(*c, key@),
{
    match c {
        Child::Leaf(l) => if same(l.key.as_str(), key) {
            match &l.value {
                Value::Clause(_) => None,
                v => Some(value_to_string(v)),
            }
        } else {
            None
        },
        _ => None,
    }
}

/// The first `key = value` of a block whose value is no block.
pub fn child_scalar(children: &Vec<Child>, key: &str) -> (r: Option<String>)
    ensures
        opt_text(r) == scalar_value(children@, key@, 0),
{
    let mut i: usize = 0;
    while i < children.len()
        invariant
            i <= children@.len(),
            scalar_value(children@, key@, 0) == scalar_value(children@, key@, i as int),
        decreases children@.len() - i,
    {
        match scalar_in(&children[i], key) {
            Some(s) => {
                return Some(s);
            },
            None => {},
        }
        i += 1;
    }
    None
}

/// Every `key = value` of a block whose value is no block.
pub fn child_scalars(children: &Vec<Child>, key: &str) -> (r: Vec<String>)
    ensures
        texts(r@) == scalar_values(children@, key@, children@.len() as int),
{
    let mut out: Vec<String> = Vec::new();
    let mut i: usize = 0;
    assert(texts(out@) =~= Seq::empty());
    while i < children.len()
        invariant
            i <= children@.len(),
            texts(out@) == scalar_values(children@, key@, i as int),
        decreases children@.len() - i,
    {
        let ghost before = texts(out@);
        match scalar_in(&children[i], key) {
            Some(s) => {
                out.push(s);
                assert(texts(out@) =~= before.push(s@));
            },
            None => {},
        }
        i += 1;
    }
    out
}

/// A list that is written `key = { a b }` or `key = a`.
pub open spec fn scope_list(ch: Seq<Child>, key: Seq<char>) -> Seq<Seq<char>> {
    let list = clause_values(ch, key, 0);
    if list.len() > 0 {
        list
    } else {
        match scalar_value(ch, key, 0) {
            Some(s) => seq![s],
            None => Seq::empty(),
        }
    }
}

/// A list that is written `key = { a b }` or `key = a`.
pub fn child_scope_list(children: &Vec<Child>, key: &str) -> (r: Vec<String>)
    ensures
        texts(r@) == scope_list(children@, key@),
{
    let list = child_clause_values(children, key);
    assert(texts(list@).len() == list@.len());
    if list.len() > 0 {
        return list;
    }
    let mut v: Vec<String> = Vec::new();
    match child_scalar(children, key) {
        Some(s) => {
            v.push(s);
            assert(texts(v@) =~= seq![s@]);
        },
        None => {
            assert(texts(v@) =~= Seq::empty());
        },
    }
    v
}

// ---------------------------------------------------------------------------
// Scopes, links, modifiers

/// The scopes with child `c` of a `scopes` block taken in.
pub open spec fn with_scope_child(s: Seq<ScopeInputV>, c: Child) -> Seq<ScopeInputV> {
    match c {
        Child::Leaf(l) => match l.value {
            Value::Clause(body) => {
                let name = trim_of(l.key@, CharSet::One('"'));
                if name.len() > 0 {
                    s.push(
                        ScopeInputV {
                            name,
                            aliases: clause_values(body@, "aliases"@, 0),
                            is_subscope_of: clause_values(body@, "is_subscope_of"@, 0),
                        },
                    )
                } else {
                    s
                }
            },
            _ => s,
        },
        _ => s,
    }
}

/// The scopes with the first `n` children of a `scopes` block taken in.
pub open spec fn with_scopes(s: Seq<ScopeInputV>, ch: Seq<Child>, n: int) -> Seq<ScopeInputV>
    decreases n,
{
    if n <= 0 {
        s
    } else {
        with_scope_child(with_scopes(s, ch, n - 1), ch[n - 1])
    }
}

/// Takes in the children of a `scopes` block.
pub fn extract_scope_defs(children: &Vec<Child>, ruleset: &mut RuleSet)
    ensures
        final(ruleset)@ == (RuleSetV {
            scope_inputs: with_scopes(
                old(ruleset)@.scope_inputs,
                children@,
                children@.len() as int,
            ),
            ..old(ruleset)@
        }),
{
    let mut i: usize = 0;
    while i < children.len()
        invariant
            i <= children@.len(),
            ruleset@ == (RuleSetV {
                scope_inputs: with_scopes(old(ruleset)@.scope_inputs, children@, i as int),
                ..old(ruleset)@
            }),
        decreases children@.len() - i,
    {
        if let Child::Leaf(l) = &children[i] {
            if let Value::Clause(body) = &l.value {
                let name = trim_matches(l.key.as_str(), CharSet::One('"')).to_owned();
                if !name.as_str().is_empty() {
                    let ghost held = ruleset.scope_inputs@;
                    let s = ScopeInput {
                        aliases: child_clause_values(body, "aliases"),
                        is_subscope_of: child_clause_values(body, "is_subscope_of"),
                        name,
                    };
                    ruleset.scope_inputs.push(s);
                    proof {
                        lemma_views_push(held, s);
                    }
                }
            }
        }
        i += 1;
    }
}

/// The link that `name = { ... }` declares.
pub open spec fn link_of(name: Seq<char>, body: Seq<Child>) -> LinkInputV {
    LinkInputV {
        name,
        output_scope: scalar_value(body, "output_scope"@, 0),
        input_scopes: scope_list(body, "input_scopes"@),
        prefix: scalar_value(body, "prefix"@, 0),
        from_data: match scalar_value(body, "from_data"@, 0) {
            Some(v) => eq_ci(v, "yes"@),
            None => false,
        },
        data_source: scalar_values(body, "data_source"@, body.len() as int),
    }
}

/// The rule set with child `c` of a `links` block taken in: the names of each link,
/// and what a link with a body declares.
pub open spec fn with_link_child(rs: RuleSetV, c: Child) -> RuleSetV {
    match c {
        Child::Leaf(l) => match l.value {
            Value::Clause(body) => {
                let name = trim_of(l.key@, CharSet::One('"'));
                if name.len() > 0 {
                    RuleSetV {
                        scope_links: with_link_names(rs.scope_links, link_of(name, body@)),
                        link_inputs: rs.link_inputs.push(link_of(name, body@)),
                        ..rs
                    }
                } else {
                    rs
                }
            },
            _ => if l.key@.len() > 0 {
                RuleSetV { scope_links: rs.scope_links.insert(ascii_lower(l.key@)), ..rs }
            } else {
                rs
            },
        },
        _ => rs,
    }
}

/// The rule set with the first `n` children of a `links` block taken in.
pub open spec fn with_links(rs: RuleSetV, ch: Seq<Child>, n: int) -> RuleSetV
    decreases n,
{
    if n <= 0 {
        rs
    } else {
        with_link_child(with_links(rs, ch, n - 1), ch[n - 1])
    }
}

fn make_link(name: String, body: &Vec<Child>) -> (r: LinkInput)
    ensures
        r@ == link_of(name@, body@),
{
    let from_data = match child_scalar(body, "from_data") {
        Some(v) => same_ci(v.as_str(), "yes"),
        None => false,
    };
    LinkInput {
        output_scope: child_scalar(body, "output_scope"),
        input_scopes: child_scope_list(body, "input_scopes"),
        prefix: child_scalar(body, "prefix"),
        from_data,
        data_source: child_scalars(body, "data_source"),
        name,
    }
}

/// Takes in the children of a `links` block.
pub fn extract_links(children: &Vec<Child>, ruleset: &mut RuleSet)
    ensures
        final(ruleset)@ == with_links(old(ruleset)@, children@, children@.len() as int),
{
    let mut i: usize = 0;
    while i < children.len()
        invariant
            i <= children@.len(),
            ruleset@ == with_links(old(ruleset)@, children@, i as int),
        decreases children@.len() - i,
    {
        let ghost before = ruleset@;
        if let Child::Leaf(l) = &children[i] {
            match &l.value {
                Value::Clause(body) => {
                    let name = trim_matches(l.key.as_str(), CharSet::One('"')).to_owned();
                    if !name.as_str().is_empty() {
                        let ghost held = ruleset.link_inputs@;
                        let link = make_link(name, body);
                        add_link_names(&mut ruleset.scope_links, &link);
                        ruleset.link_inputs.push(link);
                        proof {
                            lemma_views_push(held, link);
                        }
                    }
                },
                _ => {
                    if !l.key.as_str().is_empty() {
                        ruleset.scope_links.insert(to_ascii_lower(l.key.as_str()));
                    }
                },
            }
        }
        assert(ruleset@ =~= with_link_child(before, children@[i as int]));
        i += 1;
    }
}

/// The modifiers with the first `n` children of a `modifiers` block taken in.
pub open spec fn with_modifiers(m: Seq<Seq<char>>, ch: Seq<Child>, n: int) -> Seq<Seq<char>>
    decreases n,
{
    if n <= 0 {
        m
    } else {
        let head = with_modifiers(m, ch, n - 1);
        match ch[n - 1] {
            Child::Leaf(l) => if l.key@.len() > 0 {
                head.push(l.key@)
            } else {
                head
            },
            _ => head,
        }
    }
}

/// Takes in the names in a `modifiers` block.
pub fn extract_modifier_names(children: &Vec<Child>, ruleset: &mut RuleSet)
    ensures
        final(ruleset)@ == (RuleSetV {
            modifiers: with_modifiers(old(ruleset)@.modifiers, children@, children@.len() as int),
            ..old(ruleset)@
        }),
{
    let mut i: usize = 0;
    while i < children.len()
        invariant
            i <= children@.len(),
            ruleset@ == (RuleSetV {
                modifiers: with_modifiers(old(ruleset)@.modifiers, children@, i as int),
                ..old(ruleset)@
            }),
        decreases children@.len() - i,
    {
        if let Child::Leaf(l) = &children[i] {
            if !l.key.as_str().is_empty() {
                let ghost held = texts(ruleset.modifiers@);
                ruleset.modifiers.push(l.key.clone());
                assert(texts(ruleset.modifiers@) =~= held.push(l.key@));
            }
        }
        i += 1;
    }
}

} // verus!
