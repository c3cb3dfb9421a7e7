//! Which subtypes an instance is one of, and the rules that follow from them.

use vstd::prelude::*;

use crate::ast::{Child, Leaf, LeafValue, Value};
use crate::common::{child_key_matches, has_key};
use crate::field_match::{
    field_matches_key, field_matches_value, opt_index, takes_key, takes_value,
};
use crate::name_counts::SeenNames;
use crate::resolve::{opt_rules, opt_str};
use crate::rule_converter::{unquote_key, unquoted};
use crate::rules_types::{
    FieldV, NewField, Options, OptionsV, RuleType, RuleTypeV, RuleV, SubTypeDefinition, SubTypeV,
    TypeDefV, TypeDefinition, clone_rule, clone_rules, lemma_rules_empty, lemma_rules_push,
    rule_view, rules_view,
};
use crate::ruleset::{RuleSet, RuleSetV};
use crate::text::{
    ascii_lower, contains_ci, list_contains, list_contains_ci, same, starts, starts_with, texts,
    to_ascii_lower,
};
use crate::type_index::{IndexV, TypeIndex};

verus! {

// ---------------------------------------------------------------------------
// Which subtypes fit

/// The number of those of the first `n` children that are leaves with a key and a
/// value that the two fields accept.
pub open spec fn leaves_like(
    ch: Seq<Child>,
    left: FieldV,
    right: FieldV,
    rs: RuleSetV,
    idx: Option<IndexV>,
    n: int,
) -> int
    decreases n,
{
    if n <= 0 || n > ch.len() {
        0
    } else {
        leaves_like(ch, left, right, rs, idx, n - 1) + match ch[n - 1] {
            Child::Leaf(l) => if takes_key(left, unquoted(l.key@), rs, idx) && takes_value(
                right,
                l.value,
                rs,
            ) {
                1int
            } else {
                0int
            },
            _ => 0int,
        }
    }
}

/// The number of those of the first `n` children that are blocks with a key that the
/// field accepts.
pub open spec fn blocks_like(
    ch: Seq<Child>,
    left: FieldV,
    rs: RuleSetV,
    idx: Option<IndexV>,
    n: int,
) -> int
    decreases n,
{
    if n <= 0 || n > ch.len() {
        0
    } else {
        blocks_like(ch, left, rs, idx, n - 1) + match ch[n - 1] {
            Child::Leaf(l) => if takes_key(left, unquoted(l.key@), rs, idx)
                && l.value is Clause {
                1int
            } else {
                0int
            },
            _ => 0int,
        }
    }
}

/// The number of those of the first `n` children that are bare values, and no blocks,
/// that the field accepts.
pub open spec fn values_like(ch: Seq<Child>, right: FieldV, rs: RuleSetV, n: int) -> int
    decreases n,
{
    if n <= 0 || n > ch.len() {
        0
    } else {
        values_like(ch, right, rs, n - 1) + match ch[n - 1] {
            Child::LeafValue(lv) => if !(lv.value is Clause) && takes_value(right, lv.value, rs) {
                1int
            } else {
                0int
            },
            _ => 0int,
        }
    }
}

/// As many children are like the rule as it asks for.
pub open spec fn rule_met(
    r: RuleV,
    ch: Seq<Child>,
    rs: RuleSetV,
    idx: Option<IndexV>,
) -> bool {
    match r.0 {
        RuleTypeV::LeafRule { left, right } => r.1.min <= leaves_like(
            ch,
            left,
            right,
            rs,
            idx,
            ch.len() as int,
        ) <= r.1.max,
        RuleTypeV::NodeRule { left, .. } => r.1.min <= blocks_like(
            ch,
            left,
            rs,
            idx,
            ch.len() as int,
        ) <= r.1.max,
        RuleTypeV::LeafValueRule { right } => r.1.min <= values_like(
            ch,
            right,
            rs,
            ch.len() as int,
        ) <= r.1.max,
        _ => true,
    }
}

/// One of the children is a leaf of that key.
pub open spec fn some_key(ch: Seq<Child>, key: Seq<char>) -> bool {
    exists|i: int| 0 <= i < ch.len() && has_key(#[trigger] ch[i], key)
}

/// The instance is one of the subtype: it has the field that marks it, its own key is
/// one that the subtype asks for and starts as it asks for, and its body meets each
/// of the subtype's rules.
pub open spec fn subtype_fits(
    st: SubTypeV,
    ch: Seq<Child>,
    node_key: Option<Seq<char>>,
    rs: RuleSetV,
    idx: Option<IndexV>,
) -> bool {
    &&& match st.type_key_field {
        Some(k) => some_key(ch, k),
        None => true,
    }
    &&& st.type_key_filter.len() == 0 || match node_key {
        Some(k) => contains_ci(st.type_key_filter, k),
        None => false,
    }
    &&& match (st.starts_with, node_key) {
        (Some(p), Some(k)) => starts(ascii_lower(k), ascii_lower(p)),
        _ => true,
    }
    &&& forall|i: int| 0 <= i < st.rules.len() ==> rule_met(#[trigger] st.rules[i], ch, rs, idx)
}

fn count_leaves(
    children: &Vec<Child>,
    left: &NewField,
    right: &NewField,
    ruleset: &RuleSet,
    type_index: Option<&TypeIndex>,
) -> (r: usize)
    ensures
        r == leaves_like(
            children@,
            left@,
            right@,
            ruleset@,
            opt_index(type_index),
            children@.len() as int,
        ),
{
    let mut n: usize = 0;
    let mut i: usize = 0;
    while i < children.len()
        invariant
            n <= i <= children@.len(),
            n == leaves_like(
                children@,
                left@,
                right@,
                ruleset@,
                opt_index(type_index),
                i as int,
            ),
        decreases children@.len() - i,
    {
        match &children[i] {
            Child::Leaf(l) => {
                if field_matches_key(left, unquote_key(l.key.as_str()), ruleset, type_index)
                    && field_matches_value(right, &l.value, ruleset) {
                    n += 1;
                }
            },
            _ => {},
        }
        i += 1;
    }
    n
}

fn count_blocks(
    children: &Vec<Child>,
    left: &NewField,
    ruleset: &RuleSet,
    type_index: Option<&TypeIndex>,
) -> (r: usize)
    ensures
        r == blocks_like(
            children@,
            left@,
            ruleset@,
            opt_index(type_index),
            children@.len() as int,
        ),
{
    let mut n: usize = 0;
    let mut i: usize = 0;
    while i < children.len()
        invariant
            n <= i <= children@.len(),
            n == blocks_like(children@, left@, ruleset@, opt_index(type_index), i as int),
        decreases children@.len() - i,
    {
        match &children[i] {
            Child::Leaf(l) => match &l.value {
                Value::Clause(_) => {
                    if field_matches_key(left, unquote_key(l.key.as_str()), ruleset, type_index) {
                        n += 1;
                    }
                },
                _ => {},
            },
            _ => {},
        }
        i += 1;
    }
    n
}

/// The number of bare values, and no blocks, that the field accepts.
pub fn count_values(children: &Vec<Child>, right: &NewField, ruleset: &RuleSet) -> (r: usize)
    ensures
        r == values_like(children@, right@, ruleset@, children@.len() as int),
        r <= children@.len(),
{
    let mut n: usize = 0;
    let mut i: usize = 0;
    while i < children.len()
        invariant
            n <= i <= children@.len(),
            n == values_like(children@, right@, ruleset@, i as int),
        decreases children@.len() - i,
    {
        match &children[i] {
            Child::LeafValue(lv) => match &lv.value {
                Value::Clause(_) => {},
                _ => {
                    if field_matches_value(right, &lv.value, ruleset) {
                        n += 1;
                    }
                },
            },
            _ => {},
        }
        i += 1;
    }
    n
}

/// Whether a number is between two others.
fn in_range(n: usize, o: &Options) -> (r: bool)
    ensures
        r == (o@.min <= n <= o@.max),
{
    (o.min as i128) <= (n as i128) && (n as i128) <= (o.max as i128)
}

fn meets_rule(
    r: &(RuleType, Options),
    children: &Vec<Child>,
    ruleset: &RuleSet,
    type_index: Option<&TypeIndex>,
) -> (res: bool)
    ensures
        res == rule_met(
            (rule_view(r.0), r.1@),
            children@,
            ruleset@,
            opt_index(type_index),
        ),
{
    match &r.0 {
        RuleType::LeafRule { left, right } => in_range(
            count_leaves(children, left, right, ruleset, type_index),
            &r.1,
        ),
        RuleType::NodeRule { left, .. } => in_range(
            count_blocks(children, left, ruleset, type_index),
            &r.1,
        ),
        RuleType::LeafValueRule { right } => in_range(
            count_values(children, right, ruleset),
            &r.1,
        ),
        _ => true,
    }
}

#[verifier::loop_isolation(false)]
fn contains_key(children: &Vec<Child>, key: &str) -> (r: bool)
    ensures
        r == some_key(children@, key@),
{
    let mut i: usize = 0;
    while i < children.len()
        invariant
            i <= children@.len(),
            forall|j: int| 0 <= j < i ==> !has_key(#[trigger] children@[j], key@),
        decreases children@.len() - i,
    {
        if child_key_matches(&children[i], key) {
            return true;
        }
        i += 1;
    }
    false
}

/// Whether the instance is one of the subtype.
#[verifier::loop_isolation(false)]
pub fn subtype_matches(
    subtype: &SubTypeDefinition,
    children: &Vec<Child>,
    ruleset: &RuleSet,
    node_key: Option<&str>,
    type_index: Option<&TypeIndex>,
) -> (r: bool)
    ensures
        r == subtype_fits(
            subtype@,
            children@,
            opt_str(node_key),
            ruleset@,
            opt_index(type_index),
        ),
{
    match &subtype.type_key_field {
        Some(k) => {
            if !contains_key(children, k.as_str()) {
                return false;
            }
        },
        None => {},
    }
    if subtype.type_key_filter.len() > 0 {
        match node_key {
            Some(k) => {
                if !list_contains_ci(&subtype.type_key_filter, k) {
                    return false;
                }
            },
            None => {
                return false;
            },
        }
    }
    match (&subtype.starts_with, node_key) {
        (Some(p), Some(k)) => {
            let a = to_ascii_lower(k);
            let b = to_ascii_lower(p.as_str());
            if !starts_with(a.as_str(), b.as_str()) {
                return false;
            }
        },
        _ => {},
    }
    let mut i: usize = 0;
    while i < subtype.rules.len()
        invariant
            i <= subtype.rules@.len(),
            forall|j: int|
                0 <= j < i ==> rule_met(
                    #[trigger] subtype@.rules[j],
                    children@,
                    ruleset@,
                    opt_index(type_index),
                ),
        decreases subtype.rules@.len() - i,
    {
        assert(subtype@.rules[i as int] == (
            rule_view(subtype.rules@[i as int].0),
            subtype.rules@[i as int].1@,
        ));
        if !meets_rule(&subtype.rules[i], children, ruleset, type_index) {
            return false;
        }
        i += 1;
    }
    true
}

// ---------------------------------------------------------------------------
// The rules that follow

/// The names of those of the first `n` subtypes that the instance is one of.
pub open spec fn fitting(
    s: Seq<SubTypeV>,
    ch: Seq<Child>,
    node_key: Option<Seq<char>>,
    rs: RuleSetV,
    idx: Option<IndexV>,
    n: int,
) -> Seq<Seq<char>>
    decreases n,
{
    if n <= 0 || n > s.len() {
        Seq::empty()
    } else {
        let before = fitting(s, ch, node_key, rs, idx, n - 1);
        if subtype_fits(s[n - 1], ch, node_key, rs, idx) {
            before.push(s[n - 1].name)
        } else {
            before
        }
    }
}

/// The subtype of that name, from the `i`th on.
pub open spec fn subtype_named(s: Seq<SubTypeV>, name: Seq<char>, i: int) -> Option<SubTypeV>
    decreases s.len() - i,
{
    if i < 0 || i >= s.len() {
        None
    } else if s[i].name == name {
        Some(s[i])
    } else {
        subtype_named(s, name, i + 1)
    }
}

/// One of the names that the subtype does not go with is among these.
pub open spec fn is_excluded(s: Seq<SubTypeV>, name: Seq<char>, names: Seq<Seq<char>>) -> bool {
    match subtype_named(s, name, 0) {
        Some(st) => exists|i: int|
            0 <= i < st.only_if_not.len() && names.contains(#[trigger] st.only_if_not[i]),
        None => false,
    }
}

/// Those of the first `n` names that no other of the names excludes.
pub open spec fn not_excluded(s: Seq<SubTypeV>, names: Seq<Seq<char>>, n: int) -> Seq<Seq<char>>
    decreases n,
{
    if n <= 0 || n > names.len() {
        Seq::empty()
    } else if is_excluded(s, names[n - 1], names) {
        not_excluded(s, names, n - 1)
    } else {
        not_excluded(s, names, n - 1).push(names[n - 1])
    }
}

/// The subtypes that are active for the instance.
pub open spec fn active_subtypes(
    t: TypeDefV,
    ch: Seq<Child>,
    node_key: Option<Seq<char>>,
    rs: RuleSetV,
    idx: Option<IndexV>,
) -> Seq<Seq<char>> {
    let names = fitting(t.subtypes, ch, node_key, rs, idx, t.subtypes.len() as int);
    not_excluded(t.subtypes, names, names.len() as int)
}

/// The rule, but not required.
pub open spec fn optional(r: RuleV) -> RuleV {
    (r.0, OptionsV { min: 0, ..r.1 })
}

/// The first `n` rules, but not required.
pub open spec fn optional_rules(rules: Seq<RuleV>, n: int) -> Seq<RuleV>
    decreases n,
{
    if n <= 0 || n > rules.len() {
        Seq::empty()
    } else {
        optional_rules(rules, n - 1).push(optional(rules[n - 1]))
    }
}

/// One of the rules holds those of a subtype.
pub open spec fn any_subtype_rule(rules: Seq<RuleV>) -> bool {
    exists|i: int| 0 <= i < rules.len() && (#[trigger] rules[i]).0 is SubtypeRule
}

/// The first `n` rules, with those of active subtypes in place of the rules that
/// hold them.
pub open spec fn expanded(rules: Seq<RuleV>, active: Seq<Seq<char>>, n: int) -> Seq<RuleV>
    decreases n,
{
    if n <= 0 || n > rules.len() {
        Seq::empty()
    } else {
        let before = expanded(rules, active, n - 1);
        match rules[n - 1].0 {
            RuleTypeV::SubtypeRule { name, positive, rules: inner } => if active.contains(name)
                == positive {
                before + optional_rules(inner, inner.len() as int)
            } else {
                before
            },
            _ => before.push(rules[n - 1]),
        }
    }
}

/// The rules that the active ones of the first `n` subtypes declare themselves.
pub open spec fn declared_rules(s: Seq<SubTypeV>, active: Seq<Seq<char>>, n: int) -> Seq<RuleV>
    decreases n,
{
    if n <= 0 || n > s.len() {
        Seq::empty()
    } else if active.contains(s[n - 1].name) {
        declared_rules(s, active, n - 1) + optional_rules(
            s[n - 1].rules,
            s[n - 1].rules.len() as int,
        )
    } else {
        declared_rules(s, active, n - 1)
    }
}

/// The scope that the first active subtype with one pushes, from the `i`th on.
pub open spec fn pushed_scope(s: Seq<SubTypeV>, active: Seq<Seq<char>>, i: int) -> Option<Seq<char>>
    decreases s.len() - i,
{
    if i < 0 || i >= s.len() {
        None
    } else if active.contains(s[i].name) && s[i].push_scope is Some {
        s[i].push_scope
    } else {
        pushed_scope(s, active, i + 1)
    }
}

/// The rules for the body of an instance, given its active subtypes. A subtype's
/// rules stand among those of the type, or else in its own declaration; none of them
/// is required.
pub open spec fn merged_rules(t: TypeDefV, inner: Seq<RuleV>, active: Seq<Seq<char>>) -> Seq<
    RuleV,
> {
    if t.subtypes.len() == 0 {
        inner
    } else if any_subtype_rule(inner) {
        expanded(inner, active, inner.len() as int)
    } else {
        inner + declared_rules(t.subtypes, active, t.subtypes.len() as int)
    }
}

fn find_fitting(
    type_def: &TypeDefinition,
    children: &Vec<Child>,
    ruleset: &RuleSet,
    node_key: Option<&str>,
    type_index: Option<&TypeIndex>,
) -> (r: Vec<String>)
    ensures
        texts(r@) == fitting(
            type_def@.subtypes,
            children@,
            opt_str(node_key),
            ruleset@,
            opt_index(type_index),
            type_def@.subtypes.len() as int,
        ),
{
    let mut out: Vec<String> = Vec::new();
    let ghost s = type_def@.subtypes;
    let mut i: usize = 0;
    assert(texts(out@) =~= fitting(
        s,
        children@,
        opt_str(node_key),
        ruleset@,
        opt_index(type_index),
        0,
    ));
    while i < type_def.subtypes.len()
        invariant
            i <= type_def.subtypes@.len(),
            s == type_def@.subtypes,
            texts(out@) == fitting(
                s,
                children@,
                opt_str(node_key),
                ruleset@,
                opt_index(type_index),
                i as int,
            ),
        decreases type_def.subtypes@.len() - i,
    {
        assert(s[i as int] == type_def.subtypes@[i as int]@);
        if subtype_matches(&type_def.subtypes[i], children, ruleset, node_key, type_index) {
            let ghost before = texts(out@);
            out.push(type_def.subtypes[i].name.clone());
            assert(texts(out@) =~= before.push(s[i as int].name));
        }
        i += 1;
    }
    out
}

#[verifier::loop_isolation(false)]
fn is_excluded_by(
    type_def: &TypeDefinition,
    name: &str,
    names: &SeenNames,
    Ghost(all): Ghost<Seq<Seq<char>>>,
) -> (r: bool)
    requires
        names@ == all.to_set(),
    ensures
        r == is_excluded(type_def@.subtypes, name@, all),
{
    let ghost s = type_def@.subtypes;
    let mut i: usize = 0;
    while i < type_def.subtypes.len()
        invariant
            i <= type_def.subtypes@.len(),
            subtype_named(s, name@, 0) == subtype_named(s, name@, i as int),
        decreases type_def.subtypes@.len() - i,
    {
        let st = &type_def.subtypes[i];
        assert(s[i as int] == st@);
        if same(st.name.as_str(), name) {
            let ghost excl = texts(st.only_if_not@);
            let mut k: usize = 0;
            while k < st.only_if_not.len()
                invariant
                    k <= st.only_if_not@.len(),
                    forall|j: int| 0 <= j < k ==> !all.contains(#[trigger] excl[j]),
                decreases st.only_if_not@.len() - k,
            {
                assert(excl[k as int] == st.only_if_not@[k as int]@);
                assert(all.to_set().contains(excl[k as int]) == all.contains(excl[k as int]));
                if names.has(st.only_if_not[k].as_str()) {
                    return true;
                }
                k += 1;
            }
            return false;
        }
        i += 1;
    }
    false
}

fn note_all(names: &Vec<String>) -> (r: SeenNames)
    ensures
        r@ == texts(names@).to_set(),
{
    let ghost all = texts(names@);
    let mut out = SeenNames::new();
    let mut i: usize = 0;
    assert(out@ =~= all.take(0).to_set());
    while i < names.len()
        invariant
            i <= names@.len(),
            all == texts(names@),
            out@ == all.take(i as int).to_set(),
        decreases names@.len() - i,
    {
        let ghost before = all.take(i as int);
        out.note(names[i].clone());
        assert(all.take(i + 1) =~= before.push(all[i as int]));
        assert forall|x: Seq<char>| all.take(i + 1).to_set().contains(x) == out@.contains(x) by {
            let next = all.take(i + 1);
            if next.contains(x) {
                let k = choose|k: int| 0 <= k < next.len() && next[k] == x;
                if k < i {
                    assert(before[k] == x);
                }
            }
            if before.contains(x) {
                let k = choose|k: int| 0 <= k < before.len() && before[k] == x;
                assert(next[k] == x);
            }
            if x == all[i as int] {
                assert(next[i as int] == x);
            }
        }
        assert(out@ =~= all.take(i + 1).to_set());
        i += 1;
    }
    assert(all.take(i as int) =~= all);
    out
}

/// The subtypes that are active for the instance.
pub fn find_active_subtypes(
    type_def: &TypeDefinition,
    children: &Vec<Child>,
    ruleset: &RuleSet,
    node_key: Option<&str>,
    type_index: Option<&TypeIndex>,
) -> (r: Vec<String>)
    ensures
        texts(r@) == active_subtypes(
            type_def@,
            children@,
            opt_str(node_key),
            ruleset@,
            opt_index(type_index),
        ),
{
    let names = find_fitting(type_def, children, ruleset, node_key, type_index);
    let ghost all = texts(names@);
    let seen = note_all(&names);
    let mut out: Vec<String> = Vec::new();
    let mut i: usize = 0;
    assert(texts(out@) =~= not_excluded(type_def@.subtypes, all, 0));
    while i < names.len()
        invariant
            i <= names@.len(),
            all == texts(names@),
            seen@ == all.to_set(),
            texts(out@) == not_excluded(type_def@.subtypes, all, i as int),
        decreases names@.len() - i,
    {
        assert(all[i as int] == names@[i as int]@);
        if !is_excluded_by(type_def, names[i].as_str(), &seen, Ghost(all)) {
            let ghost before = texts(out@);
            out.push(names[i].clone());
            assert(texts(out@) =~= before.push(all[i as int]));
        }
        i += 1;
    }
    out
}

fn add_optional(out: &mut Vec<(RuleType, Options)>, rules: &Vec<(RuleType, Options)>)
    ensures
        rules_view(final(out)@) == rules_view(old(out)@) + optional_rules(
            rules_view(rules@),
            rules@.len() as int,
        ),
{
    let ghost start = rules_view(out@);
    let ghost all = rules_view(rules@);
    let mut i: usize = 0;
    assert(rules_view(out@) =~= start + optional_rules(all, 0));
    while i < rules.len()
        invariant
            i <= rules@.len(),
            all == rules_view(rules@),
            rules_view(out@) == start + optional_rules(all, i as int),
        decreases rules@.len() - i,
    {
        assert(all[i as int] == (rule_view(rules@[i as int].0), rules@[i as int].1@));
        let mut o = rules[i].1.clone();
        o.min = 0;
        let ghost before = out@;
        let r = (clone_rule(&rules[i].0), o);
        out.push(r);
        proof {
            lemma_rules_push(before, r);
        }
        assert((rule_view(r.0), r.1@) =~= optional(all[i as int]));
        assert(rules_view(out@) =~= start + optional_rules(all, i + 1));
        i += 1;
    }
}

/// Whether one of the rules holds those of a subtype.
#[verifier::loop_isolation(false)]
pub fn has_subtype_rule(rules: &Vec<(RuleType, Options)>) -> (r: bool)
    ensures
        r == any_subtype_rule(rules_view(rules@)),
{
    let ghost all = rules_view(rules@);
    let mut i: usize = 0;
    while i < rules.len()
        invariant
            i <= rules@.len(),
            forall|j: int| 0 <= j < i ==> !((#[trigger] all[j]).0 is SubtypeRule),
        decreases rules@.len() - i,
    {
        assert(all[i as int].0 == rule_view(rules@[i as int].0));
        match &rules[i].0 {
            RuleType::SubtypeRule { .. } => {
                return true;
            },
            _ => {},
        }
        i += 1;
    }
    false
}

fn expand(rules: &Vec<(RuleType, Options)>, active: &Vec<String>) -> (r: Vec<(RuleType, Options)>)
    ensures
        rules_view(r@) == expanded(rules_view(rules@), texts(active@), rules@.len() as int),
{
    let mut out: Vec<(RuleType, Options)> = Vec::new();
    let ghost all = rules_view(rules@);
    let ghost names = texts(active@);
    let mut i: usize = 0;
    proof {
        lemma_rules_empty();
    }
    assert(rules_view(out@) =~= expanded(all, names, 0));
    while i < rules.len()
        invariant
            i <= rules@.len(),
            all == rules_view(rules@),
            names == texts(active@),
            rules_view(out@) == expanded(all, names, i as int),
        decreases rules@.len() - i,
    {
        assert(all[i as int] == (rule_view(rules@[i as int].0), rules@[i as int].1@));
        match &rules[i].0 {
            RuleType::SubtypeRule { name, positive, rules: inner } => {
                if list_contains(active, name.as_str()) == *positive {
                    add_optional(&mut out, inner);
                }
            },
            _ => {
                let ghost before = out@;
                let r = (clone_rule(&rules[i].0), rules[i].1.clone());
                out.push(r);
                proof {
                    lemma_rules_push(before, r);
                }
            },
        }
        i += 1;
    }
    out
}

fn add_declared(out: &mut Vec<(RuleType, Options)>, type_def: &TypeDefinition, active: &Vec<String>)
    ensures
        rules_view(final(out)@) == rules_view(old(out)@) + declared_rules(
            type_def@.subtypes,
            texts(active@),
            type_def@.subtypes.len() as int,
        ),
{
    let ghost start = rules_view(out@);
    let ghost s = type_def@.subtypes;
    let ghost names = texts(active@);
    let mut i: usize = 0;
    assert(rules_view(out@) =~= start + declared_rules(s, names, 0));
    while i < type_def.subtypes.len()
        invariant
            i <= type_def.subtypes@.len(),
            s == type_def@.subtypes,
            names == texts(active@),
            rules_view(out@) == start + declared_rules(s, names, i as int),
        decreases type_def.subtypes@.len() - i,
    {
        let st = &type_def.subtypes[i];
        assert(s[i as int] == st@);
        if list_contains(active, st.name.as_str()) {
            add_optional(out, &st.rules);
        }
        assert(rules_view(out@) =~= start + declared_rules(s, names, i + 1));
        i += 1;
    }
}

fn find_pushed_scope<'a>(type_def: &'a TypeDefinition, active: &Vec<String>) -> (r: Option<&'a str>)
    ensures
        opt_str(r) == pushed_scope(type_def@.subtypes, texts(active@), 0),
{
    let ghost s = type_def@.subtypes;
    let ghost names = texts(active@);
    let mut i: usize = 0;
    while i < type_def.subtypes.len()
        invariant
            i <= type_def.subtypes@.len(),
            s == type_def@.subtypes,
            names == texts(active@),
            pushed_scope(s, names, 0) == pushed_scope(s, names, i as int),
        decreases type_def.subtypes@.len() - i,
    {
        let st = &type_def.subtypes[i];
        assert(s[i as int] == st@);
        match &st.push_scope {
            Some(p) => {
                if list_contains(active, st.name.as_str()) {
                    return Some(p.as_str());
                }
            },
            None => {},
        }
        i += 1;
    }
    None
}

/// What follows from the subtypes of an instance.
pub struct MergedTypeRules<'a> {
    pub rules: Vec<(RuleType, Options)>,
    pub active: Vec<String>,
    /// The scope that the body is in.
    pub push_scope: Option<&'a str>,
}

/// The rules for the body of an instance of a type, its active subtypes, and the
/// scope that they put it in. Checking and looking up a position share this.
pub fn merged_rules_for_type<'a>(
    ruleset: &RuleSet,
    type_index: Option<&TypeIndex>,
    type_def: &'a TypeDefinition,
    children: &Vec<Child>,
    inner_rules: Option<&Vec<(RuleType, Options)>>,
    node_key: Option<&str>,
) -> (r: MergedTypeRules<'a>)
    ensures
        ({
            let active = active_subtypes(
                type_def@,
                children@,
                opt_str(node_key),
                ruleset@,
                opt_index(type_index),
            );
            &&& texts(r.active@) == active
            &&& rules_view(r.rules@) == merged_rules(type_def@, opt_rules(inner_rules), active)
            &&& opt_str(r.push_scope) == pushed_scope(type_def@.subtypes, active, 0)
        }),
{
    let active = find_active_subtypes(type_def, children, ruleset, node_key, type_index);
    let push_scope = find_pushed_scope(type_def, &active);
    let rules = match inner_rules {
        Some(v) => {
            if type_def.subtypes.len() > 0 && has_subtype_rule(v) {
                expand(v, &active)
            } else {
                let mut out = clone_rules(v);
                if type_def.subtypes.len() > 0 {
                    add_declared(&mut out, type_def, &active);
                }
                out
            }
        },
        None => {
            let mut out: Vec<(RuleType, Options)> = Vec::new();
            proof {
                lemma_rules_empty();
            }
            assert(rules_view(out@) =~= Seq::empty());
            if type_def.subtypes.len() > 0 {
                add_declared(&mut out, type_def, &active);
            }
            out
        },
    };
    MergedTypeRules { rules, active, push_scope }
}

/// The first `n` rules, with those of every subtype in place of the rules that hold
/// them.
pub open spec fn flattened(rules: Seq<RuleV>, n: int) -> Seq<RuleV>
    decreases rules, n,
{
    if n <= 0 || n > rules.len() {
        Seq::empty()
    } else {
        match rules[n - 1].0 {
            RuleTypeV::SubtypeRule { rules: inner, .. } => flattened(rules, n - 1) + flattened(
                inner,
                inner.len() as int,
            ),
            _ => flattened(rules, n - 1).push(rules[n - 1]),
        }
    }
}

/// The rules with those of every subtype in place of the rules that hold them. Deep
/// in a body it is not known which subtypes are active, so a field of any is allowed.
pub fn flatten_nested_subtype_rules(rules: &Vec<(RuleType, Options)>) -> (r: Vec<
    (RuleType, Options),
>)
    ensures
        rules_view(r@) == flattened(rules_view(rules@), rules@.len() as int),
    decreases rules,
{
    let mut out: Vec<(RuleType, Options)> = Vec::new();
    let ghost all = rules_view(rules@);
    let mut i: usize = 0;
    proof {
        lemma_rules_empty();
    }
    assert(rules_view(out@) =~= flattened(all, 0));
    while i < rules.len()
        invariant
            i <= rules@.len(),
            all == rules_view(rules@),
            rules_view(out@) == flattened(all, i as int),
        decreases rules@.len() - i,
    {
        assert(all[i as int] == (rule_view(rules@[i as int].0), rules@[i as int].1@));
        flatten_rule(&rules[i], &mut out);
        i += 1;
    }
    out
}

fn flatten_rule(r: &(RuleType, Options), out: &mut Vec<(RuleType, Options)>)
    ensures
        rules_view(final(out)@) == (match rule_view(r.0) {
            RuleTypeV::SubtypeRule { rules: inner, .. } => rules_view(old(out)@) + flattened(
                inner,
                inner.len() as int,
            ),
            _ => rules_view(old(out)@).push((rule_view(r.0), r.1@)),
        }),
    decreases r,
{
    let ghost before = out@;
    match &r.0 {
        RuleType::SubtypeRule { rules: inner, .. } => {
            let mut more = flatten_nested_subtype_rules(inner);
            let ghost m = more@;
            out.append(&mut more);
            proof {
                lemma_rules_concat(before, m);
            }
        },
        _ => {
            let x = (clone_rule(&r.0), r.1.clone());
            out.push(x);
            proof {
                lemma_rules_push(before, x);
            }
        },
    }
}

/// The view of one list of rules behind another.
pub proof fn lemma_rules_concat(a: Seq<(RuleType, Options)>, b: Seq<(RuleType, Options)>)
    ensures
        rules_view(a + b) == rules_view(a) + rules_view(b),
{
    assert(rules_view(a + b) =~= rules_view(a) + rules_view(b));
}

} // verus!
