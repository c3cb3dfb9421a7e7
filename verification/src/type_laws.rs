//! Which type a block is an instance of, which subtypes it has, and which rules follow.

use vstd::prelude::*;

use crate::ast::{Child, Leaf, LeafValue};
use crate::common::{dir_matches, has_key};
use crate::field_match::takes_value;
use crate::resolve::{
    CandidateV, ResolvedV, base_weight, candidates, candidates_at, checked_only, dir_weight,
    filter_allows, grandchild_from, grandchild_type, heaviest, is_checked, key_weight, path_base,
    path_dir, path_ext, path_matches, resolved, skips, type_by_key, type_by_path, winner,
};
use crate::rule_converter::unquoted;
use crate::rules_types::{
    FieldV, MatchKind, OptionsV, PathOptionsV, RuleTypeV, RuleV, SkipRootKeyV, SubTypeV, TypeDefV,
};
use crate::ruleset::RuleSetV;
use crate::subtype::{
    active_subtypes, blocks_like, declared_rules, expanded, fitting, is_excluded, leaves_like,
    merged_rules, not_excluded, optional, optional_rules, pushed_scope, rule_met, some_key,
    subtype_fits, subtype_named, values_like,
};
use crate::text::{
    CharSet, ascii_lower, byte_len, contains_ci, eq_ci, lowercase, occurs_at, replace_char_spec,
};
use crate::text_laws::{is_free_of, lemma_rfind_is, lemma_skip_back_is};
use crate::type_index::IndexV;
use crate::validation_laws::lemma_heaviest;

verus! {

// ---------------------------------------------------------------------------
// Rules of subtypes

/// The rule is one of these, but never required.
pub open spec fn is_optional_of(r: RuleV, rules: Seq<RuleV>) -> bool {
    exists|j: int|
        0 <= j < rules.len() && r.0 == (#[trigger] rules[j]).0 && r.1 == (OptionsV {
            min: 0,
            ..rules[j].1
        })
}

/// The rule stands in a body for an instance with these subtypes: as a rule of the type,
/// or in a block for a subtype that the instance has, or in a block for one that it must
/// not have and does not.
pub open spec fn is_among(r: RuleV, inner: Seq<RuleV>, active: Seq<Seq<char>>, n: int) -> bool {
    exists|i: int|
        0 <= i < n && (match (#[trigger] inner[i]).0 {
            RuleTypeV::SubtypeRule { name, positive, rules } => {
                &&& positive ==> active.contains(name)
                &&& !positive ==> !active.contains(name)
                &&& is_optional_of(r, rules)
            },
            _ => r == inner[i],
        })
}

proof fn lemma_optional_rules(rules: Seq<RuleV>, n: int, r: RuleV)
    requires
        0 <= n <= rules.len(),
    ensures
        optional_rules(rules, n).len() == n,
        forall|j: int| 0 <= j < n ==> #[trigger] optional_rules(rules, n)[j] == optional(rules[j]),
    decreases n,
{
    if n > 0 {
        lemma_optional_rules(rules, n - 1, r);
    }
}

proof fn lemma_is_optional(rules: Seq<RuleV>, r: RuleV)
    ensures
        optional_rules(rules, rules.len() as int).contains(r) <==> is_optional_of(r, rules),
{
    let n = rules.len() as int;
    let o = optional_rules(rules, n);
    lemma_optional_rules(rules, n, r);
    if o.contains(r) {
        let j = choose|j: int| 0 <= j < o.len() && o[j] == r;
        assert(o[j] == optional(rules[j]));
        assert(r.0 == rules[j].0);
    }
    if is_optional_of(r, rules) {
        let j = choose|j: int|
            0 <= j < rules.len() && r.0 == (#[trigger] rules[j]).0 && r.1 == (OptionsV {
                min: 0,
                ..rules[j].1
            });
        assert(o[j] == r);
    }
}

proof fn lemma_concat_contains(a: Seq<RuleV>, b: Seq<RuleV>, r: RuleV)
    ensures
        (a + b).contains(r) <==> a.contains(r) || b.contains(r),
{
    if a.contains(r) {
        let i = choose|i: int| 0 <= i < a.len() && a[i] == r;
        assert((a + b)[i] == r);
    }
    if b.contains(r) {
        let i = choose|i: int| 0 <= i < b.len() && b[i] == r;
        assert((a + b)[a.len() + i] == r);
    }
    if (a + b).contains(r) {
        let i = choose|i: int| 0 <= i < (a + b).len() && (a + b)[i] == r;
        if i < a.len() {
            assert(a[i] == r);
        } else {
            assert(b[i - a.len()] == r);
        }
    }
}

proof fn lemma_expanded_among(inner: Seq<RuleV>, active: Seq<Seq<char>>, n: int, r: RuleV)
    requires
        0 <= n <= inner.len(),
    ensures
        expanded(inner, active, n).contains(r) <==> is_among(r, inner, active, n),
    decreases n,
{
    if n > 0 {
        lemma_expanded_among(inner, active, n - 1, r);
        let before = expanded(inner, active, n - 1);
        let last = inner[n - 1];
        match last.0 {
            RuleTypeV::SubtypeRule { name, positive, rules } => {
                lemma_is_optional(rules, r);
                lemma_concat_contains(before, optional_rules(rules, rules.len() as int), r);
                if active.contains(name) == positive && is_optional_of(r, rules) {
                    assert(inner[n - 1] == last);
                    assert(is_among(r, inner, active, n));
                }
            },
            _ => {
                lemma_concat_contains(before, seq![last], r);
                assert(before + seq![last] =~= before.push(last));
                assert(seq![last][0] == last);
                if r == last {
                    assert(inner[n - 1] == last);
                    assert(is_among(r, inner, active, n));
                }
            },
        }
        if is_among(r, inner, active, n - 1) {
            let i = choose|i: int|
                0 <= i < n - 1 && (match (#[trigger] inner[i]).0 {
                    RuleTypeV::SubtypeRule { name, positive, rules } => {
                        &&& positive ==> active.contains(name)
                        &&& !positive ==> !active.contains(name)
                        &&& is_optional_of(r, rules)
                    },
                    _ => r == inner[i],
                });
            assert(inner[i] == inner[i]);
            assert(is_among(r, inner, active, n));
        }
    } else {
        assert(expanded(inner, active, 0) =~= Seq::<RuleV>::empty());
    }
}

proof fn lemma_declared_rules(s: Seq<SubTypeV>, active: Seq<Seq<char>>, n: int, r: RuleV)
    requires
        0 <= n <= s.len(),
    ensures
        declared_rules(s, active, n).contains(r) <==> exists|i: int|
            0 <= i < n && active.contains((#[trigger] s[i]).name) && is_optional_of(r, s[i].rules),
    decreases n,
{
    if n > 0 {
        lemma_declared_rules(s, active, n - 1, r);
        let before = declared_rules(s, active, n - 1);
        let rules = s[n - 1].rules;
        lemma_is_optional(rules, r);
        lemma_concat_contains(before, optional_rules(rules, rules.len() as int), r);
        if active.contains(s[n - 1].name) && is_optional_of(r, rules) {
            assert(active.contains(s[n - 1].name));
        }
    } else {
        assert(declared_rules(s, active, 0) =~= Seq::<RuleV>::empty());
    }
}

/// The rules for an instance of a type with subtypes: those of the type, those in blocks
/// for subtypes that it has, and those in blocks for subtypes that it must not have and
/// does not. Where the type's rules hold no such block, those that its subtypes declare
/// themselves are added for each that it has. No rule of a subtype is required.
pub proof fn law_rules_of_subtypes(
    t: TypeDefV,
    inner: Seq<RuleV>,
    active: Seq<Seq<char>>,
    r: RuleV,
)
    ensures
        ({
            let blocks = exists|i: int| 0 <= i < inner.len() && (#[trigger] inner[i]).0 is SubtypeRule;
            let merged = merged_rules(t, inner, active);
            &&& t.subtypes.len() == 0 ==> merged == inner
            &&& t.subtypes.len() > 0 && blocks ==> (merged.contains(r) <==> is_among(
                r,
                inner,
                active,
                inner.len() as int,
            ))
            &&& t.subtypes.len() > 0 && !blocks ==> (merged.contains(r) <==> inner.contains(r)
                || exists|i: int|
                0 <= i < t.subtypes.len() && active.contains((#[trigger] t.subtypes[i]).name)
                    && is_optional_of(r, t.subtypes[i].rules))
        }),
{
    let n = inner.len() as int;
    lemma_expanded_among(inner, active, n, r);
    lemma_declared_rules(t.subtypes, active, t.subtypes.len() as int, r);
    lemma_concat_contains(
        inner,
        declared_rules(t.subtypes, active, t.subtypes.len() as int),
        r,
    );
}

/// The scope that an instance is in is that of the first subtype that it has and that
/// pushes one.
pub proof fn law_scope_of_subtypes(s: Seq<SubTypeV>, active: Seq<Seq<char>>, i: int)
    requires
        0 <= i < s.len(),
        active.contains(s[i].name),
        s[i].push_scope is Some,
        forall|j: int|
            0 <= j < i ==> !active.contains((#[trigger] s[j]).name) || s[j].push_scope is None,
    ensures
        pushed_scope(s, active, 0) == s[i].push_scope,
{
    lemma_pushed_scope(s, active, 0, i);
}

proof fn lemma_pushed_scope(s: Seq<SubTypeV>, active: Seq<Seq<char>>, k: int, i: int)
    requires
        0 <= k <= i < s.len(),
        active.contains(s[i].name),
        s[i].push_scope is Some,
        forall|j: int|
            k <= j < i ==> !active.contains((#[trigger] s[j]).name) || s[j].push_scope is None,
    ensures
        pushed_scope(s, active, k) == s[i].push_scope,
    decreases i - k,
{
    if k < i {
        lemma_pushed_scope(s, active, k + 1, i);
    }
}

// ---------------------------------------------------------------------------
// Which subtypes an instance has

/// The child is a field of that name, in whatever case, with or without quotes.
pub open spec fn is_field(c: Child, name: Seq<char>) -> bool {
    c matches Child::Leaf(l) && ascii_lower(unquoted(l.key@)) == ascii_lower(name)
}

proof fn lemma_leaves_like(
    ch: Seq<Child>,
    name: Seq<char>,
    right: FieldV,
    rs: RuleSetV,
    idx: Option<IndexV>,
    n: int,
)
    requires
        0 <= n <= ch.len(),
    ensures
        0 <= leaves_like(ch, FieldV::SpecificField(name), right, rs, idx, n) <= n,
        leaves_like(ch, FieldV::SpecificField(name), right, rs, idx, n) > 0 <==> exists|i: int|
            0 <= i < n && is_field(#[trigger] ch[i], name) && takes_value(
                right,
                ch[i]->Leaf_0.value,
                rs,
            ),
    decreases n,
{
    if n > 0 {
        lemma_leaves_like(ch, name, right, rs, idx, n - 1);
        let c = ch[n - 1];
        if is_field(c, name) && takes_value(right, c->Leaf_0.value, rs) {
            assert(is_field(ch[n - 1], name));
        }
    }
}

/// A subtype that asks for a field with a value, at least once or not at all, is met
/// exactly if some field of that name has a value of the kind, or none has.
pub proof fn law_discriminating_field(
    name: Seq<char>,
    right: FieldV,
    o: OptionsV,
    ch: Seq<Child>,
    rs: RuleSetV,
    idx: Option<IndexV>,
)
    requires
        ch.len() <= i32::MAX,
    ensures
        ({
            let r = (RuleTypeV::LeafRule { left: FieldV::SpecificField(name), right }, o);
            let some = exists|i: int|
                0 <= i < ch.len() && is_field(#[trigger] ch[i], name) && takes_value(
                    right,
                    ch[i]->Leaf_0.value,
                    rs,
                );
            &&& o.min == 1 && o.max == i32::MAX ==> (rule_met(r, ch, rs, idx) <==> some)
            &&& o.min == 0 && o.max == 0 ==> (rule_met(r, ch, rs, idx) <==> !some)
            &&& o.min == 0 && o.max == i32::MAX ==> rule_met(r, ch, rs, idx)
            &&& o.min == 1 && !some ==> !rule_met(r, ch, rs, idx)
        }),
{
    lemma_leaves_like(ch, name, right, rs, idx, ch.len() as int);
}

/// An instance is one of a subtype exactly if it has the field that marks the subtype, if
/// there is one; its key is one of those that the subtype is for, if it names any, and
/// starts as the subtype asks; and its body meets each of the subtype's rules.
pub proof fn law_subtype_of_instance(
    st: SubTypeV,
    ch: Seq<Child>,
    key: Seq<char>,
    rs: RuleSetV,
    idx: Option<IndexV>,
)
    ensures
        subtype_fits(st, ch, Some(key), rs, idx) <==> {
            &&& st.type_key_field matches Some(f) ==> exists|i: int|
                0 <= i < ch.len() && is_field(#[trigger] ch[i], unquoted(f))
            &&& st.type_key_filter.len() == 0 || exists|i: int|
                0 <= i < st.type_key_filter.len() && ascii_lower(#[trigger] st.type_key_filter[i])
                    == ascii_lower(key)
            &&& st.starts_with matches Some(p) ==> p.len() <= key.len() && ascii_lower(key).take(
                p.len() as int,
            ) == ascii_lower(p)
            &&& forall|i: int|
                0 <= i < st.rules.len() ==> rule_met(#[trigger] st.rules[i], ch, rs, idx)
        },
{
    match st.type_key_field {
        Some(f) => {
            assert forall|i: int| 0 <= i < ch.len() implies has_key(#[trigger] ch[i], f)
                == is_field(ch[i], unquoted(f)) by {}
            if some_key(ch, f) {
                let i = choose|i: int| 0 <= i < ch.len() && has_key(#[trigger] ch[i], f);
                assert(is_field(ch[i], unquoted(f)));
            }
            if exists|i: int| 0 <= i < ch.len() && is_field(#[trigger] ch[i], unquoted(f)) {
                let i = choose|i: int|
                    0 <= i < ch.len() && is_field(#[trigger] ch[i], unquoted(f));
                assert(has_key(ch[i], f));
            }
        },
        None => {},
    }
    let filter = st.type_key_filter;
    if contains_ci(filter, key) {
        let i = choose|i: int| 0 <= i < filter.len() && eq_ci(#[trigger] filter[i], key);
        assert(ascii_lower(filter[i]) == ascii_lower(key));
    }
    if exists|i: int| 0 <= i < filter.len() && ascii_lower(#[trigger] filter[i]) == ascii_lower(key) {
        let i = choose|i: int|
            0 <= i < filter.len() && ascii_lower(#[trigger] filter[i]) == ascii_lower(key);
        assert(eq_ci(filter[i], key));
    }
    match st.starts_with {
        Some(p) => {
            let k = ascii_lower(key);
            if p.len() <= key.len() {
                assert(k.subrange(0, p.len() as int) =~= k.take(p.len() as int));
            }
        },
        None => {},
    }
}

proof fn lemma_fitting(
    s: Seq<SubTypeV>,
    ch: Seq<Child>,
    key: Option<Seq<char>>,
    rs: RuleSetV,
    idx: Option<IndexV>,
    n: int,
    name: Seq<char>,
)
    requires
        0 <= n <= s.len(),
    ensures
        fitting(s, ch, key, rs, idx, n).contains(name) <==> exists|i: int|
            0 <= i < n && (#[trigger] s[i]).name == name && subtype_fits(s[i], ch, key, rs, idx),
    decreases n,
{
    let now = fitting(s, ch, key, rs, idx, n);
    if n > 0 {
        lemma_fitting(s, ch, key, rs, idx, n - 1, name);
        let before = fitting(s, ch, key, rs, idx, n - 1);
        if before.contains(name) {
            let i = choose|i: int| 0 <= i < before.len() && before[i] == name;
            assert(now[i] == name);
        }
        if subtype_fits(s[n - 1], ch, key, rs, idx) {
            if s[n - 1].name == name {
                assert(now[before.len() as int] == name);
            }
            if now.contains(name) && s[n - 1].name != name {
                let i = choose|i: int| 0 <= i < now.len() && now[i] == name;
                assert(before[i] == name);
            }
        }
    } else {
        assert(now =~= Seq::<Seq<char>>::empty());
    }
}

proof fn lemma_not_excluded(s: Seq<SubTypeV>, names: Seq<Seq<char>>, n: int, name: Seq<char>)
    requires
        0 <= n <= names.len(),
    ensures
        not_excluded(s, names, n).contains(name) <==> names.take(n).contains(name) && !is_excluded(
            s,
            name,
            names,
        ),
    decreases n,
{
    let now = not_excluded(s, names, n);
    if n > 0 {
        lemma_not_excluded(s, names, n - 1, name);
        let before = not_excluded(s, names, n - 1);
        let last = names[n - 1];
        assert(names.take(n) =~= names.take(n - 1).push(last));
        let head = names.take(n - 1);
        if head.contains(name) {
            let i = choose|i: int| 0 <= i < head.len() && head[i] == name;
            assert(head.push(last)[i] == name);
        }
        if head.push(last).contains(name) && name != last {
            let i = choose|i: int| 0 <= i < n && head.push(last)[i] == name;
            assert(head[i] == name);
        }
        if name == last {
            assert(head.push(last)[n - 1] == name);
        }
        if !is_excluded(s, last, names) {
            if before.contains(name) {
                let i = choose|i: int| 0 <= i < before.len() && before[i] == name;
                assert(now[i] == name);
            }
            if name == last {
                assert(now[before.len() as int] == name);
            }
            if now.contains(name) && name != last {
                let i = choose|i: int| 0 <= i < now.len() && now[i] == name;
                assert(before[i] == name);
            }
        }
    } else {
        assert(now =~= Seq::<Seq<char>>::empty());
        assert(names.take(0) =~= Seq::<Seq<char>>::empty());
    }
}

proof fn lemma_subtype_named(s: Seq<SubTypeV>, name: Seq<char>, k: int, i: int)
    requires
        0 <= k <= i < s.len(),
        s[i].name == name,
        forall|j: int| k <= j < i ==> (#[trigger] s[j]).name != name,
    ensures
        subtype_named(s, name, k) == Some(s[i]),
    decreases i - k,
{
    if k < i {
        lemma_subtype_named(s, name, k + 1, i);
    }
}

/// An instance has a subtype exactly if it is one of it and of no other that the subtype
/// declares not to go with.
pub proof fn law_subtypes_of_instance(
    t: TypeDefV,
    ch: Seq<Child>,
    key: Option<Seq<char>>,
    rs: RuleSetV,
    idx: Option<IndexV>,
    i: int,
)
    requires
        0 <= i < t.subtypes.len(),
        forall|j: int, k: int|
            0 <= j < t.subtypes.len() && 0 <= k < t.subtypes.len() && j != k ==> (
            #[trigger] t.subtypes[j]).name != (#[trigger] t.subtypes[k]).name,
    ensures
        active_subtypes(t, ch, key, rs, idx).contains(t.subtypes[i].name) <==> {
            &&& subtype_fits(t.subtypes[i], ch, key, rs, idx)
            &&& forall|j: int|
                0 <= j < t.subtypes.len() && subtype_fits(#[trigger] t.subtypes[j], ch, key, rs, idx)
                    ==> !t.subtypes[i].only_if_not.contains(t.subtypes[j].name)
        },
{
    let s = t.subtypes;
    let n = s.len() as int;
    let names = fitting(s, ch, key, rs, idx, n);
    let me = s[i];
    lemma_fitting(s, ch, key, rs, idx, n, me.name);
    lemma_not_excluded(s, names, names.len() as int, me.name);
    assert(names.take(names.len() as int) =~= names);
    lemma_subtype_named(s, me.name, 0, i);
    if names.contains(me.name) {
        let k = choose|k: int|
            0 <= k < n && (#[trigger] s[k]).name == me.name && subtype_fits(
                s[k],
                ch,
                key,
                rs,
                idx,
            );
        assert(k == i);
    }
    if is_excluded(s, me.name, names) {
        let x = choose|x: int|
            0 <= x < me.only_if_not.len() && names.contains(#[trigger] me.only_if_not[x]);
        lemma_fitting(s, ch, key, rs, idx, n, me.only_if_not[x]);
        let j = choose|j: int|
            0 <= j < n && (#[trigger] s[j]).name == me.only_if_not[x] && subtype_fits(
                s[j],
                ch,
                key,
                rs,
                idx,
            );
        assert(me.only_if_not.contains(s[j].name));
    } else {
        assert forall|j: int| 0 <= j < n && subtype_fits(#[trigger] s[j], ch, key, rs, idx) implies
            !me.only_if_not.contains(s[j].name) by {
            lemma_fitting(s, ch, key, rs, idx, n, s[j].name);
            if me.only_if_not.contains(s[j].name) {
                let x = choose|x: int|
                    0 <= x < me.only_if_not.len() && me.only_if_not[x] == s[j].name;
                assert(names.contains(me.only_if_not[x]));
            }
        }
    }
}

// ---------------------------------------------------------------------------
// Keys

/// The key is one of the list, in whatever case.
pub open spec fn is_key_of(keys: Seq<Seq<char>>, key: Seq<char>) -> bool {
    exists|i: int| 0 <= i < keys.len() && ascii_lower(#[trigger] keys[i]) == ascii_lower(key)
}

/// The type is for blocks of that key: it has no filter; or its filter lists the keys that
/// it is for, and this is one of them; or it lists those that it is not for, and this is
/// none of them.
pub open spec fn is_for_key(t: TypeDefV, key: Seq<char>) -> bool {
    match t.type_key_filter {
        None => true,
        Some((keys, is_not_for)) => if is_not_for {
            !is_key_of(keys, key)
        } else {
            is_key_of(keys, key)
        },
    }
}

pub proof fn lemma_listed(keys: Seq<Seq<char>>, key: Seq<char>)
    ensures
        contains_ci(keys, key) <==> is_key_of(keys, key),
{
    if contains_ci(keys, key) {
        let i = choose|i: int| 0 <= i < keys.len() && eq_ci(#[trigger] keys[i], key);
        assert(ascii_lower(keys[i]) == ascii_lower(key));
    }
    if is_key_of(keys, key) {
        let i = choose|i: int|
            0 <= i < keys.len() && ascii_lower(#[trigger] keys[i]) == ascii_lower(key);
        assert(eq_ci(keys[i], key));
    }
}

/// A filter lets through exactly the keys that the type is for.
pub proof fn law_key_filter(t: TypeDefV, key: Seq<char>)
    ensures
        filter_allows(t.type_key_filter, key) <==> is_for_key(t, key),
        t.skip_root_key.len() == 0 ==> (key_weight(t, Some(key)) is Some <==> is_for_key(t, key)),
{
    match t.type_key_filter {
        Some((keys, _)) => lemma_listed(keys, key),
        None => {},
    }
}

/// The type that wins for a block by the path of its file is for blocks of that key, and
/// where a candidate is for it, some candidate wins. With one candidate that has no
/// wrappers, the block is an instance of it exactly if the type is for its key.
pub proof fn law_winner_is_for_key(c: Seq<CandidateV>, key: Seq<char>)
    requires
        forall|i: int| 0 <= i < c.len() ==> (#[trigger] c[i]).base_weight > 0,
    ensures
        winner(c, Some(key)) matches Some(t) ==> t.skip_root_key.len() > 0 || is_for_key(t, key),
        (exists|i: int|
            0 <= i < c.len() && (#[trigger] c[i]).type_def.skip_root_key.len() == 0 && is_for_key(
                c[i].type_def,
                key,
            )) ==> winner(c, Some(key)) is Some,
        c.len() == 1 && c[0].type_def.skip_root_key.len() == 0 ==> winner(c, Some(key)) == (
        if is_for_key(c[0].type_def, key) {
            Some(c[0].type_def)
        } else {
            None
        }),
{
    let n = c.len() as int;
    lemma_heaviest(c, Some(key), n);
    match winner(c, Some(key)) {
        Some(t) => law_key_filter(t, key),
        None => {},
    }
    if exists|i: int|
        0 <= i < c.len() && (#[trigger] c[i]).type_def.skip_root_key.len() == 0 && is_for_key(
            c[i].type_def,
            key,
        ) {
        let i = choose|i: int|
            0 <= i < c.len() && (#[trigger] c[i]).type_def.skip_root_key.len() == 0 && is_for_key(
                c[i].type_def,
                key,
            );
        law_key_filter(c[i].type_def, key);
        assert(heaviest(c, Some(key), n).1 > 0);
        lemma_winner_has_weight(c, Some(key), n);
    }
    if c.len() == 1 {
        law_key_filter(c[0].type_def, key);
        reveal_with_fuel(heaviest, 2);
    }
}

proof fn lemma_winner_has_weight(c: Seq<CandidateV>, key: Option<Seq<char>>, n: int)
    requires
        0 <= n <= c.len(),
        heaviest(c, key, n).1 > 0,
    ensures
        heaviest(c, key, n).0 is Some,
    decreases n,
{
    if n > 0 && heaviest(c, key, n) == heaviest(c, key, n - 1) {
        lemma_winner_has_weight(c, key, n - 1);
    }
}

proof fn lemma_candidates(types: Seq<TypeDefV>, p: Seq<char>, n: int)
    requires
        0 <= n <= types.len(),
    ensures
        forall|i: int|
            0 <= i < candidates(types, p, n).len() ==> (#[trigger] candidates(
                types,
                p,
                n,
            )[i]).base_weight > 0,
        forall|i: int|
            0 <= i < candidates(types, p, n).len() ==> exists|j: int|
                0 <= j < n && types[j] == (#[trigger] candidates(types, p, n)[i]).type_def
                    && base_weight(types[j], p) == candidates(types, p, n)[i].base_weight,
    decreases n,
{
    if n > 0 {
        lemma_candidates(types, p, n - 1);
        let before = candidates(types, p, n - 1);
        let now = candidates(types, p, n);
        assert forall|i: int| 0 <= i < now.len() implies (#[trigger] now[i]).base_weight > 0
            && exists|j: int|
            0 <= j < n && types[j] == now[i].type_def && base_weight(types[j], p)
                == now[i].base_weight by {
            if i < before.len() {
                assert(now[i] == before[i]);
                let j = choose|j: int|
                    0 <= j < n - 1 && types[j] == before[i].type_def && base_weight(types[j], p)
                        == before[i].base_weight;
                assert(types[j] == now[i].type_def);
            } else {
                assert(types[n - 1] == now[i].type_def);
            }
        }
    }
}

proof fn lemma_checked_only(rs: RuleSetV, c: Seq<CandidateV>, n: int)
    requires
        0 <= n <= c.len(),
        forall|i: int| 0 <= i < c.len() ==> (#[trigger] c[i]).base_weight > 0,
    ensures
        forall|i: int|
            0 <= i < checked_only(rs, c, n).len() ==> (#[trigger] checked_only(
                rs,
                c,
                n,
            )[i]).base_weight > 0,
    decreases n,
{
    if n > 0 {
        lemma_checked_only(rs, c, n - 1);
        let before = checked_only(rs, c, n - 1);
        let now = checked_only(rs, c, n);
        assert forall|i: int| 0 <= i < now.len() implies (#[trigger] now[i]).base_weight > 0 by {
            if i < before.len() {
                assert(now[i] == before[i]);
            }
        }
    }
}

/// A block at the top of a file that is an instance of a type, and whose key is not the
/// name of a type, has a key that the type is for; no type with wrappers has instances
/// there.
pub proof fn law_instances_have_their_keys(
    rs: RuleSetV,
    path: Seq<char>,
    key: Seq<char>,
    fallback: bool,
)
    ensures
        resolved(rs, path, key, fallback) matches ResolvedV::Entity(t) ==> t.skip_root_key.len()
            == 0 && (is_for_key(t, key) || rs.type_by_name.contains_key(key)),
{
    let p = replace_char_spec(lowercase(path), '\\', '/');
    lemma_candidates(rs.types, p, rs.types.len() as int);
    let c = candidates_at(rs, lowercase(path));
    law_winner_is_for_key(c, key);
    lemma_checked_only(rs, c, c.len() as int);
    law_winner_is_for_key(checked_only(rs, c, c.len() as int), key);
}

/// Where one type has its instances in a file, a block there whose key is not the name of
/// a type is an instance of it exactly if the type is for its key; else it is of no type
/// that is known.
pub proof fn law_one_type_in_file(rs: RuleSetV, path: Seq<char>, key: Seq<char>, t: TypeDefV)
    requires
        candidates_at(rs, lowercase(path)).len() == 1,
        candidates_at(rs, lowercase(path))[0].type_def == t,
        t.skip_root_key.len() == 0,
        is_checked(rs, t),
        !rs.type_by_name.contains_key(key),
    ensures
        resolved(rs, path, key, false) == (if is_for_key(t, key) {
            ResolvedV::Entity(t)
        } else {
            ResolvedV::Unknown
        }),
{
    let p = replace_char_spec(lowercase(path), '\\', '/');
    lemma_candidates(rs.types, p, rs.types.len() as int);
    law_winner_is_for_key(candidates_at(rs, lowercase(path)), key);
}

/// The key is one of the wrappers that a level asks for.
pub open spec fn is_wrapper_key(sk: SkipRootKeyV, key: Seq<char>) -> bool {
    match sk {
        SkipRootKeyV::SpecificKey(k) => ascii_lower(k) == ascii_lower(key),
        SkipRootKeyV::AnyKey => true,
        SkipRootKeyV::MultipleKeys(keys, MatchKind::Equals) => is_key_of(keys, key),
        SkipRootKeyV::MultipleKeys(keys, MatchKind::NotEquals) => !is_key_of(keys, key),
    }
}

/// A block is a wrapper of a type exactly if the type has wrappers and the first level of
/// them asks for the key; where a type with wrappers is found for a block whose key it
/// does not ask for, the block is of no type.
pub proof fn law_wrappers(rs: RuleSetV, path: Seq<char>, key: Seq<char>, fallback: bool, t: TypeDefV)
    ensures
        skips(key, t) <==> t.skip_root_key.len() > 0 && is_wrapper_key(t.skip_root_key[0], key),
        resolved(rs, path, key, fallback) == ResolvedV::Wrapper(t) ==> t.skip_root_key.len() > 0
            && is_wrapper_key(t.skip_root_key[0], key),
{
    if t.skip_root_key.len() > 0 {
        match t.skip_root_key[0] {
            SkipRootKeyV::MultipleKeys(keys, _) => lemma_listed(keys, key),
            _ => {},
        }
    }
}

proof fn lemma_grandchild(
    types: Seq<TypeDefV>,
    path: Seq<char>,
    wrapper: Seq<char>,
    key: Seq<char>,
    i: int,
    generic: Option<TypeDefV>,
)
    requires
        0 <= i <= types.len(),
    ensures
        grandchild_from(types, path, wrapper, key, i, generic) matches Some(t) ==> (generic
            == Some(t) || (skips(wrapper, t) && path_matches(path, t) && is_for_key(t, key)
            && types.contains(t))),
        (exists|j: int|
            i <= j < types.len() && (#[trigger] types[j]).type_key_filter is Some && skips(
                wrapper,
                types[j],
            ) && path_matches(path, types[j]) && is_for_key(types[j], key)) ==> (grandchild_from(
            types,
            path,
            wrapper,
            key,
            i,
            generic,
        ) matches Some(t) && t.type_key_filter is Some),
    decreases types.len() - i,
{
    if i < types.len() {
        law_key_filter(types[i], key);
        assert(types.contains(types[i]));
        let next = if types[i].type_key_filter is None && generic is None && skips(
            wrapper,
            types[i],
        ) && path_matches(path, types[i]) {
            Some(types[i])
        } else {
            generic
        };
        lemma_grandchild(types, path, wrapper, key, i + 1, generic);
        lemma_grandchild(types, path, wrapper, key, i + 1, next);
    }
}

/// The type of a block in a wrapper is one that has that wrapper, has its instances in the
/// file and is for blocks of that key; one with a filter for the key goes before one
/// without a filter.
pub proof fn law_types_in_wrappers(
    rs: RuleSetV,
    path: Seq<char>,
    wrapper: Seq<char>,
    key: Seq<char>,
)
    ensures
        grandchild_type(rs, path, wrapper, key) matches Some(t) ==> skips(wrapper, t)
            && path_matches(path, t) && is_for_key(t, key) && rs.types.contains(t),
        (exists|j: int|
            0 <= j < rs.types.len() && (#[trigger] rs.types[j]).type_key_filter is Some && skips(
                wrapper,
                rs.types[j],
            ) && path_matches(path, rs.types[j]) && is_for_key(rs.types[j], key)) ==> (
        grandchild_type(rs, path, wrapper, key) matches Some(t) && t.type_key_filter is Some),
{
    lemma_grandchild(rs.types, path, wrapper, key, 0, None);
}

// ---------------------------------------------------------------------------
// Paths

/// A path of a directory and a file comes apart into the two, and the extension is what
/// follows the last dot of the file.
pub proof fn law_parts_of_paths(dir: Seq<char>, stem: Seq<char>, ext: Seq<char>)
    requires
        dir.len() > 0,
        dir.last() != '/',
        is_free_of(stem, CharSet::One('/')),
        is_free_of(ext, CharSet::One('/')),
        is_free_of(ext, CharSet::One('.')),
    ensures
        ({
            let file = stem + seq!['.'] + ext;
            let p = dir + seq!['/'] + file;
            &&& path_base(p) == file
            &&& path_dir(p) == dir
            &&& path_ext(p) == ext
        }),
{
    let file = stem + seq!['.'] + ext;
    let p = dir + seq!['/'] + file;
    let slash = CharSet::One('/');
    let dot = CharSet::One('.');
    let d = dir.len() as int;
    assert forall|k: int| d + 1 <= k < p.len() implies !slash.has(#[trigger] p[k]) by {
        let x = k - d - 1;
        assert(p[k] == file[x]);
        if x < stem.len() {
            assert(file[x] == stem[x]);
            assert(!slash.has(stem[x]));
        } else if x > stem.len() {
            assert(file[x] == ext[x - stem.len() - 1]);
            assert(!slash.has(ext[x - stem.len() - 1]));
        }
    }
    assert(p[d] == '/');
    lemma_rfind_is(p, slash, p.len() as int, d + 1);
    assert(path_base(p) =~= file);
    let head = p.subrange(0, p.len() - file.len());
    assert(head =~= dir + seq!['/']);
    assert(head[d - 1] == dir.last());
    lemma_skip_back_is(head, slash, head.len() as int, d);
    assert(path_dir(p) =~= dir);
    let s = stem.len() as int;
    assert forall|k: int| s + 1 <= k < file.len() implies !dot.has(#[trigger] file[k]) by {
        assert(file[k] == ext[k - s - 1]);
        assert(!dot.has(ext[k - s - 1]));
    }
    assert(file[s] == '.');
    lemma_rfind_is(file, dot, file.len() as int, s + 1);
    assert(path_ext(p) =~= ext);
}

/// A directory is one that a type asks for: strictly, if it is the one named or ends with
/// it; else if the one named stands in it, whole directories on both sides.
pub proof fn law_directories(before: Seq<char>, named: Seq<char>, after: Seq<char>)
    ensures
        dir_matches(named, named, true),
        dir_matches(before + seq!['/'] + named, named, true),
        dir_matches(named, named, false),
        dir_matches(before + seq!['/'] + named, named, false),
        dir_matches(named + seq!['/'] + after, named, false),
        dir_matches(before + seq!['/'] + named + seq!['/'] + after, named, false),
{
    reveal_strlit("/");
    assert("/"@ =~= seq!['/']);
    let mid = "/"@ + named + "/"@;
    let a = before + seq!['/'] + named;
    assert(a.subrange(a.len() - ("/"@ + named).len(), a.len() as int) =~= "/"@ + named);
    let w = "/"@ + named + "/"@;
    assert(w.subrange(0, mid.len() as int) =~= mid);
    assert(occurs_at(w, mid, 0));
    let x = "/"@ + a + "/"@;
    let i = before.len() as int + 1;
    assert(x.subrange(i, i + mid.len()) =~= mid);
    assert(occurs_at(x, mid, i));
    let y = "/"@ + (named + seq!['/'] + after) + "/"@;
    assert(y.subrange(0, mid.len() as int) =~= mid);
    assert(occurs_at(y, mid, 0));
    let z = "/"@ + (before + seq!['/'] + named + seq!['/'] + after) + "/"@;
    assert(z.subrange(i, i + mid.len()) =~= mid);
    assert(occurs_at(z, mid, i));
}

/// A directory that a type asks for holds the one named, whole directories on both sides;
/// strictly, it ends with it.
#[verifier::rlimit(50)]
pub proof fn law_only_directories_named(dir: Seq<char>, named: Seq<char>, strict: bool)
    requires
        dir_matches(dir, named, strict),
    ensures
        exists|before: Seq<char>, after: Seq<char>|
            seq!['/'] + dir + seq!['/'] == #[trigger] (before + (seq!['/'] + named + seq!['/']) + after)
                && (strict ==> after.len() == 0),
{
    reveal_strlit("/");
    assert("/"@ =~= seq!['/']);
    let whole = seq!['/'] + dir + seq!['/'];
    let mid = seq!['/'] + named + seq!['/'];
    if strict {
        if dir == named {
            let none = Seq::<char>::empty();
            assert(whole =~= none + mid + none);
        } else {
            let k = dir.len() - named.len() - 1;
            let head = seq!['/'] + dir.subrange(0, k);
            assert(dir.subrange(k, dir.len() as int) == "/"@ + named);
            assert(dir =~= dir.subrange(0, k) + dir.subrange(k, dir.len() as int));
            let none = Seq::<char>::empty();
            assert(whole =~= head + mid + none);
        }
    } else {
        assert(whole =~= "/"@ + dir + "/"@);
        assert(mid =~= "/"@ + named + "/"@);
        let i = choose|i: int| occurs_at(whole, mid, i);
        let before = whole.subrange(0, i);
        let after = whole.subrange(i + mid.len(), whole.len() as int);
        assert(whole.subrange(i, i + mid.len()) == mid);
        assert(whole =~= before + whole.subrange(i, i + mid.len()) + after);
        assert(whole == before + mid + after);
    }
}

proof fn lemma_dir_weight(o: PathOptionsV, dir: Seq<char>, n: int)
    requires
        0 <= n <= o.paths_lower.len(),
    ensures
        dir_weight(o, dir, n) >= 0,
        forall|i: int|
            0 <= i < n && dir_matches(dir, #[trigger] o.paths_lower[i], o.path_strict)
                ==> dir_weight(o, dir, n) >= byte_len(o.paths_lower[i]) + (if o.path_file is Some {
                1000int
            } else {
                0int
            }),
        dir_weight(o, dir, n) > 0 ==> exists|i: int|
            0 <= i < n && dir_matches(dir, #[trigger] o.paths_lower[i], o.path_strict)
                && dir_weight(o, dir, n) == byte_len(o.paths_lower[i]) + (if o.path_file is Some {
                1000int
            } else {
                0int
            }),
    decreases n,
{
    if n > 0 {
        lemma_dir_weight(o, dir, n - 1);
        let last = o.paths_lower[n - 1];
        if dir_weight(o, dir, n) == dir_weight(o, dir, n - 1) && dir_weight(o, dir, n) > 0 {
            let i = choose|i: int|
                0 <= i < n - 1 && dir_matches(dir, #[trigger] o.paths_lower[i], o.path_strict)
                    && dir_weight(o, dir, n - 1) == byte_len(o.paths_lower[i]) + (
                if o.path_file is Some {
                    1000int
                } else {
                    0int
                });
            assert(dir_matches(dir, o.paths_lower[i], o.path_strict));
        }
    }
}

/// A type is a candidate for a file exactly where the file has the name and the extension
/// that the type asks for, and stands in a directory that it asks for; its weight is the
/// length of the longest of those directories, and a thousand more where it asks for the
/// file by name.
pub proof fn law_candidates_for_files(t: TypeDefV, p: Seq<char>, i: int)
    requires
        0 <= i < t.path_options.paths_lower.len(),
    ensures
        ({
            let o = t.path_options;
            let named = match o.path_file_lower {
                Some(f) => path_base(p) == f,
                None => true,
            };
            let right_kind = match o.path_ext_lower {
                Some(e) => path_ext(p) == e,
                None => true,
            };
            let bonus = if o.path_file is Some {
                1000int
            } else {
                0int
            };
            let w = base_weight(t, p);
            &&& !named || !right_kind ==> w == 0
            &&& named && right_kind && dir_matches(path_dir(p), o.paths_lower[i], o.path_strict)
                ==> w >= byte_len(o.paths_lower[i]) + bonus
            &&& w > 0 ==> exists|j: int|
                0 <= j < o.paths_lower.len() && dir_matches(
                    path_dir(p),
                    #[trigger] o.paths_lower[j],
                    o.path_strict,
                ) && w == byte_len(o.paths_lower[j]) + bonus
        }),
{
    lemma_dir_weight(
        t.path_options,
        path_dir(p),
        t.path_options.paths_lower.len() as int,
    );
}

/// What a key adds to the weight of a type: a filter that names it outweighs a longer
/// path, and the key of a wrapper outweighs both.
pub proof fn law_weight_of_keys(t: TypeDefV, key: Seq<char>)
    ensures
        key_weight(t, None) == Some(0int),
        t.skip_root_key.len() == 0 && t.type_key_filter is None ==> key_weight(t, Some(key))
            == Some(0int),
        t.skip_root_key.len() == 0 && t.type_key_filter is Some && is_for_key(t, key)
            ==> key_weight(t, Some(key)) == Some(5000int),
        t.skip_root_key.len() > 0 && is_wrapper_key(t.skip_root_key[0], key) ==> key_weight(
            t,
            Some(key),
        ) == Some(10000int),
        t.skip_root_key.len() > 0 && !is_wrapper_key(t.skip_root_key[0], key) ==> key_weight(
            t,
            Some(key),
        ) == Some(0int),
{
    law_key_filter(t, key);
    if t.skip_root_key.len() > 0 {
        match t.skip_root_key[0] {
            SkipRootKeyV::MultipleKeys(keys, _) => lemma_listed(keys, key),
            _ => {},
        }
    }
}

// ---------------------------------------------------------------------------
// More on types

/// A block whose key is the name of a type is of that type where its file has the
/// extension that the type asks for, if it asks for one.
pub proof fn law_types_by_name(rs: RuleSetV, name: Seq<char>, path: Seq<char>, i: int)
    requires
        rs.type_by_name.contains_key(name),
        rs.type_by_name[name] == i,
        0 <= i < rs.types.len(),
    ensures
        ({
            let t = rs.types[i];
            let ext = path_ext(replace_char_spec(lowercase(path), '\\', '/'));
            &&& t.path_options.path_ext_lower is None ==> type_by_key(rs, name, path) == Some(t)
            &&& t.path_options.path_ext_lower == Some(ext) ==> type_by_key(rs, name, path) == Some(t)
            &&& t.path_options.path_ext_lower is Some && t.path_options.path_ext_lower->0.len() > 0
                && t.path_options.path_ext_lower->0 != ext ==> type_by_key(rs, name, path) == winner(
                candidates_at(rs, lowercase(path)),
                Some(name),
            )
        }),
        forall|other: Seq<char>| !rs.type_by_name.contains_key(other) ==> #[trigger] type_by_key(
            rs,
            other,
            path,
        ) is None,
{
}

/// A file is one where the instances of a type stand exactly if it has the name and the
/// extension that the type asks for, and stands in one of its directories.
pub proof fn law_files_of_types(path: Seq<char>, t: TypeDefV)
    ensures
        ({
            let p = replace_char_spec(lowercase(path), '\\', '/');
            let o = t.path_options;
            path_matches(path, t) <==> {
                &&& o.path_file_lower matches Some(f) ==> path_base(p) == f
                &&& o.path_ext_lower matches Some(e) ==> path_ext(p) == e
                &&& exists|i: int|
                    0 <= i < o.paths_lower.len() && dir_matches(
                        path_dir(p),
                        #[trigger] o.paths_lower[i],
                        o.path_strict,
                    )
            }
        }),
{
}

/// A type found by the path of a file has rules; one without rules leaves its place, where
/// that is allowed, to the best that has some.
pub proof fn law_types_by_path(rs: RuleSetV, path: Seq<char>, key: Seq<char>)
    ensures
        ({
            let c = candidates_at(rs, lowercase(path));
            let w = winner(c, Some(key));
            &&& w is None ==> type_by_path(rs, path, key, false) is None && type_by_path(
                rs,
                path,
                key,
                true,
            ) is None
            &&& w is Some && is_checked(rs, w->0) ==> type_by_path(rs, path, key, false) == w
                && type_by_path(rs, path, key, true) == w
            &&& w is Some && !is_checked(rs, w->0) ==> type_by_path(rs, path, key, false)
                is None && type_by_path(rs, path, key, true) == winner(
                checked_only(rs, c, c.len() as int),
                Some(key),
            )
        }),
{
}

proof fn lemma_blocks_like(
    ch: Seq<Child>,
    name: Seq<char>,
    rs: RuleSetV,
    idx: Option<IndexV>,
    n: int,
)
    requires
        0 <= n <= ch.len(),
    ensures
        0 <= blocks_like(ch, FieldV::SpecificField(name), rs, idx, n) <= n,
        blocks_like(ch, FieldV::SpecificField(name), rs, idx, n) > 0 <==> exists|i: int|
            0 <= i < n && is_field(#[trigger] ch[i], name) && ch[i]->Leaf_0.value is Clause,
    decreases n,
{
    if n > 0 {
        lemma_blocks_like(ch, name, rs, idx, n - 1);
        let c = ch[n - 1];
        if is_field(c, name) && c->Leaf_0.value is Clause {
            assert(is_field(ch[n - 1], name));
        }
    }
}

proof fn lemma_values_like(ch: Seq<Child>, right: FieldV, rs: RuleSetV, n: int)
    requires
        0 <= n <= ch.len(),
    ensures
        0 <= values_like(ch, right, rs, n) <= n,
        values_like(ch, right, rs, n) > 0 <==> exists|i: int|
            0 <= i < n && #[trigger] ch[i] is LeafValue && !(ch[i]->LeafValue_0.value is Clause)
                && takes_value(right, ch[i]->LeafValue_0.value, rs),
    decreases n,
{
    if n > 0 {
        lemma_values_like(ch, right, rs, n - 1);
        let c = ch[n - 1];
        if c is LeafValue && !(c->LeafValue_0.value is Clause) && takes_value(
            right,
            c->LeafValue_0.value,
            rs,
        ) {
            assert(ch[n - 1] is LeafValue);
        }
    }
}

/// A subtype that asks for a block, or for a bare value, at least once or not at all, is met
/// exactly if there is one, or none.
pub proof fn law_discriminating_block(
    name: Seq<char>,
    rules: Seq<RuleV>,
    right: FieldV,
    o: OptionsV,
    ch: Seq<Child>,
    rs: RuleSetV,
    idx: Option<IndexV>,
)
    requires
        ch.len() <= i32::MAX,
    ensures
        ({
            let r = (RuleTypeV::NodeRule { left: FieldV::SpecificField(name), rules }, o);
            let v = (RuleTypeV::LeafValueRule { right }, o);
            let block = exists|i: int|
                0 <= i < ch.len() && is_field(#[trigger] ch[i], name) && ch[i]->Leaf_0.value is Clause;
            let value = exists|i: int|
                0 <= i < ch.len() && #[trigger] ch[i] is LeafValue && !(
                ch[i]->LeafValue_0.value is Clause) && takes_value(
                    right,
                    ch[i]->LeafValue_0.value,
                    rs,
                );
            &&& o.min == 1 && o.max == i32::MAX ==> (rule_met(r, ch, rs, idx) <==> block) && (
            rule_met(v, ch, rs, idx) <==> value)
            &&& o.min == 0 && o.max == 0 ==> (rule_met(r, ch, rs, idx) <==> !block) && (rule_met(
                v,
                ch,
                rs,
                idx,
            ) <==> !value)
        }),
{
    lemma_blocks_like(ch, name, rs, idx, ch.len() as int);
    lemma_values_like(ch, right, rs, ch.len() as int);
}

/// An instance without a key of its own has no subtype that is for certain keys; what a key
/// starts with does not count for it.
pub proof fn law_subtype_without_key(
    st: SubTypeV,
    ch: Seq<Child>,
    rs: RuleSetV,
    idx: Option<IndexV>,
)
    requires
        st.type_key_field is None,
    ensures
        subtype_fits(st, ch, None, rs, idx) <==> st.type_key_filter.len() == 0 && forall|i: int|
            0 <= i < st.rules.len() ==> rule_met(#[trigger] st.rules[i], ch, rs, idx),
{
}

} // verus!
