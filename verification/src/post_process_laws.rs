//! What holds of a rule set that was post-processed.

use vstd::prelude::*;

use crate::ast::Value;
use crate::post_process::{
    AliasesV, ExpansionErrorV, MAX_ROUNDS, Pass, alias_names, aliases_have_ref, body_rules,
    coloured, coloured_list, coloured_root, component_rule, cyclic_names, expanded_singles,
    expansion_refusals, find_single, has_ref, ignoring, ignoring_list, ignoring_root,
    inline_rounds, inlined, inlined_aliases, inlined_body, inlined_list, inlined_root, is_cyclic,
    lemma_found_at, list_has_ref, list_refs_of, pass_aliases, pass_root_rule, pass_ruleset,
    post_processed, reaches_in, refers, refs_of, refusals, single_ref, unmarked, unmarked_list,
    without,
};
use crate::rules_types::{FieldV, Marker, RootRuleV, RuleTypeV, RuleV};
use crate::ruleset::RuleSetV;

verus! {

/// A field type that a pass removes.
#[derive(Clone, Copy, PartialEq, Eq, Structural)]
pub enum Mark {
    Value,
    Colour,
    Ignored,
}

pub open spec fn is_value_marker(f: FieldV) -> bool {
    f is ValueScopeMarkerField
}

/// The rule itself, not what is in its body, holds the mark.
pub open spec fn holds_mark(m: Mark, rt: RuleTypeV) -> bool {
    match m {
        Mark::Value => match rt {
            RuleTypeV::LeafRule { left, right } => is_value_marker(left) || is_value_marker(right),
            RuleTypeV::LeafValueRule { right } => is_value_marker(right),
            RuleTypeV::NodeRule { left, .. } => is_value_marker(left),
            _ => false,
        },
        Mark::Colour => rt matches RuleTypeV::LeafRule { right, .. } && right
            == FieldV::MarkerField(Marker::ColourField),
        Mark::Ignored => rt matches RuleTypeV::LeafRule { right, .. } && right
            == FieldV::IgnoreMarkerField,
    }
}

/// Neither the rule nor anything in its body, at any depth, holds the mark.
pub open spec fn free_of(m: Mark, rt: RuleTypeV) -> bool
    decreases rt, 0int,
{
    !holds_mark(m, rt) && match rt {
        RuleTypeV::NodeRule { rules, .. } => list_free_of(m, rules, rules.len() as int),
        RuleTypeV::ValueClauseRule { rules } => list_free_of(m, rules, rules.len() as int),
        RuleTypeV::SubtypeRule { rules, .. } => list_free_of(m, rules, rules.len() as int),
        _ => true,
    }
}

/// The first `n` rules are free of the mark.
pub open spec fn list_free_of(m: Mark, rules: Seq<RuleV>, n: int) -> bool
    decreases rules, n,
{
    n <= 0 || n > rules.len() || (list_free_of(m, rules, n - 1) && free_of(m, rules[n - 1].0))
}

/// What is in the body of the rule is free of the mark.
pub open spec fn body_free_of(m: Mark, rt: RuleTypeV) -> bool {
    match body_rules(rt) {
        Some(rules) => list_free_of(m, rules, rules.len() as int),
        None => true,
    }
}

proof fn lemma_free_push(m: Mark, s: Seq<RuleV>, r: RuleV, n: int)
    requires
        0 <= n <= s.len(),
    ensures
        list_free_of(m, s.push(r), n) == list_free_of(m, s, n),
    decreases n,
{
    if n > 0 {
        lemma_free_push(m, s, r, n - 1);
        assert(s.push(r)[n - 1] == s[n - 1]);
    }
}

proof fn lemma_free_append(m: Mark, a: Seq<RuleV>, b: Seq<RuleV>, n: int)
    requires
        0 <= n <= b.len(),
        list_free_of(m, a, a.len() as int),
        list_free_of(m, b, n),
    ensures
        list_free_of(m, a + b, a.len() + n),
    decreases n,
{
    if n > 0 {
        lemma_free_append(m, a, b, n - 1);
        assert((a + b)[a.len() + n - 1] == b[n - 1]);
    } else {
        lemma_free_prefix(m, a, b, a.len() as int);
    }
}

proof fn lemma_free_prefix(m: Mark, a: Seq<RuleV>, b: Seq<RuleV>, n: int)
    requires
        0 <= n <= a.len(),
        list_free_of(m, a, n),
    ensures
        list_free_of(m, a + b, n),
    decreases n,
{
    if n > 0 {
        lemma_free_prefix(m, a, b, n - 1);
        assert((a + b)[n - 1] == a[n - 1]);
    }
}

// ---------------------------------------------------------------------------
// Each pass

proof fn lemma_unmarked(rt: RuleTypeV)
    ensures
        free_of(Mark::Value, unmarked(rt)),
    decreases rt, 0int,
{
    match rt {
        RuleTypeV::NodeRule { rules, .. } => lemma_unmarked_list(rules, rules.len() as int),
        RuleTypeV::ValueClauseRule { rules } => lemma_unmarked_list(rules, rules.len() as int),
        RuleTypeV::SubtypeRule { rules, .. } => lemma_unmarked_list(rules, rules.len() as int),
        _ => {},
    }
}

proof fn lemma_unmarked_list(rules: Seq<RuleV>, n: int)
    requires
        0 <= n <= rules.len(),
    ensures
        unmarked_list(rules, n).len() == n,
        list_free_of(Mark::Value, unmarked_list(rules, n), n),
    decreases rules, n,
{
    if n > 0 {
        lemma_unmarked_list(rules, n - 1);
        lemma_unmarked(rules[n - 1].0);
        let head = unmarked_list(rules, n - 1);
        lemma_free_push(
            Mark::Value,
            head,
            (unmarked(rules[n - 1].0), rules[n - 1].1),
            n - 1,
        );
    }
}

/// Every single alias is free of value markers.
pub open spec fn aliases_free(m: AliasesV) -> bool {
    forall|i: int| 0 <= i < m.len() ==> free_of(Mark::Value, (#[trigger] m[i]).1.0)
}

proof fn lemma_found_free(m: AliasesV, name: Seq<char>, i: int)
    requires
        aliases_free(m),
        0 <= i,
    ensures
        find_single(m, name, i) matches Some(rt) ==> free_of(Mark::Value, rt),
    decreases m.len() - i,
{
    if i < m.len() && m[i].0 != name {
        lemma_found_free(m, name, i + 1);
    }
}

proof fn lemma_inlined_free(rt: RuleTypeV, m: AliasesV)
    requires
        aliases_free(m),
        free_of(Mark::Value, rt),
    ensures
        free_of(Mark::Value, inlined(rt, m)),
        free_of(Mark::Value, inlined_body(rt, m)),
        free_of(Mark::Value, inlined_root(rt, m)),
    decreases rt, 0int,
{
    match single_ref(rt) {
        Some(name) => {
            lemma_found_free(m, name, 0);
        },
        None => {},
    }
    match rt {
        RuleTypeV::NodeRule { rules, .. } => lemma_inlined_list_free(rules, m, rules.len() as int),
        RuleTypeV::ValueClauseRule { rules } => lemma_inlined_list_free(
            rules,
            m,
            rules.len() as int,
        ),
        RuleTypeV::SubtypeRule { rules, .. } => lemma_inlined_list_free(
            rules,
            m,
            rules.len() as int,
        ),
        _ => {},
    }
}

proof fn lemma_inlined_list_free(rules: Seq<RuleV>, m: AliasesV, n: int)
    requires
        aliases_free(m),
        0 <= n <= rules.len(),
        list_free_of(Mark::Value, rules, n),
    ensures
        inlined_list(rules, m, n).len() == n,
        list_free_of(Mark::Value, inlined_list(rules, m, n), n),
    decreases rules, n,
{
    if n > 0 {
        lemma_inlined_list_free(rules, m, n - 1);
        lemma_inlined_free(rules[n - 1].0, m);
        lemma_free_push(
            Mark::Value,
            inlined_list(rules, m, n - 1),
            (inlined(rules[n - 1].0, m), rules[n - 1].1),
            n - 1,
        );
    }
}

proof fn lemma_without(s: AliasesV, names: Seq<Seq<char>>, n: int)
    requires
        0 <= n <= s.len(),
    ensures
        forall|i: int|
            0 <= i < without(s, names, n).len() ==> exists|j: int|
                0 <= j < n && s[j] == #[trigger] without(s, names, n)[i],
    decreases n,
{
    if n > 0 {
        lemma_without(s, names, n - 1);
        let head = without(s, names, n - 1);
        let out = without(s, names, n);
        assert forall|i: int| 0 <= i < out.len() implies exists|j: int|
            0 <= j < n && s[j] == #[trigger] out[i] by {
            if i < head.len() {
                assert(out[i] == head[i]);
                let j = choose|j: int| 0 <= j < n - 1 && s[j] == head[i];
                assert(s[j] == out[i]);
            } else {
                assert(s[n - 1] == out[i]);
            }
        }
    }
}

proof fn lemma_rounds_free(s: AliasesV, cyclic: Seq<Seq<char>>, rounds: nat)
    requires
        aliases_free(s),
    ensures
        aliases_free(inline_rounds(s, cyclic, rounds)),
    decreases rounds,
{
    let open = without(s, cyclic, s.len() as int);
    if rounds > 0 && aliases_have_ref(s, alias_names(open)) {
        lemma_without(s, cyclic, s.len() as int);
        assert(aliases_free(open));
        let next = inlined_aliases(s, open);
        assert forall|i: int| 0 <= i < next.len() implies free_of(
            Mark::Value,
            (#[trigger] next[i]).1.0,
        ) by {
            assert(free_of(Mark::Value, s[i].1.0));
            lemma_inlined_free(s[i].1.0, open);
        }
        lemma_rounds_free(next, cyclic, (rounds - 1) as nat);
    }
}

proof fn lemma_two_free(m: Mark, a: RuleV, b: RuleV)
    requires
        free_of(m, a.0),
        free_of(m, b.0),
    ensures
        list_free_of(m, seq![a], 1),
        list_free_of(m, seq![a, b], 2),
{
    assert(list_free_of(m, seq![a], 0));
    assert(seq![a][0] == a);
    assert(list_free_of(m, seq![a, b], 0));
    assert(seq![a, b][0] == a);
    assert(list_free_of(m, seq![a, b], 1));
    assert(seq![a, b][1] == b);
}

proof fn lemma_coloured(r: RuleV)
    ensures
        1 <= coloured(r).len() <= 2,
        list_free_of(Mark::Colour, coloured(r), coloured(r).len() as int),
        free_of(Mark::Value, r.0) ==> list_free_of(
            Mark::Value,
            coloured(r),
            coloured(r).len() as int,
        ),
    decreases r, 0int,
{
    match r.0 {
        RuleTypeV::NodeRule { rules, .. } => lemma_coloured_list(rules, rules.len() as int),
        RuleTypeV::ValueClauseRule { rules } => lemma_coloured_list(rules, rules.len() as int),
        RuleTypeV::SubtypeRule { rules, .. } => lemma_coloured_list(rules, rules.len() as int),
        _ => {},
    }
    let c = coloured(r);
    let comp = seq![component_rule()];
    assert(free_of(Mark::Colour, component_rule().0));
    assert(free_of(Mark::Value, component_rule().0));
    lemma_two_free(Mark::Colour, component_rule(), component_rule());
    lemma_two_free(Mark::Value, component_rule(), component_rule());
    assert(free_of(Mark::Colour, c[0].0));
    assert(free_of(Mark::Value, r.0) ==> free_of(Mark::Value, c[0].0));
    if c.len() == 1 {
        lemma_two_free(Mark::Colour, c[0], c[0]);
        assert(c =~= seq![c[0]]);
        if free_of(Mark::Value, r.0) {
            lemma_two_free(Mark::Value, c[0], c[0]);
        }
    } else {
        assert(free_of(Mark::Colour, c[1].0));
        assert(free_of(Mark::Value, r.0) ==> free_of(Mark::Value, c[1].0));
        lemma_two_free(Mark::Colour, c[0], c[1]);
        assert(c =~= seq![c[0], c[1]]);
        if free_of(Mark::Value, r.0) {
            lemma_two_free(Mark::Value, c[0], c[1]);
        }
    }
}

proof fn lemma_coloured_list(rules: Seq<RuleV>, n: int)
    requires
        0 <= n <= rules.len(),
    ensures
        list_free_of(Mark::Colour, coloured_list(rules, n), coloured_list(rules, n).len() as int),
        list_free_of(Mark::Value, rules, n) ==> list_free_of(
            Mark::Value,
            coloured_list(rules, n),
            coloured_list(rules, n).len() as int,
        ),
    decreases rules, n,
{
    if n > 0 {
        lemma_coloured_list(rules, n - 1);
        lemma_coloured(rules[n - 1]);
        let a = coloured_list(rules, n - 1);
        let b = coloured(rules[n - 1]);
        lemma_free_append(Mark::Colour, a, b, b.len() as int);
        if list_free_of(Mark::Value, rules, n) {
            lemma_free_append(Mark::Value, a, b, b.len() as int);
        }
    }
}

proof fn lemma_ignoring(rt: RuleTypeV)
    ensures
        free_of(Mark::Ignored, ignoring(rt)),
        free_of(Mark::Value, rt) ==> free_of(Mark::Value, ignoring(rt)),
        free_of(Mark::Colour, rt) ==> free_of(Mark::Colour, ignoring(rt)),
    decreases rt, 0int,
{
    match rt {
        RuleTypeV::NodeRule { rules, .. } => lemma_ignoring_list(rules, rules.len() as int),
        RuleTypeV::ValueClauseRule { rules } => lemma_ignoring_list(rules, rules.len() as int),
        RuleTypeV::SubtypeRule { rules, .. } => lemma_ignoring_list(rules, rules.len() as int),
        _ => {},
    }
}

proof fn lemma_ignoring_list(rules: Seq<RuleV>, n: int)
    requires
        0 <= n <= rules.len(),
    ensures
        ignoring_list(rules, n).len() == n,
        list_free_of(Mark::Ignored, ignoring_list(rules, n), n),
        list_free_of(Mark::Value, rules, n) ==> list_free_of(
            Mark::Value,
            ignoring_list(rules, n),
            n,
        ),
        list_free_of(Mark::Colour, rules, n) ==> list_free_of(
            Mark::Colour,
            ignoring_list(rules, n),
            n,
        ),
    decreases rules, n,
{
    if n > 0 {
        lemma_ignoring_list(rules, n - 1);
        lemma_ignoring(rules[n - 1].0);
        let head = ignoring_list(rules, n - 1);
        let r = (ignoring(rules[n - 1].0), rules[n - 1].1);
        lemma_free_push(Mark::Ignored, head, r, n - 1);
        lemma_free_push(Mark::Value, head, r, n - 1);
        lemma_free_push(Mark::Colour, head, r, n - 1);
    }
}

// ---------------------------------------------------------------------------
// All passes

/// The rule holds nothing that post-processing removes: no value marker at all,
/// and in its body no colour and no ignored field.
pub open spec fn is_processed(rt: RuleTypeV) -> bool {
    &&& free_of(Mark::Value, rt)
    &&& body_free_of(Mark::Colour, rt)
    &&& body_free_of(Mark::Ignored, rt)
}

proof fn lemma_tail_passes(rt: RuleTypeV)
    requires
        free_of(Mark::Value, rt),
    ensures
        is_processed(ignoring_root(coloured_root(rt))),
{
    match body_rules(rt) {
        Some(rules) => {
            lemma_coloured_list(rules, rules.len() as int);
            let body = coloured_list(rules, rules.len() as int);
            lemma_ignoring_list(body, body.len() as int);
        },
        None => {},
    }
}

/// After post-processing no rule of a rule set holds a value marker, and no body
/// holds a colour or an ignored field, at any depth.
pub proof fn law_post_processed(rs: RuleSetV)
    ensures
        ({
            let out = post_processed(rs);
            &&& forall|i: int|
                0 <= i < out.aliases.len() ==> is_processed((#[trigger] out.aliases[i]).1.0)
            &&& forall|i: int|
                0 <= i < out.single_aliases.len() ==> is_processed(
                    (#[trigger] out.single_aliases[i]).1.0,
                )
            &&& forall|i: int|
                0 <= i < out.root_rules.len() ==> (match #[trigger] out.root_rules[i] {
                    RootRuleV::AliasRule(_, r) => is_processed(r.0),
                    RootRuleV::SingleAliasRule(_, r) => is_processed(r.0),
                    RootRuleV::TypeRule(_, r) => is_processed(r.0),
                })
        }),
{
    let a = pass_ruleset(Pass::ValueMarkers, rs);
    let cyclic = cyclic_names(rs.single_aliases, rs.single_aliases.len() as int);
    let m = expanded_singles(rs);
    assert forall|i: int| 0 <= i < a.single_aliases.len() implies free_of(
        Mark::Value,
        (#[trigger] a.single_aliases[i]).1.0,
    ) by {
        lemma_unmarked(rs.single_aliases[i].1.0);
    }
    lemma_rounds_free(a.single_aliases, cyclic, MAX_ROUNDS as nat);
    let b = RuleSetV { single_aliases: m, ..a };
    let c = pass_ruleset(Pass::SingleAliases, b);
    let d = pass_ruleset(Pass::Colours, c);
    let out = post_processed(rs);
    assert forall|i: int| 0 <= i < out.aliases.len() implies is_processed(
        (#[trigger] out.aliases[i]).1.0,
    ) by {
        lemma_unmarked(rs.aliases[i].1.0);
        lemma_inlined_free(unmarked(rs.aliases[i].1.0), m);
        lemma_tail_passes(c.aliases[i].1.0);
        assert(d.aliases[i].1.0 == coloured_root(c.aliases[i].1.0));
    }
    assert forall|i: int| 0 <= i < out.single_aliases.len() implies is_processed(
        (#[trigger] out.single_aliases[i]).1.0,
    ) by {
        assert(free_of(Mark::Value, m[i].1.0));
        lemma_inlined_free(m[i].1.0, m);
        lemma_tail_passes(c.single_aliases[i].1.0);
        assert(d.single_aliases[i].1.0 == coloured_root(c.single_aliases[i].1.0));
    }
    assert forall|i: int| 0 <= i < out.root_rules.len() implies (match #[trigger] out.root_rules[i] {
        RootRuleV::AliasRule(_, r) => is_processed(r.0),
        RootRuleV::SingleAliasRule(_, r) => is_processed(r.0),
        RootRuleV::TypeRule(_, r) => is_processed(r.0),
    }) by {
        let x = match rs.root_rules[i] {
            RootRuleV::AliasRule(_, r) => r.0,
            RootRuleV::SingleAliasRule(_, r) => r.0,
            RootRuleV::TypeRule(_, r) => r.0,
        };
        lemma_unmarked(x);
        lemma_inlined_free(unmarked(x), m);
        lemma_tail_passes(inlined_root(unmarked(x), m));
        assert(a.root_rules[i] == pass_root_rule(
            Pass::ValueMarkers,
            rs.root_rules[i],
            rs.single_aliases,
        ));
        assert(c.root_rules[i] == pass_root_rule(Pass::SingleAliases, a.root_rules[i], m));
        assert(d.root_rules[i] == pass_root_rule(
            Pass::Colours,
            c.root_rules[i],
            c.single_aliases,
        ));
    }
}

/// Post-processing keeps the number and the names of the aliases, of the single
/// aliases and of the root rules, in order.
pub proof fn law_post_process_keeps_names(rs: RuleSetV)
    ensures
        ({
            let out = post_processed(rs);
            &&& out.aliases.len() == rs.aliases.len()
            &&& out.single_aliases.len() == rs.single_aliases.len()
            &&& out.root_rules.len() == rs.root_rules.len()
            &&& forall|i: int|
                0 <= i < rs.aliases.len() ==> (#[trigger] out.aliases[i]).0 == rs.aliases[i].0
                    && out.aliases[i].1.1 == rs.aliases[i].1.1
            &&& forall|i: int|
                0 <= i < rs.single_aliases.len() ==> (#[trigger] out.single_aliases[i]).0
                    == rs.single_aliases[i].0
        }),
{
    let a = pass_ruleset(Pass::ValueMarkers, rs);
    let cyclic = cyclic_names(rs.single_aliases, rs.single_aliases.len() as int);
    lemma_rounds_names(a.single_aliases, cyclic, MAX_ROUNDS as nat);
}

proof fn lemma_rounds_names(s: AliasesV, cyclic: Seq<Seq<char>>, rounds: nat)
    ensures
        inline_rounds(s, cyclic, rounds).len() == s.len(),
        forall|i: int|
            0 <= i < s.len() ==> (#[trigger] inline_rounds(s, cyclic, rounds)[i]).0 == s[i].0,
    decreases rounds,
{
    let open = without(s, cyclic, s.len() as int);
    if rounds > 0 && aliases_have_ref(s, alias_names(open)) {
        lemma_rounds_names(inlined_aliases(s, open), cyclic, (rounds - 1) as nat);
    }
}

// ---------------------------------------------------------------------------
// Single aliases that refer to each other

/// The names that count as cyclic are exactly those that reach themselves.
pub proof fn law_cyclic_names(m: AliasesV, name: Seq<char>)
    ensures
        cyclic_names(m, m.len() as int).contains(name) <==> is_cyclic(m, name),
{
    lemma_cyclic_names(m, name, m.len() as int);
    if is_cyclic(m, name) {
        let k = choose|k: nat| k > 0 && #[trigger] reaches_in(m, name, name, k);
        let c = choose|c: Seq<char>| #[trigger]
            refers(m, name, c) && reaches_in(m, c, name, (k - 1) as nat);
        lemma_found_at(m, name, 0);
    }
}

proof fn lemma_cyclic_names(m: AliasesV, name: Seq<char>, n: int)
    requires
        0 <= n <= m.len(),
    ensures
        cyclic_names(m, n).contains(name) <==> (is_cyclic(m, name) && exists|i: int|
            0 <= i < n && (#[trigger] m[i]).0 == name),
    decreases n,
{
    if n > 0 {
        lemma_cyclic_names(m, name, n - 1);
        let head = cyclic_names(m, n - 1);
        let last = m[n - 1].0;
        lemma_cyclic_names(m, last, n - 1);
        assert(head.push(last).contains(name) <==> head.contains(name) || name == last) by {
            let all = head.push(last);
            if head.contains(name) {
                let i = choose|i: int| 0 <= i < head.len() && head[i] == name;
                assert(all[i] == name);
            }
            if name == last {
                assert(all[head.len() as int] == name);
            }
        }
    }
}

/// The rule is a field or a block.
pub open spec fn is_field_or_block(rt: RuleTypeV) -> bool {
    rt is LeafRule || rt is NodeRule
}

/// Every single alias is a field or a block.
pub open spec fn are_fields_or_blocks(m: AliasesV) -> bool {
    forall|i: int| 0 <= i < m.len() ==> is_field_or_block((#[trigger] m[i]).1.0)
}

/// No path along the references from a rule through the single aliases that are
/// defined is longer than `d`.
pub open spec fn nests_within(m: AliasesV, rt: RuleTypeV, d: nat) -> bool
    decreases d, rt, 0int,
{
    match single_ref(rt) {
        Some(name) => match find_single(m, name, 0) {
            Some(body) => d > 0 && nests_within(m, body, (d - 1) as nat),
            None => true,
        },
        None => match rt {
            RuleTypeV::NodeRule { rules, .. } => list_nests_within(
                m,
                rules,
                d,
                rules.len() as int,
            ),
            RuleTypeV::ValueClauseRule { rules } => list_nests_within(
                m,
                rules,
                d,
                rules.len() as int,
            ),
            RuleTypeV::SubtypeRule { rules, .. } => list_nests_within(
                m,
                rules,
                d,
                rules.len() as int,
            ),
            _ => true,
        },
    }
}

/// [`nests_within`] of the first `n` rules.
pub open spec fn list_nests_within(m: AliasesV, rules: Seq<RuleV>, d: nat, n: int) -> bool
    decreases d, rules, n,
{
    n <= 0 || n > rules.len() || (list_nests_within(m, rules, d, n - 1) && nests_within(
        m,
        rules[n - 1].0,
        d,
    ))
}

/// The references of every single alias nest within `d`.
pub open spec fn aliases_nest_within(m: AliasesV, d: nat) -> bool {
    forall|i: int| 0 <= i < m.len() ==> nests_within(m, (#[trigger] m[i]).1.0, d)
}

proof fn lemma_list_nests(m: AliasesV, rules: Seq<RuleV>, d: nat, n: int)
    requires
        0 <= n <= rules.len(),
    ensures
        list_nests_within(m, rules, d, n) <==> forall|i: int|
            0 <= i < n ==> nests_within(m, (#[trigger] rules[i]).0, d),
    decreases n,
{
    if n > 0 {
        lemma_list_nests(m, rules, d, n - 1);
    }
}

proof fn lemma_list_refs(rules: Seq<RuleV>, names: Seq<Seq<char>>, n: int)
    requires
        0 <= n <= rules.len(),
    ensures
        list_has_ref(rules, names, n) <==> exists|i: int|
            0 <= i < n && has_ref((#[trigger] rules[i]).0, names),
    decreases n,
{
    if n > 0 {
        lemma_list_refs(rules, names, n - 1);
        if has_ref(rules[n - 1].0, names) {
            assert(has_ref(rules[n - 1].0, names));
        }
    }
}

proof fn lemma_names_found(m: AliasesV, name: Seq<char>)
    ensures
        alias_names(m).contains(name) <==> find_single(m, name, 0) is Some,
{
    lemma_found_at(m, name, 0);
    if find_single(m, name, 0) is Some {
        let j = choose|j: int| 0 <= j < m.len() && (#[trigger] m[j]).0 == name;
        assert(alias_names(m)[j] == name);
    } else if alias_names(m).contains(name) {
        let j = choose|j: int| 0 <= j < m.len() && alias_names(m)[j] == name;
        assert(m[j].0 == name);
    }
}

/// References that nest within no depth at all are none.
proof fn lemma_nests_none(m: AliasesV, rt: RuleTypeV)
    ensures
        nests_within(m, rt, 0) <==> !has_ref(rt, alias_names(m)),
    decreases rt, 0int,
{
    match single_ref(rt) {
        Some(name) => lemma_names_found(m, name),
        None => match rt {
            RuleTypeV::NodeRule { rules, .. } => lemma_nests_none_list(
                m,
                rules,
                rules.len() as int,
            ),
            RuleTypeV::ValueClauseRule { rules } => lemma_nests_none_list(
                m,
                rules,
                rules.len() as int,
            ),
            RuleTypeV::SubtypeRule { rules, .. } => lemma_nests_none_list(
                m,
                rules,
                rules.len() as int,
            ),
            _ => {},
        },
    }
}

proof fn lemma_nests_none_list(m: AliasesV, rules: Seq<RuleV>, n: int)
    requires
        0 <= n <= rules.len(),
    ensures
        list_nests_within(m, rules, 0, n) <==> !list_has_ref(rules, alias_names(m), n),
    decreases rules, n,
{
    if n > 0 {
        lemma_nests_none_list(m, rules, n - 1);
        lemma_nests_none(m, rules[n - 1].0);
    }
}

/// What a rule refers to nests one level less deep.
proof fn lemma_ref_nests(m: AliasesV, rt: RuleTypeV, name: Seq<char>, d: nat)
    requires
        nests_within(m, rt, d),
        refs_of(rt).contains(name),
    ensures
        find_single(m, name, 0) matches Some(body) ==> d > 0 && nests_within(
            m,
            body,
            (d - 1) as nat,
        ),
    decreases rt, 0int,
{
    match single_ref(rt) {
        Some(_) => {},
        None => match rt {
            RuleTypeV::NodeRule { rules, .. } => lemma_ref_nests_list(
                m,
                rules,
                name,
                d,
                rules.len() as int,
            ),
            RuleTypeV::ValueClauseRule { rules } => lemma_ref_nests_list(
                m,
                rules,
                name,
                d,
                rules.len() as int,
            ),
            RuleTypeV::SubtypeRule { rules, .. } => lemma_ref_nests_list(
                m,
                rules,
                name,
                d,
                rules.len() as int,
            ),
            _ => {},
        },
    }
}

proof fn lemma_ref_nests_list(m: AliasesV, rules: Seq<RuleV>, name: Seq<char>, d: nat, n: int)
    requires
        0 <= n <= rules.len(),
        list_nests_within(m, rules, d, n),
        list_refs_of(rules, n).contains(name),
    ensures
        find_single(m, name, 0) matches Some(body) ==> d > 0 && nests_within(
            m,
            body,
            (d - 1) as nat,
        ),
    decreases rules, n,
{
    let head = list_refs_of(rules, n - 1);
    let last = refs_of(rules[n - 1].0);
    assert(head.contains(name) || last.contains(name)) by {
        let i = choose|i: int| 0 <= i < (head + last).len() && (head + last)[i] == name;
        if i >= head.len() {
            assert(last[i - head.len()] == name);
        }
    }
    if head.contains(name) {
        lemma_ref_nests_list(m, rules, name, d, n - 1);
    } else {
        lemma_ref_nests(m, rules[n - 1].0, name, d);
    }
}

/// What `k` references lead to nests `k` levels less deep.
proof fn lemma_path_nests(m: AliasesV, a: Seq<char>, b: Seq<char>, k: nat, d: nat)
    requires
        reaches_in(m, a, b, k),
        find_single(m, b, 0) is Some,
        find_single(m, a, 0) matches Some(body) && nests_within(m, body, d),
    ensures
        k <= d,
        find_single(m, b, 0) matches Some(body) && nests_within(m, body, (d - k) as nat),
    decreases k,
{
    if k > 0 {
        let c = choose|c: Seq<char>| #[trigger]
            refers(m, a, c) && reaches_in(m, c, b, (k - 1) as nat);
        if k > 1 {
            let e = choose|e: Seq<char>| #[trigger]
                refers(m, c, e) && reaches_in(m, e, b, (k - 2) as nat);
        }
        lemma_ref_nests(m, find_single(m, a, 0).unwrap(), c, d);
        lemma_path_nests(m, c, b, (k - 1) as nat, (d - 1) as nat);
    }
}

proof fn lemma_not_cyclic(m: AliasesV, name: Seq<char>, d: nat)
    requires
        find_single(m, name, 0) matches Some(body) && nests_within(m, body, d),
    ensures
        !is_cyclic(m, name),
    decreases d,
{
    if is_cyclic(m, name) {
        let k = choose|k: nat| k > 0 && #[trigger] reaches_in(m, name, name, k);
        lemma_path_nests(m, name, name, k, d);
        lemma_not_cyclic(m, name, (d - k) as nat);
    }
}

proof fn lemma_none_cyclic(m: AliasesV, d: nat)
    requires
        aliases_nest_within(m, d),
    ensures
        cyclic_names(m, m.len() as int) == Seq::<Seq<char>>::empty(),
{
    let c = cyclic_names(m, m.len() as int);
    if c.len() > 0 {
        let name = c[0];
        assert(c.contains(name));
        law_cyclic_names(m, name);
        lemma_cyclic_names(m, name, m.len() as int);
        lemma_found_at(m, name, 0);
        lemma_not_cyclic(m, name, d);
    }
    assert(c =~= Seq::empty());
}

proof fn lemma_without_none(s: AliasesV, n: int)
    requires
        0 <= n <= s.len(),
    ensures
        without(s, Seq::empty(), n) == s.take(n),
    decreases n,
{
    if n > 0 {
        lemma_without_none(s, n - 1);
        assert(s.take(n) =~= s.take(n - 1).push(s[n - 1]));
    } else {
        assert(s.take(0) =~= Seq::empty());
    }
}

proof fn lemma_found_inlined(s: AliasesV, m: AliasesV, name: Seq<char>, i: int)
    requires
        0 <= i,
    ensures
        find_single(inlined_aliases(s, m), name, i) == (match find_single(s, name, i) {
            Some(body) => Some(inlined_root(body, m)),
            None => None,
        }),
    decreases s.len() - i,
{
    if i < s.len() && s[i].0 != name {
        lemma_found_inlined(s, m, name, i + 1);
    }
}

proof fn lemma_inlined_root_is(rt: RuleTypeV, m: AliasesV)
    requires
        are_fields_or_blocks(m),
    ensures
        inlined_root(rt, m) == inlined(rt, m),
        is_field_or_block(rt) ==> is_field_or_block(inlined(rt, m)),
{
    match single_ref(rt) {
        Some(name) => lemma_found_at(m, name, 0),
        None => {},
    }
}

/// A round halves the depth of a rule whose references it replaces.
proof fn lemma_halved(m: AliasesV, rt: RuleTypeV, d: nat)
    requires
        are_fields_or_blocks(m),
        nests_within(m, rt, d),
    ensures
        nests_within(inlined_aliases(m, m), inlined(rt, m), d / 2),
    decreases d, rt, 0int,
{
    let next = inlined_aliases(m, m);
    match single_ref(rt) {
        Some(name) => {
            lemma_found_inlined(m, m, name, 0);
            lemma_found_at(m, name, 0);
            match find_single(m, name, 0) {
                Some(body) => {
                    let x = inlined(rt, m);
                    let e = (d - 1) as nat;
                    match body {
                        RuleTypeV::LeafRule { right, .. } => {
                            assert(single_ref(x) == single_ref(body));
                            assert(nests_within(m, x, e) == nests_within(m, body, e));
                        },
                        RuleTypeV::NodeRule { rules, .. } => {
                            assert(nests_within(m, body, e) == list_nests_within(
                                m,
                                rules,
                                e,
                                rules.len() as int,
                            ));
                            assert(nests_within(m, x, e) == list_nests_within(
                                m,
                                rules,
                                e,
                                rules.len() as int,
                            ));
                        },
                        _ => {},
                    }
                    lemma_referred(m, x, (d - 1) as nat);
                },
                None => {},
            }
        },
        None => match rt {
            RuleTypeV::NodeRule { rules, .. } => lemma_halved_list(m, rules, d, rules.len() as int),
            RuleTypeV::ValueClauseRule { rules } => lemma_halved_list(
                m,
                rules,
                d,
                rules.len() as int,
            ),
            RuleTypeV::SubtypeRule { rules, .. } => lemma_halved_list(
                m,
                rules,
                d,
                rules.len() as int,
            ),
            _ => {},
        },
    }
}

proof fn lemma_halved_list(m: AliasesV, rules: Seq<RuleV>, d: nat, n: int)
    requires
        0 <= n <= rules.len(),
        are_fields_or_blocks(m),
        list_nests_within(m, rules, d, n),
    ensures
        inlined_list(rules, m, n).len() == n,
        list_nests_within(inlined_aliases(m, m), inlined_list(rules, m, n), d / 2, n),
    decreases d, rules, n,
{
    if n > 0 {
        lemma_halved_list(m, rules, d, n - 1);
        lemma_halved(m, rules[n - 1].0, d);
        let next = inlined_aliases(m, m);
        let head = inlined_list(rules, m, n - 1);
        let all = inlined_list(rules, m, n);
        lemma_list_nests(next, head, d / 2, n - 1);
        lemma_list_nests(next, all, d / 2, n);
        assert forall|i: int| 0 <= i < n implies nests_within(
            next,
            (#[trigger] all[i]).0,
            d / 2,
        ) by {
            if i < n - 1 {
                assert(all[i] == head[i]);
            }
        }
    }
}

/// A round halves the depth of what a rule refers to.
proof fn lemma_referred(m: AliasesV, rt: RuleTypeV, d: nat)
    requires
        are_fields_or_blocks(m),
        nests_within(m, rt, d),
    ensures
        nests_within(inlined_aliases(m, m), rt, (d + 1) / 2),
    decreases d, rt, 0int,
{
    match single_ref(rt) {
        Some(name) => {
            lemma_found_inlined(m, m, name, 0);
            match find_single(m, name, 0) {
                Some(body) => {
                    lemma_halved(m, body, (d - 1) as nat);
                    lemma_inlined_root_is(body, m);
                    assert(((d + 1) / 2 - 1) as nat == ((d - 1) as nat) / 2);
                },
                None => {},
            }
        },
        None => match rt {
            RuleTypeV::NodeRule { rules, .. } => lemma_referred_list(
                m,
                rules,
                d,
                rules.len() as int,
            ),
            RuleTypeV::ValueClauseRule { rules } => lemma_referred_list(
                m,
                rules,
                d,
                rules.len() as int,
            ),
            RuleTypeV::SubtypeRule { rules, .. } => lemma_referred_list(
                m,
                rules,
                d,
                rules.len() as int,
            ),
            _ => {},
        },
    }
}

proof fn lemma_referred_list(m: AliasesV, rules: Seq<RuleV>, d: nat, n: int)
    requires
        0 <= n <= rules.len(),
        are_fields_or_blocks(m),
        list_nests_within(m, rules, d, n),
    ensures
        list_nests_within(inlined_aliases(m, m), rules, (d + 1) / 2, n),
    decreases d, rules, n,
{
    if n > 0 {
        lemma_referred_list(m, rules, d, n - 1);
        lemma_referred(m, rules[n - 1].0, d);
    }
}

/// The least depth that so many rounds do not reach.
pub open spec fn depth_of_rounds(rounds: nat) -> nat
    decreases rounds,
{
    if rounds == 0 {
        1
    } else {
        2 * depth_of_rounds((rounds - 1) as nat)
    }
}

proof fn lemma_rounds_expand(s: AliasesV, rounds: nat, d: nat)
    requires
        are_fields_or_blocks(s),
        aliases_nest_within(s, d),
        d < depth_of_rounds(rounds),
    ensures
        are_fields_or_blocks(inline_rounds(s, Seq::empty(), rounds)),
        aliases_nest_within(inline_rounds(s, Seq::empty(), rounds), 0),
    decreases rounds,
{
    lemma_without_none(s, s.len() as int);
    assert(s.take(s.len() as int) =~= s);
    if rounds > 0 {
        if aliases_have_ref(s, alias_names(s)) {
            let next = inlined_aliases(s, s);
            assert forall|i: int| 0 <= i < next.len() implies is_field_or_block(
                (#[trigger] next[i]).1.0,
            ) && nests_within(next, next[i].1.0, d / 2) by {
                let x = s[i].1.0;
                assert(is_field_or_block(x) && nests_within(s, x, d));
                lemma_inlined_root_is(x, s);
                lemma_halved(s, x, d);
            }
            lemma_rounds_expand(next, (rounds - 1) as nat, d / 2);
        } else {
            assert forall|i: int| 0 <= i < s.len() implies nests_within(
                s,
                (#[trigger] s[i]).1.0,
                0,
            ) by {
                lemma_nests_none(s, s[i].1.0);
            }
        }
    }
}

proof fn lemma_found_unmarked(s: AliasesV, name: Seq<char>, i: int)
    requires
        0 <= i,
    ensures
        find_single(pass_aliases(Pass::ValueMarkers, s, s), name, i) == (match find_single(
            s,
            name,
            i,
        ) {
            Some(body) => Some(unmarked(body)),
            None => None,
        }),
    decreases s.len() - i,
{
    if i < s.len() && s[i].0 != name {
        lemma_found_unmarked(s, name, i + 1);
    }
}

proof fn lemma_unmarked_nests(m: AliasesV, rt: RuleTypeV, d: nat)
    requires
        nests_within(m, rt, d),
    ensures
        nests_within(pass_aliases(Pass::ValueMarkers, m, m), unmarked(rt), d),
    decreases d, rt, 0int,
{
    match single_ref(rt) {
        Some(name) => {
            lemma_found_unmarked(m, name, 0);
            match find_single(m, name, 0) {
                Some(body) => lemma_unmarked_nests(m, body, (d - 1) as nat),
                None => {},
            }
        },
        None => match rt {
            RuleTypeV::NodeRule { rules, .. } => lemma_unmarked_nests_list(
                m,
                rules,
                d,
                rules.len() as int,
            ),
            RuleTypeV::ValueClauseRule { rules } => lemma_unmarked_nests_list(
                m,
                rules,
                d,
                rules.len() as int,
            ),
            RuleTypeV::SubtypeRule { rules, .. } => lemma_unmarked_nests_list(
                m,
                rules,
                d,
                rules.len() as int,
            ),
            _ => {},
        },
    }
}

proof fn lemma_unmarked_nests_list(m: AliasesV, rules: Seq<RuleV>, d: nat, n: int)
    requires
        0 <= n <= rules.len(),
        list_nests_within(m, rules, d, n),
    ensures
        unmarked_list(rules, n).len() == n,
        list_nests_within(pass_aliases(Pass::ValueMarkers, m, m), unmarked_list(rules, n), d, n),
    decreases d, rules, n,
{
    if n > 0 {
        lemma_unmarked_nests_list(m, rules, d, n - 1);
        lemma_unmarked_nests(m, rules[n - 1].0, d);
        let next = pass_aliases(Pass::ValueMarkers, m, m);
        let head = unmarked_list(rules, n - 1);
        let all = unmarked_list(rules, n);
        lemma_list_nests(next, head, d, n - 1);
        lemma_list_nests(next, all, d, n);
        assert forall|i: int| 0 <= i < n implies nests_within(next, (#[trigger] all[i]).0, d) by {
            if i < n - 1 {
                assert(all[i] == head[i]);
            }
        }
    }
}

/// Where the aliases hold no reference, replacing by them leaves none.
proof fn lemma_inlined_refs(rt: RuleTypeV, m: AliasesV)
    requires
        are_fields_or_blocks(m),
        aliases_nest_within(m, 0),
    ensures
        !has_ref(inlined(rt, m), alias_names(m)),
    decreases rt, 0int,
{
    match single_ref(rt) {
        Some(name) => {
            lemma_names_found(m, name);
            lemma_found_at(m, name, 0);
            match find_single(m, name, 0) {
                Some(body) => lemma_nests_none(m, body),
                None => {},
            }
        },
        None => match rt {
            RuleTypeV::NodeRule { rules, .. } => lemma_inlined_refs_list(
                rules,
                m,
                rules.len() as int,
            ),
            RuleTypeV::ValueClauseRule { rules } => lemma_inlined_refs_list(
                rules,
                m,
                rules.len() as int,
            ),
            RuleTypeV::SubtypeRule { rules, .. } => lemma_inlined_refs_list(
                rules,
                m,
                rules.len() as int,
            ),
            _ => {},
        },
    }
}

proof fn lemma_inlined_refs_list(rules: Seq<RuleV>, m: AliasesV, n: int)
    requires
        0 <= n <= rules.len(),
        are_fields_or_blocks(m),
        aliases_nest_within(m, 0),
    ensures
        inlined_list(rules, m, n).len() == n,
        !list_has_ref(inlined_list(rules, m, n), alias_names(m), n),
    decreases rules, n,
{
    if n > 0 {
        lemma_inlined_refs_list(rules, m, n - 1);
        lemma_inlined_refs(rules[n - 1].0, m);
        let head = inlined_list(rules, m, n - 1);
        let all = inlined_list(rules, m, n);
        lemma_list_refs(head, alias_names(m), n - 1);
        lemma_list_refs(all, alias_names(m), n);
        assert forall|i: int| 0 <= i < n implies !has_ref(
            (#[trigger] all[i]).0,
            alias_names(m),
        ) by {
            if i < n - 1 {
                assert(all[i] == head[i]);
            }
        }
    }
}

proof fn lemma_coloured_refs(r: RuleV, names: Seq<Seq<char>>)
    requires
        !has_ref(r.0, names),
    ensures
        !list_has_ref(coloured(r), names, coloured(r).len() as int),
    decreases r, 0int,
{
    let c = coloured(r);
    lemma_list_refs(c, names, c.len() as int);
    match r.0 {
        RuleTypeV::LeafRule { .. } => {
            let one = seq![component_rule()];
            lemma_list_refs(one, names, 1);
            assert(!has_ref(one[0].0, names));
        },
        RuleTypeV::NodeRule { rules, .. } => lemma_coloured_refs_list(
            rules,
            names,
            rules.len() as int,
        ),
        RuleTypeV::ValueClauseRule { rules } => lemma_coloured_refs_list(
            rules,
            names,
            rules.len() as int,
        ),
        RuleTypeV::SubtypeRule { rules, .. } => lemma_coloured_refs_list(
            rules,
            names,
            rules.len() as int,
        ),
        _ => {},
    }
    assert forall|i: int| 0 <= i < c.len() implies !has_ref((#[trigger] c[i]).0, names) by {}
}

proof fn lemma_coloured_refs_list(rules: Seq<RuleV>, names: Seq<Seq<char>>, n: int)
    requires
        0 <= n <= rules.len(),
        !list_has_ref(rules, names, n),
    ensures
        !list_has_ref(coloured_list(rules, n), names, coloured_list(rules, n).len() as int),
    decreases rules, n,
{
    if n > 0 {
        lemma_coloured_refs_list(rules, names, n - 1);
        lemma_coloured_refs(rules[n - 1], names);
        let a = coloured_list(rules, n - 1);
        let b = coloured(rules[n - 1]);
        lemma_list_refs(a, names, a.len() as int);
        lemma_list_refs(b, names, b.len() as int);
        lemma_list_refs(a + b, names, (a + b).len() as int);
        assert forall|i: int| 0 <= i < (a + b).len() implies !has_ref(
            (#[trigger] (a + b)[i]).0,
            names,
        ) by {
            if i < a.len() {
                assert((a + b)[i] == a[i]);
            } else {
                assert((a + b)[i] == b[i - a.len()]);
            }
        }
    }
}

proof fn lemma_ignoring_refs(rt: RuleTypeV, names: Seq<Seq<char>>)
    requires
        !has_ref(rt, names),
    ensures
        !has_ref(ignoring(rt), names),
    decreases rt, 0int,
{
    match rt {
        RuleTypeV::NodeRule { rules, .. } => lemma_ignoring_refs_list(
            rules,
            names,
            rules.len() as int,
        ),
        RuleTypeV::ValueClauseRule { rules } => lemma_ignoring_refs_list(
            rules,
            names,
            rules.len() as int,
        ),
        RuleTypeV::SubtypeRule { rules, .. } => lemma_ignoring_refs_list(
            rules,
            names,
            rules.len() as int,
        ),
        _ => {},
    }
}

proof fn lemma_ignoring_refs_list(rules: Seq<RuleV>, names: Seq<Seq<char>>, n: int)
    requires
        0 <= n <= rules.len(),
        !list_has_ref(rules, names, n),
    ensures
        ignoring_list(rules, n).len() == n,
        !list_has_ref(ignoring_list(rules, n), names, n),
    decreases rules, n,
{
    if n > 0 {
        lemma_ignoring_refs_list(rules, names, n - 1);
        lemma_ignoring_refs(rules[n - 1].0, names);
        let head = ignoring_list(rules, n - 1);
        let all = ignoring_list(rules, n);
        lemma_list_refs(head, names, n - 1);
        lemma_list_refs(all, names, n);
        assert forall|i: int| 0 <= i < n implies !has_ref((#[trigger] all[i]).0, names) by {
            if i < n - 1 {
                assert(all[i] == head[i]);
            }
        }
    }
}

proof fn lemma_tail_refs(rt: RuleTypeV, names: Seq<Seq<char>>)
    requires
        !has_ref(rt, names),
    ensures
        !has_ref(ignoring_root(coloured_root(rt)), names),
{
    match body_rules(rt) {
        Some(rules) => {
            lemma_coloured_refs_list(rules, names, rules.len() as int);
            let body = coloured_list(rules, rules.len() as int);
            lemma_ignoring_refs_list(body, names, body.len() as int);
        },
        None => {},
    }
}

/// The rule of a root rule.
pub open spec fn root_rule_type(r: RootRuleV) -> RuleTypeV {
    match r {
        RootRuleV::AliasRule(_, x) => x.0,
        RootRuleV::SingleAliasRule(_, x) => x.0,
        RootRuleV::TypeRule(_, x) => x.0,
    }
}

/// No rule of a rule set refers, at any depth, to a single alias of one of the names.
pub open spec fn is_free_of_refs(rs: RuleSetV, names: Seq<Seq<char>>) -> bool {
    &&& forall|i: int|
        0 <= i < rs.root_rules.len() ==> !has_ref(
            root_rule_type(#[trigger] rs.root_rules[i]),
            names,
        )
    &&& forall|i: int| 0 <= i < rs.aliases.len() ==> !has_ref((#[trigger] rs.aliases[i]).1.0, names)
    &&& forall|i: int|
        0 <= i < rs.single_aliases.len() ==> !has_ref((#[trigger] rs.single_aliases[i]).1.0, names)
}

/// Where the references among the single aliases, each a field or a block, form no
/// cycle and nest at most 1023 deep, post-processing leaves no reference to a single
/// alias that is defined, in no rule and at no depth, and refuses nothing.
pub proof fn law_single_aliases_expanded(rs: RuleSetV, d: nat)
    requires
        are_fields_or_blocks(rs.single_aliases),
        aliases_nest_within(rs.single_aliases, d),
        d <= 1023,
    ensures
        is_free_of_refs(post_processed(rs), alias_names(rs.single_aliases)),
        expansion_refusals(rs) == Seq::<ExpansionErrorV>::empty(),
{
    let s = rs.single_aliases;
    let names = alias_names(s);
    let none = Seq::<Seq<char>>::empty();
    let a = pass_ruleset(Pass::ValueMarkers, rs);
    lemma_none_cyclic(s, d);
    assert forall|i: int| 0 <= i < a.single_aliases.len() implies is_field_or_block(
        (#[trigger] a.single_aliases[i]).1.0,
    ) && nests_within(a.single_aliases, a.single_aliases[i].1.0, d) by {
        assert(is_field_or_block(s[i].1.0));
        lemma_unmarked_nests(s, s[i].1.0, d);
    }
    reveal_with_fuel(depth_of_rounds, 11);
    assert(depth_of_rounds(10) == 1024);
    lemma_rounds_expand(a.single_aliases, MAX_ROUNDS as nat, d);
    lemma_rounds_names(a.single_aliases, none, MAX_ROUNDS as nat);
    let m = inline_rounds(a.single_aliases, none, MAX_ROUNDS as nat);
    assert(alias_names(m) =~= names);
    let b = RuleSetV { single_aliases: m, ..a };
    let c = pass_ruleset(Pass::SingleAliases, b);
    let e = pass_ruleset(Pass::Colours, c);
    let out = post_processed(rs);
    assert forall|i: int| 0 <= i < out.root_rules.len() implies !has_ref(
        root_rule_type(#[trigger] out.root_rules[i]),
        names,
    ) by {
        let x = unmarked(root_rule_type(rs.root_rules[i]));
        lemma_inlined_root_is(x, m);
        lemma_inlined_refs(x, m);
        lemma_tail_refs(inlined_root(x, m), names);
        assert(a.root_rules[i] == pass_root_rule(Pass::ValueMarkers, rs.root_rules[i], s));
        assert(c.root_rules[i] == pass_root_rule(Pass::SingleAliases, a.root_rules[i], m));
        assert(e.root_rules[i] == pass_root_rule(
            Pass::Colours,
            c.root_rules[i],
            c.single_aliases,
        ));
    }
    assert forall|i: int| 0 <= i < out.aliases.len() implies !has_ref(
        (#[trigger] out.aliases[i]).1.0,
        names,
    ) by {
        let x = unmarked(rs.aliases[i].1.0);
        lemma_inlined_root_is(x, m);
        lemma_inlined_refs(x, m);
        lemma_tail_refs(inlined_root(x, m), names);
        assert(e.aliases[i].1.0 == coloured_root(c.aliases[i].1.0));
    }
    assert forall|i: int| 0 <= i < out.single_aliases.len() implies !has_ref(
        (#[trigger] out.single_aliases[i]).1.0,
        names,
    ) by {
        let x = m[i].1.0;
        lemma_inlined_root_is(x, m);
        lemma_inlined_refs(x, m);
        lemma_tail_refs(inlined_root(x, m), names);
        assert(e.single_aliases[i].1.0 == coloured_root(c.single_aliases[i].1.0));
    }
    assert forall|i: int| 0 <= i < m.len() implies !has_ref((#[trigger] m[i]).1.0, names) by {
        assert(nests_within(m, m[i].1.0, 0));
        lemma_nests_none(m, m[i].1.0);
    }
    lemma_nothing_refused(m, s.len() as int);
}

proof fn lemma_nothing_refused(s: AliasesV, n: int)
    requires
        0 <= n <= s.len(),
        forall|i: int| 0 <= i < s.len() ==> !has_ref((#[trigger] s[i]).1.0, alias_names(s)),
    ensures
        refusals(s, Seq::empty(), n) == Seq::<ExpansionErrorV>::empty(),
    decreases n,
{
    if n > 0 {
        lemma_nothing_refused(s, n - 1);
        lemma_without_none(s, s.len() as int);
        assert(s.take(s.len() as int) =~= s);
        assert(!has_ref(s[n - 1].1.0, alias_names(s)));
    }
}

} // verus!
