//! What holds of checks as a whole.

use vstd::prelude::*;

use crate::ast::{Child, Comment, Leaf, LeafValue, SourceRange, Value};
use crate::cardinality::{
    Bounds, bounds_of, cardinality_problems, clause_count, counted_key, first_pos, key_count,
    number_problems, numbers_problems, rule_key, rule_number_problems,
};
use crate::common::{enum_accepts, enum_named, value_text};
use crate::context::{CtxV, LocDiagnosticV, command_diagnostics, missing_languages};
use crate::diagnostic::{ErrorV, coded};
use crate::error_codes::{
    CodeV, ErrorSeverity, cw121, cw223, cw251, cw261, cw281, hash_text, message_of,
};
use crate::field_match::{
    any_specific, is_specific, matching, matching_rules, overloads, rule_takes_key, takes_key,
};
use crate::game_common::{block_of, common_problems, exact_count, is_unique};
use crate::game_hoi4::{default_hints, default_hints_in};
use crate::game_stellaris::{
    all_chain_problems, all_pretriggers, chain_problems_below, designs_problems, event_pretriggers,
    in_triggers, own_chain_problems, part_problems, parts_problems, pretriggers_among,
    pretriggers_below, top_problems, tops_problems,
};
use crate::game_structural::{
    BoolState, child_hints, else_follows, hints, joined_by, not_advice_for, own_hints,
};
use crate::game_validators::game_problems;
use crate::key_buffer::folded;
use crate::leaf_check::single_value_problems;
use crate::loc_field::{
    command_problems, missing_in, modifier_names, registry_or_empty, template_parts,
    with_instances, with_modifier,
};
use crate::missing_loc::{instance_lacks, is_required, required_key, type_lacks, types_lack};
use crate::position::{
    Cursor, RuleContextV, alias_category, context_at, context_from, entity_context, is_in,
    leaf_context_of, overload_rules, with_overloads,
};
use crate::resolve::{
    CandidateV, ResolvedV, candidates_at, grandchild_type, heaviest, key_weight, path_matches,
    resolved, rules_named, type_at, winner,
};
use crate::rule_converter::unquoted;
use crate::rule_core::{
    alias_problems, alias_scope_problems, block_problems, chain_problems, clause_rule,
    each_child_problems, fewest_in_overloads, fewest_problems, first_math, has_math,
    in_block_problems, in_math_problems, is_math_base, is_math_field, is_math_operator,
    leaf_problems, loop_names, math_category, math_problems, operand_problems, opt_block_scope,
    overload_problems, pos_of, rule_problems,
};
use crate::rules_types::{
    FieldV, LinkInputV, RuleTypeV, RuleV, ScopeInputV, SubTypeV, TypeDefV, TypeLocalisationV,
};
use crate::ruleset::RuleSetV;
use crate::scope::{
    declared, declared_id, registry_of, scope_fits, under_names, with_all_parents,
    with_link_inputs,
};
use crate::scope_engine::{RegistryV, ScopeId, ScopeV};
use crate::subtype::{
    active_subtypes, any_subtype_rule, declared_rules, expanded, fitting, flattened, is_excluded,
    merged_rules, not_excluded, optional_rules, pushed_scope, values_like,
};
use crate::text::{CharSet, ascii_lower, contains_ci, eq_ci, lowercase, replace_char_spec, trim_of};
use crate::type_index::{IndexV, InstanceV, instances_of};
use crate::validate::{
    all_softened, entity_problems, file_diagnostics, in_wrapper_problems, opt_root_scope,
    root_problems, roots_problems, rules_problems, wrapper_problems,
};

verus! {

// ---------------------------------------------------------------------------
// Several rules for one leaf

/// A leaf has no more problems than under any of the rules for it, and those under
/// one of them.
pub proof fn law_fewest_problems(
    ctx: CtxV,
    l: Leaf,
    rules: Seq<RuleV>,
    sc: Option<ScopeV>,
    loop_vars: Seq<Seq<char>>,
    n: int,
)
    requires
        0 < n <= rules.len(),
    ensures
        forall|i: int|
            0 <= i < n ==> fewest_problems(ctx, l, rules, sc, loop_vars, n).len()
                <= #[trigger] rule_problems(ctx, l, rules[i], sc, loop_vars).len(),
        exists|i: int|
            0 <= i < n && fewest_problems(ctx, l, rules, sc, loop_vars, n)
                == #[trigger] rule_problems(ctx, l, rules[i], sc, loop_vars),
    decreases n,
{
    let last = rule_problems(ctx, l, rules[n - 1], sc, loop_vars);
    if n > 1 {
        law_fewest_problems(ctx, l, rules, sc, loop_vars, n - 1);
        let before = fewest_problems(ctx, l, rules, sc, loop_vars, n - 1);
        let i = choose|i: int|
            0 <= i < n - 1 && before == #[trigger] rule_problems(
                ctx,
                l,
                rules[i],
                sc,
                loop_vars,
            );
        assert(before == rule_problems(ctx, l, rules[i], sc, loop_vars));
    }
}

/// A leaf that is valid under any of the rules for it is valid, but for a block that
/// one of them makes an arithmetic expression.
pub proof fn law_any_rule_suffices(
    ctx: CtxV,
    l: Leaf,
    rules: Seq<RuleV>,
    sc: Option<ScopeV>,
    loop_vars: Seq<Seq<char>>,
    i: int,
)
    requires
        ({
            let m = matching(rules, unquoted(l.key@), ctx.rs, ctx.idx);
            &&& 0 <= i < m.len()
            &&& rule_problems(ctx, l, m[i], sc, loop_vars).len() == 0
            &&& l.value is Clause ==> first_math(m, 0) is None
        }),
    ensures
        in_block_problems(ctx, Child::Leaf(l), rules, sc, loop_vars).len() == 0,
{
    let m = matching(rules, unquoted(l.key@), ctx.rs, ctx.idx);
    law_fewest_problems(ctx, l, m, sc, loop_vars, m.len() as int);
    assert(rule_problems(ctx, l, m[i], sc, loop_vars).len() == 0);
}

proof fn lemma_fewest_in_overloads(
    ctx: CtxV,
    category: Seq<char>,
    l: Leaf,
    ov: Seq<(RuleV, bool)>,
    sc: Option<ScopeV>,
    loop_vars: Seq<Seq<char>>,
    n: int,
    i: int,
)
    requires
        0 <= i < n <= ov.len(),
        overload_problems(ctx, category, l, ov[i].0, sc, loop_vars) is Some,
    ensures
        fewest_in_overloads(ctx, category, l, ov, sc, loop_vars, n) is Some,
        fewest_in_overloads(ctx, category, l, ov, sc, loop_vars, n)->0.len()
            <= overload_problems(ctx, category, l, ov[i].0, sc, loop_vars)->0.len(),
    decreases n,
{
    if i < n - 1 {
        lemma_fewest_in_overloads(ctx, category, l, ov, sc, loop_vars, n - 1, i);
    }
}

/// A usage of an alias that is valid under any of the overloads has no problems but
/// those of scope, unless it is a block that an overload makes an arithmetic expression.
pub proof fn law_any_overload_suffices(
    ctx: CtxV,
    category: Seq<char>,
    l: Leaf,
    sc: Option<ScopeV>,
    loop_vars: Seq<Seq<char>>,
    i: int,
)
    requires
        ({
            let ov = overloads(ctx.rs, ctx.idx, category, unquoted(l.key@));
            &&& 0 <= i < ov.len()
            &&& overload_problems(ctx, category, l, ov[i].0, sc, loop_vars) == Some(
                Seq::<ErrorV>::empty(),
            )
            &&& l.value is Clause ==> !has_math(ov)
        }),
    ensures
        ({
            let key = unquoted(l.key@);
            let ov = overloads(ctx.rs, ctx.idx, category, key);
            alias_problems(ctx, category, l, sc, loop_vars) == chain_problems(
                ctx,
                key,
                l.pos.start,
                sc,
            ) + alias_scope_problems(ctx, category, key, l.pos.start, sc, ov)
        }),
{
    let key = unquoted(l.key@);
    let ov = overloads(ctx.rs, ctx.idx, category, key);
    lemma_fewest_in_overloads(ctx, category, l, ov, sc, loop_vars, ov.len() as int, i);
    let best = fewest_in_overloads(ctx, category, l, ov, sc, loop_vars, ov.len() as int)->0;
    assert(best =~= Seq::<ErrorV>::empty());
    let first = chain_problems(ctx, key, l.pos.start, sc) + alias_scope_problems(
        ctx,
        category,
        key,
        l.pos.start,
        sc,
        ov,
    );
    assert(first + best =~= first);
}

proof fn lemma_matching_rules(
    rules: Seq<RuleV>,
    key: Seq<char>,
    rs: RuleSetV,
    idx: Option<IndexV>,
    specific: bool,
    n: int,
)
    requires
        0 <= n <= rules.len(),
    ensures
        forall|r: RuleV|
            #[trigger] matching_rules(rules, key, rs, idx, specific, n).contains(r) <==> (
            exists|i: int|
                0 <= i < n && rules[i] == r && rule_takes_key(
                    (#[trigger] rules[i]).0,
                    key,
                    rs,
                    idx,
                ) && (!specific || is_specific(rules[i].0, key))),
    decreases n,
{
    if n > 0 {
        lemma_matching_rules(rules, key, rs, idx, specific, n - 1);
        let before = matching_rules(rules, key, rs, idx, specific, n - 1);
        let now = matching_rules(rules, key, rs, idx, specific, n);
        assert forall|r: RuleV| #[trigger] now.contains(r) <==> (exists|i: int|
            0 <= i < n && rules[i] == r && rule_takes_key(
                (#[trigger] rules[i]).0,
                key,
                rs,
                idx,
            ) && (!specific || is_specific(rules[i].0, key))) by {
            let last_in = rule_takes_key(rules[n - 1].0, key, rs, idx) && (!specific
                || is_specific(rules[n - 1].0, key));
            if now.contains(r) {
                if last_in && r == rules[n - 1] {
                    assert(rules[n - 1] == r);
                } else {
                    let x = choose|x: int| 0 <= x < now.len() && now[x] == r;
                    assert(x < before.len() && before[x] == r);
                    assert(before.contains(r));
                }
            }
            if exists|i: int|
                0 <= i < n && rules[i] == r && rule_takes_key(
                    (#[trigger] rules[i]).0,
                    key,
                    rs,
                    idx,
                ) && (!specific || is_specific(rules[i].0, key)) {
                let i = choose|i: int|
                    0 <= i < n && rules[i] == r && rule_takes_key(
                        (#[trigger] rules[i]).0,
                        key,
                        rs,
                        idx,
                    ) && (!specific || is_specific(rules[i].0, key));
                if i == n - 1 {
                    assert(now[now.len() - 1] == r);
                } else {
                    assert(rules[i] == r);
                    assert(before.contains(r));
                    let x = choose|x: int| 0 <= x < before.len() && before[x] == r;
                    assert(now[x] == r);
                }
            }
        }
    }
}

/// Where a rule is for a key by name, only such rules are for it; else all that
/// accept it are.
pub proof fn law_specific_rules_win(
    rules: Seq<RuleV>,
    key: Seq<char>,
    rs: RuleSetV,
    idx: Option<IndexV>,
    r: RuleV,
)
    ensures
        matching(rules, key, rs, idx).contains(r) <==> rules.contains(r) && rule_takes_key(
            r.0,
            key,
            rs,
            idx,
        ) && (any_specific(rules, key) ==> is_specific(r.0, key)),
{
    lemma_matching_rules(
        rules,
        key,
        rs,
        idx,
        any_specific(rules, key),
        rules.len() as int,
    );
    if rules.contains(r) {
        let i = choose|i: int| 0 <= i < rules.len() && rules[i] == r;
        assert(rules[i] == r);
    }
}

/// Among the first `n` children of an arithmetic expression, or in an operand of it, at
/// any depth, stands one whose key is neither `value` nor an operator.
pub open spec fn has_stray(ctx: CtxV, ch: Seq<Child>, n: int) -> bool
    decreases ch, 0int, n,
{
    if n <= 0 || n > ch.len() {
        false
    } else {
        has_stray(ctx, ch, n - 1) || is_or_has_stray(ctx, ch[n - 1])
    }
}

/// The child is such a stray one, or is an operand with one in it.
pub open spec fn is_or_has_stray(ctx: CtxV, c: Child) -> bool
    decreases c, 0int, 0int,
{
    match c {
        Child::Leaf(l) => {
            let key = unquoted(l.key@);
            let ov = overloads(ctx.rs, ctx.idx, math_category(), key);
            if is_math_base(key) || has_math(ov) {
                match l.value {
                    Value::Clause(inner) => has_stray(ctx, inner@, inner@.len() as int),
                    _ => false,
                }
            } else {
                !is_math_operator(ctx, key)
            }
        },
        _ => false,
    }
}

proof fn lemma_stray_reported(
    ctx: CtxV,
    ch: Seq<Child>,
    sc: Option<ScopeV>,
    loop_vars: Seq<Seq<char>>,
    n: int,
)
    requires
        has_stray(ctx, ch, n),
    ensures
        math_problems(ctx, ch, sc, loop_vars, n).len() > 0,
    decreases ch, 0int, n,
{
    if has_stray(ctx, ch, n - 1) {
        lemma_stray_reported(ctx, ch, sc, loop_vars, n - 1);
    } else {
        lemma_stray_child_reported(ctx, ch[n - 1], sc, loop_vars);
    }
}

proof fn lemma_stray_child_reported(
    ctx: CtxV,
    c: Child,
    sc: Option<ScopeV>,
    loop_vars: Seq<Seq<char>>,
)
    requires
        is_or_has_stray(ctx, c),
    ensures
        in_math_problems(ctx, c, sc, loop_vars).len() > 0,
    decreases c, 0int, 0int,
{
    match c {
        Child::Leaf(l) => match l.value {
            Value::Clause(inner) => {
                if has_stray(ctx, inner@, inner@.len() as int) {
                    lemma_stray_reported(ctx, inner@, sc, loop_vars, inner@.len() as int);
                }
            },
            _ => {},
        },
        _ => {},
    }
}

/// A block that a rule makes an arithmetic expression is reported where a key in it, or
/// in an operand of it at any depth, is neither `value` nor an operator.
pub proof fn law_math_is_strict(
    ctx: CtxV,
    l: Leaf,
    right: FieldV,
    sc: Option<ScopeV>,
    loop_vars: Seq<Seq<char>>,
)
    requires
        is_math_field(right),
        l.value matches Value::Clause(inner) && has_stray(ctx, inner@, inner@.len() as int),
    ensures
        leaf_problems(ctx, l, right, sc, loop_vars).len() > 0,
        forall|category: Seq<char>|
            has_math(overloads(ctx.rs, ctx.idx, category, unquoted(l.key@)))
                ==> #[trigger] alias_problems(ctx, category, l, sc, loop_vars).len() > 0,
{
    match l.value {
        Value::Clause(inner) => lemma_stray_reported(
            ctx,
            inner@,
            sc,
            loop_vars,
            inner@.len() as int,
        ),
        _ => {},
    }
}

/// A field that a rule ignores is valid whatever its value.
pub proof fn law_ignored_fields(
    ctx: CtxV,
    l: Leaf,
    r: RuleV,
    sc: Option<ScopeV>,
    loop_vars: Seq<Seq<char>>,
)
    requires
        match r.0 {
            RuleTypeV::LeafRule { left, .. } => left is IgnoreField,
            RuleTypeV::NodeRule { left, .. } => left is IgnoreField,
            _ => false,
        },
    ensures
        rule_problems(ctx, l, r, sc, loop_vars).len() == 0,
{
}

proof fn lemma_children_before(
    ctx: CtxV,
    a: Seq<Child>,
    b: Seq<Child>,
    rules: Seq<RuleV>,
    sc: Option<ScopeV>,
    loop_vars: Seq<Seq<char>>,
    n: int,
)
    requires
        0 <= n <= a.len(),
    ensures
        each_child_problems(ctx, a + b, rules, sc, loop_vars, n) == each_child_problems(
            ctx,
            a,
            rules,
            sc,
            loop_vars,
            n,
        ),
    decreases n,
{
    if n > 0 {
        lemma_children_before(ctx, a, b, rules, sc, loop_vars, n - 1);
        assert((a + b)[n - 1] == a[n - 1]);
    }
}

proof fn lemma_children_behind(
    ctx: CtxV,
    a: Seq<Child>,
    b: Seq<Child>,
    rules: Seq<RuleV>,
    sc: Option<ScopeV>,
    loop_vars: Seq<Seq<char>>,
    n: int,
)
    requires
        0 <= n <= b.len(),
    ensures
        each_child_problems(ctx, a + b, rules, sc, loop_vars, a.len() + n) == each_child_problems(
            ctx,
            a,
            rules,
            sc,
            loop_vars,
            a.len() as int,
        ) + each_child_problems(ctx, b, rules, sc, loop_vars, n),
    decreases n,
{
    let first = each_child_problems(ctx, a, rules, sc, loop_vars, a.len() as int);
    if n > 0 {
        lemma_children_behind(ctx, a, b, rules, sc, loop_vars, n - 1);
        assert((a + b)[a.len() + n - 1] == b[n - 1]);
        let rest = each_child_problems(ctx, b, rules, sc, loop_vars, n - 1);
        let last = in_block_problems(ctx, b[n - 1], rules, sc, loop_vars);
        assert((first + rest) + last =~= first + (rest + last));
    } else {
        lemma_children_before(ctx, a, b, rules, sc, loop_vars, a.len() as int);
        assert(first + Seq::<ErrorV>::empty() =~= first);
    }
}

/// What a child is held to does not depend on its siblings: neither the scope that one
/// enters nor the variables that a loop sets reach another.
pub proof fn law_siblings_do_not_matter(
    ctx: CtxV,
    a: Seq<Child>,
    b: Seq<Child>,
    rules: Seq<RuleV>,
    sc: Option<ScopeV>,
    loop_vars: Seq<Seq<char>>,
)
    ensures
        each_child_problems(ctx, a + b, rules, sc, loop_vars, (a + b).len() as int)
            == each_child_problems(ctx, a, rules, sc, loop_vars, a.len() as int)
            + each_child_problems(ctx, b, rules, sc, loop_vars, b.len() as int),
{
    lemma_children_behind(ctx, a, b, rules, sc, loop_vars, b.len() as int);
}

/// The case of a field's name does not matter: neither for the rules that name it nor
/// for how often it counts.
pub proof fn law_case_of_fields(
    s: Seq<char>,
    a: Seq<char>,
    b: Seq<char>,
    rs: RuleSetV,
    idx: Option<IndexV>,
)
    requires
        eq_ci(a, b),
    ensures
        takes_key(FieldV::SpecificField(s), a, rs, idx) == takes_key(
            FieldV::SpecificField(s),
            b,
            rs,
            idx,
        ),
        counted_key(a) == counted_key(b),
{
    assert(ascii_lower(a).len() == a.len() && ascii_lower(b).len() == b.len());
    assert forall|i: int| 0 <= i < a.len() implies (a[i] == '"') == (#[trigger] b[i] == '"') by {
        assert(ascii_lower(a)[i] == ascii_lower(b)[i]);
    }
    if a.len() >= 2 {
        assert(b[0] == b[0] && b[b.len() - 1] == b[b.len() - 1]);
        assert(ascii_lower(unquoted(a)) =~= ascii_lower(unquoted(b))) by {
            assert forall|i: int| 0 <= i < a.len() implies #[trigger] ascii_lower(a)[i]
                == ascii_lower(b)[i] by {}
            let x = unquoted(a);
            let y = unquoted(b);
            let off: int = if x.len() < a.len() {
                1
            } else {
                0
            };
            assert(x.len() == y.len());
            assert forall|i: int| 0 <= i < x.len() implies ascii_lower(x)[i] == ascii_lower(
                y,
            )[i] by {
                assert(x[i] == a[i + off] && y[i] == b[i + off]);
                assert(ascii_lower(a)[i + off] == ascii_lower(b)[i + off]);
            }
        }
    }
}

/// The case of a value does not matter to an enum.
pub proof fn law_case_of_enum_values(rs: RuleSetV, name: Seq<char>, a: Seq<char>, b: Seq<char>)
    requires
        eq_ci(a, b),
    ensures
        enum_accepts(rs, name, a) == enum_accepts(rs, name, b),
{
    assert(ascii_lower(a).len() == a.len() && ascii_lower(b).len() == b.len());
    match enum_named(rs, name) {
        Some(e) => {
            assert(contains_ci(e.values, a) == contains_ci(e.values, b));
        },
        None => {},
    }
}

// ---------------------------------------------------------------------------
// Subtypes

proof fn lemma_flattened(rules: Seq<RuleV>, n: int)
    requires
        0 <= n <= rules.len(),
    ensures
        forall|i: int|
            0 <= i < flattened(rules, n).len() ==> !((#[trigger] flattened(rules, n)[i]).0
                is SubtypeRule),
    decreases rules, n,
{
    if n > 0 {
        lemma_flattened(rules, n - 1);
        match rules[n - 1].0 {
            RuleTypeV::SubtypeRule { rules: inner, .. } => {
                lemma_flattened(inner, inner.len() as int);
            },
            _ => {},
        }
    }
}

/// No rules of a subtype are left inside others once they are flattened.
pub proof fn law_flattened(rules: Seq<RuleV>)
    ensures
        !any_subtype_rule(flattened(rules, rules.len() as int)),
{
    lemma_flattened(rules, rules.len() as int);
}

proof fn lemma_optional_rules(rules: Seq<RuleV>, n: int)
    requires
        0 <= n <= rules.len(),
    ensures
        optional_rules(rules, n).len() == n,
        forall|i: int| 0 <= i < n ==> (#[trigger] optional_rules(rules, n)[i]).1.min == 0,
    decreases n,
{
    if n > 0 {
        lemma_optional_rules(rules, n - 1);
    }
}

/// The rule is one of these, or is not required.
pub open spec fn own_or_optional(rules: Seq<RuleV>, r: RuleV) -> bool {
    r.1.min == 0 || rules.contains(r)
}

proof fn lemma_expanded(rules: Seq<RuleV>, active: Seq<Seq<char>>, n: int)
    requires
        0 <= n <= rules.len(),
    ensures
        forall|i: int|
            0 <= i < expanded(rules, active, n).len() ==> own_or_optional(
                rules,
                #[trigger] expanded(rules, active, n)[i],
            ),
    decreases n,
{
    if n > 0 {
        lemma_expanded(rules, active, n - 1);
        match rules[n - 1].0 {
            RuleTypeV::SubtypeRule { rules: inner, .. } => {
                lemma_optional_rules(inner, inner.len() as int);
            },
            _ => {
                assert(rules.contains(rules[n - 1]));
            },
        }
        let before = expanded(rules, active, n - 1);
        let now = expanded(rules, active, n);
        assert forall|i: int| 0 <= i < now.len() implies own_or_optional(
            rules,
            #[trigger] now[i],
        ) by {
            if i < before.len() {
                assert(now[i] == before[i]);
            }
        }
    }
}

proof fn lemma_declared_rules(s: Seq<SubTypeV>, active: Seq<Seq<char>>, n: int)
    requires
        0 <= n <= s.len(),
    ensures
        forall|i: int|
            0 <= i < declared_rules(s, active, n).len() ==> (#[trigger] declared_rules(
                s,
                active,
                n,
            )[i]).1.min == 0,
    decreases n,
{
    if n > 0 {
        lemma_declared_rules(s, active, n - 1);
        lemma_optional_rules(s[n - 1].rules, s[n - 1].rules.len() as int);
    }
}

/// A field that only a subtype declares is never required: every rule for an instance
/// is one of its type, or is optional.
pub proof fn law_subtype_fields_are_optional(
    t: TypeDefV,
    inner: Seq<RuleV>,
    active: Seq<Seq<char>>,
    i: int,
)
    requires
        0 <= i < merged_rules(t, inner, active).len(),
    ensures
        own_or_optional(inner, merged_rules(t, inner, active)[i]),
{
    let m = merged_rules(t, inner, active);
    lemma_expanded(inner, active, inner.len() as int);
    lemma_declared_rules(t.subtypes, active, t.subtypes.len() as int);
    if t.subtypes.len() == 0 {
        assert(inner.contains(m[i]));
    } else if !any_subtype_rule(inner) {
        if i < inner.len() {
            assert(m[i] == inner[i]);
            assert(inner.contains(inner[i]));
        } else {
            let d = declared_rules(t.subtypes, active, t.subtypes.len() as int);
            assert(m[i] == d[i - inner.len()]);
        }
    }
}

proof fn lemma_not_excluded(s: Seq<SubTypeV>, names: Seq<Seq<char>>, n: int)
    requires
        0 <= n <= names.len(),
    ensures
        forall|i: int|
            0 <= i < not_excluded(s, names, n).len() ==> names.contains(
                #[trigger] not_excluded(s, names, n)[i],
            ) && !is_excluded(s, not_excluded(s, names, n)[i], names),
    decreases n,
{
    if n > 0 {
        lemma_not_excluded(s, names, n - 1);
        assert(names.contains(names[n - 1]));
        let before = not_excluded(s, names, n - 1);
        let now = not_excluded(s, names, n);
        assert forall|i: int| 0 <= i < now.len() implies names.contains(#[trigger] now[i])
            && !is_excluded(s, now[i], names) by {
            if i < before.len() {
                assert(now[i] == before[i]);
            }
        }
    }
}

/// An active subtype fits the instance, and goes with every other that does.
pub proof fn law_active_subtypes(
    t: TypeDefV,
    ch: Seq<Child>,
    node_key: Option<Seq<char>>,
    rs: RuleSetV,
    idx: Option<IndexV>,
    i: int,
)
    requires
        0 <= i < active_subtypes(t, ch, node_key, rs, idx).len(),
    ensures
        ({
            let names = fitting(t.subtypes, ch, node_key, rs, idx, t.subtypes.len() as int);
            let name = active_subtypes(t, ch, node_key, rs, idx)[i];
            names.contains(name) && !is_excluded(t.subtypes, name, names)
        }),
{
    let names = fitting(t.subtypes, ch, node_key, rs, idx, t.subtypes.len() as int);
    lemma_not_excluded(t.subtypes, names, names.len() as int);
}

/// An instance of a type that asks for warnings only has no errors.
pub proof fn law_warning_only(
    ctx: CtxV,
    t: TypeDefV,
    ch: Seq<Child>,
    inner: Seq<RuleV>,
    sc: Option<ScopeV>,
    node_key: Option<Seq<char>>,
    pos: (u32, u16),
    i: int,
)
    requires
        t.warning_only,
        0 <= i < entity_problems(ctx, t, ch, inner, sc, node_key, pos).len(),
    ensures
        entity_problems(ctx, t, ch, inner, sc, node_key, pos)[i].severity
            != ErrorSeverity::Error,
{
}

// ---------------------------------------------------------------------------
// Numbers of children

/// Every rule is optional and allows as many children as there are.
pub open spec fn all_unbounded(rules: Seq<RuleV>, n: int) -> bool {
    forall|i: int|
        0 <= i < rules.len() ==> (#[trigger] rules[i]).1.min <= 0 && rules[i].1.max >= n
}

proof fn lemma_bounds(rules: Seq<RuleV>, key: Seq<char>, n: int, most: int)
    requires
        0 <= n <= rules.len(),
        all_unbounded(rules, most),
    ensures
        bounds_of(rules, key, n) matches Some(b) ==> b.min <= 0 && b.max >= most,
    decreases n,
{
    if n > 0 {
        lemma_bounds(rules, key, n - 1, most);
        assert(rules[n - 1].1.min <= 0 && rules[n - 1].1.max >= most);
    }
}

proof fn lemma_counts(ch: Seq<Child>, key: Seq<char>, right: FieldV, rs: RuleSetV, n: int)
    requires
        0 <= n <= ch.len(),
    ensures
        0 <= key_count(ch, key, n) <= n,
        0 <= values_like(ch, right, rs, n) <= n,
        0 <= clause_count(ch, n) <= n,
    decreases n,
{
    if n > 0 {
        lemma_counts(ch, key, right, rs, n - 1);
    }
}

proof fn lemma_no_number_problems(
    ctx: CtxV,
    ch: Seq<Child>,
    rules: Seq<RuleV>,
    at: (u32, u16),
    n: int,
)
    requires
        0 <= n <= rules.len(),
        all_unbounded(rules, ch.len() as int),
    ensures
        numbers_problems(ctx, ch, rules, at, n).len() == 0,
    decreases n,
{
    if n > 0 {
        lemma_no_number_problems(ctx, ch, rules, at, n - 1);
        let r = rules[n - 1];
        assert(r.1.min <= 0 && r.1.max >= ch.len());
        match r.0 {
            RuleTypeV::LeafValueRule { right } => {
                lemma_counts(ch, Seq::empty(), right, ctx.rs, ch.len() as int);
            },
            RuleTypeV::ValueClauseRule { .. } => {
                lemma_counts(ch, Seq::empty(), FieldV::ScalarField, ctx.rs, ch.len() as int);
            },
            _ => match rule_key(r.0) {
                Some(s) => {
                    let key = ascii_lower(s);
                    lemma_counts(ch, key, FieldV::ScalarField, ctx.rs, ch.len() as int);
                    lemma_bounds(rules, key, rules.len() as int, ch.len() as int);
                },
                None => {},
            },
        }
    }
}

/// Rules that require nothing and allow as many children as there are complain about
/// no number of them.
pub proof fn law_unbounded_rules(
    ctx: CtxV,
    ch: Seq<Child>,
    rules: Seq<RuleV>,
    block_pos: (u32, u16),
)
    requires
        all_unbounded(rules, ch.len() as int),
    ensures
        cardinality_problems(ctx, ch, rules, block_pos).len() == 0,
{
    lemma_no_number_problems(
        ctx,
        ch,
        rules,
        first_pos(ch, 0, block_pos),
        rules.len() as int,
    );
}

/// A least number that is not insisted on is never missed.
pub proof fn law_soft_minimum(
    file: Seq<char>,
    sev: ErrorSeverity,
    what: Seq<char>,
    n: int,
    b: Bounds,
    under_at: (u32, u16),
    over_at: (u32, u16),
)
    requires
        !b.strict,
        n <= b.max,
    ensures
        number_problems(file, sev, what, n, b, under_at, over_at).len() == 0,
{
}

// ---------------------------------------------------------------------------
// Types by path

pub proof fn lemma_heaviest(c: Seq<CandidateV>, key: Option<Seq<char>>, n: int)
    requires
        0 <= n <= c.len(),
    ensures
        heaviest(c, key, n).1 >= 0,
        forall|i: int|
            0 <= i < n ==> (match key_weight((#[trigger] c[i]).type_def, key) {
                Some(k) => c[i].base_weight + k <= heaviest(c, key, n).1,
                None => true,
            }),
        heaviest(c, key, n).0 matches Some(t) ==> exists|i: int|
            0 <= i < n && (#[trigger] c[i]).type_def == t && key_weight(t, key) is Some
                && c[i].base_weight + key_weight(t, key)->0 == heaviest(c, key, n).1,
    decreases n,
{
    if n > 0 {
        lemma_heaviest(c, key, n - 1);
        let before = heaviest(c, key, n - 1);
        let now = heaviest(c, key, n);
        if now != before {
            assert(c[n - 1].type_def == now.0->0);
        } else if before.0 is Some {
            let t = before.0->0;
            let i = choose|i: int|
                0 <= i < n - 1 && (#[trigger] c[i]).type_def == t && key_weight(t, key) is Some
                    && c[i].base_weight + key_weight(t, key)->0 == before.1;
            assert(c[i].type_def == t);
        }
    }
}

/// The type that wins for a block is a candidate, and none outweighs it: a longer path
/// wins, and the key of a wrapper before a longer path.
pub proof fn law_most_specific_type_wins(c: Seq<CandidateV>, key: Option<Seq<char>>, t: TypeDefV)
    requires
        winner(c, key) == Some(t),
    ensures
        exists|i: int|
            0 <= i < c.len() && (#[trigger] c[i]).type_def == t && key_weight(t, key) is Some && (
            forall|j: int|
                0 <= j < c.len() && key_weight((#[trigger] c[j]).type_def, key) is Some
                    ==> c[j].base_weight + key_weight(c[j].type_def, key)->0 <= c[i].base_weight
                    + key_weight(t, key)->0),
{
    lemma_heaviest(c, key, c.len() as int);
    let i = choose|i: int|
        0 <= i < c.len() && (#[trigger] c[i]).type_def == t && key_weight(t, key) is Some
            && c[i].base_weight + key_weight(t, key)->0 == heaviest(c, key, c.len() as int).1;
    assert(c[i].type_def == t);
}

/// Whether a path has backslashes or slashes does not matter.
pub proof fn law_backslashes(rs: RuleSetV, path: Seq<char>)
    ensures
        candidates_at(rs, replace_char_spec(path, '\\', '/')) == candidates_at(rs, path),
{
    let p = replace_char_spec(path, '\\', '/');
    assert(replace_char_spec(p, '\\', '/') =~= p);
}

// ---------------------------------------------------------------------------
// Scopes

/// In a scope of which nothing is known, everything may be used.
pub proof fn law_any_scope_is_lenient(reg: RegistryV, required: Seq<Seq<char>>)
    ensures
        scope_fits(reg, ScopeId::Any, required),
{
}

/// A command enters one scope if it leads to one, and leaves everything as it is if
/// not; it never changes the root or the callers.
pub proof fn law_command_enters_one_scope(sc: ScopeV, key: Seq<char>)
    ensures
        ({
            let a = sc.after(key);
            &&& a.registry == sc.registry && a.root == sc.root && a.from == sc.from
            &&& (sc.command(key) is NewScope || sc.command(key) is AnyScope)
                ==> a.stack.len() == sc.stack.len() + 1 && a.stack.drop_last() == sc.stack
            &&& !(sc.command(key) is NewScope || sc.command(key) is AnyScope) ==> a == sc
        }),
{
    let a = sc.after(key);
    if sc.command(key) is NewScope || sc.command(key) is AnyScope {
        assert(a.stack.drop_last() =~= sc.stack);
    }
}

proof fn lemma_under_names(
    m: Map<Seq<char>, ScopeId>,
    names: Seq<Seq<char>>,
    n: int,
    id: ScopeId,
    k: Seq<char>,
)
    requires
        0 <= n <= names.len(),
        m.contains_key(k),
    ensures
        under_names(m, names, n, id).contains_key(k),
    decreases n,
{
    if n > 0 {
        lemma_under_names(m, names, n - 1, id, k);
    }
}

proof fn lemma_declared(inputs: Seq<ScopeInputV>, n: int, i: int)
    requires
        0 <= i < n <= inputs.len(),
    ensures
        declared(inputs, n).by_name.contains_key(ascii_lower(inputs[i].name)),
    decreases n,
{
    let d = declared(inputs, n - 1);
    let si = inputs[n - 1];
    let id = declared_id(si, d.next);
    let named = d.by_name.insert(ascii_lower(si.name), id);
    if i < n - 1 {
        lemma_declared(inputs, n - 1, i);
    }
    lemma_under_names(
        named,
        si.aliases,
        si.aliases.len() as int,
        id,
        ascii_lower(inputs[i].name),
    );
}

proof fn lemma_links_keep_names(reg: RegistryV, links: Seq<LinkInputV>, n: int)
    requires
        0 <= n <= links.len(),
    ensures
        with_link_inputs(reg, links, n).by_name == reg.by_name,
    decreases n,
{
    if n > 0 {
        lemma_links_keep_names(reg, links, n - 1);
    }
}

/// Every scope that a configuration declares is found by its name, whatever its case.
pub proof fn law_declared_scopes_are_found(
    inputs: Seq<ScopeInputV>,
    links: Seq<LinkInputV>,
    i: int,
    name: Seq<char>,
)
    requires
        0 <= i < inputs.len(),
        eq_ci(inputs[i].name, name),
    ensures
        registry_of(inputs, links).id_of(name) is Some,
{
    lemma_declared(inputs, inputs.len() as int, i);
    let d = declared(inputs, inputs.len() as int);
    let named = RegistryV {
        by_name: d.by_name,
        scopes: d.scopes,
        links: Map::empty(),
        prefix_links: Seq::empty(),
    };
    let related = RegistryV {
        scopes: with_all_parents(named, inputs, inputs.len() as int),
        ..named
    };
    lemma_links_keep_names(related, links, links.len() as int);
}

// ---------------------------------------------------------------------------
// Keywords

/// The case of the key of a block does not matter to the hints on it.
pub proof fn law_case_of_keywords(
    a: Leaf,
    b: Leaf,
    parent: BoolState,
    follows: bool,
    not_advice: Seq<char>,
    file: Seq<char>,
)
    requires
        eq_ci(a.key@, b.key@),
        a.value == b.value,
        a.pos == b.pos,
    ensures
        child_hints(Child::Leaf(a), parent, follows, not_advice, file) == child_hints(
            Child::Leaf(b),
            parent,
            follows,
            not_advice,
            file,
        ),
{
}

/// Neither `AND` nor `OR` is redundant directly in a `NOT`.
pub proof fn law_not_is_neutral(
    l: Leaf,
    inner: Seq<Child>,
    follows: bool,
    not_advice: Seq<char>,
    file: Seq<char>,
    i: int,
)
    requires
        0 <= i < own_hints(l, inner, joined_by("not"@), follows, not_advice, file).len(),
    ensures
        own_hints(l, inner, joined_by("not"@), follows, not_advice, file)[i].code != Some(
            cw251().id,
        ),
{
    reveal_strlit("not");
    reveal_strlit("and");
    reveal_strlit("or");
    reveal_strlit("nor");
    reveal_strlit("CW251");
    reveal_strlit("CW223");
    reveal_strlit("CW121");
    reveal_strlit("CW281");
    assert(ascii_lower("not"@).len() == 3 && ascii_lower("and"@).len() == 3);
    assert(ascii_lower("not"@)[0] == 'n' && ascii_lower("and"@)[0] == 'a');
    assert(ascii_lower("or"@).len() == 2);
    assert(ascii_lower("nor"@)[1] == 'o' && ascii_lower("nor"@)[2] == 'r');
    assert(ascii_lower("not"@)[2] == 't');
    assert(cw251().id[2] == '2' && cw251().id[3] == '5');
    assert(cw223().id[3] == '2' && cw121().id[2] == '1' && cw281().id[3] == '8');
}

/// The leaf of the key at that place is the second one of a unique type, where its
/// repetition is reported.
pub open spec fn is_second_of(ch: Seq<Child>, key: Seq<char>, i: int) -> bool {
    &&& 0 <= i < ch.len()
    &&& ch[i] matches Child::Leaf(l) && l.key@ == key
    &&& exact_count(ch, key, i + 1) == 2
}

proof fn lemma_exact_count_grows(ch: Seq<Child>, key: Seq<char>, m: int, n: int)
    requires
        0 <= m <= n <= ch.len(),
    ensures
        exact_count(ch, key, m) <= exact_count(ch, key, n),
    decreases n,
{
    if m < n {
        lemma_exact_count_grows(ch, key, m, n - 1);
    }
}

proof fn lemma_second_place(ch: Seq<Child>, key: Seq<char>, n: int) -> (i: int)
    requires
        0 <= n <= ch.len(),
        exact_count(ch, key, n) >= 2,
    ensures
        0 <= i < n,
        is_second_of(ch, key, i),
    decreases n,
{
    if exact_count(ch, key, n - 1) >= 2 {
        lemma_second_place(ch, key, n - 1)
    } else {
        n - 1
    }
}

proof fn lemma_problem_at(
    rs: RuleSetV,
    file: Seq<char>,
    ch: Seq<Child>,
    i: int,
    n: int,
)
    requires
        0 <= i < n <= ch.len(),
        ch[i] matches Child::Leaf(l) && is_unique(rs, l.key@) && is_second_of(ch, l.key@, i),
    ensures
        exists|k: int|
            0 <= k < common_problems(rs, file, ch, n).len() && {
                let e = #[trigger] common_problems(rs, file, ch, n)[k];
                let l = ch[i]->Leaf_0;
                &&& e.code == Some(cw261().id)
                &&& e.line == l.pos.start.line && e.col == l.pos.start.col
            },
    decreases n,
{
    let now = common_problems(rs, file, ch, n);
    let before = common_problems(rs, file, ch, n - 1);
    if i == n - 1 {
        assert(now[before.len() as int] == now.last());
    } else {
        lemma_problem_at(rs, file, ch, i, n - 1);
        let k = choose|k: int|
            0 <= k < before.len() && {
                let e = #[trigger] before[k];
                let l = ch[i]->Leaf_0;
                &&& e.code == Some(cw261().id)
                &&& e.line == l.pos.start.line && e.col == l.pos.start.col
            };
        assert(now[k] == before[k]);
    }
}

/// A unique type that appears more than once is reported where it appears for the
/// second time, and that place is the only one.
pub proof fn law_repetition_reported_once(
    rs: RuleSetV,
    file: Seq<char>,
    ch: Seq<Child>,
    key: Seq<char>,
) -> (i: int)
    requires
        is_unique(rs, key),
        exact_count(ch, key, ch.len() as int) >= 2,
    ensures
        is_second_of(ch, key, i),
        forall|j: int| #[trigger] is_second_of(ch, key, j) ==> j == i,
        exists|k: int|
            0 <= k < common_problems(rs, file, ch, ch.len() as int).len() && {
                let e = #[trigger] common_problems(rs, file, ch, ch.len() as int)[k];
                let l = ch[i]->Leaf_0;
                &&& e.code == Some(cw261().id)
                &&& e.line == l.pos.start.line && e.col == l.pos.start.col
            },
{
    let i = lemma_second_place(ch, key, ch.len() as int);
    assert forall|j: int| #[trigger] is_second_of(ch, key, j) implies j == i by {
        if i < j {
            lemma_exact_count_grows(ch, key, i + 1, j);
        } else if j < i {
            lemma_exact_count_grows(ch, key, j + 1, i);
        }
    }
    lemma_problem_at(rs, file, ch, i, ch.len() as int);
    i
}

/// The removal of an empty `if` is not offered where an `else` would be left alone.
pub proof fn law_no_fix_before_an_else(
    l: Leaf,
    inner: Seq<Child>,
    parent: BoolState,
    not_advice: Seq<char>,
    file: Seq<char>,
    i: int,
)
    requires
        0 <= i < own_hints(l, inner, parent, true, not_advice, file).len(),
        own_hints(l, inner, parent, true, not_advice, file)[i].code == Some(cw121().id),
    ensures
        own_hints(l, inner, parent, true, not_advice, file)[i].fix is None,
{
    reveal_strlit("CW121");
    reveal_strlit("CW281");
    assert(cw121().id[2] != cw281().id[2]);
}

// ---------------------------------------------------------------------------
// Diagnostics

/// The hash of a diagnostic is that of its code, place and parameters; its column does
/// not matter.
pub proof fn law_hashes_agree(
    code: CodeV,
    file: Seq<char>,
    line: u32,
    col: u16,
    params: Seq<Seq<char>>,
)
    ensures
        ({
            let e = coded(code, file, line, col, params);
            hash_text(e.severity, e.file, e.line, e.message) == hash_text(
                code.severity,
                file,
                line,
                message_of(code, params),
            )
        }),
{
}

/// Every diagnostic names the file, and has a code.
pub open spec fn all_in_file(s: Seq<ErrorV>, file: Seq<char>) -> bool {
    forall|i: int| 0 <= i < s.len() ==> (#[trigger] s[i]).file == file && s[i].code is Some
}

proof fn lemma_numbers_in_file(
    ctx: CtxV,
    ch: Seq<Child>,
    rules: Seq<RuleV>,
    at: (u32, u16),
    n: int,
)
    requires
        0 <= n <= rules.len(),
    ensures
        all_in_file(numbers_problems(ctx, ch, rules, at, n), ctx.file),
    decreases n,
{
    if n > 0 {
        lemma_numbers_in_file(ctx, ch, rules, at, n - 1);
        let own = rule_number_problems(ctx, ch, rules, at, n - 1);
        assert(all_in_file(own, ctx.file));
    }
}

proof fn lemma_missing_in_file(
    file: Seq<char>,
    pos: SourceRange,
    key: Seq<char>,
    langs: Seq<Seq<char>>,
    n: int,
)
    requires
        0 <= n <= langs.len(),
    ensures
        all_in_file(missing_in(file, pos, key, langs, n), file),
    decreases n,
{
    if n > 0 {
        lemma_missing_in_file(file, pos, key, langs, n - 1);
    }
}

proof fn lemma_commands_in_file(
    d: Seq<LocDiagnosticV>,
    key: Seq<char>,
    pos: SourceRange,
    file: Seq<char>,
    reg: RegistryV,
    n: int,
)
    requires
        0 <= n <= d.len(),
    ensures
        all_in_file(command_problems(d, key, pos, file, reg, n), file),
    decreases n,
{
    if n > 0 {
        lemma_commands_in_file(d, key, pos, file, reg, n - 1);
    }
}

proof fn lemma_value_in_file(
    ctx: CtxV,
    leaf: Leaf,
    right: FieldV,
    sc: Option<ScopeV>,
    loop_vars: Seq<Seq<char>>,
)
    ensures
        all_in_file(single_value_problems(ctx, leaf, right, sc, loop_vars), ctx.file),
{
    match right {
        FieldV::LocalisationField { synced, is_inline } => {
            let key = trim_of(value_text(leaf.value), CharSet::One('"'));
            match ctx.loc {
                Some(loc) => {
                    let lower = folded(key);
                    let langs = missing_languages(
                        loc.languages,
                        lower,
                        loc.languages.len() as int,
                    );
                    lemma_missing_in_file(ctx.file, leaf.pos, key, langs, langs.len() as int);
                    let scope = match sc {
                        Some(s) => s.current(),
                        None => ScopeId::Any,
                    };
                    let d = command_diagnostics(loc.commands, lower, scope, 0);
                    lemma_commands_in_file(
                        d,
                        key,
                        leaf.pos,
                        ctx.file,
                        registry_or_empty(sc),
                        d.len() as int,
                    );
                },
                None => {},
            }
        },
        _ => {},
    }
}

proof fn lemma_block_in_file(
    ctx: CtxV,
    ch: Seq<Child>,
    rules: Seq<RuleV>,
    sc: Option<ScopeV>,
    loop_vars: Seq<Seq<char>>,
    block_pos: (u32, u16),
)
    ensures
        all_in_file(block_problems(ctx, ch, rules, sc, loop_vars, block_pos), ctx.file),
    decreases ch, 1int, 0int,
{
    let flat = flattened(rules, rules.len() as int);
    lemma_each_child_in_file(ctx, ch, flat, sc, loop_vars, ch.len() as int);
    lemma_numbers_in_file(ctx, ch, flat, first_pos(ch, 0, block_pos), flat.len() as int);
}

proof fn lemma_each_child_in_file(
    ctx: CtxV,
    ch: Seq<Child>,
    rules: Seq<RuleV>,
    sc: Option<ScopeV>,
    loop_vars: Seq<Seq<char>>,
    n: int,
)
    requires
        0 <= n <= ch.len(),
    ensures
        all_in_file(each_child_problems(ctx, ch, rules, sc, loop_vars, n), ctx.file),
    decreases ch, 0int, n,
{
    if n > 0 {
        lemma_each_child_in_file(ctx, ch, rules, sc, loop_vars, n - 1);
        lemma_child_in_file(ctx, ch[n - 1], rules, sc, loop_vars);
    }
}

proof fn lemma_child_in_file(
    ctx: CtxV,
    c: Child,
    rules: Seq<RuleV>,
    sc: Option<ScopeV>,
    loop_vars: Seq<Seq<char>>,
)
    ensures
        all_in_file(in_block_problems(ctx, c, rules, sc, loop_vars), ctx.file),
    decreases c, 0int, 0int,
{
    match c {
        Child::Leaf(l) => {
            let m = matching(rules, unquoted(l.key@), ctx.rs, ctx.idx);
            match first_math(m, 0) {
                Some(r) => lemma_rule_in_file(ctx, l, r, sc, loop_vars),
                None => {},
            }
            lemma_fewest_in_file(ctx, l, m, sc, loop_vars, m.len() as int);
        },
        Child::LeafValue(lv) => match lv.value {
            Value::Clause(inner) => match clause_rule(rules, 0) {
                Some(r) => lemma_block_in_file(
                    ctx,
                    inner@,
                    r,
                    sc,
                    loop_vars,
                    pos_of(lv.pos.start),
                ),
                None => {},
            },
            _ => {},
        },
        Child::Comment(_) => {},
    }
}

proof fn lemma_fewest_in_file(
    ctx: CtxV,
    l: Leaf,
    rules: Seq<RuleV>,
    sc: Option<ScopeV>,
    loop_vars: Seq<Seq<char>>,
    n: int,
)
    requires
        0 <= n <= rules.len(),
    ensures
        all_in_file(fewest_problems(ctx, l, rules, sc, loop_vars, n), ctx.file),
    decreases l, 5int, n,
{
    if n > 0 {
        lemma_fewest_in_file(ctx, l, rules, sc, loop_vars, n - 1);
        lemma_rule_in_file(ctx, l, rules[n - 1], sc, loop_vars);
    }
}

proof fn lemma_rule_in_file(
    ctx: CtxV,
    l: Leaf,
    r: RuleV,
    sc: Option<ScopeV>,
    loop_vars: Seq<Seq<char>>,
)
    ensures
        all_in_file(rule_problems(ctx, l, r, sc, loop_vars), ctx.file),
    decreases l, 4int, 0int,
{
    let key = unquoted(l.key@);
    match r.0 {
        RuleTypeV::LeafRule { left: FieldV::AliasField(category), .. } => {
            lemma_alias_in_file(ctx, category, l, sc, loop_vars);
        },
        RuleTypeV::NodeRule { left: FieldV::AliasField(category), .. } => {
            lemma_alias_in_file(ctx, category, l, sc, loop_vars);
        },
        RuleTypeV::LeafRule { right, .. } => {
            lemma_leaf_in_file(ctx, l, right, sc, loop_vars);
        },
        RuleTypeV::NodeRule { rules, .. } => match l.value {
            Value::Clause(inner) => {
                lemma_block_in_file(
                    ctx,
                    inner@,
                    rules,
                    opt_block_scope(sc, key, r.1, ctx.game, false),
                    loop_vars,
                    pos_of(l.pos.start),
                );
            },
            _ => {},
        },
        _ => {},
    }
}

proof fn lemma_alias_in_file(
    ctx: CtxV,
    category: Seq<char>,
    l: Leaf,
    sc: Option<ScopeV>,
    loop_vars: Seq<Seq<char>>,
)
    ensures
        all_in_file(alias_problems(ctx, category, l, sc, loop_vars), ctx.file),
    decreases l, 3int, 0int,
{
    let key = unquoted(l.key@);
    let ov = overloads(ctx.rs, ctx.idx, category, key);
    lemma_overloads_in_file(ctx, category, l, ov, sc, loop_vars, ov.len() as int);
    lemma_operand_in_file(ctx, l, sc, loop_vars);
}

proof fn lemma_overloads_in_file(
    ctx: CtxV,
    category: Seq<char>,
    l: Leaf,
    ov: Seq<(RuleV, bool)>,
    sc: Option<ScopeV>,
    loop_vars: Seq<Seq<char>>,
    n: int,
)
    requires
        0 <= n <= ov.len(),
    ensures
        fewest_in_overloads(ctx, category, l, ov, sc, loop_vars, n) matches Some(e)
            ==> all_in_file(e, ctx.file),
    decreases l, 2int, n,
{
    if n > 0 {
        lemma_overloads_in_file(ctx, category, l, ov, sc, loop_vars, n - 1);
        lemma_overload_in_file(ctx, category, l, ov[n - 1].0, sc, loop_vars);
    }
}

proof fn lemma_overload_in_file(
    ctx: CtxV,
    category: Seq<char>,
    l: Leaf,
    r: RuleV,
    sc: Option<ScopeV>,
    loop_vars: Seq<Seq<char>>,
)
    ensures
        overload_problems(ctx, category, l, r, sc, loop_vars) matches Some(e) ==> all_in_file(
            e,
            ctx.file,
        ),
    decreases l, 1int, 0int,
{
    match r.0 {
        RuleTypeV::LeafRule { right, .. } => {
            lemma_leaf_in_file(ctx, l, right, sc, loop_vars);
        },
        RuleTypeV::NodeRule { rules, .. } => match l.value {
            Value::Clause(inner) => {
                lemma_block_in_file(
                    ctx,
                    inner@,
                    rules,
                    opt_block_scope(sc, unquoted(l.key@), r.1, ctx.game, true),
                    loop_vars + loop_names(rules, inner@, rules.len() as int),
                    pos_of(l.pos.start),
                );
            },
            _ => {},
        },
        _ => {},
    }
}

proof fn lemma_leaf_in_file(
    ctx: CtxV,
    l: Leaf,
    right: FieldV,
    sc: Option<ScopeV>,
    loop_vars: Seq<Seq<char>>,
)
    ensures
        all_in_file(leaf_problems(ctx, l, right, sc, loop_vars), ctx.file),
    decreases l, 0int, 1int,
{
    lemma_value_in_file(ctx, l, right, sc, loop_vars);
    lemma_operand_in_file(ctx, l, sc, loop_vars);
}

proof fn lemma_operand_in_file(
    ctx: CtxV,
    l: Leaf,
    sc: Option<ScopeV>,
    loop_vars: Seq<Seq<char>>,
)
    ensures
        all_in_file(operand_problems(ctx, l, sc, loop_vars), ctx.file),
    decreases l, 0int, 0int,
{
    match l.value {
        Value::Clause(inner) => lemma_math_in_file(ctx, inner@, sc, loop_vars, inner@.len() as int),
        _ => {},
    }
}

proof fn lemma_math_in_file(
    ctx: CtxV,
    ch: Seq<Child>,
    sc: Option<ScopeV>,
    loop_vars: Seq<Seq<char>>,
    n: int,
)
    requires
        0 <= n <= ch.len(),
    ensures
        all_in_file(math_problems(ctx, ch, sc, loop_vars, n), ctx.file),
    decreases ch, 0int, n,
{
    if n > 0 {
        lemma_math_in_file(ctx, ch, sc, loop_vars, n - 1);
        lemma_math_child_in_file(ctx, ch[n - 1], sc, loop_vars);
    }
}

proof fn lemma_math_child_in_file(
    ctx: CtxV,
    c: Child,
    sc: Option<ScopeV>,
    loop_vars: Seq<Seq<char>>,
)
    ensures
        all_in_file(in_math_problems(ctx, c, sc, loop_vars), ctx.file),
    decreases c, 0int, 0int,
{
    match c {
        Child::Leaf(l) => {
            lemma_operand_in_file(ctx, l, sc, loop_vars);
            lemma_alias_in_file(ctx, math_category(), l, sc, loop_vars);
        },
        _ => {},
    }
}

proof fn lemma_entity_in_file(
    ctx: CtxV,
    t: TypeDefV,
    ch: Seq<Child>,
    inner: Seq<RuleV>,
    sc: Option<ScopeV>,
    node_key: Option<Seq<char>>,
    pos: (u32, u16),
)
    ensures
        all_in_file(entity_problems(ctx, t, ch, inner, sc, node_key, pos), ctx.file),
{
    let active = active_subtypes(t, ch, node_key, ctx.rs, ctx.idx);
    let rules = merged_rules(t, inner, active);
    let push = pushed_scope(t.subtypes, active, 0);
    let scope = opt_root_scope(sc, t.name, push, node_key, ctx.rs, ctx.game);
    lemma_block_in_file(ctx, ch, rules, scope, Seq::empty(), pos);
    let e = block_problems(ctx, ch, rules, scope, Seq::empty(), pos);
    assert forall|i: int| 0 <= i < all_softened(e).len() implies (#[trigger] all_softened(
        e,
    )[i]).file == ctx.file && all_softened(e)[i].code is Some by {
        assert(e[i].file == ctx.file);
    }
}

proof fn lemma_wrapper_in_file(
    ctx: CtxV,
    ch: Seq<Child>,
    n: int,
    t: TypeDefV,
    wrapper: Seq<char>,
    rules: Seq<RuleV>,
    level: int,
    sc: Option<ScopeV>,
)
    requires
        0 <= n <= ch.len(),
    ensures
        all_in_file(wrapper_problems(ctx, ch, n, t, wrapper, rules, level, sc), ctx.file),
    decreases ch, 0int, n,
{
    if n > 0 {
        lemma_wrapper_in_file(ctx, ch, n - 1, t, wrapper, rules, level, sc);
        lemma_wrapper_child_in_file(ctx, ch[n - 1], t, wrapper, rules, level, sc);
    }
}

proof fn lemma_wrapper_child_in_file(
    ctx: CtxV,
    c: Child,
    t: TypeDefV,
    wrapper: Seq<char>,
    rules: Seq<RuleV>,
    level: int,
    sc: Option<ScopeV>,
)
    ensures
        all_in_file(in_wrapper_problems(ctx, c, t, wrapper, rules, level, sc), ctx.file),
    decreases c, 0int, 0int,
{
    match c {
        Child::Leaf(l) => match l.value {
            Value::Clause(inner) => {
                if 0 <= level < t.skip_root_key.len() {
                    lemma_wrapper_in_file(
                        ctx,
                        inner@,
                        inner@.len() as int,
                        t,
                        l.key@,
                        rules,
                        level + 1,
                        sc,
                    );
                } else {
                    let pos = pos_of(l.pos.start);
                    match grandchild_type(ctx.rs, ctx.file, wrapper, l.key@) {
                        Some(g) => lemma_entity_in_file(
                            ctx,
                            g,
                            inner@,
                            rules_named(ctx.rs, g.name),
                            sc,
                            Some(l.key@),
                            pos,
                        ),
                        None => lemma_entity_in_file(
                            ctx,
                            t,
                            inner@,
                            rules,
                            sc,
                            Some(l.key@),
                            pos,
                        ),
                    }
                }
            },
            _ => {},
        },
        _ => {},
    }
}

proof fn lemma_roots_in_file(ctx: CtxV, ch: Seq<Child>, sc: Option<ScopeV>, n: int)
    requires
        0 <= n <= ch.len(),
    ensures
        all_in_file(roots_problems(ctx, ch, sc, n), ctx.file),
    decreases n,
{
    if n > 0 {
        lemma_roots_in_file(ctx, ch, sc, n - 1);
        match block_of(ch[n - 1]) {
            Some((l, inner)) => match resolved(ctx.rs, ctx.file, l.key@, false) {
                ResolvedV::Entity(t) => lemma_entity_in_file(
                    ctx,
                    t,
                    inner,
                    rules_named(ctx.rs, t.name),
                    sc,
                    Some(l.key@),
                    pos_of(l.pos.start),
                ),
                ResolvedV::Wrapper(t) => lemma_wrapper_in_file(
                    ctx,
                    inner,
                    inner.len() as int,
                    t,
                    l.key@,
                    rules_named(ctx.rs, t.name),
                    1,
                    sc,
                ),
                ResolvedV::Unknown => {},
            },
            None => {},
        }
        assert(all_in_file(root_problems(ctx, ch[n - 1], sc), ctx.file));
    }
}

proof fn lemma_common_in_file(rs: RuleSetV, file: Seq<char>, ch: Seq<Child>, n: int)
    requires
        0 <= n <= ch.len(),
    ensures
        all_in_file(common_problems(rs, file, ch, n), file),
    decreases n,
{
    if n > 0 {
        lemma_common_in_file(rs, file, ch, n - 1);
    }
}

proof fn lemma_hints_in_file(
    ch: Seq<Child>,
    n: int,
    parent: BoolState,
    not_advice: Seq<char>,
    file: Seq<char>,
)
    requires
        0 <= n <= ch.len(),
    ensures
        all_in_file(hints(ch, n, parent, not_advice, file), file),
    decreases ch, 0int, n,
{
    if n > 0 {
        lemma_hints_in_file(ch, n - 1, parent, not_advice, file);
        lemma_child_hints_in_file(ch[n - 1], parent, else_follows(ch, n), not_advice, file);
    }
}

proof fn lemma_child_hints_in_file(
    c: Child,
    parent: BoolState,
    follows: bool,
    not_advice: Seq<char>,
    file: Seq<char>,
)
    ensures
        all_in_file(child_hints(c, parent, follows, not_advice, file), file),
    decreases c, 0int, 0int,
{
    match c {
        Child::Leaf(l) => match l.value {
            Value::Clause(inner) => {
                let n = inner@.len() as int;
                lemma_hints_in_file(inner@, n, BoolState::Neutral, not_advice, file);
                lemma_hints_in_file(inner@, n, joined_by(l.key@), not_advice, file);
                assert(all_in_file(
                    own_hints(l, inner@, parent, follows, not_advice, file),
                    file,
                ));
            },
            _ => {},
        },
        _ => {},
    }
}

proof fn lemma_defaults_in_file(ch: Seq<Child>, n: int, file: Seq<char>)
    requires
        0 <= n <= ch.len(),
    ensures
        all_in_file(default_hints(ch, n, file), file),
    decreases ch, 0int, n,
{
    if n > 0 {
        lemma_defaults_in_file(ch, n - 1, file);
        lemma_default_in_file(ch[n - 1], file);
    }
}

proof fn lemma_default_in_file(c: Child, file: Seq<char>)
    ensures
        all_in_file(default_hints_in(c, file), file),
    decreases c, 0int, 0int,
{
    match c {
        Child::Leaf(l) => match l.value {
            Value::Clause(inner) => lemma_defaults_in_file(inner@, inner@.len() as int, file),
            _ => {},
        },
        _ => {},
    }
}

proof fn lemma_events_in_file(rs: RuleSetV, file: Seq<char>, ch: Seq<Child>, n: int)
    requires
        0 <= n <= ch.len(),
    ensures
        all_in_file(event_pretriggers(rs, file, ch, n), file),
        all_in_file(pretriggers_among(rs, file, ch, n), file),
    decreases n,
{
    if n > 0 {
        lemma_events_in_file(rs, file, ch, n - 1);
    }
}

proof fn lemma_triggers_in_file(rs: RuleSetV, file: Seq<char>, ch: Seq<Child>, n: int)
    requires
        0 <= n <= ch.len(),
    ensures
        all_in_file(in_triggers(rs, file, ch, n), file),
    decreases n,
{
    if n > 0 {
        lemma_triggers_in_file(rs, file, ch, n - 1);
        match block_of(ch[n - 1]) {
            Some((l, inner)) => lemma_events_in_file(rs, file, inner, inner.len() as int),
            None => {},
        }
    }
}

proof fn lemma_tops_in_file(rs: RuleSetV, file: Seq<char>, ch: Seq<Child>, n: int)
    requires
        0 <= n <= ch.len(),
    ensures
        all_in_file(tops_problems(rs, file, ch, n), file),
    decreases n,
{
    if n > 0 {
        lemma_tops_in_file(rs, file, ch, n - 1);
        match block_of(ch[n - 1]) {
            Some((l, inner)) => lemma_triggers_in_file(rs, file, inner, inner.len() as int),
            None => {},
        }
        assert(all_in_file(top_problems(rs, file, ch[n - 1]), file));
    }
}

proof fn lemma_designs_in_file(idx: IndexV, file: Seq<char>, ch: Seq<Child>, n: int)
    requires
        0 <= n <= ch.len(),
    ensures
        all_in_file(parts_problems(idx, file, ch, n), file),
        all_in_file(designs_problems(idx, file, ch, n), file),
    decreases ch, n,
{
    if n > 0 {
        lemma_designs_in_file(idx, file, ch, n - 1);
        assert(all_in_file(part_problems(idx, file, ch[n - 1]), file));
        match ch[n - 1] {
            Child::Leaf(l) => match l.value {
                Value::Clause(inner) => {
                    lemma_designs_in_file(idx, file, inner@, inner@.len() as int);
                },
                _ => {},
            },
            _ => {},
        }
    }
}

proof fn lemma_pretriggers_in_file(rs: RuleSetV, file: Seq<char>, ch: Seq<Child>, n: int)
    requires
        0 <= n <= ch.len(),
    ensures
        all_in_file(all_pretriggers(rs, file, ch, n), file),
    decreases ch, 0int, n,
{
    if n > 0 {
        lemma_pretriggers_in_file(rs, file, ch, n - 1);
        lemma_pretriggers_below_in_file(rs, file, ch[n - 1]);
    }
}

proof fn lemma_pretriggers_below_in_file(rs: RuleSetV, file: Seq<char>, c: Child)
    ensures
        all_in_file(pretriggers_below(rs, file, c), file),
    decreases c, 0int, 0int,
{
    match c {
        Child::Leaf(l) => match l.value {
            Value::Clause(inner) => {
                let n = inner@.len() as int;
                lemma_events_in_file(rs, file, inner@, n);
                lemma_pretriggers_in_file(rs, file, inner@, n);
            },
            _ => {},
        },
        _ => {},
    }
}

proof fn lemma_chains_in_file(ch: Seq<Child>, n: int, file: Seq<char>)
    requires
        0 <= n <= ch.len(),
    ensures
        all_in_file(all_chain_problems(ch, n, file), file),
    decreases ch, 0int, n,
{
    if n > 0 {
        lemma_chains_in_file(ch, n - 1, file);
        lemma_chains_below_in_file(ch[n - 1], file);
    }
}

proof fn lemma_chains_below_in_file(c: Child, file: Seq<char>)
    ensures
        all_in_file(chain_problems_below(c, file), file),
    decreases c, 0int, 0int,
{
    match c {
        Child::Leaf(l) => match l.value {
            Value::Clause(inner) => {
                lemma_chains_in_file(inner@, inner@.len() as int, file);
                assert(all_in_file(own_chain_problems(l, inner@, file), file));
            },
            _ => {},
        },
        _ => {},
    }
}

/// Every diagnostic on a file names the file that is checked, and has a code.
pub proof fn law_diagnostics_name_the_file(ctx: CtxV, ch: Seq<Child>, sc: Option<ScopeV>)
    ensures
        all_in_file(file_diagnostics(ctx, ch, sc), ctx.file),
{
    let n = ch.len() as int;
    lemma_roots_in_file(ctx, ch, sc, n);
    match type_at(ctx.rs, ctx.file) {
        Some(t) => lemma_entity_in_file(
            ctx,
            t,
            ch,
            rules_named(ctx.rs, t.name),
            sc,
            None,
            (0, 0),
        ),
        None => {},
    }
    assert(all_in_file(rules_problems(ctx, ch, sc), ctx.file));
    match ctx.game {
        Some(g) => {
            lemma_common_in_file(ctx.rs, ctx.file, ch, n);
            lemma_hints_in_file(ch, n, BoolState::And, not_advice_for(g), ctx.file);
            lemma_defaults_in_file(ch, n, ctx.file);
            lemma_tops_in_file(ctx.rs, ctx.file, ch, n);
            lemma_pretriggers_in_file(ctx.rs, ctx.file, ch, n);
            lemma_chains_in_file(ch, n, ctx.file);
            match ctx.idx {
                Some(i) => lemma_designs_in_file(i, ctx.file, ch, n),
                None => {},
            }
            assert(all_in_file(game_problems(ctx.rs, ctx.file, ch, ctx.idx, g), ctx.file));
        },
        None => {},
    }
}

// ---------------------------------------------------------------------------
// Positions

proof fn lemma_between_children(
    ctx: CtxV,
    ch: Seq<Child>,
    rules: Seq<RuleV>,
    sc: Option<ScopeV>,
    at: Cursor,
    i: int,
)
    requires
        0 <= i <= ch.len(),
        forall|j: int| 0 <= j < ch.len() ==> !is_in(at, #[trigger] ch[j]),
    ensures
        context_from(ctx, ch, rules, sc, at, i) == (RuleContextV {
            child_rules: rules,
            value_rules: Seq::empty(),
            leaf: None,
            scope: sc,
        }),
    decreases ch.len() - i,
{
    if i < ch.len() {
        lemma_between_children(ctx, ch, rules, sc, at, i + 1);
        assert(!is_in(at, ch[i]));
        assert(context_at(ctx, ch[i], rules, sc, at) is None);
    }
}

/// Between the children of an instance, the rules for a new child are those that the
/// instance is checked against, in the scope that it is checked in.
pub proof fn law_insert_position(
    ctx: CtxV,
    t: TypeDefV,
    ch: Seq<Child>,
    inner: Seq<RuleV>,
    node_key: Option<Seq<char>>,
    sc: Option<ScopeV>,
    at: Cursor,
)
    requires
        forall|j: int| 0 <= j < ch.len() ==> !is_in(at, #[trigger] ch[j]),
    ensures
        ({
            let active = active_subtypes(t, ch, node_key, ctx.rs, ctx.idx);
            let rules = merged_rules(t, inner, active);
            let push = pushed_scope(t.subtypes, active, 0);
            entity_context(ctx, t, ch, inner, node_key, sc, at) == (RuleContextV {
                child_rules: flattened(rules, rules.len() as int),
                value_rules: Seq::empty(),
                leaf: None,
                scope: opt_root_scope(sc, t.name, push, node_key, ctx.rs, ctx.game),
            })
        }),
{
    let active = active_subtypes(t, ch, node_key, ctx.rs, ctx.idx);
    let rules = merged_rules(t, inner, active);
    let push = pushed_scope(t.subtypes, active, 0);
    lemma_between_children(
        ctx,
        ch,
        flattened(rules, rules.len() as int),
        opt_root_scope(sc, t.name, push, node_key, ctx.rs, ctx.game),
        at,
        0,
    );
}

/// A rule is one that a key is held to by this rule of its block: it is that rule, or,
/// where that rule stands for an alias, one of the overloads.
pub open spec fn held_by(
    rs: RuleSetV,
    idx: Option<IndexV>,
    key: Seq<char>,
    by: RuleV,
    r: RuleV,
) -> bool {
    match alias_category(by.0) {
        Some(c) => overload_rules(overloads(rs, idx, c, key)).contains(r),
        None => by == r,
    }
}

proof fn lemma_with_overloads(
    rs: RuleSetV,
    idx: Option<IndexV>,
    rules: Seq<RuleV>,
    key: Seq<char>,
    n: int,
    r: RuleV,
)
    requires
        0 <= n <= rules.len(),
    ensures
        with_overloads(rs, idx, rules, key, n).contains(r) <==> exists|i: int|
            0 <= i < n && held_by(rs, idx, key, #[trigger] rules[i], r),
    decreases n,
{
    let now = with_overloads(rs, idx, rules, key, n);
    if n > 0 {
        lemma_with_overloads(rs, idx, rules, key, n - 1, r);
        let before = with_overloads(rs, idx, rules, key, n - 1);
        let more = match alias_category(rules[n - 1].0) {
            Some(c) => overload_rules(overloads(rs, idx, c, key)),
            None => seq![rules[n - 1]],
        };
        assert(now =~= before + more);
        assert(more.contains(r) == held_by(rs, idx, key, rules[n - 1], r)) by {
            if alias_category(rules[n - 1].0) is None {
                assert(more[0] == rules[n - 1]);
            }
        }
        if before.contains(r) {
            let k = choose|k: int| 0 <= k < before.len() && before[k] == r;
            assert(now[k] == r);
        }
        if more.contains(r) {
            let k = choose|k: int| 0 <= k < more.len() && more[k] == r;
            assert(now[before.len() + k] == r);
        }
        if now.contains(r) {
            let k = choose|k: int| 0 <= k < now.len() && now[k] == r;
            if k < before.len() {
                assert(before[k] == r);
            } else {
                assert(more[k - before.len()] == r);
            }
        }
    }
}

/// An editor is told of exactly the rules that a leaf is held to when it is checked.
pub proof fn law_editor_and_check_agree(
    ctx: CtxV,
    rules: Seq<RuleV>,
    sc: Option<ScopeV>,
    l: Leaf,
    value: Seq<char>,
    in_value: bool,
    r: RuleV,
)
    ensures
        ({
            let m = matching(rules, unquoted(l.key@), ctx.rs, ctx.idx);
            let c = leaf_context_of(ctx, rules, sc, l, value, in_value);
            &&& c.child_rules == rules
            &&& c.value_rules.contains(r) <==> exists|i: int|
                0 <= i < m.len() && held_by(
                    ctx.rs,
                    ctx.idx,
                    unquoted(l.key@),
                    #[trigger] m[i],
                    r,
                )
        }),
{
    let m = matching(rules, unquoted(l.key@), ctx.rs, ctx.idx);
    lemma_with_overloads(ctx.rs, ctx.idx, m, unquoted(l.key@), m.len() as int, r);
}

// ---------------------------------------------------------------------------
// Localisation and modifiers

/// The instance has every key that it must have.
pub open spec fn has_all_keys(
    l: Seq<TypeLocalisationV>,
    name: Seq<char>,
    keys: Set<Seq<char>>,
) -> bool {
    forall|i: int|
        0 <= i < l.len() && is_required(#[trigger] l[i]) ==> keys.contains(
            ascii_lower(required_key(l[i], name)),
        )
}

proof fn lemma_instance_lacks_nothing(
    file: Seq<char>,
    inst: InstanceV,
    l: Seq<TypeLocalisationV>,
    keys: Set<Seq<char>>,
    n: int,
)
    requires
        0 <= n <= l.len(),
        has_all_keys(l, inst.name, keys),
    ensures
        instance_lacks(file, inst, l, keys, n).len() == 0,
    decreases n,
{
    if n > 0 {
        lemma_instance_lacks_nothing(file, inst, l, keys, n - 1);
        assert(is_required(l[n - 1]) ==> keys.contains(
            ascii_lower(required_key(l[n - 1], inst.name)),
        ));
    }
}

proof fn lemma_type_lacks_nothing(
    file: Seq<char>,
    t: TypeDefV,
    inst: Seq<(Seq<char>, InstanceV)>,
    keys: Set<Seq<char>>,
    n: int,
)
    requires
        0 <= n <= inst.len(),
        forall|j: int|
            0 <= j < inst.len() && (#[trigger] inst[j]).0 == t.name ==> has_all_keys(
                t.localisation,
                inst[j].1.name,
                keys,
            ),
    ensures
        type_lacks(file, t, inst, keys, n).len() == 0,
    decreases n,
{
    if n > 0 {
        lemma_type_lacks_nothing(file, t, inst, keys, n - 1);
        if inst[n - 1].0 == t.name {
            lemma_instance_lacks_nothing(
                file,
                inst[n - 1].1,
                t.localisation,
                keys,
                t.localisation.len() as int,
            );
        }
    }
}

proof fn lemma_types_lack_nothing(
    file: Seq<char>,
    path: Seq<char>,
    types: Seq<TypeDefV>,
    inst: Seq<(Seq<char>, InstanceV)>,
    keys: Set<Seq<char>>,
    n: int,
)
    requires
        0 <= n <= types.len(),
        forall|i: int, j: int|
            0 <= i < types.len() && 0 <= j < inst.len() && (#[trigger] inst[j]).0 == (
            #[trigger] types[i]).name ==> has_all_keys(
                types[i].localisation,
                inst[j].1.name,
                keys,
            ),
    ensures
        types_lack(file, path, types, inst, keys, n).len() == 0,
    decreases n,
{
    if n > 0 {
        lemma_types_lack_nothing(file, path, types, inst, keys, n - 1);
        lemma_type_lacks_nothing(file, types[n - 1], inst, keys, inst.len() as int);
    }
}

/// Instances that have all the localisation that their types require lack none.
pub proof fn law_complete_localisation(
    file: Seq<char>,
    path: Seq<char>,
    types: Seq<TypeDefV>,
    inst: Seq<(Seq<char>, InstanceV)>,
    keys: Set<Seq<char>>,
)
    requires
        forall|i: int, j: int|
            0 <= i < types.len() && 0 <= j < inst.len() && (#[trigger] inst[j]).0 == (
            #[trigger] types[i]).name ==> has_all_keys(
                types[i].localisation,
                inst[j].1.name,
                keys,
            ),
    ensures
        types_lack(file, path, types, inst, keys, types.len() as int).len() == 0,
{
    lemma_types_lack_nothing(file, path, types, inst, keys, types.len() as int);
}

/// The type asks for no localisation of its instances in a file at the path.
pub open spec fn asks_nothing_at(t: TypeDefV, path: Seq<char>) -> bool {
    !path_matches(path, t) || forall|i: int|
        0 <= i < t.localisation.len() ==> !is_required(#[trigger] t.localisation[i])
}

proof fn lemma_instance_owes_nothing(
    file: Seq<char>,
    inst: InstanceV,
    l: Seq<TypeLocalisationV>,
    keys: Set<Seq<char>>,
    n: int,
)
    requires
        0 <= n <= l.len(),
        forall|i: int| 0 <= i < l.len() ==> !is_required(#[trigger] l[i]),
    ensures
        instance_lacks(file, inst, l, keys, n).len() == 0,
    decreases n,
{
    if n > 0 {
        lemma_instance_owes_nothing(file, inst, l, keys, n - 1);
    }
}

proof fn lemma_type_owes_nothing(
    file: Seq<char>,
    t: TypeDefV,
    inst: Seq<(Seq<char>, InstanceV)>,
    keys: Set<Seq<char>>,
    n: int,
)
    requires
        0 <= n <= inst.len(),
        forall|i: int|
            0 <= i < t.localisation.len() ==> !is_required(#[trigger] t.localisation[i]),
    ensures
        type_lacks(file, t, inst, keys, n).len() == 0,
    decreases n,
{
    if n > 0 {
        lemma_type_owes_nothing(file, t, inst, keys, n - 1);
        lemma_instance_owes_nothing(
            file,
            inst[n - 1].1,
            t.localisation,
            keys,
            t.localisation.len() as int,
        );
    }
}

proof fn lemma_owes_nothing(
    file: Seq<char>,
    path: Seq<char>,
    types: Seq<TypeDefV>,
    inst: Seq<(Seq<char>, InstanceV)>,
    keys: Set<Seq<char>>,
    n: int,
)
    requires
        0 <= n <= types.len(),
        forall|i: int| 0 <= i < types.len() ==> asks_nothing_at(#[trigger] types[i], path),
    ensures
        types_lack(file, path, types, inst, keys, n).len() == 0,
    decreases n,
{
    if n > 0 {
        lemma_owes_nothing(file, path, types, inst, keys, n - 1);
        assert(asks_nothing_at(types[n - 1], path));
        if path_matches(path, types[n - 1]) {
            lemma_type_owes_nothing(file, types[n - 1], inst, keys, inst.len() as int);
        }
    }
}

/// In a file where no type that asks for localisation has its instances, nothing
/// lacks any.
pub proof fn law_unowned_file_lacks_nothing(
    file: Seq<char>,
    path: Seq<char>,
    types: Seq<TypeDefV>,
    inst: Seq<(Seq<char>, InstanceV)>,
    keys: Set<Seq<char>>,
)
    requires
        forall|i: int| 0 <= i < types.len() ==> asks_nothing_at(#[trigger] types[i], path),
    ensures
        types_lack(file, path, types, inst, keys, types.len() as int).len() == 0,
{
    lemma_owes_nothing(file, path, types, inst, keys, types.len() as int);
}

proof fn lemma_with_instances(
    s: Set<Seq<char>>,
    pre: Seq<char>,
    suf: Seq<char>,
    inst: Seq<InstanceV>,
    n: int,
    i: int,
)
    requires
        0 <= n <= inst.len(),
    ensures
        s.subset_of(with_instances(s, pre, suf, inst, n)),
        0 <= i < n ==> with_instances(s, pre, suf, inst, n).contains(
            lowercase(pre + inst[i].name + suf),
        ),
    decreases n,
{
    if n > 0 {
        lemma_with_instances(s, pre, suf, inst, n - 1, i);
    }
}

proof fn lemma_modifier_names(ms: Seq<Seq<char>>, idx: IndexV, n: int, i: int, k: Seq<char>)
    requires
        0 <= i < n <= ms.len(),
        with_modifier(modifier_names(ms, idx, i), ms[i], idx).contains(k),
    ensures
        modifier_names(ms, idx, n).contains(k),
    decreases n,
{
    if i < n - 1 {
        lemma_modifier_names(ms, idx, n - 1, i, k);
        match template_parts(ms[n - 1]) {
            Some((pre, type_, suf)) => {
                let inst = instances_of(idx.entries, type_, idx.entries.len() as int);
                lemma_with_instances(
                    modifier_names(ms, idx, n - 1),
                    pre,
                    suf,
                    inst,
                    inst.len() as int,
                    0,
                );
            },
            None => {},
        }
    }
}

/// A modifier without a type in its name is a modifier under that name; one with a
/// type is one under the name of each instance.
pub proof fn law_modifier_names(ms: Seq<Seq<char>>, idx: IndexV, i: int, k: int)
    requires
        0 <= i < ms.len(),
    ensures
        ({
            let all = modifier_names(ms, idx, ms.len() as int);
            match template_parts(ms[i]) {
                None => all.contains(lowercase(ms[i])),
                Some((pre, type_, suf)) => {
                    let inst = instances_of(idx.entries, type_, idx.entries.len() as int);
                    0 <= k < inst.len() ==> all.contains(lowercase(pre + inst[k].name + suf))
                },
            }
        }),
{
    match template_parts(ms[i]) {
        None => lemma_modifier_names(ms, idx, ms.len() as int, i, lowercase(ms[i])),
        Some((pre, type_, suf)) => {
            let inst = instances_of(idx.entries, type_, idx.entries.len() as int);
            if 0 <= k < inst.len() {
                lemma_with_instances(
                    modifier_names(ms, idx, i),
                    pre,
                    suf,
                    inst,
                    inst.len() as int,
                    k,
                );
                lemma_modifier_names(
                    ms,
                    idx,
                    ms.len() as int,
                    i,
                    lowercase(pre + inst[k].name + suf),
                );
            }
        },
    }
}

} // verus!
