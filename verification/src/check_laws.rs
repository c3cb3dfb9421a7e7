//! What is reported of a block, said of its fields.

use vstd::prelude::*;

use crate::ast::{Child, Comment, Leaf, LeafValue, SourcePos, Value};
use crate::cardinality::{
    Bounds, bounds_of, cardinality_problems, clause_count, first_pos, key_count, key_pos,
    number_problems, numbers_problems, rule_key, rule_number_problems,
};
use crate::common::{has_key, start_pos, string_text, value_text};
use crate::config_laws::{is_name, lemma_name};
use crate::context::CtxV;
use crate::diagnostic::{ErrorV, key_range};
use crate::error_codes::{
    ErrorSeverity, cw002, cw100, cw101, cw102, cw103, cw104, cw105, cw106, cw107, cw108, cw110,
    cw113, cw120, cw121, cw122, cw200, cw201, cw202, cw203, cw204, cw205, cw222, cw223, cw226,
    cw227, cw229, cw235, cw236, cw237, cw238, cw240, cw242, cw243, cw244, cw245, cw246, cw247,
    cw248, cw250, cw251, cw253, cw260, cw261, cw262, cw263, cw264, cw265, cw266, cw267, cw270,
    cw271, cw280, cw281, cw282, cw300, cw301, cw400, cw500, cw501, cw502, hash_text,
};
use crate::field_match::{
    any_specific, is_specific, matching, matching_rules, overloads, rule_takes_key, takes_value,
};
use crate::leaf_check::bare_text;
use crate::rule_converter::unquoted;
use crate::rule_core::{
    alias_problems, all_inserted, block_problems, clause_rule, default_bool_problems,
    each_child_problems, fewest_in_overloads, fewest_problems, first_math, given_names, has_math,
    in_block_problems, inserted, is_math_rule, leaf_problems, loop_default, loop_field, loop_names,
    opt_block_scope, overload_problems, pos_of, required_by, required_scope_problems,
    rule_problems, text_before, value_rule,
};
use crate::rules_types::{FieldV, OptionsV, RuleTypeV, RuleV, Severity, ValueTypeV};
use crate::ruleset::RuleSetV;
use crate::scope::block_scope;
use crate::scope_engine::ScopeV;
use crate::subtype::{flattened, values_like};
use crate::text::{CharSet, ascii_lower, decimal, lowercase};
use crate::text_laws::{has_bare_ends, lemma_trim_bare};
use crate::type_index::{IndexV, variable_name};
use crate::type_laws::is_field;
use crate::value_laws::is_one;

verus! {

// ---------------------------------------------------------------------------
// Fields that no rule is for

proof fn lemma_none_matching(
    rules: Seq<RuleV>,
    key: Seq<char>,
    rs: RuleSetV,
    idx: Option<IndexV>,
    specific: bool,
    n: int,
)
    requires
        0 <= n <= rules.len(),
        forall|i: int| 0 <= i < rules.len() ==> !rule_takes_key((#[trigger] rules[i]).0, key, rs, idx),
    ensures
        matching_rules(rules, key, rs, idx, specific, n).len() == 0,
    decreases n,
{
    if n > 0 {
        lemma_none_matching(rules, key, rs, idx, specific, n - 1);
    }
}

/// A field that no rule is for is reported, a block as `CW262` and any other as `CW263`,
/// unless it is a modifier or is set as the file is read. A modifier is reported, as
/// `CW235`, where it is zero.
pub proof fn law_unknown_fields(
    ctx: CtxV,
    l: Leaf,
    rules: Seq<RuleV>,
    sc: Option<ScopeV>,
    loop_vars: Seq<Seq<char>>,
)
    requires
        forall|i: int|
            0 <= i < rules.len() ==> !rule_takes_key(
                (#[trigger] rules[i]).0,
                unquoted(l.key@),
                ctx.rs,
                ctx.idx,
            ),
    ensures
        ({
            let e = in_block_problems(ctx, Child::Leaf(l), rules, sc, loop_vars);
            let key = unquoted(l.key@);
            let modifier = ctx.modifier_keys matches Some(m) && m.contains(lowercase(key));
            &&& modifier && l.value == Value::Int(0) ==> is_one(e, "CW235"@, ctx.file, l.pos.start)
            &&& modifier && (match l.value {
                Value::Int(n) => n != 0,
                Value::Bool(_) => true,
                Value::Clause(_) => true,
                _ => false,
            }) ==> e.len() == 0
            &&& !modifier && key.len() > 0 && key[0] == '@' ==> e.len() == 0
            &&& !modifier && (key.len() == 0 || key[0] != '@') && l.value is Clause ==> is_one(
                e,
                "CW262"@,
                ctx.file,
                l.pos.start,
            )
            &&& !modifier && (key.len() == 0 || key[0] != '@') && !(l.value is Clause) ==> is_one(
                e,
                "CW263"@,
                ctx.file,
                l.pos.start,
            )
        }),
{
    let key = unquoted(l.key@);
    lemma_none_matching(
        rules,
        key,
        ctx.rs,
        ctx.idx,
        any_specific(rules, key),
        rules.len() as int,
    );
}

/// A field that one rule is for, by name, has the problems under that rule.
pub proof fn law_known_fields(
    ctx: CtxV,
    l: Leaf,
    r: RuleV,
    sc: Option<ScopeV>,
    loop_vars: Seq<Seq<char>>,
    name: Seq<char>,
)
    requires
        match r.0 {
            RuleTypeV::LeafRule { left, .. } => left == FieldV::SpecificField(name),
            RuleTypeV::NodeRule { left, .. } => left == FieldV::SpecificField(name),
            _ => false,
        },
        ascii_lower(unquoted(l.key@)) == ascii_lower(name),
    ensures
        in_block_problems(ctx, Child::Leaf(l), seq![r], sc, loop_vars) == rule_problems(
            ctx,
            l,
            r,
            sc,
            loop_vars,
        ),
{
    let key = unquoted(l.key@);
    let rules = seq![r];
    assert(is_specific(rules[0].0, key));
    assert(any_specific(rules, key));
    reveal_with_fuel(matching_rules, 2);
    assert(matching(rules, key, ctx.rs, ctx.idx) =~= seq![r]);
    reveal_with_fuel(fewest_problems, 2);
    reveal_with_fuel(first_math, 2);
}

/// A rule for a block is not for a value that is none: that is reported as `CW267`.
pub proof fn law_blocks_are_blocks(
    ctx: CtxV,
    l: Leaf,
    name: Seq<char>,
    rules: Seq<RuleV>,
    o: OptionsV,
    loop_vars: Seq<Seq<char>>,
)
    requires
        !(l.value is Clause),
    ensures
        is_one(
            rule_problems(
                ctx,
                l,
                (RuleTypeV::NodeRule { left: FieldV::SpecificField(name), rules }, o),
                None,
                loop_vars,
            ),
            "CW267"@,
            ctx.file,
            l.pos.start,
        ),
{
}

/// What is wrong with a field is wrong with the block around it, and the other way round
/// but for the numbers of its fields.
pub proof fn law_blocks_have_the_problems_of_their_fields(
    ctx: CtxV,
    ch: Seq<Child>,
    rules: Seq<RuleV>,
    sc: Option<ScopeV>,
    loop_vars: Seq<Seq<char>>,
    pos: (u32, u16),
    e: ErrorV,
)
    requires
        forall|i: int| 0 <= i < rules.len() ==> !((#[trigger] rules[i]).0 is SubtypeRule),
    ensures
        block_problems(ctx, ch, rules, sc, loop_vars, pos).contains(e) <==> (exists|i: int|
            0 <= i < ch.len() && #[trigger] in_block_problems(
                ctx,
                ch[i],
                rules,
                sc,
                loop_vars,
            ).contains(e)) || cardinality_problems(ctx, ch, rules, pos).contains(e),
{
    lemma_flat(rules, rules.len() as int);
    assert(rules.take(rules.len() as int) =~= rules);
    lemma_each_child(ctx, ch, rules, sc, loop_vars, ch.len() as int, e);
    let a = each_child_problems(ctx, ch, rules, sc, loop_vars, ch.len() as int);
    let b = cardinality_problems(ctx, ch, rules, pos);
    lemma_sum_contains(a, b, e);
}

proof fn lemma_flat(rules: Seq<RuleV>, n: int)
    requires
        0 <= n <= rules.len(),
        forall|i: int| 0 <= i < rules.len() ==> !((#[trigger] rules[i]).0 is SubtypeRule),
    ensures
        flattened(rules, n) == rules.take(n),
    decreases n,
{
    if n > 0 {
        lemma_flat(rules, n - 1);
        assert(!(rules[n - 1].0 is SubtypeRule));
        assert(rules.take(n) =~= rules.take(n - 1).push(rules[n - 1]));
    } else {
        assert(rules.take(0) =~= Seq::<RuleV>::empty());
    }
}

pub proof fn lemma_sum_contains(a: Seq<ErrorV>, b: Seq<ErrorV>, e: ErrorV)
    ensures
        (a + b).contains(e) <==> a.contains(e) || b.contains(e),
{
    if a.contains(e) {
        let i = choose|i: int| 0 <= i < a.len() && a[i] == e;
        assert((a + b)[i] == e);
    }
    if b.contains(e) {
        let i = choose|i: int| 0 <= i < b.len() && b[i] == e;
        assert((a + b)[a.len() + i] == e);
    }
    if (a + b).contains(e) {
        let i = choose|i: int| 0 <= i < (a + b).len() && (a + b)[i] == e;
        if i < a.len() {
            assert(a[i] == e);
        } else {
            assert(b[i - a.len()] == e);
        }
    }
}

proof fn lemma_each_child(
    ctx: CtxV,
    ch: Seq<Child>,
    rules: Seq<RuleV>,
    sc: Option<ScopeV>,
    loop_vars: Seq<Seq<char>>,
    n: int,
    e: ErrorV,
)
    requires
        0 <= n <= ch.len(),
    ensures
        each_child_problems(ctx, ch, rules, sc, loop_vars, n).contains(e) <==> exists|i: int|
            0 <= i < n && #[trigger] in_block_problems(ctx, ch[i], rules, sc, loop_vars).contains(e),
    decreases n,
{
    if n > 0 {
        lemma_each_child(ctx, ch, rules, sc, loop_vars, n - 1, e);
        let a = each_child_problems(ctx, ch, rules, sc, loop_vars, n - 1);
        let b = in_block_problems(ctx, ch[n - 1], rules, sc, loop_vars);
        lemma_sum_contains(a, b, e);
        if b.contains(e) {
            assert(in_block_problems(ctx, ch[n - 1], rules, sc, loop_vars).contains(e));
        }
    } else {
        assert(!each_child_problems(ctx, ch, rules, sc, loop_vars, 0).contains(e));
    }
}

/// The body of a block is held to the rules of the block, in the scope that the rule and
/// the key put it in.
pub proof fn law_bodies_are_checked(
    ctx: CtxV,
    l: Leaf,
    name: Seq<char>,
    rules: Seq<RuleV>,
    o: OptionsV,
    sc: Option<ScopeV>,
    loop_vars: Seq<Seq<char>>,
    e: ErrorV,
)
    requires
        l.value is Clause,
        block_problems(
            ctx,
            l.value->Clause_0@,
            rules,
            match sc {
                Some(s) => Some(block_scope(s, unquoted(l.key@), o, ctx.game, false)),
                None => None,
            },
            loop_vars,
            (l.pos.start.line, l.pos.start.col),
        ).contains(e),
    ensures
        rule_problems(
            ctx,
            l,
            (RuleTypeV::NodeRule { left: FieldV::SpecificField(name), rules }, o),
            sc,
            loop_vars,
        ).contains(e),
{
    let key = unquoted(l.key@);
    let a = required_scope_problems(ctx, l, key, o, sc);
    let b = block_problems(
        ctx,
        l.value->Clause_0@,
        rules,
        opt_block_scope(sc, key, o, ctx.game, false),
        loop_vars,
        pos_of(l.pos.start),
    );
    lemma_sum_contains(a, b, e);
}

// ---------------------------------------------------------------------------
// Bare values

proof fn lemma_value_rule(rules: Seq<RuleV>, v: Value, rs: RuleSetV, k: int)
    requires
        0 <= k <= rules.len(),
    ensures
        value_rule(rules, v, rs, k) is None <==> forall|i: int|
            k <= i < rules.len() ==> match (#[trigger] rules[i]).0 {
                RuleTypeV::LeafValueRule { right } => !takes_value(right, v, rs),
                _ => true,
            },
        value_rule(rules, v, rs, k) matches Some(f) ==> exists|i: int|
            k <= i < rules.len() && (#[trigger] rules[i]).0 == (RuleTypeV::LeafValueRule {
                right: f,
            }),
    decreases rules.len() - k,
{
    if k < rules.len() {
        lemma_value_rule(rules, v, rs, k + 1);
        match rules[k].0 {
            RuleTypeV::LeafValueRule { right } => {
                if takes_value(right, v, rs) {
                    assert(rules[k].0 == (RuleTypeV::LeafValueRule { right }));
                }
            },
            _ => {},
        }
    }
}

/// A bare value that no rule for bare values takes is reported as `CW264`; one that some
/// rule takes is not, unless the rule is for a variable that must be set.
pub proof fn law_bare_values(
    ctx: CtxV,
    lv: LeafValue,
    rules: Seq<RuleV>,
    sc: Option<ScopeV>,
    loop_vars: Seq<Seq<char>>,
)
    requires
        !(lv.value is Clause),
    ensures
        ({
            let e = in_block_problems(ctx, Child::LeafValue(lv), rules, sc, loop_vars);
            let taken = exists|i: int|
                0 <= i < rules.len() && match (#[trigger] rules[i]).0 {
                    RuleTypeV::LeafValueRule { right } => takes_value(right, lv.value, ctx.rs),
                    _ => false,
                };
            let reads = exists|i: int|
                0 <= i < rules.len() && match (#[trigger] rules[i]).0 {
                    RuleTypeV::LeafValueRule { right } => right is VariableGetField,
                    _ => false,
                };
            &&& !taken ==> is_one(e, "CW264"@, ctx.file, lv.pos.start)
            &&& taken && !reads ==> e.len() == 0
        }),
{
    lemma_value_rule(rules, lv.value, ctx.rs, 0);
}

/// A bare block that no rule is for is reported as `CW265`; one that a rule for bare blocks
/// is for is held to the rules of the first such rule.
pub proof fn law_bare_blocks(
    ctx: CtxV,
    lv: LeafValue,
    rules: Seq<RuleV>,
    sc: Option<ScopeV>,
    loop_vars: Seq<Seq<char>>,
    i: int,
)
    requires
        lv.value is Clause,
    ensures
        ({
            let e = in_block_problems(ctx, Child::LeafValue(lv), rules, sc, loop_vars);
            &&& (forall|j: int|
                0 <= j < rules.len() ==> !((#[trigger] rules[j]).0 is ValueClauseRule)) ==> is_one(
                e,
                "CW265"@,
                ctx.file,
                lv.pos.start,
            )
            &&& 0 <= i < rules.len() && rules[i].0 is ValueClauseRule && (forall|j: int|
                0 <= j < i ==> !((#[trigger] rules[j]).0 is ValueClauseRule)) ==> e
                == block_problems(
                ctx,
                lv.value->Clause_0@,
                rules[i].0->ValueClauseRule_rules,
                sc,
                loop_vars,
                (lv.pos.start.line, lv.pos.start.col),
            )
        }),
{
    lemma_clause_rule(rules, 0, i);
}

proof fn lemma_clause_rule(rules: Seq<RuleV>, k: int, i: int)
    requires
        0 <= k <= rules.len(),
    ensures
        (forall|j: int| k <= j < rules.len() ==> !((#[trigger] rules[j]).0 is ValueClauseRule))
            ==> clause_rule(rules, k) is None,
        k <= i < rules.len() && rules[i].0 is ValueClauseRule && (forall|j: int|
            k <= j < i ==> !((#[trigger] rules[j]).0 is ValueClauseRule)) ==> clause_rule(rules, k)
            == Some(rules[i].0->ValueClauseRule_rules),
    decreases rules.len() - k,
{
    if k < rules.len() {
        lemma_clause_rule(rules, k + 1, i);
        if rules[k].0 is ValueClauseRule && k < i {
            assert(rules[k].0 is ValueClauseRule);
        }
    }
}

// ---------------------------------------------------------------------------
// Numbers of fields

/// The number of the children that are fields of that name, in whatever case.
pub open spec fn number_of(ch: Seq<Child>, name: Seq<char>) -> nat {
    ch.filter(|c: Child| is_field(c, name)).len()
}

proof fn lemma_number_of(ch: Seq<Child>, name: Seq<char>, n: int)
    requires
        0 <= n <= ch.len(),
    ensures
        key_count(ch, ascii_lower(name), n) == number_of(ch.take(n), name),
    decreases n,
{
    reveal(Seq::filter);
    let t = ch.take(n);
    if n > 0 {
        lemma_number_of(ch, name, n - 1);
        assert(t.drop_last() =~= ch.take(n - 1));
        assert(t.last() == ch[n - 1]);
    } else {
        assert(t =~= Seq::<Child>::empty());
    }
}

/// The rule is for the field by name.
pub open spec fn is_by_name(rt: RuleTypeV, name: Seq<char>) -> bool {
    match rt {
        RuleTypeV::LeafRule { left, .. } => left matches FieldV::SpecificField(s) && ascii_lower(s)
            == ascii_lower(name),
        RuleTypeV::NodeRule { left, .. } => left matches FieldV::SpecificField(s) && ascii_lower(s)
            == ascii_lower(name),
        _ => false,
    }
}

proof fn lemma_bounds(rules: Seq<RuleV>, name: Seq<char>, i: int, n: int)
    requires
        0 <= i < rules.len(),
        0 <= n <= rules.len(),
        forall|j: int|
            0 <= j < rules.len() && j != i ==> !is_by_name((#[trigger] rules[j]).0, name),
        is_by_name(rules[i].0, name),
    ensures
        n <= i ==> bounds_of(rules, ascii_lower(name), n) is None,
        n > i ==> bounds_of(rules, ascii_lower(name), n) == Some(
            Bounds {
                min: rules[i].1.min,
                max: rules[i].1.max,
                strict: rules[i].1.strict_min,
            },
        ),
    decreases n,
{
    if n > 0 {
        lemma_bounds(rules, name, i, n - 1);
        if n - 1 != i {
            assert(!is_by_name(rules[n - 1].0, name));
        }
    }
}

/// A field that one rule names is reported, as `CW242`, exactly if it stands less often
/// than the least number, where that is insisted on, or more often than the most. It is
/// as grave as the rule says, and a warning where the rule says nothing.
#[verifier::rlimit(50)]
pub proof fn law_numbers_of_fields(
    ctx: CtxV,
    ch: Seq<Child>,
    rules: Seq<RuleV>,
    at: (u32, u16),
    i: int,
    name: Seq<char>,
)
    requires
        0 <= i < rules.len(),
        is_by_name(rules[i].0, name),
        forall|j: int|
            0 <= j < rules.len() && j != i ==> !is_by_name((#[trigger] rules[j]).0, name),
        rules[i].1.min <= rules[i].1.max,
    ensures
        ({
            let e = rule_number_problems(ctx, ch, rules, at, i);
            let o = rules[i].1;
            let n = number_of(ch, name);
            let wrong = (n < o.min && o.strict_min) || n > o.max;
            &&& !wrong ==> e.len() == 0
            &&& wrong ==> e.len() == 1 && e[0].code == Some("CW242"@) && e[0].file == ctx.file
            &&& wrong ==> e[0].severity == (match o.severity {
                None => ErrorSeverity::Warning,
                Some(Severity::Error) => ErrorSeverity::Error,
                Some(Severity::Warning) => ErrorSeverity::Warning,
                Some(Severity::Information) => ErrorSeverity::Information,
                Some(Severity::Hint) => ErrorSeverity::Hint,
            })
            &&& n < o.min && o.strict_min ==> (e[0].line, e[0].col) == at
        }),
{
    let n = ch.len() as int;
    lemma_number_of(ch, name, n);
    assert(ch.take(n) =~= ch);
    lemma_bounds(rules, name, i, i);
    lemma_bounds(rules, name, i, rules.len() as int);
    let s = rule_key(rules[i].0)->0;
    assert(ascii_lower(s) == ascii_lower(name));
    let b = Bounds {
        min: rules[i].1.min,
        max: rules[i].1.max,
        strict: rules[i].1.strict_min,
    };
    let k = number_of(ch, name) as int;
    let e = rule_number_problems(ctx, ch, rules, at, i);
    let under = k < b.min && b.strict;
    let over = k > b.max;
    assert(!(under && over));
}

/// A field that several rules name may stand as often as the widest of them allows.
pub proof fn law_widest_bounds(
    rules: Seq<RuleV>,
    name: Seq<char>,
    n: int,
    i: int,
)
    requires
        0 <= i < n <= rules.len(),
        is_by_name(rules[i].0, name),
    ensures
        bounds_of(rules, ascii_lower(name), n) matches Some(b) && b.min <= rules[i].1.min && b.max
            >= rules[i].1.max && (b.strict ==> rules[i].1.strict_min),
    decreases n,
{
    if i < n - 1 {
        law_widest_bounds(rules, name, n - 1, i);
    }
}

/// The numbers of all fields are checked, whatever the order of the rules.
pub proof fn law_every_number_is_checked(
    ctx: CtxV,
    ch: Seq<Child>,
    rules: Seq<RuleV>,
    pos: (u32, u16),
    e: ErrorV,
)
    ensures
        cardinality_problems(ctx, ch, rules, pos).contains(e) <==> exists|i: int|
            0 <= i < rules.len() && #[trigger] rule_number_problems(
                ctx,
                ch,
                rules,
                first_pos(ch, 0, pos),
                i,
            ).contains(e),
{
    lemma_every_number(ctx, ch, rules, first_pos(ch, 0, pos), rules.len() as int, e);
}

proof fn lemma_every_number(
    ctx: CtxV,
    ch: Seq<Child>,
    rules: Seq<RuleV>,
    at: (u32, u16),
    n: int,
    e: ErrorV,
)
    requires
        0 <= n <= rules.len(),
    ensures
        numbers_problems(ctx, ch, rules, at, n).contains(e) <==> exists|i: int|
            0 <= i < n && #[trigger] rule_number_problems(ctx, ch, rules, at, i).contains(e),
    decreases n,
{
    if n > 0 {
        lemma_every_number(ctx, ch, rules, at, n - 1, e);
        lemma_sum_contains(
            numbers_problems(ctx, ch, rules, at, n - 1),
            rule_number_problems(ctx, ch, rules, at, n - 1),
            e,
        );
        if rule_number_problems(ctx, ch, rules, at, n - 1).contains(e) {
            assert(rule_number_problems(ctx, ch, rules, at, n - 1).contains(e));
        }
    } else {
        assert(!numbers_problems(ctx, ch, rules, at, 0).contains(e));
    }
}

/// The child is a bare value, no block, that the field takes.
pub open spec fn is_value_for(c: Child, right: FieldV, rs: RuleSetV) -> bool {
    c matches Child::LeafValue(lv) && !(lv.value is Clause) && takes_value(right, lv.value, rs)
}

/// The child is a bare block.
pub open spec fn is_bare_block(c: Child) -> bool {
    c matches Child::LeafValue(lv) && lv.value is Clause
}

proof fn lemma_number_of_values(ch: Seq<Child>, right: FieldV, rs: RuleSetV, n: int)
    requires
        0 <= n <= ch.len(),
    ensures
        values_like(ch, right, rs, n) == ch.take(n).filter(
            |c: Child| is_value_for(c, right, rs),
        ).len(),
        clause_count(ch, n) == ch.take(n).filter(|c: Child| is_bare_block(c)).len(),
    decreases n,
{
    reveal(Seq::filter);
    let t = ch.take(n);
    if n > 0 {
        lemma_number_of_values(ch, right, rs, n - 1);
        assert(t.drop_last() =~= ch.take(n - 1));
        assert(t.last() == ch[n - 1]);
    } else {
        assert(t =~= Seq::<Child>::empty());
    }
}

/// Bare values and bare blocks are counted as fields are.
pub proof fn law_numbers_of_values(
    ctx: CtxV,
    ch: Seq<Child>,
    rules: Seq<RuleV>,
    at: (u32, u16),
    i: int,
    right: FieldV,
)
    requires
        0 <= i < rules.len(),
        rules[i].1.min <= rules[i].1.max,
    ensures
        ({
            let e = rule_number_problems(ctx, ch, rules, at, i);
            let o = rules[i].1;
            let n = ch.filter(|c: Child| is_value_for(c, right, ctx.rs)).len();
            let m = ch.filter(|c: Child| is_bare_block(c)).len();
            &&& rules[i].0 == (RuleTypeV::LeafValueRule { right }) ==> (e.len() == 0 <==> !(n
                < o.min && o.strict_min) && n <= o.max)
            &&& rules[i].0 is ValueClauseRule ==> (e.len() == 0 <==> !(m < o.min && o.strict_min)
                && m <= o.max)
        }),
{
    let n = ch.len() as int;
    lemma_number_of_values(ch, right, ctx.rs, n);
    assert(ch.take(n) =~= ch);
}

// ---------------------------------------------------------------------------
// Defaults

/// A truth value that repeats the default of its rule is reported as `CW282`; the other
/// one is not.
pub proof fn law_repeated_defaults(ctx: CtxV, l: Leaf, o: OptionsV, d: bool)
    requires
        o.default_bool == Some(d),
        l.value is Bool,
    ensures
        l.value == Value::Bool(d) ==> is_one(
            default_bool_problems(ctx, l, o),
            "CW282"@,
            ctx.file,
            l.pos.start,
        ),
        l.value == Value::Bool(!d) ==> default_bool_problems(ctx, l, o).len() == 0,
        default_bool_problems(ctx, l, OptionsV { default_bool: None, ..o }).len() == 0,
{
    reveal_strlit("true");
    reveal_strlit("false");
    reveal_strlit("yes");
    reveal_strlit("no");
    lemma_bare_word("true"@);
    lemma_bare_word("false"@);
    assert(ascii_lower("true"@) =~= "true"@);
    assert(ascii_lower("false"@) =~= "false"@);
}

/// A default may be written in words, in whatever case.
pub proof fn law_repeated_defaults_in_words(ctx: CtxV, l: Leaf, o: OptionsV, d: bool, w: Seq<char>)
    requires
        o.default_bool == Some(d),
        string_text(l.value) == Some(w),
        is_name(w),
    ensures
        ascii_lower(w) == (if d {
            "yes"@
        } else {
            "no"@
        }) ==> is_one(default_bool_problems(ctx, l, o), "CW282"@, ctx.file, l.pos.start),
        ascii_lower(w) == (if d {
            "no"@
        } else {
            "yes"@
        }) ==> default_bool_problems(ctx, l, o).len() == 0,
{
    lemma_name(w);
    lemma_bare_word(w);
    reveal_strlit("true");
    reveal_strlit("false");
    reveal_strlit("yes");
    reveal_strlit("no");
    assert("true"@.len() == 4 && "false"@.len() == 5 && "yes"@.len() == 3 && "no"@.len() == 2);
}

proof fn lemma_bare_word(w: Seq<char>)
    requires
        has_bare_ends(w, CharSet::White),
        has_bare_ends(w, CharSet::One('"')),
    ensures
        bare_text(w) == w,
{
    lemma_trim_bare(w, CharSet::One('"'));
    lemma_trim_bare(w, CharSet::White);
}

// ---------------------------------------------------------------------------
// Variables of loops

/// A loop sets the variable that its rule names by default, and those that its block names
/// under that field.
pub proof fn law_loop_variables(
    rules: Seq<RuleV>,
    ch: Seq<Child>,
    i: int,
    k: int,
    set: Seq<char>,
)
    requires
        0 <= i < rules.len(),
        0 <= k < ch.len(),
    ensures
        ({
            let names = loop_names(rules, ch, rules.len() as int);
            let sets = |key: Seq<char>|
                rules[i].0 == (RuleTypeV::LeafRule {
                    left: FieldV::SpecificField(key),
                    right: FieldV::VariableSetField(set),
                });
            &&& sets("value"@) ==> names.contains("v"@)
            &&& sets("index"@) ==> names.contains("i"@)
            &&& sets("break"@) ==> names.contains("break"@)
            &&& (sets("value"@) && is_field(ch[k], "value"@)) ==> ({
                let name = variable_name(value_text(ch[k]->Leaf_0.value));
                name.len() > 0 ==> names.contains(name)
            })
        }),
{
    reveal_strlit("value");
    reveal_strlit("index");
    reveal_strlit("break");
    reveal_strlit("v");
    reveal_strlit("i");
    assert("value"@[0] == 'v' && "index"@[0] == 'i' && "break"@[0] == 'b');
    lemma_plain_name("v"@);
    lemma_plain_name("i"@);
    lemma_plain_name("break"@);
    lemma_loop_names(rules, ch, i, rules.len() as int, k);
}

proof fn lemma_plain_name(w: Seq<char>)
    requires
        has_bare_ends(w, CharSet::White),
        ascii_lower(w) =~= w,
    ensures
        variable_name(w) == w,
{
    lemma_trim_bare(w, CharSet::White);
}

proof fn lemma_given(ch: Seq<Child>, key: Seq<char>, k: int, n: int)
    requires
        0 <= k < n <= ch.len(),
        is_field(ch[k], key),
        variable_name(value_text(ch[k]->Leaf_0.value)).len() > 0,
    ensures
        given_names(ch, key, n).contains(variable_name(value_text(ch[k]->Leaf_0.value))),
    decreases n,
{
    let now = given_names(ch, key, n);
    let before = given_names(ch, key, n - 1);
    let name = variable_name(value_text(ch[k]->Leaf_0.value));
    if k < n - 1 {
        lemma_given(ch, key, k, n - 1);
        let i = choose|i: int| 0 <= i < before.len() && before[i] == name;
        assert(now[i] == name);
    } else {
        assert(now[before.len() as int] == name);
    }
}

proof fn lemma_loop_names(rules: Seq<RuleV>, ch: Seq<Child>, i: int, n: int, k: int)
    requires
        0 <= i < n <= rules.len(),
        0 <= k < ch.len(),
    ensures
        loop_field(rules[i].0) matches Some(key) ==> {
            let names = loop_names(rules, ch, n);
            &&& names.contains(variable_name(loop_default(key)->0))
            &&& is_field(ch[k], key) && variable_name(value_text(ch[k]->Leaf_0.value)).len() > 0
                ==> names.contains(variable_name(value_text(ch[k]->Leaf_0.value)))
        },
    decreases n,
{
    let now = loop_names(rules, ch, n);
    let before = loop_names(rules, ch, n - 1);
    match loop_field(rules[i].0) {
        None => {},
        Some(key) => {
            let d = variable_name(loop_default(key)->0);
            let g = variable_name(value_text(ch[k]->Leaf_0.value));
            if i < n - 1 {
                lemma_loop_names(rules, ch, i, n - 1, k);
                let x = choose|x: int| 0 <= x < before.len() && before[x] == d;
                assert(now[x] == d);
                if is_field(ch[k], key) && g.len() > 0 {
                    let y = choose|y: int| 0 <= y < before.len() && before[y] == g;
                    assert(now[y] == g);
                }
            } else {
                let more = given_names(ch, key, ch.len() as int);
                assert(now[before.len() as int] == d);
                if is_field(ch[k], key) && g.len() > 0 {
                    lemma_given(ch, key, k, ch.len() as int);
                    let y = choose|y: int| 0 <= y < more.len() && more[y] == g;
                    assert(now[before.len() + 1 + y] == g);
                }
            }
        },
    }
}

// ---------------------------------------------------------------------------
// Usages of aliases

/// A usage under an overload: a block is held to the body of the overload, in the scope that
/// it is put in, and sees the variables that it sets as a loop; a value is held to the
/// value; one that is not of the shape of the overload is reported as `CW267`.
pub proof fn law_usages_under_overloads(
    ctx: CtxV,
    category: Seq<char>,
    l: Leaf,
    left: FieldV,
    rules: Seq<RuleV>,
    right: FieldV,
    o: OptionsV,
    sc: Option<ScopeV>,
    loop_vars: Seq<Seq<char>>,
)
    ensures
        ({
            let block = overload_problems(
                ctx,
                category,
                l,
                (RuleTypeV::NodeRule { left, rules }, o),
                sc,
                loop_vars,
            );
            let value = overload_problems(
                ctx,
                category,
                l,
                (RuleTypeV::LeafRule { left, right }, o),
                sc,
                loop_vars,
            );
            &&& l.value matches Value::Clause(inner) ==> block == Some(
                block_problems(
                    ctx,
                    inner@,
                    rules,
                    match sc {
                        Some(s) => Some(block_scope(s, unquoted(l.key@), o, ctx.game, true)),
                        None => None,
                    },
                    loop_vars + loop_names(rules, inner@, rules.len() as int),
                    (l.pos.start.line, l.pos.start.col),
                ),
            )
            &&& !(l.value is Clause) ==> block is Some && is_one(
                block->0,
                "CW267"@,
                ctx.file,
                l.pos.start,
            )
            &&& value == Some(leaf_problems(ctx, l, right, sc, loop_vars))
        }),
{
}

/// A usage of an alias that does not exist is not reported as such: its key is no usage.
pub proof fn law_usages_of_nothing(
    ctx: CtxV,
    category: Seq<char>,
    l: Leaf,
    sc: Option<ScopeV>,
    loop_vars: Seq<Seq<char>>,
)
    requires
        overloads(ctx.rs, ctx.idx, category, unquoted(l.key@)).len() == 0,
    ensures
        alias_problems(ctx, category, l, sc, loop_vars).len() == 0,
{
}

/// A usage of an alias with one overload is held to that overload, and to its scope.
pub proof fn law_usages_of_one_overload(
    ctx: CtxV,
    category: Seq<char>,
    l: Leaf,
    r: RuleV,
    sure: bool,
    loop_vars: Seq<Seq<char>>,
)
    requires
        overloads(ctx.rs, ctx.idx, category, unquoted(l.key@)) == seq![(r, sure)],
        r.0 is LeafRule || r.0 is NodeRule,
        !is_math_rule(r.0),
    ensures
        Some(alias_problems(ctx, category, l, None, loop_vars)) == overload_problems(
            ctx,
            category,
            l,
            r,
            None,
            loop_vars,
        ),
{
    let ov = seq![(r, sure)];
    assert(ov[0].0 == r);
    if has_math(ov) {
        let i = choose|i: int| 0 <= i < ov.len() && is_math_rule((#[trigger] ov[i]).0.0);
        assert(ov[i].0 == r);
    }
    reveal_with_fuel(fewest_in_overloads, 2);
    let e = overload_problems(ctx, category, l, r, None, loop_vars)->0;
    assert(Seq::<ErrorV>::empty() + Seq::<ErrorV>::empty() + e =~= e);
}

proof fn lemma_inserted_member(v: Seq<Seq<char>>, s: Seq<char>, x: Seq<char>)
    ensures
        inserted(v, s).contains(x) <==> v.contains(x) || x == s,
    decreases v.len(),
{
    let out = inserted(v, s);
    if v.len() == 0 {
        assert(out[0] == s);
    } else if v[0] == s {
        assert(v.contains(s));
    } else if text_before(s, v[0]) {
        assert(out[0] == s);
        if v.contains(x) {
            let i = choose|i: int| 0 <= i < v.len() && v[i] == x;
            assert(out[i + 1] == x);
        }
        if out.contains(x) && x != s {
            let i = choose|i: int| 0 <= i < out.len() && out[i] == x;
            assert(v[i - 1] == x);
        }
    } else {
        let rest = v.subrange(1, v.len() as int);
        let more = inserted(rest, s);
        lemma_inserted_member(rest, s, x);
        assert(out[0] == v[0]);
        if v.contains(x) {
            let i = choose|i: int| 0 <= i < v.len() && v[i] == x;
            if i > 0 {
                assert(rest[i - 1] == x);
            }
        }
        if rest.contains(x) {
            let i = choose|i: int| 0 <= i < rest.len() && rest[i] == x;
            assert(v[i + 1] == x);
        }
        if more.contains(x) {
            let i = choose|i: int| 0 <= i < more.len() && more[i] == x;
            assert(out[i + 1] == x);
        }
        if out.contains(x) && x != v[0] {
            let i = choose|i: int| 0 <= i < out.len() && out[i] == x;
            assert(more[i - 1] == x);
        }
        assert(v.contains(v[0]));
    }
}

proof fn lemma_all_inserted(v: Seq<Seq<char>>, more: Seq<Seq<char>>, n: int, x: Seq<char>)
    requires
        0 <= n <= more.len(),
    ensures
        all_inserted(v, more, n).contains(x) <==> v.contains(x) || more.take(n).contains(x),
    decreases n,
{
    let t = more.take(n);
    if n > 0 {
        lemma_all_inserted(v, more, n - 1, x);
        lemma_inserted_member(all_inserted(v, more, n - 1), more[n - 1], x);
        let h = more.take(n - 1);
        assert(t =~= h.push(more[n - 1]));
        if h.contains(x) {
            let i = choose|i: int| 0 <= i < h.len() && h[i] == x;
            assert(t[i] == x);
        }
        if more[n - 1] == x {
            assert(t[n - 1] == x);
        }
        if t.contains(x) && more[n - 1] != x {
            let i = choose|i: int| 0 <= i < t.len() && t[i] == x;
            assert(h[i] == x);
        }
    } else {
        assert(t =~= Seq::<Seq<char>>::empty());
    }
}

/// The scopes that the message on a usage in the wrong scope names are exactly those that
/// certain overloads require.
pub proof fn law_scopes_in_messages(ov: Seq<(RuleV, bool)>, n: int, x: Seq<char>)
    requires
        0 <= n <= ov.len(),
    ensures
        required_by(ov, n).contains(x) <==> exists|i: int|
            0 <= i < n && (#[trigger] ov[i]).1 && ov[i].0.1.required_scopes.contains(x),
    decreases n,
{
    if n > 0 {
        law_scopes_in_messages(ov, n - 1, x);
        let names = ov[n - 1].0.1.required_scopes;
        lemma_all_inserted(required_by(ov, n - 1), names, names.len() as int, x);
        assert(names.take(names.len() as int) =~= names);
        if ov[n - 1].1 && names.contains(x) {
            assert(ov[n - 1].1);
        }
    } else {
        assert(required_by(ov, 0) =~= Seq::<Seq<char>>::empty());
    }
}

// ---------------------------------------------------------------------------
// Places

/// What is missing in a block is reported at its first child that is no comment, or at the
/// block itself where it has none; what is there too often, where it first stands.
pub proof fn law_places_of_numbers(ch: Seq<Child>, i: int, key: Seq<char>, or: (u32, u16))
    ensures
        (forall|j: int| 0 <= j < ch.len() ==> (#[trigger] ch[j]) is Comment) ==> first_pos(
            ch,
            0,
            or,
        ) == or,
        0 <= i < ch.len() && !(ch[i] is Comment) && (forall|j: int|
            0 <= j < i ==> (#[trigger] ch[j]) is Comment) ==> Some(first_pos(ch, 0, or))
            == start_pos(ch[i]),
        0 <= i < ch.len() && is_field(ch[i], unquoted(key)) && (forall|j: int|
            0 <= j < i ==> !is_field(#[trigger] ch[j], unquoted(key))) ==> Some(
            key_pos(ch, key, 0, or),
        ) == start_pos(ch[i]),
{
    lemma_first_pos(ch, 0, i, or);
    lemma_key_pos(ch, key, 0, i, or);
}

proof fn lemma_first_pos(ch: Seq<Child>, k: int, i: int, or: (u32, u16))
    requires
        0 <= k <= ch.len(),
    ensures
        (forall|j: int| k <= j < ch.len() ==> (#[trigger] ch[j]) is Comment) ==> first_pos(
            ch,
            k,
            or,
        ) == or,
        k <= i < ch.len() && !(ch[i] is Comment) && (forall|j: int|
            k <= j < i ==> (#[trigger] ch[j]) is Comment) ==> Some(first_pos(ch, k, or))
            == start_pos(ch[i]),
    decreases ch.len() - k,
{
    if k < ch.len() {
        lemma_first_pos(ch, k + 1, i, or);
        if !(ch[k] is Comment) && k < i {
            assert(!(ch[k] is Comment));
        }
    }
}

proof fn lemma_key_pos(ch: Seq<Child>, key: Seq<char>, k: int, i: int, or: (u32, u16))
    requires
        0 <= k <= ch.len(),
    ensures
        k <= i < ch.len() && is_field(ch[i], unquoted(key)) && (forall|j: int|
            k <= j < i ==> !is_field(#[trigger] ch[j], unquoted(key))) ==> Some(
            key_pos(ch, key, k, or),
        ) == start_pos(ch[i]),
    decreases ch.len() - k,
{
    if k < ch.len() {
        lemma_key_pos(ch, key, k + 1, i, or);
        assert(has_key(ch[k], key) == is_field(ch[k], unquoted(key)));
        if k < i && is_field(ch[k], unquoted(key)) {
            assert(is_field(ch[k], unquoted(key)));
        }
    }
}

/// The message on a wrong number says how often the field stands and how often it should.
pub proof fn law_messages_on_numbers(
    file: Seq<char>,
    sev: ErrorSeverity,
    what: Seq<char>,
    n: int,
    b: Bounds,
    under: (u32, u16),
    over: (u32, u16),
)
    requires
        b.min <= b.max,
    ensures
        ({
            let e = number_problems(file, sev, what, n, b, under, over);
            let said = what + " appears "@ + decimal(n) + " time(s), expected at "@;
            &&& n < b.min && b.strict ==> e.len() == 1 && e[0].message == said + "least"@ + " "@
                + decimal(b.min as int) && (e[0].line, e[0].col) == under && e[0].severity == sev
            &&& n > b.max ==> e.len() == 1 && e[0].message == said + "most"@ + " "@ + decimal(
                b.max as int,
            ) && (e[0].line, e[0].col) == over && e[0].severity == sev
        }),
{
}

// ---------------------------------------------------------------------------
// Codes

/// What is an error, and the code that it is reported under.
pub proof fn law_codes_of_errors()
    ensures
        cw002().id == "CW002"@ && cw002().severity == ErrorSeverity::Error,
        cw101().id == "CW101"@ && cw101().severity == ErrorSeverity::Error,
        cw102().id == "CW102"@ && cw102().severity == ErrorSeverity::Error,
        cw103().id == "CW103"@ && cw103().severity == ErrorSeverity::Error,
        cw104().id == "CW104"@ && cw104().severity == ErrorSeverity::Error,
        cw105().id == "CW105"@ && cw105().severity == ErrorSeverity::Error,
        cw106().id == "CW106"@ && cw106().severity == ErrorSeverity::Error,
        cw108().id == "CW108"@ && cw108().severity == ErrorSeverity::Error,
        cw110().id == "CW110"@ && cw110().severity == ErrorSeverity::Error,
        cw113().id == "CW113"@ && cw113().severity == ErrorSeverity::Error,
        cw200().id == "CW200"@ && cw200().severity == ErrorSeverity::Error,
        cw201().id == "CW201"@ && cw201().severity == ErrorSeverity::Error,
        cw202().id == "CW202"@ && cw202().severity == ErrorSeverity::Error,
        cw203().id == "CW203"@ && cw203().severity == ErrorSeverity::Error,
        cw204().id == "CW204"@ && cw204().severity == ErrorSeverity::Error,
        cw205().id == "CW205"@ && cw205().severity == ErrorSeverity::Error,
        cw226().id == "CW226"@ && cw226().severity == ErrorSeverity::Error,
        cw227().id == "CW227"@ && cw227().severity == ErrorSeverity::Error,
        cw229().id == "CW229"@ && cw229().severity == ErrorSeverity::Error,
        cw238().id == "CW238"@ && cw238().severity == ErrorSeverity::Error,
        cw240().id == "CW240"@ && cw240().severity == ErrorSeverity::Error,
        cw243().id == "CW243"@ && cw243().severity == ErrorSeverity::Error,
        cw244().id == "CW244"@ && cw244().severity == ErrorSeverity::Error,
        cw245().id == "CW245"@ && cw245().severity == ErrorSeverity::Error,
        cw247().id == "CW247"@ && cw247().severity == ErrorSeverity::Error,
        cw248().id == "CW248"@ && cw248().severity == ErrorSeverity::Error,
        cw250().id == "CW250"@ && cw250().severity == ErrorSeverity::Error,
        cw262().id == "CW262"@ && cw262().severity == ErrorSeverity::Error,
        cw263().id == "CW263"@ && cw263().severity == ErrorSeverity::Error,
        cw264().id == "CW264"@ && cw264().severity == ErrorSeverity::Error,
        cw265().id == "CW265"@ && cw265().severity == ErrorSeverity::Error,
        cw266().id == "CW266"@ && cw266().severity == ErrorSeverity::Error,
        cw267().id == "CW267"@ && cw267().severity == ErrorSeverity::Error,
        cw270().id == "CW270"@ && cw270().severity == ErrorSeverity::Error,
        cw271().id == "CW271"@ && cw271().severity == ErrorSeverity::Error,
        cw400().id == "CW400"@ && cw400().severity == ErrorSeverity::Error,
        cw500().id == "CW500"@ && cw500().severity == ErrorSeverity::Error,
{
}

/// What is a warning, and the code that it is reported under.
pub proof fn law_codes_of_warnings()
    ensures
        cw100().id == "CW100"@ && cw100().severity == ErrorSeverity::Warning,
        cw121().id == "CW121"@ && cw121().severity == ErrorSeverity::Warning,
        cw222().id == "CW222"@ && cw222().severity == ErrorSeverity::Warning,
        cw235().id == "CW235"@ && cw235().severity == ErrorSeverity::Warning,
        cw236().id == "CW236"@ && cw236().severity == ErrorSeverity::Warning,
        cw242().id == "CW242"@ && cw242().severity == ErrorSeverity::Warning,
        cw246().id == "CW246"@ && cw246().severity == ErrorSeverity::Warning,
        cw260().id == "CW260"@ && cw260().severity == ErrorSeverity::Warning,
        cw261().id == "CW261"@ && cw261().severity == ErrorSeverity::Warning,
        cw281().id == "CW281"@ && cw281().severity == ErrorSeverity::Warning,
        cw300().id == "CW300"@ && cw300().severity == ErrorSeverity::Warning,
        cw301().id == "CW301"@ && cw301().severity == ErrorSeverity::Warning,
        cw501().id == "CW501"@ && cw501().severity == ErrorSeverity::Warning,
        cw502().id == "CW502"@ && cw502().severity == ErrorSeverity::Warning,
{
}

/// What is a note, and the code that it is reported under.
pub proof fn law_codes_of_notes()
    ensures
        cw107().id == "CW107"@ && cw107().severity == ErrorSeverity::Information,
        cw120().id == "CW120"@ && cw120().severity == ErrorSeverity::Information,
        cw122().id == "CW122"@ && cw122().severity == ErrorSeverity::Information,
        cw223().id == "CW223"@ && cw223().severity == ErrorSeverity::Information,
        cw237().id == "CW237"@ && cw237().severity == ErrorSeverity::Information,
        cw251().id == "CW251"@ && cw251().severity == ErrorSeverity::Information,
        cw253().id == "CW253"@ && cw253().severity == ErrorSeverity::Information,
        cw280().id == "CW280"@ && cw280().severity == ErrorSeverity::Information,
        cw282().id == "CW282"@ && cw282().severity == ErrorSeverity::Information,
{
}

// ---------------------------------------------------------------------------
// What a rule asks of a field

/// A field is held to the scope that its rule requires, to what its value may be, and to
/// its default.
pub proof fn law_what_a_rule_asks(
    ctx: CtxV,
    l: Leaf,
    name: Seq<char>,
    right: FieldV,
    o: OptionsV,
    sc: Option<ScopeV>,
    loop_vars: Seq<Seq<char>>,
    e: ErrorV,
)
    ensures
        rule_problems(
            ctx,
            l,
            (RuleTypeV::LeafRule { left: FieldV::SpecificField(name), right }, o),
            sc,
            loop_vars,
        ).contains(e) <==> required_scope_problems(ctx, l, unquoted(l.key@), o, sc).contains(e)
            || leaf_problems(ctx, l, right, sc, loop_vars).contains(e) || default_bool_problems(
            ctx,
            l,
            o,
        ).contains(e),
{
    let a = required_scope_problems(ctx, l, unquoted(l.key@), o, sc);
    let b = leaf_problems(ctx, l, right, sc, loop_vars);
    let c = default_bool_problems(ctx, l, o);
    lemma_sum_contains(a, b, e);
    lemma_sum_contains(a + b, c, e);
}

/// A rule that stands for the aliases of a category holds a field to the alias of its name.
pub proof fn law_rules_for_aliases(
    ctx: CtxV,
    l: Leaf,
    category: Seq<char>,
    right: FieldV,
    rules: Seq<RuleV>,
    o: OptionsV,
    loop_vars: Seq<Seq<char>>,
)
    ensures
        rule_problems(
            ctx,
            l,
            (RuleTypeV::LeafRule { left: FieldV::AliasField(category), right }, o),
            None,
            loop_vars,
        ) == alias_problems(ctx, category, l, None, loop_vars),
        rule_problems(
            ctx,
            l,
            (RuleTypeV::NodeRule { left: FieldV::AliasField(category), rules }, o),
            None,
            loop_vars,
        ) == alias_problems(ctx, category, l, None, loop_vars),
{
    let e = alias_problems(ctx, category, l, None, loop_vars);
    assert(Seq::<ErrorV>::empty() + e =~= e);
}

/// A block under a key that a rule makes an arithmetic expression is held to that rule, and
/// to no other.
pub proof fn law_expressions_come_first(
    ctx: CtxV,
    l: Leaf,
    rules: Seq<RuleV>,
    sc: Option<ScopeV>,
    loop_vars: Seq<Seq<char>>,
    i: int,
)
    requires
        l.value is Clause,
        ({
            let m = matching(rules, unquoted(l.key@), ctx.rs, ctx.idx);
            &&& 0 <= i < m.len()
            &&& m[i].0 is LeafRule
            &&& m[i].0->LeafRule_right == FieldV::ValueField(ValueTypeV::MathExpr)
            &&& forall|j: int|
                0 <= j < i ==> !((#[trigger] m[j]).0 is LeafRule) || m[j].0->LeafRule_right
                    != FieldV::ValueField(ValueTypeV::MathExpr)
        }),
    ensures
        in_block_problems(ctx, Child::Leaf(l), rules, sc, loop_vars) == rule_problems(
            ctx,
            l,
            matching(rules, unquoted(l.key@), ctx.rs, ctx.idx)[i],
            sc,
            loop_vars,
        ),
{
    let m = matching(rules, unquoted(l.key@), ctx.rs, ctx.idx);
    lemma_first_math(m, 0, i);
}

proof fn lemma_first_math(m: Seq<RuleV>, k: int, i: int)
    requires
        0 <= k <= i < m.len(),
        is_math_rule(m[i].0),
        forall|j: int|
            k <= j < i ==> !((#[trigger] m[j]).0 is LeafRule) || m[j].0->LeafRule_right
                != FieldV::ValueField(ValueTypeV::MathExpr),
    ensures
        first_math(m, k) == Some(m[i]),
    decreases i - k,
{
    if k < i {
        assert(!(m[k].0 is LeafRule) || m[k].0->LeafRule_right != FieldV::ValueField(
            ValueTypeV::MathExpr,
        ));
        lemma_first_math(m, k + 1, i);
    }
}

/// The end of a key is as many columns behind its start as it has characters, up to the
/// last column.
pub proof fn law_ends_of_keys(start: SourcePos, len: int)
    requires
        0 <= len,
    ensures
        ({
            let r = key_range(start, len);
            &&& r.start == start && r.end.line == start.line
            &&& start.col + len <= u16::MAX ==> r.end.col == start.col + len
            &&& start.col + len > u16::MAX ==> r.end.col == u16::MAX
        }),
{
}

/// The text that a diagnostic is recognised by holds how grave it is, the file, the line and
/// the message.
pub proof fn law_recognised_by(file: Seq<char>, line: u32, message: Seq<char>)
    ensures
        ({
            let rest = "|"@ + file + "|"@ + decimal(line as int) + "|"@ + message;
            &&& hash_text(ErrorSeverity::Error, file, line, message) =~= "error"@ + rest
            &&& hash_text(ErrorSeverity::Warning, file, line, message) =~= "warning"@ + rest
            &&& hash_text(ErrorSeverity::Information, file, line, message) =~= "information"@ + rest
            &&& hash_text(ErrorSeverity::Hint, file, line, message) =~= "hint"@ + rest
        }),
{
}

} // verus!
