//! What each pass makes of a rule, and where the cursor of an editor is.

use vstd::prelude::*;

use crate::ast::{Child, Comment, Leaf, LeafValue, SourcePos, SourceRange};
use crate::common::value_text;
use crate::context::CtxV;
use crate::field_match::{any_specific, is_specific, matching, matching_rules};
use crate::position::{
    Cursor, alias_category, bare_value_rules, bodies, context_at, context_from, context_in,
    entity_context, first_category, is_at, is_in, key_rules, root_context,
};
use crate::post_process::{
    AliasesV, coloured, find_single, ignoring, inlined, inlined_list, unmarked_field,
};
use crate::resolve::{ResolvedV, resolved, rules_named};
use crate::rule_converter::unquoted;
use crate::rules_types::{FieldV, Marker, OptionsV, RuleTypeV, RuleV, ValueTypeV};
use crate::scope::block_scope;
use crate::scope_engine::ScopeV;
use crate::text::ascii_lower;

verus! {

// ---------------------------------------------------------------------------
// Passes over rules

/// A value marker becomes the field that it marks, with its range; every other field stays.
pub proof fn law_value_markers(f: FieldV, is_int: bool, min: Seq<char>, max: Seq<char>)
    ensures
        unmarked_field(FieldV::ValueScopeMarkerField { is_int, min, max }) == (
        FieldV::ValueScopeField { is_int, min, max }),
        !(f is ValueScopeMarkerField) ==> unmarked_field(f) == f,
{
}

/// A reference to a single alias that holds a field keeps its key and takes the value; to
/// one that holds a block, it keeps its key and takes the body; to one that is not defined,
/// it stays.
pub proof fn law_references_are_replaced(left: FieldV, name: Seq<char>, m: AliasesV)
    ensures
        ({
            let r = RuleTypeV::LeafRule { left, right: FieldV::SingleAliasField(name) };
            &&& find_single(m, name, 0) is None ==> inlined(r, m) == r
            &&& find_single(m, name, 0) matches Some(RuleTypeV::LeafRule { right, .. }) ==> inlined(
                r,
                m,
            ) == (RuleTypeV::LeafRule { left, right })
            &&& find_single(m, name, 0) matches Some(RuleTypeV::NodeRule { rules, .. }) ==> inlined(
                r,
                m,
            ) == (RuleTypeV::NodeRule { left, rules })
        }),
{
}

/// Of several single aliases of one name the first counts.
pub proof fn law_first_single_alias(m: AliasesV, i: int)
    requires
        0 <= i < m.len(),
        forall|j: int| 0 <= j < i ==> (#[trigger] m[j]).0 != m[i].0,
    ensures
        find_single(m, m[i].0, 0) == Some(m[i].1.0),
{
    lemma_find_single(m, 0, i);
}

proof fn lemma_find_single(m: AliasesV, k: int, i: int)
    requires
        0 <= k <= i < m.len(),
        forall|j: int| k <= j < i ==> (#[trigger] m[j]).0 != m[i].0,
    ensures
        find_single(m, m[i].0, k) == Some(m[i].1.0),
    decreases i - k,
{
    if k < i {
        assert(m[k].0 != m[i].0);
        lemma_find_single(m, k + 1, i);
    }
}

/// The rules of a body stay in their order, each with its options, when references in them
/// are replaced.
pub proof fn law_replacing_keeps_options(rules: Seq<RuleV>, m: AliasesV, n: int, i: int)
    requires
        0 <= i < n <= rules.len(),
    ensures
        inlined_list(rules, m, n).len() == n,
        inlined_list(rules, m, n)[i] == (inlined(rules[i].0, m), rules[i].1),
    decreases n,
{
    if i < n - 1 {
        law_replacing_keeps_options(rules, m, n - 1, i);
    } else {
        lemma_inlined_length(rules, m, n - 1);
    }
}

proof fn lemma_inlined_length(rules: Seq<RuleV>, m: AliasesV, n: int)
    requires
        0 <= n <= rules.len(),
    ensures
        inlined_list(rules, m, n).len() == n,
    decreases n,
{
    if n > 0 {
        lemma_inlined_length(rules, m, n - 1);
    }
}

/// A field for a colour becomes a block of exactly three numbers from -256 to 256, with the
/// options of the field; one for a country tag becomes two, for a tag and for a variable; a
/// field that is neither stays.
pub proof fn law_colours_and_tags(left: FieldV, right: FieldV, o: OptionsV)
    requires
        left != FieldV::MarkerField(Marker::IrCountryTag),
    ensures
        ({
            let c = coloured(
                (RuleTypeV::LeafRule { left, right: FieldV::MarkerField(Marker::ColourField) }, o),
            );
            &&& c.len() == 1 && c[0].1 == o
            &&& c[0].0 matches RuleTypeV::NodeRule { left: l, rules } && l == left && rules.len()
                == 1 && rules[0].0 == (RuleTypeV::LeafValueRule {
                right: FieldV::ValueField(
                    ValueTypeV::Float { min: "-256.0"@, max: "256.0"@ },
                ),
            }) && rules[0].1.min == 3 && rules[0].1.max == 3 && rules[0].1.strict_min
        }),
        ({
            let t = coloured(
                (RuleTypeV::LeafRule { left, right: FieldV::MarkerField(Marker::IrCountryTag) }, o),
            );
            &&& t.len() == 2 && t[0].1 == o && t[1].1 == o
            &&& t[0].0 == (RuleTypeV::LeafRule {
                left,
                right: FieldV::ValueField(ValueTypeV::Enum("country_tags"@)),
            })
            &&& t[1].0 == (RuleTypeV::LeafRule {
                left,
                right: FieldV::VariableGetField("dynamic_country_tag"@),
            })
        }),
        !(right is MarkerField) ==> coloured((RuleTypeV::LeafRule { left, right }, o)) == seq![
            (RuleTypeV::LeafRule { left, right }, o),
        ],
{
}

/// A field whose value is ignored becomes a block without rules whose key is ignored; every
/// other field stays.
pub proof fn law_ignored_values(left: FieldV, right: FieldV)
    ensures
        ignoring(RuleTypeV::LeafRule { left, right: FieldV::IgnoreMarkerField }) matches RuleTypeV::NodeRule {
            left: l,
            rules,
        } && l == FieldV::IgnoreField(Box::new(left)) && rules.len() == 0,
        right != FieldV::IgnoreMarkerField ==> ignoring(RuleTypeV::LeafRule { left, right }) == (
        RuleTypeV::LeafRule { left, right }),
{
}

// ---------------------------------------------------------------------------
// Where the cursor is

/// The one position is not behind the other.
pub open spec fn is_not_behind(a: SourcePos, b: SourcePos) -> bool {
    a.line < b.line || (a.line == b.line && a.col <= b.col)
}

/// The cursor is in a range exactly if it is neither before its start nor behind its end.
pub proof fn law_cursor_in_range(line: u32, col: u16, r: SourceRange)
    requires
        is_not_behind(r.start, r.end),
    ensures
        is_at(Cursor { line, col }, r) <==> is_not_behind(r.start, SourcePos { line, col })
            && is_not_behind(SourcePos { line, col }, r.end),
{
}

/// On a field that is no block, the cursor is on the key or in the value, in the line of the
/// field; the rules are those for its key, the scope is that of the block.
pub proof fn law_cursor_on_a_field(
    ctx: CtxV,
    l: Leaf,
    rules: Seq<RuleV>,
    sc: Option<ScopeV>,
    at: Cursor,
)
    requires
        !(l.value is Clause),
        is_at(at, l.pos),
    ensures
        ({
            let c = context_at(ctx, Child::Leaf(l), rules, sc, at);
            &&& c is Some <==> at.line == l.pos.start.line
            &&& c matches Some(x) ==> {
                &&& x.scope == sc
                &&& x.child_rules == rules
                &&& x.value_rules == key_rules(ctx.rs, ctx.idx, rules, unquoted(l.key@))
                &&& x.leaf matches Some(p) && p.key == unquoted(l.key@) && p.value == value_text(
                    l.value,
                ) && p.line == l.pos.start.line && p.col == l.pos.start.col && (p.in_value
                    <==> at.col > l.pos.start.col + l.key@.len())
            }
        }),
{
}

/// In a block that one rule is for, by name, the cursor is held to the rules of that rule,
/// in the scope that the rule puts the block in.
pub proof fn law_cursor_in_a_block(
    ctx: CtxV,
    l: Leaf,
    name: Seq<char>,
    inner: Seq<RuleV>,
    o: OptionsV,
    sc: Option<ScopeV>,
    at: Cursor,
)
    requires
        l.value is Clause,
        is_at(at, l.pos),
        at.line != l.pos.start.line || at.col > l.pos.start.col + l.key@.len(),
        ascii_lower(unquoted(l.key@)) == ascii_lower(name),
        inner.len() > 0,
    ensures
        context_at(
            ctx,
            Child::Leaf(l),
            seq![(RuleTypeV::NodeRule { left: FieldV::SpecificField(name), rules: inner }, o)],
            sc,
            at,
        ) == Some(
            context_in(
                ctx,
                l.value->Clause_0@,
                inner,
                match sc {
                    Some(s) => Some(block_scope(s, unquoted(l.key@), o, ctx.game, false)),
                    None => None,
                },
                at,
            ),
        ),
{
    let key = unquoted(l.key@);
    let r = (RuleTypeV::NodeRule { left: FieldV::SpecificField(name), rules: inner }, o);
    let rules = seq![r];
    assert(is_specific(rules[0].0, key));
    assert(any_specific(rules, key));
    reveal_with_fuel(matching_rules, 2);
    assert(matching(rules, key, ctx.rs, ctx.idx) =~= seq![r]);
    reveal_with_fuel(bodies, 2);
    let e = bodies(ctx.rs, ctx.idx, seq![r], key, 1);
    assert(e.rules =~= inner);
}

/// The cursor is in the first child that it is in; a child that it is not in does not
/// matter, and neither does a comment.
pub proof fn law_cursor_skips_what_it_is_not_in(
    ctx: CtxV,
    ch: Seq<Child>,
    rules: Seq<RuleV>,
    sc: Option<ScopeV>,
    at: Cursor,
    i: int,
)
    requires
        0 <= i < ch.len(),
    ensures
        !is_in(at, ch[i]) ==> context_from(ctx, ch, rules, sc, at, i) == context_from(
            ctx,
            ch,
            rules,
            sc,
            at,
            i + 1,
        ),
        context_at(ctx, ch[i], rules, sc, at) matches Some(c) ==> is_in(at, ch[i])
            && context_from(ctx, ch, rules, sc, at, i) == c,
        ch[i] is Comment ==> !is_in(at, ch[i]),
{
}

/// On a bare value, the rules are those for bare values.
pub proof fn law_cursor_on_a_value(
    ctx: CtxV,
    lv: LeafValue,
    rules: Seq<RuleV>,
    sc: Option<ScopeV>,
    at: Cursor,
    r: RuleV,
)
    requires
        !(lv.value is Clause),
        is_at(at, lv.pos),
    ensures
        context_at(ctx, Child::LeafValue(lv), rules, sc, at) matches Some(c) && (
        c.value_rules.contains(r) <==> rules.contains(r) && r.0 is LeafValueRule) && c.child_rules
            == rules && c.scope == sc,
{
    lemma_bare_rules(rules, rules.len() as int, r);
    assert(rules.take(rules.len() as int) =~= rules);
}

proof fn lemma_bare_rules(rules: Seq<RuleV>, n: int, r: RuleV)
    requires
        0 <= n <= rules.len(),
    ensures
        bare_value_rules(rules, n).contains(r) <==> rules.take(n).contains(r)
            && r.0 is LeafValueRule,
    decreases n,
{
    let now = bare_value_rules(rules, n);
    let t = rules.take(n);
    if n > 0 {
        lemma_bare_rules(rules, n - 1, r);
        let before = bare_value_rules(rules, n - 1);
        let head = rules.take(n - 1);
        assert(t =~= head.push(rules[n - 1]));
        if head.contains(r) {
            let k = choose|k: int| 0 <= k < head.len() && head[k] == r;
            assert(t[k] == r);
        }
        if rules[n - 1] == r {
            assert(t[n - 1] == r);
        }
        if t.contains(r) && rules[n - 1] != r {
            let k = choose|k: int| 0 <= k < t.len() && t[k] == r;
            assert(head[k] == r);
        }
        if before.contains(r) {
            let k = choose|k: int| 0 <= k < before.len() && before[k] == r;
            assert(now[k] == r);
        }
        if rules[n - 1].0 is LeafValueRule {
            if rules[n - 1] == r {
                assert(now[before.len() as int] == r);
            }
            if now.contains(r) && rules[n - 1] != r {
                let k = choose|k: int| 0 <= k < now.len() && now[k] == r;
                assert(before[k] == r);
            }
        }
    } else {
        assert(now =~= Seq::<RuleV>::empty());
        assert(t =~= Seq::<RuleV>::empty());
    }
}

/// The category of a rule that stands for aliases is the one that it names; of several rules
/// the first that stands for aliases counts.
pub proof fn law_categories_for_editors(rules: Seq<RuleV>, i: int, category: Seq<char>)
    requires
        0 <= i < rules.len(),
        alias_category(rules[i].0) == Some(category),
        forall|j: int| 0 <= j < i ==> alias_category((#[trigger] rules[j]).0) is None,
    ensures
        first_category(rules, 0) == Some(category),
        match rules[i].0 {
            RuleTypeV::LeafRule { left, .. } => left == FieldV::AliasField(category),
            RuleTypeV::NodeRule { left, .. } => left == FieldV::AliasField(category),
            _ => false,
        },
{
    lemma_first_category(rules, 0, i);
}

proof fn lemma_first_category(rules: Seq<RuleV>, k: int, i: int)
    requires
        0 <= k <= i < rules.len(),
        alias_category(rules[i].0) is Some,
        forall|j: int| k <= j < i ==> alias_category((#[trigger] rules[j]).0) is None,
    ensures
        first_category(rules, k) == alias_category(rules[i].0),
    decreases i - k,
{
    if k < i {
        assert(alias_category(rules[k].0) is None);
        lemma_first_category(rules, k + 1, i);
    }
}

/// In a block at the top of a file, behind its key, the cursor is in an instance of the type
/// of the block; on the key it is nowhere.
pub proof fn law_cursor_in_an_instance(ctx: CtxV, l: Leaf, sc: Option<ScopeV>, at: Cursor)
    requires
        l.value is Clause,
    ensures
        ({
            let c = root_context(ctx, Child::Leaf(l), sc, at);
            let on_key = at.line == l.pos.start.line && at.col <= l.pos.start.col + l.key@.len();
            &&& on_key ==> c is None
            &&& !on_key ==> (resolved(ctx.rs, ctx.file, l.key@, true) matches ResolvedV::Entity(t)
                ==> c == Some(
                entity_context(
                    ctx,
                    t,
                    l.value->Clause_0@,
                    rules_named(ctx.rs, t.name),
                    Some(l.key@),
                    sc,
                    at,
                ),
            ))
            &&& resolved(ctx.rs, ctx.file, l.key@, true) is Unknown ==> c is None
        }),
{
}

} // verus!
