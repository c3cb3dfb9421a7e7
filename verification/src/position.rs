//! The rules that apply at a position in a file, for completion, hovering and
//! going to definitions.
//!
//! The way to the position is the one that checking takes: the same types, subtypes,
//! candidates and aliases decide which rules a block is under.

use vstd::prelude::*;

use crate::ast::{Child, Comment, Leaf, LeafValue, ParsedFile, SourcePos, SourceRange, Value};
use crate::common::{leaf_value_to_string, value_text};
use crate::context::{CtxV, ValidationCtx, opt_scope};
use crate::field_match::{
    Overload, alias_overloads, matching, matching_candidates, opt_index, overloads, refs_view,
};
use crate::game_common::{as_block, block_of};
use crate::resolve::{
    ResolvedType, ResolvedV, filter_allows, find_grandchild_type, find_rules_by_name,
    find_type_by_path, grandchild_type, is_checked, opt_rules, opt_str, resolve_root_child,
    resolved, rules_named, skip_matches, skip_root_key_matches, type_at, type_filter_allows,
    type_has_content,
};
use crate::rule_converter::{unquote_key, unquoted};
use crate::rule_core::{opt_block_scope, scope_in_block, scope_ref};
use crate::rules_types::{
    FieldV, NewField, Options, OptionsV, RuleType, RuleTypeV, RuleV, TypeDefV, TypeDefinition,
    clone_rule, clone_rules, lemma_rules_empty, lemma_rules_push, opt_view, rule_view, rules_view,
    views,
};
use crate::ruleset::{RuleSet, RuleSetV};
use crate::scope_engine::{ScopeContext, ScopeV};
use crate::subtype::{
    active_subtypes, flatten_nested_subtype_rules, flattened, lemma_rules_concat, merged_rules,
    merged_rules_for_type, pushed_scope,
};
use crate::text::opt_text;
use crate::type_index::{IndexV, TypeIndex};
use crate::validate::{
    Prepared, context_for, ctx_of, initial_scope_context, lemma_wrapper_has_level,
    opt_initial_scope, opt_registry, opt_root_scope, scope_in_entity,
};

verus! {

/// The leaf at a position.
#[derive(Debug)]
pub struct LeafAtPos {
    pub key: String,
    /// The value as it stands in the file; empty for a block.
    pub value: String,
    /// The position is on the value.
    pub in_value: bool,
    pub line: u32,
    pub col: u16,
}

/// The model of [`LeafAtPos`].
#[verifier::ext_equal]
pub struct LeafAtPosV {
    pub key: Seq<char>,
    pub value: Seq<char>,
    pub in_value: bool,
    pub line: u32,
    pub col: u16,
}

impl View for LeafAtPos {
    type V = LeafAtPosV;

    open spec fn view(&self) -> LeafAtPosV {
        LeafAtPosV {
            key: self.key@,
            value: self.value@,
            in_value: self.in_value,
            line: self.line,
            col: self.col,
        }
    }
}

/// The rules that apply at a position.
pub struct RuleContext<'a> {
    /// The rules for new children of the innermost block around the position.
    pub child_rules: Vec<(RuleType, Options)>,
    /// The rules for the leaf at the position, with the overloads of an alias in its
    /// place.
    pub value_rules: Vec<(RuleType, Options)>,
    pub leaf: Option<LeafAtPos>,
    /// Where the script stands at the position, if scopes are followed.
    pub scope: Option<ScopeContext<'a>>,
}

/// The model of [`RuleContext`].
#[verifier::ext_equal]
pub struct RuleContextV {
    pub child_rules: Seq<RuleV>,
    pub value_rules: Seq<RuleV>,
    pub leaf: Option<LeafAtPosV>,
    pub scope: Option<ScopeV>,
}

impl<'a> View for RuleContext<'a> {
    type V = RuleContextV;

    open spec fn view(&self) -> RuleContextV {
        RuleContextV {
            child_rules: rules_view(self.child_rules@),
            value_rules: rules_view(self.value_rules@),
            leaf: opt_view(self.leaf),
            scope: opt_view(self.scope),
        }
    }
}

/// A position: line and column.
#[derive(Clone, Copy)]
pub struct Cursor {
    pub line: u32,
    pub col: u16,
}

/// The position is in the range, its end counted in.
pub open spec fn is_at(at: Cursor, r: SourceRange) -> bool {
    &&& r.start.line <= at.line <= r.end.line
    &&& at.line == r.start.line ==> at.col >= r.start.col
    &&& at.line == r.end.line ==> at.col <= r.end.col
}

/// Whether the position is in the range, its end counted in.
pub fn pos_in_range(at: Cursor, range: &SourceRange) -> (r: bool)
    ensures
        r == is_at(at, *range),
{
    if at.line < range.start.line || at.line > range.end.line {
        return false;
    }
    if at.line == range.start.line && at.col < range.start.col {
        return false;
    }
    if at.line == range.end.line && at.col > range.end.col {
        return false;
    }
    true
}

/// The position is on the key that starts at `start`.
pub open spec fn is_on_key(at: Cursor, start: SourcePos, key: Seq<char>) -> bool {
    at.line == start.line && at.col <= start.col + key.len()
}

fn on_key(at: Cursor, start: SourcePos, key: &str) -> (r: bool)
    ensures
        r == is_on_key(at, start, key@),
{
    at.line == start.line && (at.col as u128) <= (start.col as u128) + (key.unicode_len() as u128)
}

// ---------------------------------------------------------------------------
// Rules for a key

/// The category whose alias a rule stands for.
pub open spec fn alias_category(rt: RuleTypeV) -> Option<Seq<char>> {
    match rt {
        RuleTypeV::LeafRule { left: FieldV::AliasField(c), .. } => Some(c),
        RuleTypeV::NodeRule { left: FieldV::AliasField(c), .. } => Some(c),
        _ => None,
    }
}

fn rule_alias_category(rt: &RuleType) -> (r: Option<&str>)
    ensures
        match r {
            Some(c) => alias_category(rule_view(*rt)) == Some(c@),
            None => alias_category(rule_view(*rt)) is None,
        },
{
    match rt {
        RuleType::LeafRule { left: NewField::AliasField(c), .. } => Some(c.as_str()),
        RuleType::NodeRule { left: NewField::AliasField(c), .. } => Some(c.as_str()),
        _ => None,
    }
}

/// The category of the first rule, from the `i`th on, that stands for an alias.
pub open spec fn first_category(rules: Seq<RuleV>, i: int) -> Option<Seq<char>>
    decreases rules.len() - i,
{
    if i < 0 || i >= rules.len() {
        None
    } else {
        match alias_category(rules[i].0) {
            Some(c) => Some(c),
            None => first_category(rules, i + 1),
        }
    }
}

/// The category of the alias that a key stands for among the rules of a block, if it
/// stands for one: whether it is a trigger, an effect, and so on.
#[verifier::loop_isolation(false)]
pub fn alias_category_for_key(
    ruleset: &RuleSet,
    type_index: Option<&TypeIndex>,
    child_rules: &Vec<(RuleType, Options)>,
    key: &str,
) -> (r: Option<String>)
    ensures
        opt_text(r) == first_category(
            matching(rules_view(child_rules@), key@, ruleset@, opt_index(type_index)),
            0,
        ),
{
    let m = matching_candidates(child_rules, key, ruleset, type_index);
    let ghost all = refs_view(m@);
    let mut i: usize = 0;
    while i < m.len()
        invariant
            i <= m@.len(),
            all == refs_view(m@),
            first_category(all, 0) == first_category(all, i as int),
        decreases m@.len() - i,
    {
        assert(all[i as int] == (rule_view(m@[i as int].0), m@[i as int].1@));
        match rule_alias_category(&m[i].0) {
            Some(c) => {
                return Some(c.to_owned());
            },
            None => {},
        }
        i += 1;
    }
    None
}

/// The rules of overloads, without whether they are certain.
pub open spec fn overload_rules(ov: Seq<(RuleV, bool)>) -> Seq<RuleV> {
    Seq::new(ov.len(), |i: int| ov[i].0)
}

/// The first `n` of the rules for a key, with the overloads of an alias in its place.
pub open spec fn with_overloads(
    rs: RuleSetV,
    idx: Option<IndexV>,
    rules: Seq<RuleV>,
    key: Seq<char>,
    n: int,
) -> Seq<RuleV>
    decreases n,
{
    if n <= 0 || n > rules.len() {
        Seq::empty()
    } else {
        let before = with_overloads(rs, idx, rules, key, n - 1);
        match alias_category(rules[n - 1].0) {
            Some(c) => before + overload_rules(overloads(rs, idx, c, key)),
            None => before.push(rules[n - 1]),
        }
    }
}

/// The rules for a key among those of a block.
pub open spec fn key_rules(
    rs: RuleSetV,
    idx: Option<IndexV>,
    rules: Seq<RuleV>,
    key: Seq<char>,
) -> Seq<RuleV> {
    let m = matching(rules, key, rs, idx);
    with_overloads(rs, idx, m, key, m.len() as int)
}

fn add_overloads(out: &mut Vec<(RuleType, Options)>, ov: &Vec<Overload>)
    ensures
        rules_view(final(out)@) == rules_view(old(out)@) + overload_rules(views(ov@)),
{
    let ghost start = rules_view(out@);
    let ghost all = overload_rules(views(ov@));
    let mut i: usize = 0;
    assert(rules_view(out@) =~= start + all.subrange(0, 0));
    while i < ov.len()
        invariant
            i <= ov@.len(),
            all == overload_rules(views(ov@)),
            rules_view(out@) == start + all.subrange(0, i as int),
        decreases ov@.len() - i,
    {
        assert(views(ov@)[i as int] == ov@[i as int]@);
        let ghost before = out@;
        let r = (clone_rule(&ov[i].rule.0), ov[i].rule.1.clone());
        out.push(r);
        proof {
            lemma_rules_push(before, r);
        }
        assert(all[i as int] == (rule_view(r.0), r.1@));
        assert(rules_view(out@) =~= start + all.subrange(0, i + 1));
        i += 1;
    }
    assert(all.subrange(0, i as int) =~= all);
}

/// The rules for a key among those of a block, with the overloads of an alias in its
/// place.
pub fn value_rules_for_key(
    ruleset: &RuleSet,
    type_index: Option<&TypeIndex>,
    child_rules: &Vec<(RuleType, Options)>,
    key: &str,
) -> (r: Vec<(RuleType, Options)>)
    ensures
        rules_view(r@) == key_rules(
            ruleset@,
            opt_index(type_index),
            rules_view(child_rules@),
            key@,
        ),
{
    let m = matching_candidates(child_rules, key, ruleset, type_index);
    let ghost all = refs_view(m@);
    let ghost idx = opt_index(type_index);
    let mut out: Vec<(RuleType, Options)> = Vec::new();
    let mut i: usize = 0;
    proof {
        lemma_rules_empty();
    }
    assert(rules_view(out@) =~= with_overloads(ruleset@, idx, all, key@, 0));
    while i < m.len()
        invariant
            i <= m@.len(),
            all == refs_view(m@),
            idx == opt_index(type_index),
            rules_view(out@) == with_overloads(ruleset@, idx, all, key@, i as int),
        decreases m@.len() - i,
    {
        assert(all[i as int] == (rule_view(m@[i as int].0), m@[i as int].1@));
        match rule_alias_category(&m[i].0) {
            Some(c) => {
                let ov = alias_overloads(ruleset, type_index, c, key);
                add_overloads(&mut out, &ov);
            },
            None => {
                let ghost before = out@;
                let r = (clone_rule(&m[i].0), m[i].1.clone());
                out.push(r);
                proof {
                    lemma_rules_push(before, r);
                }
            },
        }
        i += 1;
    }
    out
}

// ---------------------------------------------------------------------------
// Into blocks

/// The rules for the body of a block, and, once one of them was found, the options of
/// the first and whether it is an alias.
#[verifier::ext_equal]
pub struct EnteredV {
    pub rules: Seq<RuleV>,
    pub first: Option<(OptionsV, bool)>,
}

/// With the body of one more rule.
pub open spec fn with_rule_body(e: EnteredV, r: RuleV, via_alias: bool) -> EnteredV {
    match r.0 {
        RuleTypeV::NodeRule { rules, .. } => EnteredV {
            rules: e.rules + rules,
            first: if e.first is Some {
                e.first
            } else {
                Some((r.1, via_alias))
            },
        },
        _ => e,
    }
}

/// With the bodies of the first `n` overloads.
pub open spec fn with_overload_bodies(e: EnteredV, ov: Seq<(RuleV, bool)>, n: int) -> EnteredV
    decreases n,
{
    if n <= 0 || n > ov.len() {
        e
    } else {
        with_rule_body(with_overload_bodies(e, ov, n - 1), ov[n - 1].0, true)
    }
}

/// The bodies of the first `n` of the rules for a key, and of the overloads of an
/// alias in its place.
pub open spec fn bodies(
    rs: RuleSetV,
    idx: Option<IndexV>,
    rules: Seq<RuleV>,
    key: Seq<char>,
    n: int,
) -> EnteredV
    decreases n,
{
    if n <= 0 || n > rules.len() {
        EnteredV { rules: Seq::empty(), first: None }
    } else {
        let before = bodies(rs, idx, rules, key, n - 1);
        match alias_category(rules[n - 1].0) {
            Some(c) => {
                let ov = overloads(rs, idx, c, key);
                with_overload_bodies(before, ov, ov.len() as int)
            },
            None => with_rule_body(before, rules[n - 1], false),
        }
    }
}

struct Entered<'r> {
    rules: Vec<(RuleType, Options)>,
    first: Option<(&'r Options, bool)>,
}

spec fn opt_first(o: Option<(&Options, bool)>) -> Option<(OptionsV, bool)> {
    match o {
        Some(x) => Some((x.0@, x.1)),
        None => None,
    }
}

impl<'r> View for Entered<'r> {
    type V = EnteredV;

    closed spec fn view(&self) -> EnteredV {
        EnteredV { rules: rules_view(self.rules@), first: opt_first(self.first) }
    }
}

fn add_body<'r>(e: &mut Entered<'r>, r: &'r (RuleType, Options), via_alias: bool)
    ensures
        final(e)@ == with_rule_body(old(e)@, (rule_view(r.0), r.1@), via_alias),
{
    match &r.0 {
        RuleType::NodeRule { rules, .. } => {
            let mut more = clone_rules(rules);
            let ghost a = e.rules@;
            let ghost b = more@;
            e.rules.append(&mut more);
            proof {
                lemma_rules_concat(a, b);
            }
            if e.first.is_none() {
                e.first = Some((&r.1, via_alias));
            }
        },
        _ => {},
    }
}

fn find_bodies<'r>(
    ruleset: &'r RuleSet,
    type_index: Option<&TypeIndex>,
    m: &Vec<&'r (RuleType, Options)>,
    key: &str,
) -> (r: Entered<'r>)
    ensures
        r@ == bodies(
            ruleset@,
            opt_index(type_index),
            refs_view(m@),
            key@,
            m@.len() as int,
        ),
{
    let mut out = Entered { rules: Vec::new(), first: None };
    let ghost all = refs_view(m@);
    let ghost idx = opt_index(type_index);
    let mut i: usize = 0;
    proof {
        lemma_rules_empty();
    }
    assert(out@ =~= bodies(ruleset@, idx, all, key@, 0));
    while i < m.len()
        invariant
            i <= m@.len(),
            all == refs_view(m@),
            idx == opt_index(type_index),
            out@ == bodies(ruleset@, idx, all, key@, i as int),
        decreases m@.len() - i,
    {
        assert(all[i as int] == (rule_view(m@[i as int].0), m@[i as int].1@));
        match rule_alias_category(&m[i].0) {
            Some(c) => {
                let ov = alias_overloads(ruleset, type_index, c, key);
                let ghost start = out@;
                let mut k: usize = 0;
                while k < ov.len()
                    invariant
                        k <= ov@.len(),
                        out@ == with_overload_bodies(start, views(ov@), k as int),
                    decreases ov@.len() - k,
                {
                    assert(views(ov@)[k as int] == ov@[k as int]@);
                    add_body(&mut out, ov[k].rule, true);
                    k += 1;
                }
            },
            None => {
                add_body(&mut out, m[i], false);
            },
        }
        i += 1;
    }
    out
}

/// The bodies of the first `n` rules for bare blocks.
pub open spec fn clause_bodies(rules: Seq<RuleV>, n: int) -> Seq<RuleV>
    decreases n,
{
    if n <= 0 || n > rules.len() {
        Seq::empty()
    } else {
        match rules[n - 1].0 {
            RuleTypeV::ValueClauseRule { rules: inner } => clause_bodies(rules, n - 1) + inner,
            _ => clause_bodies(rules, n - 1),
        }
    }
}

/// The rules for bare values among the first `n`.
pub open spec fn bare_value_rules(rules: Seq<RuleV>, n: int) -> Seq<RuleV>
    decreases n,
{
    if n <= 0 || n > rules.len() {
        Seq::empty()
    } else if rules[n - 1].0 is LeafValueRule {
        bare_value_rules(rules, n - 1).push(rules[n - 1])
    } else {
        bare_value_rules(rules, n - 1)
    }
}

fn valueclause_bodies(rules: &Vec<(RuleType, Options)>) -> (r: Vec<(RuleType, Options)>)
    ensures
        rules_view(r@) == clause_bodies(rules_view(rules@), rules@.len() as int),
{
    let mut out: Vec<(RuleType, Options)> = Vec::new();
    let ghost all = rules_view(rules@);
    let mut i: usize = 0;
    proof {
        lemma_rules_empty();
    }
    assert(rules_view(out@) =~= clause_bodies(all, 0));
    while i < rules.len()
        invariant
            i <= rules@.len(),
            all == rules_view(rules@),
            rules_view(out@) == clause_bodies(all, i as int),
        decreases rules@.len() - i,
    {
        assert(all[i as int] == (rule_view(rules@[i as int].0), rules@[i as int].1@));
        match &rules[i].0 {
            RuleType::ValueClauseRule { rules: inner } => {
                let mut more = clone_rules(inner);
                let ghost a = out@;
                let ghost b = more@;
                out.append(&mut more);
                proof {
                    lemma_rules_concat(a, b);
                }
            },
            _ => {},
        }
        i += 1;
    }
    out
}

fn find_bare_value_rules(rules: &Vec<(RuleType, Options)>) -> (r: Vec<(RuleType, Options)>)
    ensures
        rules_view(r@) == bare_value_rules(rules_view(rules@), rules@.len() as int),
{
    let mut out: Vec<(RuleType, Options)> = Vec::new();
    let ghost all = rules_view(rules@);
    let mut i: usize = 0;
    proof {
        lemma_rules_empty();
    }
    assert(rules_view(out@) =~= bare_value_rules(all, 0));
    while i < rules.len()
        invariant
            i <= rules@.len(),
            all == rules_view(rules@),
            rules_view(out@) == bare_value_rules(all, i as int),
        decreases rules@.len() - i,
    {
        assert(all[i as int] == (rule_view(rules@[i as int].0), rules@[i as int].1@));
        match &rules[i].0 {
            RuleType::LeafValueRule { .. } => {
                let ghost before = out@;
                let r = (clone_rule(&rules[i].0), rules[i].1.clone());
                out.push(r);
                proof {
                    lemma_rules_push(before, r);
                }
            },
            _ => {},
        }
        i += 1;
    }
    out
}

/// The context inside a block that there are no rules for.
pub open spec fn no_rules(sc: Option<ScopeV>) -> RuleContextV {
    RuleContextV { child_rules: Seq::empty(), value_rules: Seq::empty(), leaf: None, scope: sc }
}

/// The context at a leaf.
pub open spec fn leaf_context_of(
    ctx: CtxV,
    rules: Seq<RuleV>,
    sc: Option<ScopeV>,
    l: Leaf,
    value: Seq<char>,
    in_value: bool,
) -> RuleContextV {
    let key = unquoted(l.key@);
    RuleContextV {
        child_rules: rules,
        value_rules: key_rules(ctx.rs, ctx.idx, rules, key),
        leaf: Some(
            LeafAtPosV {
                key,
                value,
                in_value,
                line: l.pos.start.line,
                col: l.pos.start.col,
            },
        ),
        scope: sc,
    }
}

/// The context at a bare value.
pub open spec fn value_context(
    rules: Seq<RuleV>,
    sc: Option<ScopeV>,
    lv: LeafValue,
) -> RuleContextV {
    RuleContextV {
        child_rules: rules,
        value_rules: bare_value_rules(rules, rules.len() as int),
        leaf: Some(
            LeafAtPosV {
                key: Seq::empty(),
                value: value_text(lv.value),
                in_value: true,
                line: lv.pos.start.line,
                col: lv.pos.start.col,
            },
        ),
        scope: sc,
    }
}

/// The context at the position in a block under those rules: in the child that the
/// position is in, or, between children, that of a new child.
pub open spec fn context_in(
    ctx: CtxV,
    ch: Seq<Child>,
    rules: Seq<RuleV>,
    sc: Option<ScopeV>,
    at: Cursor,
) -> RuleContextV
    decreases ch, 1int, 0int,
{
    context_from(ctx, ch, flattened(rules, rules.len() as int), sc, at, 0)
}

/// The context at the position among the children from the `i`th on.
pub open spec fn context_from(
    ctx: CtxV,
    ch: Seq<Child>,
    rules: Seq<RuleV>,
    sc: Option<ScopeV>,
    at: Cursor,
    i: int,
) -> RuleContextV
    decreases ch, 0int, ch.len() - i,
{
    if i < 0 || i >= ch.len() {
        RuleContextV { child_rules: rules, value_rules: Seq::empty(), leaf: None, scope: sc }
    } else {
        match context_at(ctx, ch[i], rules, sc, at) {
            Some(c) => c,
            None => context_from(ctx, ch, rules, sc, at, i + 1),
        }
    }
}

/// The context at the position in a child, if the position is in it. The range of a
/// `key = value` reaches to the next child, but the leaf ends with its line.
pub open spec fn context_at(
    ctx: CtxV,
    c: Child,
    rules: Seq<RuleV>,
    sc: Option<ScopeV>,
    at: Cursor,
) -> Option<RuleContextV>
    decreases c, 0int, 0int,
{
    match c {
        Child::Leaf(l) => if !is_at(at, l.pos) {
            None
        } else {
            let key = unquoted(l.key@);
            let on = is_on_key(at, l.pos.start, l.key@);
            match l.value {
                Value::Clause(inner) => if on {
                    Some(leaf_context_of(ctx, rules, sc, l, Seq::empty(), false))
                } else {
                    let m = matching(rules, key, ctx.rs, ctx.idx);
                    let e = bodies(ctx.rs, ctx.idx, m, key, m.len() as int);
                    if e.rules.len() == 0 {
                        Some(no_rules(sc))
                    } else {
                        let entered = match e.first {
                            Some((o, via_alias)) => opt_block_scope(
                                sc,
                                key,
                                o,
                                ctx.game,
                                via_alias,
                            ),
                            None => sc,
                        };
                        Some(context_in(ctx, inner@, e.rules, entered, at))
                    }
                },
                _ => if at.line != l.pos.start.line {
                    None
                } else {
                    Some(leaf_context_of(ctx, rules, sc, l, value_text(l.value), !on))
                },
            }
        },
        Child::LeafValue(lv) => if !is_at(at, lv.pos) {
            None
        } else {
            match lv.value {
                Value::Clause(inner) => {
                    let next = clause_bodies(rules, rules.len() as int);
                    if next.len() == 0 {
                        Some(no_rules(sc))
                    } else {
                        Some(context_in(ctx, inner@, next, sc, at))
                    }
                },
                _ => Some(value_context(rules, sc, lv)),
            }
        },
        Child::Comment(_) => None,
    }
}

fn copy_scope<'a>(o: Option<&ScopeContext<'a>>) -> (r: Option<ScopeContext<'a>>)
    ensures
        opt_view(r) == opt_scope(o),
{
    match o {
        Some(s) => Some(s.clone()),
        None => None,
    }
}

fn without_rules<'a>(scope_context: Option<&ScopeContext<'a>>) -> (r: RuleContext<'a>)
    ensures
        r@ == no_rules(opt_scope(scope_context)),
{
    proof {
        lemma_rules_empty();
    }
    let r = RuleContext {
        child_rules: Vec::new(),
        value_rules: Vec::new(),
        leaf: None,
        scope: copy_scope(scope_context),
    };
    assert(r@ =~= no_rules(opt_scope(scope_context)));
    r
}

fn leaf_context<'a>(
    ctx: &ValidationCtx,
    rules: &Vec<(RuleType, Options)>,
    scope_context: Option<&ScopeContext<'a>>,
    leaf: &Leaf,
    value: String,
    in_value: bool,
) -> (r: RuleContext<'a>)
    ensures
        r@ == leaf_context_of(
            ctx@,
            rules_view(rules@),
            opt_scope(scope_context),
            *leaf,
            value@,
            in_value,
        ),
{
    let key = unquote_key(leaf.key.as_str());
    RuleContext {
        child_rules: clone_rules(rules),
        value_rules: value_rules_for_key(ctx.ruleset, ctx.type_index, rules, key),
        leaf: Some(
            LeafAtPos {
                key: key.to_owned(),
                value,
                in_value,
                line: leaf.pos.start.line,
                col: leaf.pos.start.col,
            },
        ),
        scope: copy_scope(scope_context),
    }
}

fn descend<'a>(
    ctx: &ValidationCtx,
    children: &Vec<Child>,
    rules: &Vec<(RuleType, Options)>,
    scope_context: Option<&ScopeContext<'a>>,
    at: Cursor,
) -> (r: RuleContext<'a>)
    ensures
        r@ == context_in(
            ctx@,
            children@,
            rules_view(rules@),
            opt_scope(scope_context),
            at,
        ),
    decreases children, 1int,
{
    let flat = flatten_nested_subtype_rules(rules);
    let ghost flatv = rules_view(flat@);
    let ghost sc = opt_scope(scope_context);
    let mut i: usize = 0;
    while i < children.len()
        invariant
            i <= children@.len(),
            flatv == rules_view(flat@),
            flatv == flattened(rules_view(rules@), rules@.len() as int),
            rules_view(rules@).len() == rules@.len(),
            sc == opt_scope(scope_context),
            context_from(ctx@, children@, flatv, sc, at, 0) == context_from(
                ctx@,
                children@,
                flatv,
                sc,
                at,
                i as int,
            ),
        decreases children@.len() - i,
    {
        match descend_child(ctx, &children[i], &flat, scope_context, at) {
            Some(c) => {
                return c;
            },
            None => {},
        }
        i += 1;
    }
    proof {
        lemma_rules_empty();
    }
    let r = RuleContext {
        child_rules: flat,
        value_rules: Vec::new(),
        leaf: None,
        scope: copy_scope(scope_context),
    };
    assert(r@ =~= context_from(ctx@, children@, flatv, sc, at, i as int));
    r
}

fn descend_child<'a>(
    ctx: &ValidationCtx,
    child: &Child,
    rules: &Vec<(RuleType, Options)>,
    scope_context: Option<&ScopeContext<'a>>,
    at: Cursor,
) -> (r: Option<RuleContext<'a>>)
    ensures
        opt_view(r) == context_at(
            ctx@,
            *child,
            rules_view(rules@),
            opt_scope(scope_context),
            at,
        ),
    decreases child, 0int,
{
    match child {
        Child::Leaf(l) => {
            if !pos_in_range(at, &l.pos) {
                return None;
            }
            let on = on_key(at, l.pos.start, l.key.as_str());
            match &l.value {
                Value::Clause(inner) => {
                    if on {
                        let empty = String::new();
                        return Some(leaf_context(ctx, rules, scope_context, l, empty, false));
                    }
                    let key = unquote_key(l.key.as_str());
                    let m = matching_candidates(rules, key, ctx.ruleset, ctx.type_index);
                    let e = find_bodies(ctx.ruleset, ctx.type_index, &m, key);
                    if e.rules.len() == 0 {
                        return Some(without_rules(scope_context));
                    }
                    let entered = match e.first {
                        Some((o, via_alias)) => scope_in_block(
                            scope_context,
                            key,
                            o,
                            ctx.game,
                            via_alias,
                        ),
                        None => copy_scope(scope_context),
                    };
                    Some(descend(ctx, inner, &e.rules, scope_ref(&entered), at))
                },
                _ => {
                    if at.line != l.pos.start.line {
                        return None;
                    }
                    let value = leaf_value_to_string(&l.value);
                    Some(leaf_context(ctx, rules, scope_context, l, value, !on))
                },
            }
        },
        Child::LeafValue(lv) => {
            if !pos_in_range(at, &lv.pos) {
                return None;
            }
            match &lv.value {
                Value::Clause(inner) => {
                    let next = valueclause_bodies(rules);
                    if next.len() == 0 {
                        return Some(without_rules(scope_context));
                    }
                    Some(descend(ctx, inner, &next, scope_context, at))
                },
                _ => Some(
                    RuleContext {
                        child_rules: clone_rules(rules),
                        value_rules: find_bare_value_rules(rules),
                        leaf: Some(
                            LeafAtPos {
                                key: String::new(),
                                value: leaf_value_to_string(&lv.value),
                                in_value: true,
                                line: lv.pos.start.line,
                                col: lv.pos.start.col,
                            },
                        ),
                        scope: copy_scope(scope_context),
                    },
                ),
            }
        },
        Child::Comment(_) => None,
    }
}

// ---------------------------------------------------------------------------
// Into files

/// The context at the position in an instance of a type.
pub open spec fn entity_context(
    ctx: CtxV,
    t: TypeDefV,
    ch: Seq<Child>,
    inner: Seq<RuleV>,
    node_key: Option<Seq<char>>,
    sc: Option<ScopeV>,
    at: Cursor,
) -> RuleContextV {
    let active = active_subtypes(t, ch, node_key, ctx.rs, ctx.idx);
    let push = pushed_scope(t.subtypes, active, 0);
    context_in(
        ctx,
        ch,
        merged_rules(t, inner, active),
        opt_root_scope(sc, t.name, push, node_key, ctx.rs, ctx.game),
        at,
    )
}

fn enter_entity<'a>(
    ctx: &ValidationCtx,
    type_def: &TypeDefinition,
    children: &Vec<Child>,
    inner_rules: Option<&Vec<(RuleType, Options)>>,
    node_key: Option<&str>,
    scope_context: Option<&ScopeContext<'a>>,
    at: Cursor,
) -> (r: RuleContext<'a>)
    ensures
        r@ == entity_context(
            ctx@,
            type_def@,
            children@,
            opt_rules(inner_rules),
            opt_str(node_key),
            opt_scope(scope_context),
            at,
        ),
{
    let merged = merged_rules_for_type(
        ctx.ruleset,
        ctx.type_index,
        type_def,
        children,
        inner_rules,
        node_key,
    );
    let entered = scope_in_entity(
        scope_context,
        type_def,
        merged.push_scope,
        node_key,
        ctx.ruleset,
        ctx.game,
    );
    descend(ctx, children, &merged.rules, scope_ref(&entered), at)
}

/// The context at the position in a block in a wrapper.
pub open spec fn wrapped_context(
    ctx: CtxV,
    l: Leaf,
    inner: Seq<Child>,
    t: TypeDefV,
    wrapper: Seq<char>,
    rules: Seq<RuleV>,
    sc: Option<ScopeV>,
    at: Cursor,
) -> Option<RuleContextV> {
    match grandchild_type(ctx.rs, ctx.file, wrapper, l.key@) {
        Some(g) => if is_checked(ctx.rs, g) {
            Some(
                entity_context(
                    ctx,
                    g,
                    inner,
                    rules_named(ctx.rs, g.name),
                    Some(l.key@),
                    sc,
                    at,
                ),
            )
        } else {
            None
        },
        None => if filter_allows(t.type_key_filter, l.key@) {
            Some(entity_context(ctx, t, inner, rules, Some(l.key@), sc, at))
        } else {
            None
        },
    }
}

/// The context at the position in a block, `level` levels of wrappers in.
pub open spec fn wrapper_child_context(
    ctx: CtxV,
    l: Leaf,
    t: TypeDefV,
    wrapper: Seq<char>,
    rules: Seq<RuleV>,
    level: int,
    sc: Option<ScopeV>,
    at: Cursor,
) -> Option<RuleContextV>
    decreases l, 0int, 0int,
{
    match l.value {
        Value::Clause(inner) => if is_on_key(at, l.pos.start, l.key@) {
            None
        } else if 0 <= level < t.skip_root_key.len() {
            if skip_matches(t.skip_root_key[level], l.key@) {
                wrapper_context(ctx, inner@, t, l.key@, rules, level + 1, sc, at, 0)
            } else {
                None
            }
        } else {
            wrapped_context(ctx, l, inner@, t, wrapper, rules, sc, at)
        },
        _ => None,
    }
}

/// The context at the position among the children of a wrapper from the `i`th on,
/// `level` levels of wrappers in.
pub open spec fn wrapper_context(
    ctx: CtxV,
    ch: Seq<Child>,
    t: TypeDefV,
    wrapper: Seq<char>,
    rules: Seq<RuleV>,
    level: int,
    sc: Option<ScopeV>,
    at: Cursor,
    i: int,
) -> Option<RuleContextV>
    decreases ch, 0int, ch.len() - i,
{
    if i < 0 || i >= ch.len() {
        None
    } else {
        match ch[i] {
            Child::Leaf(l) => if is_at(at, l.pos) {
                wrapper_child_context(ctx, l, t, wrapper, rules, level, sc, at)
            } else {
                wrapper_context(ctx, ch, t, wrapper, rules, level, sc, at, i + 1)
            },
            _ => wrapper_context(ctx, ch, t, wrapper, rules, level, sc, at, i + 1),
        }
    }
}

fn enter_wrapped<'a>(
    ctx: &ValidationCtx,
    leaf: &Leaf,
    inner: &Vec<Child>,
    type_def: &TypeDefinition,
    wrapper: &str,
    inner_rules: Option<&Vec<(RuleType, Options)>>,
    scope_context: Option<&ScopeContext<'a>>,
    at: Cursor,
) -> (r: Option<RuleContext<'a>>)
    ensures
        opt_view(r) == wrapped_context(
            ctx@,
            *leaf,
            inner@,
            type_def@,
            wrapper@,
            opt_rules(inner_rules),
            opt_scope(scope_context),
            at,
        ),
{
    let key = leaf.key.as_str();
    match find_grandchild_type(ctx.file_path, wrapper, key, ctx.ruleset) {
        Some(g) => {
            let rules = find_rules_by_name(g.name.as_str(), ctx.ruleset);
            if type_has_content(g, rules) {
                Some(enter_entity(ctx, g, inner, rules, Some(key), scope_context, at))
            } else {
                None
            }
        },
        None => {
            if type_filter_allows(type_def, key) {
                Some(
                    enter_entity(
                        ctx,
                        type_def,
                        inner,
                        inner_rules,
                        Some(key),
                        scope_context,
                        at,
                    ),
                )
            } else {
                None
            }
        },
    }
}

fn descend_wrapper_child<'a>(
    ctx: &ValidationCtx,
    leaf: &Leaf,
    type_def: &TypeDefinition,
    wrapper: &str,
    inner_rules: Option<&Vec<(RuleType, Options)>>,
    level: usize,
    scope_context: Option<&ScopeContext<'a>>,
    at: Cursor,
) -> (r: Option<RuleContext<'a>>)
    requires
        level <= type_def@.skip_root_key.len(),
    ensures
        opt_view(r) == wrapper_child_context(
            ctx@,
            *leaf,
            type_def@,
            wrapper@,
            opt_rules(inner_rules),
            level as int,
            opt_scope(scope_context),
            at,
        ),
    decreases leaf, 0int,
{
    match &leaf.value {
        Value::Clause(inner) => {
            if on_key(at, leaf.pos.start, leaf.key.as_str()) {
                return None;
            }
            if level < type_def.skip_root_key.len() {
                assert(type_def@.skip_root_key[level as int]
                    == type_def.skip_root_key@[level as int]@);
                if skip_root_key_matches(&type_def.skip_root_key[level], leaf.key.as_str()) {
                    return descend_wrapper(
                        ctx,
                        inner,
                        type_def,
                        leaf.key.as_str(),
                        inner_rules,
                        level + 1,
                        scope_context,
                        at,
                    );
                }
                return None;
            }
            enter_wrapped(
                ctx,
                leaf,
                inner,
                type_def,
                wrapper,
                inner_rules,
                scope_context,
                at,
            )
        },
        _ => None,
    }
}

fn descend_wrapper<'a>(
    ctx: &ValidationCtx,
    grandchildren: &Vec<Child>,
    type_def: &TypeDefinition,
    wrapper_root_key: &str,
    inner_rules: Option<&Vec<(RuleType, Options)>>,
    level: usize,
    scope_context: Option<&ScopeContext<'a>>,
    at: Cursor,
) -> (r: Option<RuleContext<'a>>)
    requires
        level <= type_def@.skip_root_key.len(),
    ensures
        opt_view(r) == wrapper_context(
            ctx@,
            grandchildren@,
            type_def@,
            wrapper_root_key@,
            opt_rules(inner_rules),
            level as int,
            opt_scope(scope_context),
            at,
            0,
        ),
    decreases grandchildren, 0int,
{
    let ghost sc = opt_scope(scope_context);
    let ghost rules = opt_rules(inner_rules);
    let mut i: usize = 0;
    while i < grandchildren.len()
        invariant
            i <= grandchildren@.len(),
            level <= type_def@.skip_root_key.len(),
            sc == opt_scope(scope_context),
            rules == opt_rules(inner_rules),
            wrapper_context(
                ctx@,
                grandchildren@,
                type_def@,
                wrapper_root_key@,
                rules,
                level as int,
                sc,
                at,
                0,
            ) == wrapper_context(
                ctx@,
                grandchildren@,
                type_def@,
                wrapper_root_key@,
                rules,
                level as int,
                sc,
                at,
                i as int,
            ),
        decreases grandchildren@.len() - i,
    {
        match &grandchildren[i] {
            Child::Leaf(l) => {
                if pos_in_range(at, &l.pos) {
                    return descend_wrapper_child(
                        ctx,
                        l,
                        type_def,
                        wrapper_root_key,
                        inner_rules,
                        level,
                        scope_context,
                        at,
                    );
                }
            },
            _ => {},
        }
        i += 1;
    }
    None
}

/// The context at the position in a block at the top of a file, if there are rules
/// for it.
pub open spec fn root_context(ctx: CtxV, c: Child, sc: Option<ScopeV>, at: Cursor) -> Option<
    RuleContextV,
> {
    match block_of(c) {
        Some((l, inner)) => if is_on_key(at, l.pos.start, l.key@) {
            None
        } else {
            match resolved(ctx.rs, ctx.file, l.key@, true) {
                ResolvedV::Entity(t) => Some(
                    entity_context(
                        ctx,
                        t,
                        inner,
                        rules_named(ctx.rs, t.name),
                        Some(l.key@),
                        sc,
                        at,
                    ),
                ),
                ResolvedV::Wrapper(t) => wrapper_context(
                    ctx,
                    inner,
                    t,
                    l.key@,
                    rules_named(ctx.rs, t.name),
                    1,
                    sc,
                    at,
                    0,
                ),
                ResolvedV::Unknown => None,
            }
        },
        None => None,
    }
}

/// The position is in the child.
pub open spec fn is_in(at: Cursor, c: Child) -> bool {
    match c {
        Child::Leaf(l) => is_at(at, l.pos),
        Child::LeafValue(lv) => is_at(at, lv.pos),
        Child::Comment(_) => false,
    }
}

/// The context at the position among the children at the top of a file from the `i`th
/// on.
pub open spec fn roots_context(
    ctx: CtxV,
    ch: Seq<Child>,
    sc: Option<ScopeV>,
    at: Cursor,
    i: int,
) -> Option<RuleContextV>
    decreases ch.len() - i,
{
    if i < 0 || i >= ch.len() {
        None
    } else if is_in(at, ch[i]) {
        root_context(ctx, ch[i], sc, at)
    } else {
        roots_context(ctx, ch, sc, at, i + 1)
    }
}

/// The context at the position in a file, if there are rules for it.
pub open spec fn file_context(ctx: CtxV, ch: Seq<Child>, sc: Option<ScopeV>, at: Cursor) -> Option<
    RuleContextV,
> {
    match type_at(ctx.rs, ctx.file) {
        Some(t) => if t.type_per_file {
            if is_checked(ctx.rs, t) {
                Some(entity_context(ctx, t, ch, rules_named(ctx.rs, t.name), None, sc, at))
            } else {
                None
            }
        } else {
            roots_context(ctx, ch, sc, at, 0)
        },
        None => roots_context(ctx, ch, sc, at, 0),
    }
}

fn enter_root<'a>(
    ctx: &ValidationCtx,
    child: &Child,
    scope_context: Option<&ScopeContext<'a>>,
    at: Cursor,
) -> (r: Option<RuleContext<'a>>)
    ensures
        opt_view(r) == root_context(ctx@, *child, opt_scope(scope_context), at),
{
    match as_block(child) {
        Some(b) => {
            if on_key(at, b.range.start, b.key) {
                return None;
            }
            match resolve_root_child(ctx.ruleset, ctx.file_path, b.key, true) {
                ResolvedType::Entity { type_def } => {
                    let rules = find_rules_by_name(type_def.name.as_str(), ctx.ruleset);
                    Some(
                        enter_entity(
                            ctx,
                            type_def,
                            b.children,
                            rules,
                            Some(b.key),
                            scope_context,
                            at,
                        ),
                    )
                },
                ResolvedType::Wrapper { type_def } => {
                    let rules = find_rules_by_name(type_def.name.as_str(), ctx.ruleset);
                    proof {
                        lemma_wrapper_has_level(ctx@.rs, ctx@.file, b.key@);
                    }
                    descend_wrapper(
                        ctx,
                        b.children,
                        type_def,
                        b.key,
                        rules,
                        1,
                        scope_context,
                        at,
                    )
                },
                ResolvedType::Unknown => None,
            }
        },
        None => None,
    }
}

fn child_is_at(at: Cursor, child: &Child) -> (r: bool)
    ensures
        r == is_in(at, *child),
{
    match child {
        Child::Leaf(l) => pos_in_range(at, &l.pos),
        Child::LeafValue(lv) => pos_in_range(at, &lv.pos),
        Child::Comment(_) => false,
    }
}

fn enter_roots<'a>(
    ctx: &ValidationCtx,
    children: &Vec<Child>,
    scope_context: Option<&ScopeContext<'a>>,
    at: Cursor,
) -> (r: Option<RuleContext<'a>>)
    ensures
        opt_view(r) == roots_context(ctx@, children@, opt_scope(scope_context), at, 0),
{
    let ghost sc = opt_scope(scope_context);
    let mut i: usize = 0;
    while i < children.len()
        invariant
            i <= children@.len(),
            sc == opt_scope(scope_context),
            roots_context(ctx@, children@, sc, at, 0) == roots_context(
                ctx@,
                children@,
                sc,
                at,
                i as int,
            ),
        decreases children@.len() - i,
    {
        if child_is_at(at, &children[i]) {
            return enter_root(ctx, &children[i], scope_context, at);
        }
        i += 1;
    }
    None
}

/// The rules that apply at a position. There are none outside of instances: at the
/// top of a file, on the key of an instance, in a file of no type, or where the type
/// has no rules.
pub fn rules_at_pos<'a>(
    ast: &ParsedFile,
    file_path: &str,
    prepared: &Prepared<'a>,
    line: u32,
    col: u16,
) -> (r: Option<RuleContext<'a>>)
    ensures
        opt_view(r) == file_context(
            ctx_of(*prepared, file_path@),
            ast.root_children@,
            opt_initial_scope(file_path@, opt_registry(prepared.registry)),
            (Cursor { line, col }),
        ),
{
    let at = Cursor { line, col };
    let scope = initial_scope_context(file_path, prepared.registry);
    let ctx = context_for(prepared, file_path);
    let children = &ast.root_children;
    match find_type_by_path(file_path, prepared.ruleset) {
        Some(t) => {
            if t.type_per_file {
                let rules = find_rules_by_name(t.name.as_str(), prepared.ruleset);
                if !type_has_content(t, rules) {
                    return None;
                }
                return Some(
                    enter_entity(&ctx, t, children, rules, None, scope_ref(&scope), at),
                );
            }
        },
        None => {},
    }
    enter_roots(&ctx, children, scope_ref(&scope), at)
}

} // verus!
