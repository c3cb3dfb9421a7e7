//! What is reported of a file, said of the instances in it.

use vstd::prelude::*;

use crate::ast::{Child, Leaf, Value};
use crate::check_laws::lemma_sum_contains;
use crate::context::CtxV;
use crate::diagnostic::ErrorV;
use crate::error_codes::ErrorSeverity;
use crate::game_validators::game_problems;
use crate::resolve::{
    ResolvedV, grandchild_type, is_checked, resolved, rule_options, rules_named, type_at,
};
use crate::rule_core::block_problems;
use crate::rules_types::{RuleV, SkipRootKeyV, TypeDefV};
use crate::ruleset::RuleSetV;
use crate::scope::{registry_of, root_scope, scope_registry};
use crate::scope_engine::{RegistryV, ScopeV};
use crate::subtype::{active_subtypes, fitting, merged_rules, pushed_scope};
use crate::type_laws::{is_for_key, is_wrapper_key, law_key_filter, lemma_listed};
use crate::validate::{
    entity_problems, file_diagnostics, in_wrapper_problems, opt_initial_scope, root_problems,
    roots_problems, rules_problems, wrapper_problems,
};

verus! {

/// A diagnostic with no more than the gravity of a warning, else as it was.
pub open spec fn is_softer(a: ErrorV, b: ErrorV) -> bool {
    &&& a.message == b.message && a.code == b.code && a.file == b.file && a.line == b.line && a.col
        == b.col
    &&& b.severity == ErrorSeverity::Error ==> a.severity == ErrorSeverity::Warning
    &&& b.severity != ErrorSeverity::Error ==> a.severity == b.severity
}

/// An instance of a type without subtypes is held to the rules of the type, in the scope
/// that its type and its key put it in; where the type asks for warnings only, errors are
/// warnings.
pub proof fn law_instances_are_checked(
    ctx: CtxV,
    t: TypeDefV,
    ch: Seq<Child>,
    rules: Seq<RuleV>,
    sc: Option<ScopeV>,
    key: Option<Seq<char>>,
    pos: (u32, u16),
)
    requires
        t.subtypes.len() == 0,
    ensures
        ({
            let e = entity_problems(ctx, t, ch, rules, sc, key, pos);
            let all = block_problems(
                ctx,
                ch,
                rules,
                match sc {
                    Some(s) => Some(root_scope(s, t.name, None, key, ctx.rs, ctx.game)),
                    None => None,
                },
                Seq::empty(),
                pos,
            );
            &&& !t.warning_only ==> e == all
            &&& t.warning_only ==> e.len() == all.len() && forall|i: int|
                0 <= i < e.len() ==> is_softer(#[trigger] e[i], all[i])
        }),
{
    let active = active_subtypes(t, ch, key, ctx.rs, ctx.idx);
    assert(fitting(t.subtypes, ch, key, ctx.rs, ctx.idx, 0) =~= Seq::<Seq<char>>::empty());
    assert(pushed_scope(t.subtypes, active, 0) is None);
}

/// An instance of a type with subtypes is held to the rules that its subtypes leave it.
pub proof fn law_instances_with_subtypes(
    ctx: CtxV,
    t: TypeDefV,
    ch: Seq<Child>,
    inner: Seq<RuleV>,
    key: Option<Seq<char>>,
    pos: (u32, u16),
)
    requires
        t.subtypes.len() > 0,
        !t.warning_only,
    ensures
        ({
            let active = active_subtypes(t, ch, key, ctx.rs, ctx.idx);
            let rules = merged_rules(t, inner, active);
            let e = entity_problems(ctx, t, ch, inner, None, key, pos);
            &&& active.len() > 0 || rules.len() > 0 ==> e == block_problems(
                ctx,
                ch,
                rules,
                None,
                Seq::empty(),
                pos,
            )
            &&& active.len() == 0 && rules.len() == 0 ==> e.len() == 0
        }),
{
}

proof fn lemma_roots(ctx: CtxV, ch: Seq<Child>, sc: Option<ScopeV>, n: int, e: ErrorV)
    requires
        0 <= n <= ch.len(),
    ensures
        roots_problems(ctx, ch, sc, n).contains(e) <==> exists|i: int|
            0 <= i < n && #[trigger] root_problems(ctx, ch[i], sc).contains(e),
    decreases n,
{
    if n > 0 {
        lemma_roots(ctx, ch, sc, n - 1, e);
        lemma_sum_contains(
            roots_problems(ctx, ch, sc, n - 1),
            root_problems(ctx, ch[n - 1], sc),
            e,
        );
        if root_problems(ctx, ch[n - 1], sc).contains(e) {
            assert(root_problems(ctx, ch[n - 1], sc).contains(e));
        }
    } else {
        assert(!roots_problems(ctx, ch, sc, 0).contains(e));
    }
}

/// A file whose type has one instance per file is that instance; in any other file each
/// block is looked at by itself. The checks of the game come on top.
pub proof fn law_files_are_checked(ctx: CtxV, ch: Seq<Child>, sc: Option<ScopeV>, e: ErrorV)
    ensures
        ({
            let all = file_diagnostics(ctx, ch, sc);
            let whole = type_at(ctx.rs, ctx.file) matches Some(t) && t.type_per_file;
            let t = type_at(ctx.rs, ctx.file)->0;
            let by_game = ctx.game matches Some(g) && game_problems(
                ctx.rs,
                ctx.file,
                ch,
                ctx.idx,
                g,
            ).contains(e);
            &&& whole ==> (all.contains(e) <==> by_game || (is_checked(ctx.rs, t)
                && entity_problems(
                ctx,
                t,
                ch,
                rules_named(ctx.rs, t.name),
                sc,
                None,
                (0, 0),
            ).contains(e)))
            &&& !whole ==> (all.contains(e) <==> by_game || exists|i: int|
                0 <= i < ch.len() && #[trigger] root_problems(ctx, ch[i], sc).contains(e))
        }),
{
    lemma_roots(ctx, ch, sc, ch.len() as int, e);
    lemma_sum_contains(
        rules_problems(ctx, ch, sc),
        match ctx.game {
            Some(g) => game_problems(ctx.rs, ctx.file, ch, ctx.idx, g),
            None => Seq::empty(),
        },
        e,
    );
}

/// A block at the top of a file is checked as an instance of the type that it is one of; a
/// block of no known type, a field and a bare value are not checked.
pub proof fn law_blocks_of_files(ctx: CtxV, c: Child, sc: Option<ScopeV>)
    ensures
        match c {
            Child::Leaf(l) => match l.value {
                Value::Clause(inner) => match resolved(ctx.rs, ctx.file, l.key@, false) {
                    ResolvedV::Entity(t) => root_problems(ctx, c, sc) == entity_problems(
                        ctx,
                        t,
                        inner@,
                        rules_named(ctx.rs, t.name),
                        sc,
                        Some(l.key@),
                        (l.pos.start.line, l.pos.start.col),
                    ),
                    ResolvedV::Unknown => root_problems(ctx, c, sc).len() == 0,
                    ResolvedV::Wrapper(_) => true,
                },
                _ => root_problems(ctx, c, sc).len() == 0,
            },
            _ => root_problems(ctx, c, sc).len() == 0,
        },
{
}

/// In a wrapper of one level, a block is checked as an instance of the type that its key
/// and the wrapper give it, else as one of the wrapper's own type, if that is for its key.
pub proof fn law_blocks_in_wrappers(
    ctx: CtxV,
    l: Leaf,
    t: TypeDefV,
    wrapper: Seq<char>,
    rules: Seq<RuleV>,
    sc: Option<ScopeV>,
)
    requires
        l.value is Clause,
        t.skip_root_key.len() == 1,
    ensures
        ({
            let e = in_wrapper_problems(ctx, Child::Leaf(l), t, wrapper, rules, 1, sc);
            let inner = l.value->Clause_0@;
            let pos = (l.pos.start.line, l.pos.start.col);
            match grandchild_type(ctx.rs, ctx.file, wrapper, l.key@) {
                Some(g) => if is_checked(ctx.rs, g) {
                    e == entity_problems(
                        ctx,
                        g,
                        inner,
                        rules_named(ctx.rs, g.name),
                        sc,
                        Some(l.key@),
                        pos,
                    )
                } else {
                    e.len() == 0
                },
                None => if is_for_key(t, l.key@) {
                    e == entity_problems(ctx, t, inner, rules, sc, Some(l.key@), pos)
                } else {
                    e.len() == 0
                },
            }
        }),
{
    law_key_filter(t, l.key@);
}

/// With more levels of wrappers, a block that is no wrapper of its level is not checked,
/// and what is in one that is, is looked at one level further in.
pub proof fn law_levels_of_wrappers(
    ctx: CtxV,
    l: Leaf,
    t: TypeDefV,
    wrapper: Seq<char>,
    rules: Seq<RuleV>,
    level: int,
    sc: Option<ScopeV>,
)
    requires
        l.value is Clause,
        0 <= level < t.skip_root_key.len(),
    ensures
        ({
            let e = in_wrapper_problems(ctx, Child::Leaf(l), t, wrapper, rules, level, sc);
            let inner = l.value->Clause_0@;
            if is_wrapper_key(t.skip_root_key[level], l.key@) {
                e == wrapper_problems(
                    ctx,
                    inner,
                    inner.len() as int,
                    t,
                    l.key@,
                    rules,
                    level + 1,
                    sc,
                )
            } else {
                e.len() == 0
            }
        }),
{
    match t.skip_root_key[level] {
        SkipRootKeyV::MultipleKeys(keys, _) => lemma_listed(keys, l.key@),
        _ => {},
    }
}

/// A type that has rules, of its own or in a subtype, is checked; any other is not.
pub proof fn law_which_types_are_checked(rs: RuleSetV, t: TypeDefV)
    ensures
        is_checked(rs, t) <==> rules_named(rs, t.name).len() > 0 || exists|i: int|
            0 <= i < t.subtypes.len() && (#[trigger] t.subtypes[i]).rules.len() > 0,
{
}

/// The rules for the instances of a type are those in the block of its rule.
pub proof fn law_rules_of_types(rs: RuleSetV, name: Seq<char>, i: int)
    requires
        rs.type_rules_idx.contains_key(name),
        rs.type_rules_idx[name] == i,
        0 <= i < rs.root_rules.len(),
        rs.root_rules[i] is TypeRule,
    ensures
        ({
            let r = rs.root_rules[i]->TypeRule_1;
            &&& r.0 is NodeRule ==> rules_named(rs, name) == r.0->NodeRule_rules
            &&& !(r.0 is NodeRule) ==> rules_named(rs, name).len() == 0
            &&& rule_options(rs, name) == Some(r.1)
        }),
        forall|other: Seq<char>| !rs.type_rules_idx.contains_key(other) ==> (
        #[trigger] rules_named(rs, other)).len() == 0,
{
}

// ---------------------------------------------------------------------------
// Scopes in files

/// A file of a game is checked in the scopes that its rule set declares, or in those that
/// are built in where it declares none; without a game no scopes are followed.
pub proof fn law_scopes_of_files(rs: RuleSetV, hardcoded: RegistryV, path: Seq<char>)
    ensures
        rs.scope_inputs.len() == 0 ==> scope_registry(rs, hardcoded) == hardcoded,
        rs.scope_inputs.len() > 0 ==> scope_registry(rs, hardcoded) == registry_of(
            rs.scope_inputs,
            rs.link_inputs,
        ),
        opt_initial_scope(path, None) is None,
        opt_initial_scope(path, Some(hardcoded)) matches Some(s) && s.registry == hardcoded,
{
}

} // verus!
