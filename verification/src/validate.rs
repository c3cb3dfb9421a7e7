//! A file against a rule set.

use std::sync::Arc;
use vstd::prelude::*;

use crate::ast::{Child, Comment, Leaf, LeafValue, ParsedFile, Value};
use crate::common::{has_segments, path_contains_segment};
use crate::context::{CtxV, LocIndex, LocIndexV, ValidationCtx, opt_loc, opt_names, opt_scope};
use crate::diagnostic::{ErrorV, ValidationError, add_all, add_one};
use crate::error_codes::ErrorSeverity;
use crate::field_match::opt_index;
use crate::game_common::{as_block, block_of};
use crate::game_validators::{game_problems, run_game_validators};
use crate::name_map::NameMap;
use crate::resolve::{
    ResolvedType, ResolvedV, filter_allows, find_grandchild_type, find_rules_by_name,
    find_type_by_path, grandchild_type, is_checked, opt_rules, opt_str, resolve_root_child,
    resolved, rules_named, skip_matches, skip_root_key_matches, type_at, type_filter_allows,
    type_has_content,
};
use crate::rule_core::{
    bare_value_problem, block_problems, pos_of, report_bare_value, scope_ref, validate_children,
};
use crate::rules_types::{
    EnumDefinition, EnumV, Options, RuleType, RuleV, TypeDefV, TypeDefinition, opt_view, views,
};
use crate::ruleset::{RuleSet, RuleSetV};
use crate::scope::{
    FIRST_SCOPE, build_scope_registry_arc, root_scope, scope_registry, seed_root_scope,
};
use crate::scope_engine::{RegistryV, ScopeContext, ScopeId, ScopeRegistry, ScopeV};
use crate::subtype::{active_subtypes, merged_rules, merged_rules_for_type, pushed_scope};
use crate::text::{NameSet, texts};
use crate::type_index::{Game, IndexV, TypeIndex, file_name, normal_file_name};

verus! {

// ---------------------------------------------------------------------------
// One instance

/// A diagnostic that is at most a warning.
pub open spec fn softened(e: ErrorV) -> ErrorV {
    if e.severity == ErrorSeverity::Error {
        ErrorV { severity: ErrorSeverity::Warning, ..e }
    } else {
        e
    }
}

/// Diagnostics that are at most warnings.
pub open spec fn all_softened(s: Seq<ErrorV>) -> Seq<ErrorV> {
    Seq::new(s.len(), |i: int| softened(s[i]))
}

/// The context in the body of an instance, if scopes are followed.
pub open spec fn opt_root_scope(
    sc: Option<ScopeV>,
    type_: Seq<char>,
    push: Option<Seq<char>>,
    node_key: Option<Seq<char>>,
    rs: RuleSetV,
    game: Option<Game>,
) -> Option<ScopeV> {
    match sc {
        Some(s) => Some(root_scope(s, type_, push, node_key, rs, game)),
        None => None,
    }
}

/// What is wrong with an instance of a type. The rules of its active subtypes count
/// as those of the type; where neither has any, nothing is wrong.
pub open spec fn entity_problems(
    ctx: CtxV,
    t: TypeDefV,
    ch: Seq<Child>,
    inner: Seq<RuleV>,
    sc: Option<ScopeV>,
    node_key: Option<Seq<char>>,
    pos: (u32, u16),
) -> Seq<ErrorV> {
    let active = active_subtypes(t, ch, node_key, ctx.rs, ctx.idx);
    let rules = merged_rules(t, inner, active);
    if t.subtypes.len() > 0 && active.len() == 0 && rules.len() == 0 {
        Seq::empty()
    } else {
        let push = pushed_scope(t.subtypes, active, 0);
        let e = block_problems(
            ctx,
            ch,
            rules,
            opt_root_scope(sc, t.name, push, node_key, ctx.rs, ctx.game),
            Seq::empty(),
            pos,
        );
        if t.warning_only {
            all_softened(e)
        } else {
            e
        }
    }
}

fn soften(errors: Vec<ValidationError>) -> (r: Vec<ValidationError>)
    ensures
        views(r@) == all_softened(views(errors@)),
{
    let ghost all = views(errors@);
    let mut errors = errors;
    let mut i: usize = 0;
    while i < errors.len()
        invariant
            i <= errors@.len(),
            errors@.len() == all.len(),
            forall|j: int| 0 <= j < i ==> (#[trigger] errors@[j])@ == softened(all[j]),
            forall|j: int| i <= j < errors@.len() ==> (#[trigger] errors@[j])@ == all[j],
        decreases errors@.len() - i,
    {
        if errors[i].severity == ErrorSeverity::Error {
            errors[i].severity = ErrorSeverity::Warning;
        }
        i += 1;
    }
    assert(views(errors@) =~= all_softened(all));
    errors
}

/// The context in the body of an instance, if scopes are followed.
pub fn scope_in_entity<'a>(
    scope_context: Option<&ScopeContext<'a>>,
    type_def: &TypeDefinition,
    push: Option<&str>,
    node_key: Option<&str>,
    ruleset: &RuleSet,
    game: Option<Game>,
) -> (r: Option<ScopeContext<'a>>)
    ensures
        opt_view(r) == opt_root_scope(
            opt_scope(scope_context),
            type_def@.name,
            opt_str(push),
            opt_str(node_key),
            ruleset@,
            game,
        ),
{
    match scope_context {
        Some(s) => {
            let mut inner = s.clone();
            seed_root_scope(&mut inner, type_def, push, node_key, ruleset, game);
            Some(inner)
        },
        None => None,
    }
}

/// Reports what is wrong with an instance of a type.
pub fn validate_with_type(
    ctx: &ValidationCtx,
    type_def: &TypeDefinition,
    children: &Vec<Child>,
    inner_rules: Option<&Vec<(RuleType, Options)>>,
    scope_context: Option<&ScopeContext>,
    node_key: Option<&str>,
    node_pos: (u32, u16),
) -> (r: Vec<ValidationError>)
    ensures
        views(r@) == entity_problems(
            ctx@,
            type_def@,
            children@,
            opt_rules(inner_rules),
            opt_scope(scope_context),
            opt_str(node_key),
            node_pos,
        ),
{
    let merged = merged_rules_for_type(
        ctx.ruleset,
        ctx.type_index,
        type_def,
        children,
        inner_rules,
        node_key,
    );
    let none: Vec<String> = Vec::new();
    assert(texts(none@) =~= Seq::empty());
    if type_def.subtypes.len() > 0 && merged.active.len() == 0 && merged.rules.len() == 0 {
        let out: Vec<ValidationError> = Vec::new();
        assert(views(out@) =~= Seq::empty());
        return out;
    }
    let entered = scope_in_entity(
        scope_context,
        type_def,
        merged.push_scope,
        node_key,
        ctx.ruleset,
        ctx.game,
    );
    let out = validate_children(
        ctx,
        children,
        &merged.rules,
        scope_ref(&entered),
        &none,
        node_pos,
    );
    if type_def.warning_only {
        soften(out)
    } else {
        out
    }
}

// ---------------------------------------------------------------------------
// Wrappers

/// What is wrong with a block in a wrapper: it is an instance of the type that its
/// key and the wrapper's give it, or else of the wrapper's own type, unless that
/// one's filter keeps its key out.
pub open spec fn wrapped_problems(
    ctx: CtxV,
    l: Leaf,
    inner: Seq<Child>,
    t: TypeDefV,
    wrapper: Seq<char>,
    rules: Seq<RuleV>,
    sc: Option<ScopeV>,
) -> Seq<ErrorV> {
    let pos = pos_of(l.pos.start);
    match grandchild_type(ctx.rs, ctx.file, wrapper, l.key@) {
        Some(g) => if is_checked(ctx.rs, g) {
            entity_problems(ctx, g, inner, rules_named(ctx.rs, g.name), sc, Some(l.key@), pos)
        } else {
            Seq::empty()
        },
        None => if filter_allows(t.type_key_filter, l.key@) {
            entity_problems(ctx, t, inner, rules, sc, Some(l.key@), pos)
        } else {
            Seq::empty()
        },
    }
}

/// What is wrong with a child of a wrapper, `level` levels of wrappers in.
pub open spec fn in_wrapper_problems(
    ctx: CtxV,
    c: Child,
    t: TypeDefV,
    wrapper: Seq<char>,
    rules: Seq<RuleV>,
    level: int,
    sc: Option<ScopeV>,
) -> Seq<ErrorV>
    decreases c, 0int, 0int,
{
    match c {
        Child::Leaf(l) => match l.value {
            Value::Clause(inner) => if 0 <= level < t.skip_root_key.len() {
                if skip_matches(t.skip_root_key[level], l.key@) {
                    wrapper_problems(
                        ctx,
                        inner@,
                        inner@.len() as int,
                        t,
                        l.key@,
                        rules,
                        level + 1,
                        sc,
                    )
                } else {
                    Seq::empty()
                }
            } else {
                wrapped_problems(ctx, l, inner@, t, wrapper, rules, sc)
            },
            _ => Seq::empty(),
        },
        Child::LeafValue(lv) => if 0 <= level < t.skip_root_key.len() {
            Seq::empty()
        } else {
            seq![bare_value_problem(ctx, lv)]
        },
        Child::Comment(_) => Seq::empty(),
    }
}

/// What is wrong with the first `n` children of a wrapper, `level` levels of wrappers
/// in. A block that is no wrapper of the next level belongs to another type.
pub open spec fn wrapper_problems(
    ctx: CtxV,
    ch: Seq<Child>,
    n: int,
    t: TypeDefV,
    wrapper: Seq<char>,
    rules: Seq<RuleV>,
    level: int,
    sc: Option<ScopeV>,
) -> Seq<ErrorV>
    decreases ch, 0int, n,
{
    if n <= 0 || n > ch.len() {
        Seq::empty()
    } else {
        wrapper_problems(ctx, ch, n - 1, t, wrapper, rules, level, sc) + in_wrapper_problems(
            ctx,
            ch[n - 1],
            t,
            wrapper,
            rules,
            level,
            sc,
        )
    }
}

fn validate_wrapped(
    ctx: &ValidationCtx,
    leaf: &Leaf,
    inner: &Vec<Child>,
    type_def: &TypeDefinition,
    wrapper: &str,
    inner_rules: Option<&Vec<(RuleType, Options)>>,
    scope_context: Option<&ScopeContext>,
) -> (r: Vec<ValidationError>)
    ensures
        views(r@) == wrapped_problems(
            ctx@,
            *leaf,
            inner@,
            type_def@,
            wrapper@,
            opt_rules(inner_rules),
            opt_scope(scope_context),
        ),
{
    let key = leaf.key.as_str();
    let pos = (leaf.pos.start.line, leaf.pos.start.col);
    match find_grandchild_type(ctx.file_path, wrapper, key, ctx.ruleset) {
        Some(g) => {
            let rules = find_rules_by_name(g.name.as_str(), ctx.ruleset);
            if type_has_content(g, rules) {
                validate_with_type(ctx, g, inner, rules, scope_context, Some(key), pos)
            } else {
                let out: Vec<ValidationError> = Vec::new();
                assert(views(out@) =~= Seq::empty());
                out
            }
        },
        None => {
            if type_filter_allows(type_def, key) {
                validate_with_type(
                    ctx,
                    type_def,
                    inner,
                    inner_rules,
                    scope_context,
                    Some(key),
                    pos,
                )
            } else {
                let out: Vec<ValidationError> = Vec::new();
                assert(views(out@) =~= Seq::empty());
                out
            }
        },
    }
}

fn validate_in_wrapper(
    ctx: &ValidationCtx,
    child: &Child,
    type_def: &TypeDefinition,
    wrapper: &str,
    inner_rules: Option<&Vec<(RuleType, Options)>>,
    level: usize,
    scope_context: Option<&ScopeContext>,
) -> (r: Vec<ValidationError>)
    requires
        level <= type_def@.skip_root_key.len(),
    ensures
        views(r@) == in_wrapper_problems(
            ctx@,
            *child,
            type_def@,
            wrapper@,
            opt_rules(inner_rules),
            level as int,
            opt_scope(scope_context),
        ),
    decreases child, 0int,
{
    let mut out: Vec<ValidationError> = Vec::new();
    assert(views(out@) =~= Seq::empty());
    match child {
        Child::Leaf(l) => match &l.value {
            Value::Clause(inner) => {
                if level < type_def.skip_root_key.len() {
                    assert(type_def@.skip_root_key[level as int]
                        == type_def.skip_root_key@[level as int]@);
                    if skip_root_key_matches(
                        &type_def.skip_root_key[level],
                        l.key.as_str(),
                    ) {
                        return validate_wrapper_grandchildren(
                            ctx,
                            inner,
                            type_def,
                            l.key.as_str(),
                            inner_rules,
                            level + 1,
                            scope_context,
                        );
                    }
                } else {
                    return validate_wrapped(
                        ctx,
                        l,
                        inner,
                        type_def,
                        wrapper,
                        inner_rules,
                        scope_context,
                    );
                }
            },
            _ => {},
        },
        Child::LeafValue(lv) => {
            if level >= type_def.skip_root_key.len() {
                add_one(&mut out, report_bare_value(ctx, lv));
                assert(views(out@) =~= seq![bare_value_problem(ctx@, *lv)]);
            }
        },
        Child::Comment(_) => {},
    }
    out
}

/// Reports what is wrong with the children of a wrapper, `level` levels of wrappers
/// in.
pub fn validate_wrapper_grandchildren(
    ctx: &ValidationCtx,
    grandchildren: &Vec<Child>,
    type_def: &TypeDefinition,
    wrapper_root_key: &str,
    inner_rules: Option<&Vec<(RuleType, Options)>>,
    level: usize,
    scope_context: Option<&ScopeContext>,
) -> (r: Vec<ValidationError>)
    requires
        level <= type_def@.skip_root_key.len(),
    ensures
        views(r@) == wrapper_problems(
            ctx@,
            grandchildren@,
            grandchildren@.len() as int,
            type_def@,
            wrapper_root_key@,
            opt_rules(inner_rules),
            level as int,
            opt_scope(scope_context),
        ),
    decreases grandchildren, 0int,
{
    let mut out: Vec<ValidationError> = Vec::new();
    let ghost ch = grandchildren@;
    let ghost sc = opt_scope(scope_context);
    let ghost rules = opt_rules(inner_rules);
    let mut i: usize = 0;
    assert(views(out@) =~= wrapper_problems(
        ctx@,
        ch,
        0,
        type_def@,
        wrapper_root_key@,
        rules,
        level as int,
        sc,
    ));
    while i < grandchildren.len()
        invariant
            i <= grandchildren@.len(),
            level <= type_def@.skip_root_key.len(),
            ch == grandchildren@,
            sc == opt_scope(scope_context),
            rules == opt_rules(inner_rules),
            views(out@) == wrapper_problems(
                ctx@,
                ch,
                i as int,
                type_def@,
                wrapper_root_key@,
                rules,
                level as int,
                sc,
            ),
        decreases grandchildren@.len() - i,
    {
        let more = validate_in_wrapper(
            ctx,
            &grandchildren[i],
            type_def,
            wrapper_root_key,
            inner_rules,
            level,
            scope_context,
        );
        add_all(&mut out, more);
        i += 1;
    }
    out
}

// ---------------------------------------------------------------------------
// Files

/// The file's content may run in any scope.
pub open spec fn is_scope_agnostic(path: Seq<char>) -> bool {
    let p = file_name(path);
    has_segments(p, "scripted_effects"@) || has_segments(p, "scripted_triggers"@) || has_segments(
        p,
        "scripted_localisation"@,
    ) || has_segments(p, "collections"@) || has_segments(p, "dynamic_modifiers"@)
}

/// The scope that a file starts in: the game's main one, unless its content may run in
/// any.
pub open spec fn initial_scope(path: Seq<char>, reg: RegistryV) -> ScopeV {
    let scope = if is_scope_agnostic(path) {
        ScopeId::Any
    } else {
        match reg.id_of("country"@) {
            Some(id) => id,
            None => ScopeId::Id(FIRST_SCOPE),
        }
    };
    ScopeV { registry: reg, root: scope, from: Seq::empty(), stack: seq![scope] }
}

/// The context that a file starts in, if scopes are followed.
pub open spec fn opt_initial_scope(path: Seq<char>, reg: Option<RegistryV>) -> Option<ScopeV> {
    match reg {
        Some(r) => Some(initial_scope(path, r)),
        None => None,
    }
}

/// A registry, if there is one.
pub open spec fn opt_registry(o: Option<&Arc<ScopeRegistry>>) -> Option<RegistryV> {
    match o {
        Some(r) => Some(r@),
        None => None,
    }
}

/// The context that a file starts in, if scopes are followed. Scripted effects and
/// the like run in the scope that they are used in, of which nothing is known.
pub fn initial_scope_context<'a>(file_path: &str, registry: Option<&'a Arc<ScopeRegistry>>) -> (r:
    Option<ScopeContext<'a>>)
    ensures
        opt_view(r) == opt_initial_scope(file_path@, opt_registry(registry)),
{
    match registry {
        Some(reg) => {
            let p = normal_file_name(file_path);
            let path = p.as_str();
            let agnostic = path_contains_segment(path, "scripted_effects")
                || path_contains_segment(path, "scripted_triggers") || path_contains_segment(
                path,
                "scripted_localisation",
            ) || path_contains_segment(path, "collections") || path_contains_segment(
                path,
                "dynamic_modifiers",
            );
            let registry: &'a ScopeRegistry = reg;
            let scope = if agnostic {
                ScopeId::Any
            } else {
                match registry.id_of("country") {
                    Some(id) => id,
                    None => ScopeId::Id(FIRST_SCOPE),
                }
            };
            Some(ScopeContext::from_registry(registry, scope))
        },
        None => None,
    }
}

/// What a run over many files shares.
#[derive(Clone, Copy)]
pub struct Prepared<'a> {
    pub ruleset: &'a RuleSet,
    pub game: Option<Game>,
    pub type_index: Option<&'a TypeIndex>,
    pub modifier_keys: Option<&'a NameSet>,
    pub loc_index: Option<&'a LocIndex>,
    pub extra_loc_keys: Option<&'a NameSet>,
    pub registry: Option<&'a Arc<ScopeRegistry>>,
    pub scope_checks: bool,
    pub var_checks: bool,
}

/// What the checks of one file share, in a run.
pub open spec fn ctx_of(p: Prepared, file: Seq<char>) -> CtxV {
    CtxV {
        rs: p.ruleset@,
        file,
        game: p.game,
        idx: opt_index(p.type_index),
        modifier_keys: opt_names(p.modifier_keys),
        loc: opt_loc(p.loc_index),
        extra_loc_keys: opt_names(p.extra_loc_keys),
        scope_checks: p.scope_checks,
        var_checks: p.var_checks,
    }
}

/// What the checks of one file share, in a run.
pub fn context_for<'a>(p: &Prepared<'a>, file_path: &'a str) -> (r: ValidationCtx<'a>)
    ensures
        r@ == ctx_of(*p, file_path@),
{
    ValidationCtx {
        ruleset: p.ruleset,
        file_path,
        game: p.game,
        type_index: p.type_index,
        modifier_keys: p.modifier_keys,
        loc_index: p.loc_index,
        extra_loc_keys: p.extra_loc_keys,
        scope_checks: p.scope_checks,
        var_checks: p.var_checks,
    }
}

/// What is wrong with a child at the top of a file.
pub open spec fn root_problems(ctx: CtxV, c: Child, sc: Option<ScopeV>) -> Seq<ErrorV> {
    match block_of(c) {
        Some((l, inner)) => match resolved(ctx.rs, ctx.file, l.key@, false) {
            ResolvedV::Entity(t) => entity_problems(
                ctx,
                t,
                inner,
                rules_named(ctx.rs, t.name),
                sc,
                Some(l.key@),
                pos_of(l.pos.start),
            ),
            ResolvedV::Wrapper(t) => wrapper_problems(
                ctx,
                inner,
                inner.len() as int,
                t,
                l.key@,
                rules_named(ctx.rs, t.name),
                1,
                sc,
            ),
            ResolvedV::Unknown => Seq::empty(),
        },
        None => Seq::empty(),
    }
}

/// What is wrong with the first `n` children at the top of a file.
pub open spec fn roots_problems(ctx: CtxV, ch: Seq<Child>, sc: Option<ScopeV>, n: int) -> Seq<
    ErrorV,
>
    decreases n,
{
    if n <= 0 || n > ch.len() {
        Seq::empty()
    } else {
        roots_problems(ctx, ch, sc, n - 1) + root_problems(ctx, ch[n - 1], sc)
    }
}

/// What is wrong with a file by its rules. A file may be one instance as a whole.
pub open spec fn rules_problems(ctx: CtxV, ch: Seq<Child>, sc: Option<ScopeV>) -> Seq<ErrorV> {
    match type_at(ctx.rs, ctx.file) {
        Some(t) => if t.type_per_file {
            if is_checked(ctx.rs, t) {
                entity_problems(ctx, t, ch, rules_named(ctx.rs, t.name), sc, None, (0, 0))
            } else {
                Seq::empty()
            }
        } else {
            roots_problems(ctx, ch, sc, ch.len() as int)
        },
        None => roots_problems(ctx, ch, sc, ch.len() as int),
    }
}

/// What is wrong with a file: by its rules, and by the checks of its game.
pub open spec fn file_diagnostics(ctx: CtxV, ch: Seq<Child>, sc: Option<ScopeV>) -> Seq<ErrorV> {
    rules_problems(ctx, ch, sc) + (match ctx.game {
        Some(g) => game_problems(ctx.rs, ctx.file, ch, ctx.idx, g),
        None => Seq::empty(),
    })
}

fn validate_root(ctx: &ValidationCtx, child: &Child, scope_context: Option<&ScopeContext>) -> (r:
    Vec<ValidationError>)
    ensures
        views(r@) == root_problems(ctx@, *child, opt_scope(scope_context)),
{
    let out: Vec<ValidationError> = Vec::new();
    assert(views(out@) =~= Seq::empty());
    match as_block(child) {
        Some(b) => match resolve_root_child(ctx.ruleset, ctx.file_path, b.key, false) {
            ResolvedType::Entity { type_def } => {
                let rules = find_rules_by_name(type_def.name.as_str(), ctx.ruleset);
                validate_with_type(
                    ctx,
                    type_def,
                    b.children,
                    rules,
                    scope_context,
                    Some(b.key),
                    (b.range.start.line, b.range.start.col),
                )
            },
            ResolvedType::Wrapper { type_def } => {
                let rules = find_rules_by_name(type_def.name.as_str(), ctx.ruleset);
                proof {
                    lemma_wrapper_has_level(ctx@.rs, ctx@.file, b.key@);
                }
                validate_wrapper_grandchildren(
                    ctx,
                    b.children,
                    type_def,
                    b.key,
                    rules,
                    1,
                    scope_context,
                )
            },
            ResolvedType::Unknown => out,
        },
        None => out,
    }
}

/// A type has a level of wrappers where a block is one of its wrappers.
pub proof fn lemma_wrapper_has_level(rs: RuleSetV, path: Seq<char>, key: Seq<char>)
    ensures
        resolved(rs, path, key, false) matches ResolvedV::Wrapper(t) ==> t.skip_root_key.len() > 0,
        resolved(rs, path, key, true) matches ResolvedV::Wrapper(t) ==> t.skip_root_key.len() > 0,
{
}

fn validate_by_rules(ctx: &ValidationCtx, ast: &ParsedFile, scope_context: Option<&ScopeContext>)
    -> (r: Vec<ValidationError>)
    ensures
        views(r@) == rules_problems(ctx@, ast.root_children@, opt_scope(scope_context)),
{
    let mut out: Vec<ValidationError> = Vec::new();
    let children = &ast.root_children;
    let ghost sc = opt_scope(scope_context);
    assert(views(out@) =~= Seq::empty());
    match find_type_by_path(ctx.file_path, ctx.ruleset) {
        Some(t) => {
            if t.type_per_file {
                let rules = find_rules_by_name(t.name.as_str(), ctx.ruleset);
                if type_has_content(t, rules) {
                    return validate_with_type(
                        ctx,
                        t,
                        children,
                        rules,
                        scope_context,
                        None,
                        (0, 0),
                    );
                }
                return out;
            }
        },
        None => {},
    }
    let mut i: usize = 0;
    assert(views(out@) =~= roots_problems(ctx@, children@, sc, 0));
    while i < children.len()
        invariant
            i <= children@.len(),
            sc == opt_scope(scope_context),
            views(out@) == roots_problems(ctx@, children@, sc, i as int),
        decreases children@.len() - i,
    {
        let more = validate_root(ctx, &children[i], scope_context);
        add_all(&mut out, more);
        i += 1;
    }
    out
}

/// Checks a file with what a run over many files shares.
pub fn validate_prepared(ast: &ParsedFile, file_path: &str, prepared: &Prepared) -> (r: Vec<
    ValidationError,
>)
    ensures
        views(r@) == file_diagnostics(
            ctx_of(*prepared, file_path@),
            ast.root_children@,
            opt_initial_scope(file_path@, opt_registry(prepared.registry)),
        ),
{
    let ctx = context_for(prepared, file_path);
    let scope = initial_scope_context(file_path, prepared.registry);
    let mut out = validate_by_rules(&ctx, ast, scope_ref(&scope));
    let ghost first = views(out@);
    match prepared.game {
        Some(g) => {
            let more = run_game_validators(
                ast,
                prepared.ruleset,
                file_path,
                prepared.type_index,
                g,
            );
            add_all(&mut out, more);
        },
        None => {
            assert(first + Seq::<ErrorV>::empty() =~= first);
        },
    }
    out
}

/// What is wrong with one file of a game, where scopes are checked with the registry
/// of the rule set.
pub open spec fn single_file_diagnostics(
    rs: RuleSetV,
    file: Seq<char>,
    ch: Seq<Child>,
    game: Option<Game>,
    idx: Option<IndexV>,
    modifier_keys: Option<Set<Seq<char>>>,
    loc: Option<LocIndexV>,
    hardcoded: RegistryV,
) -> Seq<ErrorV> {
    file_diagnostics(
        CtxV {
            rs,
            file,
            game,
            idx,
            modifier_keys,
            loc,
            extra_loc_keys: None,
            scope_checks: true,
            var_checks: true,
        },
        ch,
        opt_initial_scope(
            file,
            if game is Some {
                Some(scope_registry(rs, hardcoded))
            } else {
                None
            },
        ),
    )
}

/// Checks one file with localisation. The scopes that are built in for the game are
/// given as `hardcoded`. For many files, share a [`Prepared`].
pub fn validate_ast_with_loc(
    ast: &ParsedFile,
    ruleset: &RuleSet,
    file_path: &str,
    game: Option<Game>,
    type_index: Option<&TypeIndex>,
    modifier_keys: Option<&NameSet>,
    loc_index: Option<&LocIndex>,
    hardcoded: ScopeRegistry,
) -> (r: Vec<ValidationError>)
    requires
        ruleset@.scope_inputs.len() <= u32::MAX - FIRST_SCOPE,
    ensures
        views(r@) == single_file_diagnostics(
            ruleset@,
            file_path@,
            ast.root_children@,
            game,
            opt_index(type_index),
            opt_names(modifier_keys),
            opt_loc(loc_index),
            hardcoded@,
        ),
{
    let registry = build_scope_registry_arc(ruleset, game, hardcoded);
    let prepared = Prepared {
        ruleset,
        game,
        type_index,
        modifier_keys,
        loc_index,
        extra_loc_keys: None,
        registry: match &registry {
            Some(r) => Some(r),
            None => None,
        },
        scope_checks: true,
        var_checks: true,
    };
    validate_prepared(ast, file_path, &prepared)
}

/// Checks one file without localisation.
pub fn validate_ast(
    ast: &ParsedFile,
    ruleset: &RuleSet,
    file_path: &str,
    game: Option<Game>,
    type_index: Option<&TypeIndex>,
    modifier_keys: Option<&NameSet>,
    hardcoded: ScopeRegistry,
) -> (r: Vec<ValidationError>)
    requires
        ruleset@.scope_inputs.len() <= u32::MAX - FIRST_SCOPE,
    ensures
        views(r@) == single_file_diagnostics(
            ruleset@,
            file_path@,
            ast.root_children@,
            game,
            opt_index(type_index),
            opt_names(modifier_keys),
            None,
            hardcoded@,
        ),
{
    validate_ast_with_loc(
        ast,
        ruleset,
        file_path,
        game,
        type_index,
        modifier_keys,
        None,
        hardcoded,
    )
}

/// The definition of each enum; the last one where several have its name.
pub open spec fn enum_map(e: Seq<EnumV>, n: int) -> Map<Seq<char>, EnumV>
    decreases n,
{
    if n <= 0 || n > e.len() {
        Map::empty()
    } else {
        enum_map(e, n - 1).insert(e[n - 1].key, e[n - 1])
    }
}

/// A reference to an enum in a map.
pub struct EnumRef<'a> {
    pub def: &'a EnumDefinition,
}

impl<'a> DeepView for EnumRef<'a> {
    type V = EnumV;

    open spec fn deep_view(&self) -> EnumV {
        self.def@
    }
}

/// The definition of each enum of a rule set by its name.
pub fn build_enum_map<'a>(ruleset: &'a RuleSet) -> (r: NameMap<EnumRef<'a>>)
    ensures
        r@ == enum_map(ruleset@.enums, ruleset@.enums.len() as int),
{
    let mut out: NameMap<EnumRef<'a>> = NameMap::new();
    let mut i: usize = 0;
    while i < ruleset.enums.len()
        invariant
            i <= ruleset.enums@.len(),
            out@ == enum_map(ruleset@.enums, i as int),
        decreases ruleset.enums@.len() - i,
    {
        assert(ruleset@.enums[i as int] == ruleset.enums@[i as int]@);
        let def = &ruleset.enums[i];
        out.insert(def.key.clone(), EnumRef { def });
        i += 1;
    }
    out
}

} // verus!
