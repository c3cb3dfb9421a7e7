//! Which scope a script is in, and what may stand there.

use vstd::prelude::*;

use crate::ast::{Leaf, SourcePos};
use crate::common::{has_upper, is_data_ref, one_of_ci, value_text};
use crate::config_laws::{braced, is_name, lemma_name, lemma_names_words, names_text};
use crate::context::CtxV;
use crate::diagnostic::ErrorV;
use crate::resolve::rule_options;
use crate::rule_core::{
    alias_scope_problems, chain_problems, leaf_problems, required_scope_problems, some_scope_fits,
};
use crate::rules_types::{FieldV, OptionsV, ReplaceScopesV, RuleV, ScopeInputV};
use crate::ruleset::RuleSetV;
use crate::scope::{
    FIRST_SCOPE, all_scopes, block_scope, declared, first_name, ids_of, is_scope_word, named_scope,
    root_scope, satisfies, scope_fits, target_problem, with_all_parents, with_replaced,
};
use crate::scope_engine::{
    RegistryV, ScopeDefV, ScopeId, ScopeLinkV, ScopeResultV, ScopeV, StepV, WayBack, prefix_link,
    scope_def, way_back,
};
use crate::text::{
    CharSet, all_digits, ascii_lower, contains_ci, contains_text, eq_ci, is_digit, is_upper,
    lemma_find_in, lower_char_spec, replace_char_spec, split_spec, starts, words,
};
use crate::text_laws::{
    has_bare_ends, is_free_of, is_one_word, law_lower_twice, law_one_word_text, law_split_first,
    law_split_one, law_trim, lemma_trim_bare,
};
use crate::type_index::Game;
use crate::validate::initial_scope;
use crate::value_laws::is_one;

verus! {

// ---------------------------------------------------------------------------
// Requirements

/// The name is one of a scope of the registry, whatever its case, and the scope is that
/// one or is declared as a subscope of it.
pub open spec fn is_or_is_in(reg: RegistryV, scope: ScopeId, name: Seq<char>) -> bool {
    reg.by_name.contains_key(ascii_lower(name)) && ({
        let id = reg.by_name[ascii_lower(name)];
        scope == id || exists|k: int|
            0 <= k < reg.scopes.len() && (#[trigger] reg.scopes[k]).id == scope
                && reg.scopes[k].subscope_of.contains(id) && forall|m: int|
                0 <= m < k ==> (#[trigger] reg.scopes[m]).id != scope
    })
}

/// What stands where these scopes are required may stand in the scope: nothing is
/// required, or `any` or `all` is, in whatever case; or nothing is known of the scope; or
/// it is one of those required, or a subscope of one. In no other case.
pub open spec fn is_met(reg: RegistryV, scope: ScopeId, required: Seq<Seq<char>>) -> bool {
    ||| required.len() == 0
    ||| scope == ScopeId::Any
    ||| exists|i: int|
        0 <= i < required.len() && (ascii_lower(#[trigger] required[i]) == "any"@ || ascii_lower(
            required[i],
        ) == "all"@ || is_or_is_in(reg, scope, required[i]))
}

proof fn lemma_scope_def(s: Seq<ScopeDefV>, id: ScopeId, i: int)
    requires
        0 <= i <= s.len(),
    ensures
        match scope_def(s, id, i) {
            Some(d) => exists|k: int|
                i <= k < s.len() && #[trigger] s[k] == d && d.id == id && forall|m: int|
                    i <= m < k ==> (#[trigger] s[m]).id != id,
            None => forall|k: int| i <= k < s.len() ==> (#[trigger] s[k]).id != id,
        },
    decreases s.len() - i,
{
    if i < s.len() {
        if s[i].id == id {
            assert(s[i] == scope_def(s, id, i)->0);
        } else {
            lemma_scope_def(s, id, i + 1);
            if scope_def(s, id, i + 1) is Some {
                let d = scope_def(s, id, i + 1)->0;
                let k = choose|k: int|
                    i + 1 <= k < s.len() && #[trigger] s[k] == d && d.id == id && forall|m: int|
                        i + 1 <= m < k ==> (#[trigger] s[m]).id != id;
                assert(s[k] == d);
            }
        }
    }
}

proof fn lemma_counts_as(reg: RegistryV, scope: ScopeId, name: Seq<char>)
    ensures
        is_or_is_in(reg, scope, name) <==> (match reg.id_of(name) {
            Some(id) => reg.counts_as(scope, id),
            None => false,
        }),
{
    lemma_scope_def(reg.scopes, scope, 0);
    if reg.by_name.contains_key(ascii_lower(name)) {
        let id = reg.by_name[ascii_lower(name)];
        match scope_def(reg.scopes, scope, 0) {
            Some(d) => {
                let k = choose|k: int|
                    0 <= k < reg.scopes.len() && #[trigger] reg.scopes[k] == d && d.id == scope
                        && forall|m: int| 0 <= m < k ==> (#[trigger] reg.scopes[m]).id != scope;
                assert(reg.scopes[k].id == scope);
                if exists|j: int|
                    0 <= j < reg.scopes.len() && (#[trigger] reg.scopes[j]).id == scope
                        && reg.scopes[j].subscope_of.contains(id) && forall|m: int|
                        0 <= m < j ==> (#[trigger] reg.scopes[m]).id != scope {
                    let j = choose|j: int|
                        0 <= j < reg.scopes.len() && (#[trigger] reg.scopes[j]).id == scope
                            && reg.scopes[j].subscope_of.contains(id) && forall|m: int|
                            0 <= m < j ==> (#[trigger] reg.scopes[m]).id != scope;
                    assert(j == k) by {
                        if j < k {
                            assert(reg.scopes[j].id != scope);
                        }
                        if k < j {
                            assert(reg.scopes[k].id != scope);
                        }
                    }
                }
            },
            None => {},
        }
    }
}

/// A requirement is met exactly in the cases of [`is_met`].
pub proof fn law_requirement(reg: RegistryV, scope: ScopeId, required: Seq<Seq<char>>)
    ensures
        scope_fits(reg, scope, required) <==> is_met(reg, scope, required),
{
    reveal_strlit("any");
    reveal_strlit("all");
    assert(ascii_lower("any"@) =~= "any"@);
    assert(ascii_lower("all"@) =~= "all"@);
    assert forall|i: int| 0 <= i < required.len() implies (is_or_is_in(
        reg,
        scope,
        #[trigger] required[i],
    ) <==> (match reg.id_of(required[i]) {
        Some(id) => reg.counts_as(scope, id),
        None => false,
    })) by {
        lemma_counts_as(reg, scope, required[i]);
    }
    if exists|i: int|
        0 <= i < required.len() && (ascii_lower(#[trigger] required[i]) == "any"@ || ascii_lower(
            required[i],
        ) == "all"@ || is_or_is_in(reg, scope, required[i])) {
        let i = choose|i: int|
            0 <= i < required.len() && (ascii_lower(#[trigger] required[i]) == "any"@
                || ascii_lower(required[i]) == "all"@ || is_or_is_in(reg, scope, required[i]));
        assert(eq_ci(required[i], "any"@) || eq_ci(required[i], "all"@) || is_or_is_in(
            reg,
            scope,
            required[i],
        ));
    }
    if contains_ci(required, "any"@) {
        let i = choose|i: int| 0 <= i < required.len() && eq_ci(#[trigger] required[i], "any"@);
        assert(ascii_lower(required[i]) == "any"@);
    }
    if contains_ci(required, "all"@) {
        let i = choose|i: int| 0 <= i < required.len() && eq_ci(#[trigger] required[i], "all"@);
        assert(ascii_lower(required[i]) == "all"@);
    }
    if satisfies(reg, scope, required) {
        let i = choose|i: int|
            0 <= i < required.len() && match reg.id_of(#[trigger] required[i]) {
                Some(id) => reg.counts_as(scope, id),
                None => false,
            };
        assert(is_or_is_in(reg, scope, required[i]));
    }
}

/// A field whose rule requires scopes is reported, once and as `CW247`, exactly where the
/// requirement is not met.
pub proof fn law_rules_in_scope(
    ctx: CtxV,
    l: Leaf,
    key: Seq<char>,
    o: OptionsV,
    s: ScopeV,
)
    ensures
        ({
            let e = required_scope_problems(ctx, l, key, o, Some(s));
            if is_met(s.registry, s.current(), o.required_scopes) {
                e.len() == 0
            } else {
                is_one(e, "CW247"@, ctx.file, l.pos.start)
            }
        }),
        required_scope_problems(ctx, l, key, o, None).len() == 0,
{
    law_requirement(s.registry, s.current(), o.required_scopes);
}

/// A usage of an alias is reported exactly where no certain overload may stand in the
/// scope: a trigger as `CW104`, an effect as `CW105`, anything else but a modifier as
/// `CW106`.
pub proof fn law_usages_in_scope(
    ctx: CtxV,
    category: Seq<char>,
    key: Seq<char>,
    pos: SourcePos,
    s: ScopeV,
    ov: Seq<(RuleV, bool)>,
)
    requires
        ctx.scope_checks,
    ensures
        ({
            let e = alias_scope_problems(ctx, category, key, pos, Some(s), ov);
            let sure = exists|i: int| 0 <= i < ov.len() && (#[trigger] ov[i]).1;
            let fits = exists|i: int|
                0 <= i < ov.len() && (#[trigger] ov[i]).1 && is_met(
                    s.registry,
                    s.current(),
                    ov[i].0.1.required_scopes,
                );
            &&& category == "modifier"@ || !sure || fits ==> e.len() == 0
            &&& category == "trigger"@ && sure && !fits ==> is_one(e, "CW104"@, ctx.file, pos)
            &&& category == "effect"@ && sure && !fits ==> is_one(e, "CW105"@, ctx.file, pos)
            &&& category != "trigger"@ && category != "effect"@ && category != "modifier"@ && sure
                && !fits ==> is_one(e, "CW106"@, ctx.file, pos)
        }),
        alias_scope_problems(ctx, category, key, pos, None, ov).len() == 0,
{
    reveal_strlit("modifier");
    reveal_strlit("trigger");
    reveal_strlit("effect");
    assert("modifier"@[0] != "trigger"@[0] && "modifier"@[0] != "effect"@[0]);
    assert("trigger"@[0] != "effect"@[0]);
    assert forall|i: int| 0 <= i < ov.len() implies (is_met(
        s.registry,
        s.current(),
        (#[trigger] ov[i]).0.1.required_scopes,
    ) <==> scope_fits(s.registry, s.current(), ov[i].0.1.required_scopes)) by {
        law_requirement(s.registry, s.current(), ov[i].0.1.required_scopes);
    }
    if exists|i: int|
        0 <= i < ov.len() && (#[trigger] ov[i]).1 && is_met(
            s.registry,
            s.current(),
            ov[i].0.1.required_scopes,
        ) {
        let i = choose|i: int|
            0 <= i < ov.len() && (#[trigger] ov[i]).1 && is_met(
                s.registry,
                s.current(),
                ov[i].0.1.required_scopes,
            );
        assert(ov[i].1 && scope_fits(s.registry, s.current(), ov[i].0.1.required_scopes));
        assert(some_scope_fits(s.registry, s.current(), ov));
    }
    if some_scope_fits(s.registry, s.current(), ov) {
        let i = choose|i: int|
            0 <= i < ov.len() && (#[trigger] ov[i]).1 && scope_fits(
                s.registry,
                s.current(),
                ov[i].0.1.required_scopes,
            );
        assert(ov[i].1 && is_met(s.registry, s.current(), ov[i].0.1.required_scopes));
    }
}

/// A target that leads to a scope is reported, as `CW243`, exactly where that scope is
/// not one of those expected; one that leads nowhere is reported as `CW244`; one that may
/// not be used where it stands as `CW245`. A target that leads to a value, or to a scope
/// of which nothing is known, is not reported.
pub proof fn law_targets(
    sc: ScopeV,
    value: Seq<char>,
    expected: Seq<Seq<char>>,
    pos: SourcePos,
    file: Seq<char>,
)
    requires
        value.len() > 0,
        !is_data_ref(value),
        forall|i: int|
            0 <= i < expected.len() ==> ascii_lower(#[trigger] expected[i]) == "any"@
                || ascii_lower(expected[i]) == "all"@ || sc.registry.by_name.contains_key(
                ascii_lower(expected[i]),
            ),
    ensures
        ({
            let e = target_problem(sc, value, expected, pos, file);
            match sc.command(value) {
                ScopeResultV::NewScope { scope } => if is_met(sc.registry, scope, expected) {
                    e.len() == 0
                } else {
                    is_one(e, "CW243"@, file, pos)
                },
                ScopeResultV::NotFound => is_one(e, "CW244"@, file, pos),
                ScopeResultV::WrongScope { .. } => is_one(e, "CW245"@, file, pos),
                ScopeResultV::AnyScope => e.len() == 0,
                ScopeResultV::ValueFound => e.len() == 0,
            }
        }),
{
    reveal_strlit("any");
    reveal_strlit("all");
    assert(ascii_lower("any"@) =~= "any"@);
    assert(ascii_lower("all"@) =~= "all"@);
    match sc.command(value) {
        ScopeResultV::NewScope { scope } => law_requirement(sc.registry, scope, expected),
        _ => {},
    }
}

// ---------------------------------------------------------------------------
// Words that lead back

/// `prev` or `from`, so many times.
pub open spec fn repeated(word: Seq<char>, n: int) -> Seq<char>
    decreases n,
{
    if n <= 0 {
        Seq::empty()
    } else {
        repeated(word, n - 1) + word
    }
}

/// The scope that so many steps out of the current one lead to.
pub open spec fn nth_out(sc: ScopeV, n: int) -> ScopeId {
    if n < sc.stack.len() {
        sc.stack[sc.stack.len() - 1 - n]
    } else {
        ScopeId::Any
    }
}

/// The `n`th caller, from 1 on.
pub open spec fn nth_caller(sc: ScopeV, n: int) -> ScopeId {
    if n <= sc.from.len() {
        sc.from[n - 1]
    } else {
        ScopeId::Any
    }
}

/// The command leads to the scope.
pub open spec fn leads_to(sc: ScopeV, key: Seq<char>, scope: ScopeId) -> bool {
    sc.command(key) == (if scope == ScopeId::Any {
        ScopeResultV::AnyScope
    } else {
        ScopeResultV::NewScope { scope }
    })
}

proof fn lemma_no_dot(s: Seq<char>, w: Seq<char>)
    requires
        ascii_lower(s) == w,
        is_free_of(w, CharSet::One('.')),
    ensures
        is_free_of(s, CharSet::One('.')),
{
    assert forall|i: int| 0 <= i < s.len() implies !CharSet::One('.').has(#[trigger] s[i]) by {
        assert(!CharSet::One('.').has(w[i]));
        assert(ascii_lower(s)[i] == lower_char_spec(s[i]));
    }
}

proof fn lemma_one_step(sc: ScopeV, key: Seq<char>, way: WayBack)
    requires
        way_back(ascii_lower(key)) == Some(way),
        is_free_of(key, CharSet::One('.')),
    ensures
        leads_to(sc, key, sc.back(way, sc.current())),
{
    law_split_one(key, CharSet::One('.'));
    let parts = seq![key];
    let at = sc.back(way, sc.current());
    assert(sc.step(sc.current(), parts[0]) == StepV::To(at));
    assert(sc.resolve(at, parts, 1) == sc.resolve(at, parts, 1));
    reveal_with_fuel(ScopeV::resolve, 3);
}

/// `this` leads to the current scope, `root` to the root, `prev` one scope out for each
/// time that it is written, `from` to as many callers up; in whatever case, and whatever
/// the configuration declares.
#[verifier::rlimit(50)]
pub proof fn law_ways_back(sc: ScopeV, key: Seq<char>, n: int)
    ensures
        ascii_lower(key) == "this"@ ==> leads_to(sc, key, sc.current()),
        ascii_lower(key) == "root"@ ==> leads_to(sc, key, sc.root),
        1 <= n <= 3 && ascii_lower(key) == repeated("prev"@, n) ==> leads_to(
            sc,
            key,
            nth_out(sc, n),
        ),
        1 <= n <= 4 && ascii_lower(key) == repeated("from"@, n) ==> leads_to(
            sc,
            key,
            nth_caller(sc, n),
        ),
{
    reveal_strlit("this");
    reveal_strlit("root");
    reveal_strlit("prev");
    reveal_strlit("prevprev");
    reveal_strlit("prevprevprev");
    reveal_strlit("from");
    reveal_strlit("fromfrom");
    reveal_strlit("fromfromfrom");
    reveal_strlit("fromfromfromfrom");
    reveal_with_fuel(repeated, 5);
    let k = ascii_lower(key);
    assert(repeated("prev"@, 1) =~= "prev"@);
    assert(repeated("prev"@, 2) =~= "prevprev"@);
    assert(repeated("prev"@, 3) =~= "prevprevprev"@);
    assert(repeated("from"@, 1) =~= "from"@);
    assert(repeated("from"@, 2) =~= "fromfrom"@);
    assert(repeated("from"@, 3) =~= "fromfromfrom"@);
    assert(repeated("from"@, 4) =~= "fromfromfromfrom"@);
    assert("this"@[0] == 't' && "root"@[0] == 'r' && "prev"@[0] == 'p' && "from"@[0] == 'f');
    assert("prevprev"@[0] == 'p' && "fromfrom"@[0] == 'f');
    assert("prevprevprev"@[0] == 'p' && "fromfromfrom"@[0] == 'f');
    if k == "this"@ {
        lemma_no_dot(key, k);
        lemma_one_step(sc, key, WayBack::This);
    } else if k == "root"@ {
        lemma_no_dot(key, k);
        lemma_one_step(sc, key, WayBack::Root);
    } else if 1 <= n <= 3 && k == repeated("prev"@, n) {
        lemma_no_dot(key, k);
        if n == 1 {
            lemma_one_step(sc, key, WayBack::Prev(1));
        } else if n == 2 {
            lemma_one_step(sc, key, WayBack::Prev(2));
        } else {
            lemma_one_step(sc, key, WayBack::Prev(3));
        }
    } else if 1 <= n <= 4 && k == repeated("from"@, n) {
        lemma_no_dot(key, k);
        if n == 1 {
            lemma_one_step(sc, key, WayBack::From(1));
        } else if n == 2 {
            lemma_one_step(sc, key, WayBack::From(2));
        } else if n == 3 {
            lemma_one_step(sc, key, WayBack::From(3));
        } else {
            lemma_one_step(sc, key, WayBack::From(4));
        }
    }
}

// ---------------------------------------------------------------------------
// Commands

/// The scope is one of these, or a subscope of one; or one of these is any.
pub open spec fn is_one_of(reg: RegistryV, scope: ScopeId, valid: Seq<ScopeId>) -> bool {
    exists|i: int|
        0 <= i < valid.len() && ((#[trigger] valid[i]) == ScopeId::Any || scope == valid[i]
            || exists|k: int|
            0 <= k < reg.scopes.len() && (#[trigger] reg.scopes[k]).id == scope
                && reg.scopes[k].subscope_of.contains(valid[i]) && forall|m: int|
                0 <= m < k ==> (#[trigger] reg.scopes[m]).id != scope)
}

proof fn lemma_is_one_of(reg: RegistryV, scope: ScopeId, valid: Seq<ScopeId>)
    ensures
        is_one_of(reg, scope, valid) <==> valid.contains(ScopeId::Any) || reg.counts_as_any(
            scope,
            valid,
        ),
{
    assert forall|i: int| 0 <= i < valid.len() implies (reg.counts_as(scope, #[trigger] valid[i])
        <==> scope == valid[i] || exists|k: int|
        0 <= k < reg.scopes.len() && (#[trigger] reg.scopes[k]).id == scope
            && reg.scopes[k].subscope_of.contains(valid[i]) && forall|m: int|
            0 <= m < k ==> (#[trigger] reg.scopes[m]).id != scope) by {
        let r = RegistryV { by_name: Map::empty().insert(Seq::empty(), valid[i]), ..reg };
        assert(ascii_lower(Seq::<char>::empty()) =~= Seq::<char>::empty());
        lemma_counts_as(r, scope, Seq::empty());
        assert(r.scopes == reg.scopes);
        assert(r.counts_as(scope, valid[i]) == reg.counts_as(scope, valid[i]));
    }
    if is_one_of(reg, scope, valid) {
        let i = choose|i: int|
            0 <= i < valid.len() && ((#[trigger] valid[i]) == ScopeId::Any || scope == valid[i]
                || exists|k: int|
                0 <= k < reg.scopes.len() && (#[trigger] reg.scopes[k]).id == scope
                    && reg.scopes[k].subscope_of.contains(valid[i]) && forall|m: int|
                    0 <= m < k ==> (#[trigger] reg.scopes[m]).id != scope);
        assert(valid[i] == ScopeId::Any || reg.counts_as(scope, valid[i]));
    }
    if valid.contains(ScopeId::Any) {
        let i = choose|i: int| 0 <= i < valid.len() && valid[i] == ScopeId::Any;
        assert(valid[i] == ScopeId::Any);
    }
    if reg.counts_as_any(scope, valid) {
        let i = choose|i: int| 0 <= i < valid.len() && reg.counts_as(scope, #[trigger] valid[i]);
        assert(reg.counts_as(scope, valid[i]));
    }
}

/// The key is a single word that leads nowhere back, and no prefix of a command starts it.
pub open spec fn is_plain_command(sc: ScopeV, key: Seq<char>) -> bool {
    &&& is_free_of(key, CharSet::One('.'))
    &&& way_back(ascii_lower(key)) is None
    &&& forall|i: int|
        0 <= i < sc.registry.prefix_links.len() ==> !starts(
            ascii_lower(key),
            (#[trigger] sc.registry.prefix_links[i]).0,
        )
}

proof fn lemma_no_prefix(s: Seq<(Seq<char>, ScopeLinkV)>, key: Seq<char>, i: int)
    requires
        0 <= i,
        forall|j: int| i <= j < s.len() ==> !starts(key, (#[trigger] s[j]).0),
    ensures
        prefix_link(s, key, i) is None,
    decreases s.len() - i,
{
    if i < s.len() {
        lemma_no_prefix(s, key, i + 1);
    }
}

/// A command that is declared may be used in the scopes that it is declared for, and in
/// their subscopes; in every scope, where it is declared for none or for any. It leads to
/// the scope that it is declared to lead to, or to a value where it leads to none. One
/// that is not declared is not found.
pub proof fn law_declared_commands(sc: ScopeV, key: Seq<char>)
    requires
        is_plain_command(sc, key),
    ensures
        ({
            let reg = sc.registry;
            let k = ascii_lower(key);
            let link = reg.links[k];
            let allowed = link.valid_scopes.len() == 0 || sc.current() == ScopeId::Any || is_one_of(
                reg,
                sc.current(),
                link.valid_scopes,
            );
            if !reg.links.contains_key(k) {
                sc.command(key) == ScopeResultV::NotFound
            } else if !allowed {
                sc.command(key) == (ScopeResultV::WrongScope {
                    command: key,
                    current: sc.current(),
                    expected: link.valid_scopes,
                })
            } else {
                match link.target {
                    Some(t) => leads_to(sc, key, t),
                    None => sc.command(key) == ScopeResultV::ValueFound,
                }
            }
        }),
{
    law_split_one(key, CharSet::One('.'));
    let parts = seq![key];
    lemma_no_prefix(sc.registry.prefix_links, ascii_lower(key), 0);
    lemma_is_one_of(
        sc.registry,
        sc.current(),
        sc.registry.links[ascii_lower(key)].valid_scopes,
    );
    reveal_with_fuel(ScopeV::resolve, 3);
    assert(parts[0] == key);
}

/// The context with another current scope.
pub open spec fn moved_to(sc: ScopeV, scope: ScopeId) -> ScopeV {
    ScopeV { stack: sc.stack.update(sc.stack.len() - 1, scope), ..sc }
}

proof fn lemma_moved(sc: ScopeV, at: ScopeId, s: ScopeId, parts: Seq<Seq<char>>, i: int)
    requires
        sc.stack.len() > 0,
    ensures
        moved_to(sc, at).resolve(s, parts, i) == sc.resolve(s, parts, i),
    decreases parts.len() - i,
{
    if 0 <= i < parts.len() {
        let m = moved_to(sc, at);
        assert(m.step(s, parts[i]) == sc.step(s, parts[i])) by {
            let k = ascii_lower(parts[i]);
            match way_back(k) {
                Some(WayBack::Prev(n)) => {
                    reveal_strlit("prev");
                    assert(n >= 1);
                    assert(m.back(WayBack::Prev(n), s) == sc.back(WayBack::Prev(n), s));
                },
                _ => {},
            }
        }
        match sc.step(s, parts[i]) {
            StepV::To(t) => lemma_moved(sc, at, t, parts, i + 1),
            _ => {},
        }
    }
}

proof fn lemma_resolve_shift(
    sc: ScopeV,
    at: ScopeId,
    a: Seq<char>,
    parts: Seq<Seq<char>>,
    i: int,
)
    requires
        0 <= i <= parts.len(),
        parts.len() > 0,
    ensures
        sc.resolve(at, seq![a] + parts, i + 1) == sc.resolve(at, parts, i),
    decreases parts.len() - i,
{
    let all = seq![a] + parts;
    if i < parts.len() {
        assert(all[i + 1] == parts[i]);
        match sc.step(at, parts[i]) {
            StepV::To(t) => lemma_resolve_shift(sc, t, a, parts, i + 1),
            _ => {},
        }
    }
}

/// A chain goes on in the scope that its first part leads to; where that part leads to no
/// scope, neither does the chain.
#[verifier::rlimit(50)]
pub proof fn law_chains(sc: ScopeV, a: Seq<char>, rest: Seq<char>)
    requires
        sc.stack.len() > 0,
        is_free_of(a, CharSet::One('.')),
    ensures
        ({
            let chain = sc.command(a + seq!['.'] + rest);
            match sc.command(a) {
                ScopeResultV::NewScope { scope } => chain == moved_to(sc, scope).command(rest),
                ScopeResultV::AnyScope => chain == moved_to(sc, ScopeId::Any).command(rest),
                ScopeResultV::WrongScope { .. } => chain == sc.command(a),
                _ => chain == ScopeResultV::NotFound,
            }
        }),
{
    let set = CharSet::One('.');
    law_split_one(a, set);
    law_split_first(a, '.', rest);
    let parts = split_spec(rest, set);
    let all = seq![a] + parts;
    lemma_find_in(rest, set, 0);
    assert(parts.len() > 0);
    assert(all[0] == a);
    assert(seq![a][0] == a);
    reveal_with_fuel(ScopeV::resolve, 3);
    match sc.step(sc.current(), a) {
        StepV::To(s) => {
            lemma_resolve_shift(sc, s, a, parts, 0);
            lemma_moved(sc, s, s, parts, 0);
            assert(moved_to(sc, s).current() == s);
        },
        _ => {},
    }
}

// ---------------------------------------------------------------------------
// Scopes that rules set

/// A rule that pushes a scope puts its block in that scope, and `prev` in there leads to
/// the scope around it. `any` and `all` push a scope of which nothing is known.
pub proof fn law_pushed_scope(sc: ScopeV, push: Seq<char>)
    requires
        is_one_word(push),
        has_bare_ends(push, CharSet::BraceOrWhite),
    ensures
        ({
            let inner = named_scope(sc, push);
            let k = ascii_lower(push);
            let known = sc.registry.by_name.contains_key(k);
            &&& known ==> inner.current() == sc.registry.by_name[k]
            &&& !known && (k == "any"@ || k == "all"@) ==> inner.current() == ScopeId::Any
            &&& known || k == "any"@ || k == "all"@ ==> inner.root == sc.root && inner.from
                == sc.from && inner.stack.len() == sc.stack.len() + 1 && (sc.stack.len() > 0
                ==> nth_out(inner, 1) == sc.current())
        }),
{
    reveal_strlit("any");
    reveal_strlit("all");
    assert(ascii_lower("any"@) =~= "any"@);
    assert(ascii_lower("all"@) =~= "all"@);
    lemma_trim_bare(push, CharSet::BraceOrWhite);
    law_one_word_text(push);
}

/// What a name in a rule stands for.
pub open spec fn scope_called(reg: RegistryV, name: Seq<char>) -> ScopeId {
    if reg.by_name.contains_key(ascii_lower(name)) {
        reg.by_name[ascii_lower(name)]
    } else {
        ScopeId::Any
    }
}

proof fn lemma_named(sc: ScopeV, names: Seq<Seq<char>>, n: int)
    requires
        0 <= n <= names.len(),
    ensures
        sc.all_named(names, n).len() == n,
        forall|i: int|
            0 <= i < n ==> #[trigger] sc.all_named(names, n)[i] == scope_called(
                sc.registry,
                names[i],
            ),
        sc.all_named_back(names, n).len() == n,
        forall|i: int|
            0 <= i < n ==> #[trigger] sc.all_named_back(names, n)[i] == scope_called(
                sc.registry,
                names[n - 1 - i],
            ),
    decreases n,
{
    if n > 0 {
        lemma_named(sc, names, n - 1);
        let back = sc.all_named_back(names, n - 1);
        assert forall|i: int| 0 <= i < n implies #[trigger] sc.all_named_back(names, n)[i]
            == scope_called(sc.registry, names[n - 1 - i]) by {
            if i > 0 {
                assert(sc.all_named_back(names, n)[i] == back[i - 1]);
            }
        }
    }
}

/// A rule that replaces scopes puts each where its name says: `this` becomes the current
/// scope, `root` the root, the `n`th `from` the `n`th caller, the `n`th `prev` the scope
/// `n` steps out. What is not named stays.
pub proof fn law_replaced_scopes(sc: ScopeV, r: ReplaceScopesV, n: int)
    requires
        sc.stack.len() > 0,
    ensures
        ({
            let inner = sc.replaced(r);
            &&& r.this matches Some(name) ==> inner.current() == scope_called(sc.registry, name)
            &&& r.this is None ==> inner.current() == sc.current()
            &&& r.root matches Some(name) ==> inner.root == scope_called(sc.registry, name)
            &&& r.root is None ==> inner.root == sc.root
            &&& 0 < n <= r.froms.len() ==> nth_caller(inner, n) == scope_called(
                sc.registry,
                r.froms[n - 1],
            )
            &&& r.froms.len() == 0 ==> inner.from == sc.from
            &&& 0 < n <= r.prevs.len() ==> nth_out(inner, n) == scope_called(
                sc.registry,
                r.prevs[n - 1],
            )
            &&& r.this is None && r.prevs.len() == 0 ==> inner.stack == sc.stack
            &&& inner.registry == sc.registry
        }),
{
    lemma_named(sc, r.froms, r.froms.len() as int);
    lemma_named(sc, r.prevs, r.prevs.len() as int);
}

/// Where scopes are replaced, they are only replaced for a game whose scopes are checked.
pub proof fn law_replaced_for_games(sc: ScopeV, r: ReplaceScopesV, game: Game)
    ensures
        with_replaced(sc, Some(r), Some(game)) == sc.replaced(r),
        with_replaced(sc, Some(r), None) == sc,
        with_replaced(sc, None, Some(game)) == sc,
{
}

/// The scope of an instance is what its subtype pushes; else what the rule of its type
/// pushes; else what that rule replaces; else where its key leads.
pub proof fn law_scope_of_instances(
    sc: ScopeV,
    type_: Seq<char>,
    subtype_push: Option<Seq<char>>,
    key: Seq<char>,
    rs: RuleSetV,
    game: Option<Game>,
)
    ensures
        ({
            let inner = root_scope(sc, type_, subtype_push, Some(key), rs, game);
            let o = rule_options(rs, type_);
            &&& subtype_push matches Some(p) ==> inner == named_scope(sc, p)
            &&& subtype_push is None && o is Some && o->0.push_scope is Some ==> inner
                == named_scope(sc, o->0.push_scope->0)
            &&& subtype_push is None && o is Some && o->0.push_scope is None
                && o->0.replace_scopes is Some && game is Some ==> inner == sc.replaced(
                o->0.replace_scopes->0,
            )
            &&& subtype_push is None && o is None ==> ({
                ||| inner == sc.after(key)
                ||| inner == sc.after(key).pushed(ScopeId::Any)
            })
        }),
{
}

/// The scope of a block under a rule: what the rule pushes, unless the key refers to the
/// game's data; then what the rule replaces.
pub proof fn law_scope_of_blocks(
    sc: ScopeV,
    key: Seq<char>,
    o: OptionsV,
    game: Game,
    numeric: bool,
)
    requires
        !key.contains(':'),
    ensures
        o.push_scope is Some && o.replace_scopes is None ==> block_scope(
            sc,
            key,
            o,
            Some(game),
            numeric,
        ) == named_scope(sc, o.push_scope->0),
        o.push_scope is Some && o.replace_scopes is Some ==> block_scope(
            sc,
            key,
            o,
            Some(game),
            numeric,
        ) == named_scope(sc, o.push_scope->0).replaced(o.replace_scopes->0),
        o.push_scope is None && o.replace_scopes is None && sc.command(key) is NewScope
            ==> block_scope(sc, key, o, Some(game), numeric).current() == sc.command(key)->scope,
        o.push_scope is None && o.replace_scopes is None && sc.command(key) is NotFound
            && !is_data_ref(key) ==> block_scope(sc, key, o, Some(game), numeric) == sc,
        o.push_scope is None && o.replace_scopes is None && sc.command(key) is NotFound
            && is_data_ref(key) && !all_digits(key) ==> block_scope(
            sc,
            key,
            o,
            Some(game),
            numeric,
        ).current() == ScopeId::Any,
{
}

/// A file starts in the scope of a country, or in one of which nothing is known where its
/// content may run in any.
#[verifier::rlimit(50)]
pub proof fn law_first_scope(path: Seq<char>, reg: RegistryV)
    requires
        reg.by_name.contains_key("country"@),
    ensures
        ({
            let s = initial_scope(path, reg);
            let p = "/"@ + ascii_lower(replace_char_spec(path, '\\', '/')) + "/"@;
            let anywhere = contains_text(p, "/scripted_effects/"@) || contains_text(
                p,
                "/scripted_triggers/"@,
            ) || contains_text(p, "/scripted_localisation/"@) || contains_text(
                p,
                "/collections/"@,
            ) || contains_text(p, "/dynamic_modifiers/"@);
            let first = if anywhere {
                ScopeId::Any
            } else {
                reg.by_name["country"@]
            };
            &&& s.current() == first
            &&& s.root == first
            &&& s.from.len() == 0
            &&& nth_out(s, 1) == ScopeId::Any
            &&& s.registry == reg
        }),
{
    reveal_strlit("country");
    assert(ascii_lower("country"@) =~= "country"@);
    reveal_strlit("/");
    reveal_strlit("scripted_effects");
    reveal_strlit("scripted_triggers");
    reveal_strlit("scripted_localisation");
    reveal_strlit("collections");
    reveal_strlit("dynamic_modifiers");
    reveal_strlit("/scripted_effects/");
    reveal_strlit("/scripted_triggers/");
    reveal_strlit("/scripted_localisation/");
    reveal_strlit("/collections/");
    reveal_strlit("/dynamic_modifiers/");
    assert("/"@ + "scripted_effects"@ + "/"@ =~= "/scripted_effects/"@);
    assert("/"@ + "scripted_triggers"@ + "/"@ =~= "/scripted_triggers/"@);
    assert("/"@ + "scripted_localisation"@ + "/"@ =~= "/scripted_localisation/"@);
    assert("/"@ + "collections"@ + "/"@ =~= "/collections/"@);
    assert("/"@ + "dynamic_modifiers"@ + "/"@ =~= "/dynamic_modifiers/"@);
}

// ---------------------------------------------------------------------------
// More on scopes

/// A list of scopes that a rule pushes puts its block in the first of them.
pub proof fn law_first_of_pushed_scopes(sc: ScopeV, names: Seq<Seq<char>>)
    requires
        names.len() > 0,
        forall|i: int| 0 <= i < names.len() ==> is_name(#[trigger] names[i]),
        sc.registry.by_name.contains_key(ascii_lower(names[0])),
    ensures
        named_scope(sc, braced(names)).current() == sc.registry.by_name[ascii_lower(names[0])],
{
    lemma_first_name(names);
}

proof fn lemma_first_name(names: Seq<Seq<char>>)
    requires
        names.len() > 0,
        forall|i: int| 0 <= i < names.len() ==> is_name(#[trigger] names[i]),
    ensures
        first_name(braced(names)) == names[0],
{
    let n = names.len() as int;
    let none = Seq::<char>::empty();
    let t = names_text(names, n);
    let last = names[n - 1];
    let core = names_text(names, n - 1) + last;
    lemma_name(last);
    lemma_name(names[0]);
    lemma_text_starts(names, n);
    assert(t =~= core + seq![' ']);
    assert(core[0] == t[0]);
    assert(core.last() == last.last());
    let b = braced(names);
    assert(b =~= seq!['{', ' '] + core + seq![' ', '}']);
    law_trim(seq!['{', ' '], core, seq![' ', '}'], CharSet::BraceOrWhite);
    lemma_names_words(names, n - 1, last);
    law_one_word_text(last);
    assert(words(core) == names.take(n - 1) + seq![last]);
    assert(names.take(n - 1) + seq![last] =~= names);
}

proof fn lemma_text_starts(names: Seq<Seq<char>>, n: int)
    requires
        0 < n <= names.len(),
        is_name(names[0]),
    ensures
        names_text(names, n).len() > 0,
        names_text(names, n)[0] == names[0][0],
    decreases n,
{
    if n > 1 {
        lemma_text_starts(names, n - 1);
    } else {
        assert(names_text(names, 0) + names[0] + seq![' '] =~= names[0] + seq![' ']);
    }
}

/// A chain with a part that is no command is reported, as `CW248`, where scopes are checked
/// and it does not refer to the game's data.
pub proof fn law_broken_chains(ctx: CtxV, key: Seq<char>, pos: SourcePos, s: ScopeV)
    ensures
        ({
            let e = chain_problems(ctx, key, pos, Some(s));
            let wrong = ctx.scope_checks && key.contains('.') && !is_data_ref(key) && s.command(key)
                == ScopeResultV::NotFound;
            &&& wrong ==> is_one(e, "CW248"@, ctx.file, pos)
            &&& !wrong ==> e.len() == 0
        }),
        chain_problems(ctx, key, pos, None).len() == 0,
{
}

/// A reference to the game's data has a colon in it, or is a number, or has a capital.
pub proof fn law_data_references(key: Seq<char>, k: int)
    requires
        0 <= k < key.len(),
    ensures
        key[k] == ':' ==> is_data_ref(key),
        'A' <= key[k] <= 'Z' ==> is_data_ref(key),
        all_digits(key) ==> is_data_ref(key),
        (forall|i: int|
            0 <= i < key.len() ==> ('a' <= (#[trigger] key[i]) && key[i] <= 'z') || key[i] == '_')
            ==> !is_data_ref(key),
{
    if key[k] == ':' {
        assert(key.contains(':'));
    }
    if 'A' <= key[k] <= 'Z' {
        assert(is_upper(key[k]));
    }
    if forall|i: int|
        0 <= i < key.len() ==> ('a' <= (#[trigger] key[i]) && key[i] <= 'z') || key[i] == '_' {
        assert(!is_digit(key[k]));
        if key.contains(':') {
            let i = choose|i: int| 0 <= i < key.len() && key[i] == ':';
            assert(('a' <= key[i] && key[i] <= 'z') || key[i] == '_');
        }
        if has_upper(key) {
            let i = choose|i: int| 0 <= i < key.len() && is_upper(#[trigger] key[i]);
            assert(('a' <= key[i] && key[i] <= 'z') || key[i] == '_');
        }
    }
}

proof fn lemma_numbered(inputs: Seq<ScopeInputV>, n: int)
    requires
        0 <= n <= inputs.len(),
    ensures
        ({
            let d = declared(inputs, n);
            &&& d.next == FIRST_SCOPE + d.scopes.len()
            &&& d.scopes.len() <= n
            &&& FIRST_SCOPE + n <= u32::MAX ==> forall|i: int|
                0 <= i < d.scopes.len() ==> (#[trigger] d.scopes[i]).id == ScopeId::Id(
                    (FIRST_SCOPE + i) as u32,
                )
        }),
    decreases n,
{
    if n > 0 {
        lemma_numbered(inputs, n - 1);
    }
}

/// Two scopes that are declared are never the same scope.
pub proof fn law_scopes_are_distinct(inputs: Seq<ScopeInputV>, i: int, j: int)
    requires
        FIRST_SCOPE + inputs.len() <= u32::MAX,
        0 <= i < j < declared(inputs, inputs.len() as int).scopes.len(),
    ensures
        ({
            let s = declared(inputs, inputs.len() as int).scopes;
            &&& s[i].id != s[j].id
            &&& s[i].id != ScopeId::Any && s[i].id != ScopeId::Invalid
        }),
{
    lemma_numbered(inputs, inputs.len() as int);
}

/// The subscopes that a declaration names are those that its scope counts as.
pub proof fn law_parents(reg: RegistryV, inputs: Seq<ScopeInputV>, n: int, k: int)
    requires
        0 < n <= inputs.len(),
        0 <= k < with_all_parents(reg, inputs, n - 1).len(),
        reg.by_name.contains_key(ascii_lower(inputs[n - 1].name)),
    ensures
        ({
            let before = with_all_parents(reg, inputs, n - 1);
            let now = with_all_parents(reg, inputs, n);
            let names = inputs[n - 1].is_subscope_of;
            &&& before[k].id == reg.by_name[ascii_lower(inputs[n - 1].name)] ==> now[k].subscope_of
                == ids_of(reg, names, names.len() as int)
            &&& before[k].id != reg.by_name[ascii_lower(inputs[n - 1].name)] ==> now[k] == before[k]
        }),
{
}

/// The name of a scope is the one that it is declared under.
pub proof fn law_names_in_messages(reg: RegistryV, k: int)
    requires
        0 <= k < reg.scopes.len(),
        reg.scopes[k].id is Id,
        forall|m: int| 0 <= m < k ==> (#[trigger] reg.scopes[m]).id != reg.scopes[k].id,
    ensures
        reg.name_of(reg.scopes[k].id) == reg.scopes[k].name,
        reg.name_of(ScopeId::Any) == "any"@,
{
    lemma_scope_def(reg.scopes, reg.scopes[k].id, 0);
    let id = reg.scopes[k].id;
    match scope_def(reg.scopes, id, 0) {
        Some(d) => {
            let j = choose|j: int|
                0 <= j < reg.scopes.len() && #[trigger] reg.scopes[j] == d && d.id == id && forall|
                    m: int,
                |
                    0 <= m < j ==> (#[trigger] reg.scopes[m]).id != id;
            if j < k {
                assert(reg.scopes[j].id != id);
            }
            if k < j {
                assert(reg.scopes[k].id != id);
            }
        },
        None => {
            assert(reg.scopes[k].id != id);
        },
    }
}

/// A number opens a scope of the game's data only where numbers do; a key with a colon
/// always does, whatever its rule pushes.
pub proof fn law_data_in_keys(sc: ScopeV, key: Seq<char>, o: OptionsV, game: Option<Game>)
    requires
        o.replace_scopes is None,
        sc.command(key) is NotFound,
        key.len() > 0,
    ensures
        key.contains(':') ==> block_scope(sc, key, o, game, false).current() == ScopeId::Any
            && block_scope(sc, key, o, game, true).current() == ScopeId::Any,
        !key.contains(':') && all_digits(key) && o.push_scope is None ==> block_scope(
            sc,
            key,
            o,
            game,
            true,
        ).current() == ScopeId::Any && block_scope(sc, key, o, game, false) == sc,
{
}

/// The key of an instance whose type says nothing of scopes leads where a command leads; to
/// a scope of which nothing is known where it refers to the game's data; else nowhere.
pub proof fn law_keys_of_instances(
    sc: ScopeV,
    type_: Seq<char>,
    key: Seq<char>,
    rs: RuleSetV,
    game: Option<Game>,
)
    requires
        rule_options(rs, type_) is None,
    ensures
        ({
            let inner = root_scope(sc, type_, None, Some(key), rs, game);
            &&& sc.command(key) is NewScope ==> inner.current() == sc.command(key)->scope
            &&& sc.command(key) is NotFound && is_data_ref(key) ==> inner.current() == ScopeId::Any
            &&& sc.command(key) is NotFound && !is_data_ref(key) ==> inner == sc
        }),
{
}

/// A value that refers to the game's data, an empty one, and one where a name is asked for
/// that is no scope, are no targets.
pub proof fn law_no_targets(
    sc: ScopeV,
    value: Seq<char>,
    expected: Seq<Seq<char>>,
    pos: SourcePos,
    file: Seq<char>,
    i: int,
)
    ensures
        value.len() == 0 || is_data_ref(value) ==> target_problem(
            sc,
            value,
            expected,
            pos,
            file,
        ).len() == 0,
        0 <= i < expected.len() && ascii_lower(expected[i]) != "any"@ && ascii_lower(expected[i])
            != "all"@ && !sc.registry.by_name.contains_key(ascii_lower(expected[i]))
            ==> target_problem(sc, value, expected, pos, file).len() == 0,
{
    reveal_strlit("any");
    reveal_strlit("all");
    assert(ascii_lower("any"@) =~= "any"@);
    assert(ascii_lower("all"@) =~= "all"@);
    if 0 <= i < expected.len() && ascii_lower(expected[i]) != "any"@ && ascii_lower(expected[i])
        != "all"@ && !sc.registry.by_name.contains_key(ascii_lower(expected[i])) {
        assert(!one_of_ci(expected[i], "any"@, "all"@) && sc.registry.id_of(expected[i]) is None);
        assert(!all_scopes(sc.registry, expected));
    }
}

/// A target is checked where scopes are followed and checked, and only there; and what it
/// is held to is what its field asks for.
pub proof fn law_targets_in_fields(
    ctx: CtxV,
    l: Leaf,
    expected: Seq<Seq<char>>,
    s: ScopeV,
    loop_vars: Seq<Seq<char>>,
)
    requires
        l.value is String,
        value_text(l.value).len() > 0,
    ensures
        ({
            let right = FieldV::ScopeField(expected);
            &&& ctx.scope_checks ==> leaf_problems(ctx, l, right, Some(s), loop_vars)
                == target_problem(s, value_text(l.value), expected, l.pos.start, ctx.file)
            &&& leaf_problems(ctx, l, right, None, loop_vars).len() == 0
            &&& !ctx.scope_checks ==> leaf_problems(ctx, l, right, Some(s), loop_vars).len() == 0
        }),
{
    let e = target_problem(s, value_text(l.value), expected, l.pos.start, ctx.file);
    assert(e + Seq::<ErrorV>::empty() =~= e);
}

/// A key leads to a scope where it is a way back, the name of a scope, or a command that is
/// declared, in whatever case.
pub proof fn law_words_for_scopes(reg: RegistryV, key: Seq<char>)
    ensures
        ascii_lower(key) == "root"@ || ascii_lower(key) == "this"@ || ascii_lower(key) == "prev"@
            || ascii_lower(key) == "from"@ ==> is_scope_word(reg, key),
        reg.by_name.contains_key(ascii_lower(key)) ==> is_scope_word(reg, key),
        reg.links.contains_key(ascii_lower(key)) ==> is_scope_word(reg, key),
        !reg.by_name.contains_key(ascii_lower(key)) && !reg.links.contains_key(ascii_lower(key))
            && way_back(ascii_lower(key)) is None ==> !is_scope_word(reg, key),
{
    law_lower_twice(key);
    reveal_strlit("root");
    reveal_strlit("this");
    reveal_strlit("prev");
    reveal_strlit("from");
}

} // verus!
