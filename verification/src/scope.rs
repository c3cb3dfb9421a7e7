//! Scopes as a configuration declares them, and the scope that each block of a
//! script is in.

use std::sync::Arc;
use vstd::prelude::*;

use crate::ast::SourcePos;
use crate::common::{is_data_ref, looks_like_data_ref, one_of_ci, only_digits};
use crate::diagnostic::{ErrorV, ValidationError, add_one, coded, report2, report3};
use crate::error_codes::{
    cw243, cw243_target_wrong_scope, cw244, cw244_invalid_target, cw245, cw245_error_in_target,
};
use crate::name_map::NameMap;
use crate::resolve::{find_type_rule_opts, opt_str, rule_options};
use crate::rules_types::{
    LinkInput, LinkInputV, Options, OptionsV, ReplaceScopes, ReplaceScopesV, ScopeInput,
    ScopeInputV, TypeDefinition, lemma_views_push, views,
};
use crate::ruleset::{RuleSet, RuleSetV};
use crate::scope_engine::{
    RegistryV, ScopeContext, ScopeDefOwned, ScopeDefV, ScopeId, ScopeLink, ScopeLinkV,
    ScopeRegistry, ScopeResult, ScopeResultV, ScopeV, copy_scopes, prefixes_view, read_way_back,
    way_back,
};
use crate::text::{
    CharSet, all_digits, ascii_lower, clone_list, contains_char, contains_ci, eq_ci, is_word_char,
    join, join_spec, list_contains_ci, same_ci, split_whitespace, texts, to_ascii_lower, to_chars,
    trim_matches, trim_of, words,
};
use crate::type_index::Game;

verus! {

// ---------------------------------------------------------------------------
// The registry of a configuration

/// The number of the first declared scope.
pub const FIRST_SCOPE: u32 = 100;

/// The scope or one of its aliases has that name, whatever its case.
pub open spec fn is_called(si: ScopeInputV, name: Seq<char>) -> bool {
    eq_ci(si.name, name) || contains_ci(si.aliases, name)
}

/// The declarations so far: the scope under each name, the scopes, and the number of
/// the next one.
#[verifier::ext_equal]
pub struct DeclaredV {
    pub by_name: Map<Seq<char>, ScopeId>,
    pub scopes: Seq<ScopeDefV>,
    pub next: int,
}

/// What a declaration is numbered as.
pub open spec fn declared_id(si: ScopeInputV, next: int) -> ScopeId {
    if is_called(si, "invalid"@) {
        ScopeId::Invalid
    } else if is_called(si, "any"@) || is_called(si, "all"@) {
        ScopeId::Any
    } else {
        ScopeId::Id(next as u32)
    }
}

/// The map with the scope under the first `n` names too, in lower case.
pub open spec fn under_names(
    m: Map<Seq<char>, ScopeId>,
    names: Seq<Seq<char>>,
    n: int,
    id: ScopeId,
) -> Map<Seq<char>, ScopeId>
    decreases n,
{
    if n <= 0 || n > names.len() {
        m
    } else {
        under_names(m, names, n - 1, id).insert(ascii_lower(names[n - 1]), id)
    }
}

/// The first `n` declarations. The scopes `any` and `invalid` are no scopes of
/// their own.
pub open spec fn declared(inputs: Seq<ScopeInputV>, n: int) -> DeclaredV
    decreases n,
{
    if n <= 0 || n > inputs.len() {
        DeclaredV { by_name: Map::empty(), scopes: Seq::empty(), next: FIRST_SCOPE as int }
    } else {
        let d = declared(inputs, n - 1);
        let si = inputs[n - 1];
        let id = declared_id(si, d.next);
        let by_name = under_names(
            d.by_name.insert(ascii_lower(si.name), id),
            si.aliases,
            si.aliases.len() as int,
            id,
        );
        if id is Id {
            DeclaredV {
                by_name,
                scopes: d.scopes.push(
                    ScopeDefV {
                        id,
                        name: si.name,
                        aliases: si.aliases,
                        subscope_of: Seq::empty(),
                    },
                ),
                next: d.next + 1,
            }
        } else {
            DeclaredV { by_name, scopes: d.scopes, next: d.next }
        }
    }
}

/// The scopes of those of the first `n` names that are names of scopes.
pub open spec fn ids_of(reg: RegistryV, names: Seq<Seq<char>>, n: int) -> Seq<ScopeId>
    decreases n,
{
    if n <= 0 || n > names.len() {
        Seq::empty()
    } else {
        match reg.id_of(names[n - 1]) {
            Some(id) => ids_of(reg, names, n - 1).push(id),
            None => ids_of(reg, names, n - 1),
        }
    }
}

/// The scopes, with what the scope `id` counts as.
pub open spec fn with_parents(s: Seq<ScopeDefV>, id: ScopeId, parents: Seq<ScopeId>) -> Seq<
    ScopeDefV,
> {
    Seq::new(
        s.len(),
        |i: int|
            if s[i].id == id {
                ScopeDefV { subscope_of: parents, ..s[i] }
            } else {
                s[i]
            },
    )
}

/// The scopes, with what the first `n` declarations say that they count as.
pub open spec fn with_all_parents(reg: RegistryV, inputs: Seq<ScopeInputV>, n: int) -> Seq<
    ScopeDefV,
>
    decreases n,
{
    if n <= 0 || n > inputs.len() {
        reg.scopes
    } else {
        let s = with_all_parents(reg, inputs, n - 1);
        let si = inputs[n - 1];
        match reg.id_of(si.name) {
            Some(id) => with_parents(
                s,
                id,
                ids_of(reg, si.is_subscope_of, si.is_subscope_of.len() as int),
            ),
            None => s,
        }
    }
}

/// The command that a link declares.
pub open spec fn command_of(reg: RegistryV, li: LinkInputV) -> ScopeLinkV {
    let target = match li.output_scope {
        Some(n) => reg.id_of(n),
        None => None,
    };
    ScopeLinkV {
        valid_scopes: ids_of(reg, li.input_scopes, li.input_scopes.len() as int),
        target,
        is_scope_change: target is Some,
    }
}

/// The registry with the first `n` links.
pub open spec fn with_link_inputs(reg: RegistryV, links: Seq<LinkInputV>, n: int) -> RegistryV
    decreases n,
{
    if n <= 0 || n > links.len() {
        reg
    } else {
        let r = with_link_inputs(reg, links, n - 1);
        let li = links[n - 1];
        match li.prefix {
            Some(p) => RegistryV {
                prefix_links: r.prefix_links.push((ascii_lower(p), command_of(reg, li))),
                ..r
            },
            None => RegistryV {
                links: r.links.insert(ascii_lower(li.name), command_of(reg, li)),
                ..r
            },
        }
    }
}

/// The words in front of the name of a scope in a command that runs over scopes.
pub open spec fn iterator_word(i: int) -> Seq<char> {
    if i == 0 {
        "every_"@
    } else if i == 1 {
        "random_"@
    } else if i == 2 {
        "any_"@
    } else {
        "all_"@
    }
}

/// The command that leads to scopes of a kind from anywhere.
pub open spec fn iterator_link(id: ScopeId) -> ScopeLinkV {
    ScopeLinkV { valid_scopes: Seq::empty(), target: Some(id), is_scope_change: true }
}

/// The commands with the first `n` that run over the scopes of that name, where
/// nothing else has their name.
pub open spec fn with_words(
    m: Map<Seq<char>, ScopeLinkV>,
    alias: Seq<char>,
    id: ScopeId,
    n: int,
) -> Map<Seq<char>, ScopeLinkV>
    decreases n,
{
    if n <= 0 {
        m
    } else {
        let before = with_words(m, alias, id, n - 1);
        let name = iterator_word(n - 1) + ascii_lower(alias);
        if before.contains_key(name) {
            before
        } else {
            before.insert(name, iterator_link(id))
        }
    }
}

/// The text has ASCII letters, digits and underscores only.
pub open spec fn is_word(s: Seq<char>) -> bool {
    forall|i: int| 0 <= i < s.len() ==> is_word_char(#[trigger] s[i])
}

/// The commands with those that run over scopes by the first `n` names of a scope.
pub open spec fn with_alias_words(
    m: Map<Seq<char>, ScopeLinkV>,
    aliases: Seq<Seq<char>>,
    id: ScopeId,
    n: int,
) -> Map<Seq<char>, ScopeLinkV>
    decreases n,
{
    if n <= 0 || n > aliases.len() {
        m
    } else {
        let before = with_alias_words(m, aliases, id, n - 1);
        if is_word(aliases[n - 1]) {
            with_words(before, aliases[n - 1], id, 4)
        } else {
            before
        }
    }
}

/// The commands with those that run over the first `n` scopes.
pub open spec fn with_iterators(
    m: Map<Seq<char>, ScopeLinkV>,
    scopes: Seq<ScopeDefV>,
    n: int,
) -> Map<Seq<char>, ScopeLinkV>
    decreases n,
{
    if n <= 0 || n > scopes.len() {
        m
    } else {
        with_alias_words(
            with_iterators(m, scopes, n - 1),
            scopes[n - 1].aliases,
            scopes[n - 1].id,
            scopes[n - 1].aliases.len() as int,
        )
    }
}

/// The registry of a configuration that declares scopes.
pub open spec fn registry_of(inputs: Seq<ScopeInputV>, links: Seq<LinkInputV>) -> RegistryV {
    let d = declared(inputs, inputs.len() as int);
    let named = RegistryV {
        by_name: d.by_name,
        scopes: d.scopes,
        links: Map::empty(),
        prefix_links: Seq::empty(),
    };
    let related = RegistryV {
        scopes: with_all_parents(named, inputs, inputs.len() as int),
        ..named
    };
    let linked = with_link_inputs(related, links, links.len() as int);
    RegistryV {
        links: with_iterators(linked.links, linked.scopes, linked.scopes.len() as int),
        ..linked
    }
}

fn called(si: &ScopeInput, name: &str) -> (r: bool)
    ensures
        r == is_called(si@, name@),
{
    same_ci(si.name.as_str(), name) || list_contains_ci(&si.aliases, name)
}

fn put_under_names(m: &mut NameMap<ScopeId>, names: &Vec<String>, id: ScopeId)
    ensures
        final(m)@ == under_names(old(m)@, texts(names@), names@.len() as int, id),
{
    let ghost start = m@;
    let mut i: usize = 0;
    while i < names.len()
        invariant
            i <= names@.len(),
            m@ == under_names(start, texts(names@), i as int, id),
        decreases names@.len() - i,
    {
        assert(texts(names@)[i as int] == names@[i as int]@);
        m.insert(to_ascii_lower(names[i].as_str()), id);
        i += 1;
    }
}

/// Numbers and names the declared scopes.
fn declare_scopes(inputs: &Vec<ScopeInput>) -> (r: ScopeRegistry)
    requires
        inputs@.len() <= u32::MAX - FIRST_SCOPE,
    ensures
        r@ == (RegistryV {
            by_name: declared(views(inputs@), inputs@.len() as int).by_name,
            scopes: declared(views(inputs@), inputs@.len() as int).scopes,
            links: Map::empty(),
            prefix_links: Seq::empty(),
        }),
{
    let mut reg = ScopeRegistry::new();
    let mut next: u32 = FIRST_SCOPE;
    let ghost all = views(inputs@);
    let mut i: usize = 0;
    while i < inputs.len()
        invariant
            i <= inputs@.len() <= u32::MAX - FIRST_SCOPE,
            all == views(inputs@),
            FIRST_SCOPE <= next <= FIRST_SCOPE + i,
            reg@ == (RegistryV {
                by_name: declared(all, i as int).by_name,
                scopes: declared(all, i as int).scopes,
                links: Map::empty(),
                prefix_links: Seq::empty(),
            }),
            next == declared(all, i as int).next,
        decreases inputs@.len() - i,
    {
        let si = &inputs[i];
        assert(all[i as int] == si@);
        let id = if called(si, "invalid") {
            ScopeId::Invalid
        } else if called(si, "any") || called(si, "all") {
            ScopeId::Any
        } else {
            ScopeId::Id(next)
        };
        reg.by_name.insert(to_ascii_lower(si.name.as_str()), id);
        put_under_names(&mut reg.by_name, &si.aliases, id);
        match id {
            ScopeId::Id(_) => {
                let ghost before = reg.scopes@;
                let def = ScopeDefOwned {
                    id,
                    name: si.name.clone(),
                    aliases: clone_list(&si.aliases),
                    subscope_of: Vec::new(),
                };
                reg.scopes.push(def);
                proof {
                    lemma_views_push(before, def);
                    assert(def@.subscope_of =~= Seq::empty());
                }
                next += 1;
            },
            _ => {},
        }
        i += 1;
    }
    reg
}

fn find_ids(reg: &ScopeRegistry, names: &Vec<String>) -> (r: Vec<ScopeId>)
    ensures
        r@ == ids_of(reg@, texts(names@), names@.len() as int),
{
    let mut out: Vec<ScopeId> = Vec::new();
    let mut i: usize = 0;
    while i < names.len()
        invariant
            i <= names@.len(),
            out@ == ids_of(reg@, texts(names@), i as int),
        decreases names@.len() - i,
    {
        assert(texts(names@)[i as int] == names@[i as int]@);
        match reg.id_of(names[i].as_str()) {
            Some(id) => {
                out.push(id);
            },
            None => {},
        }
        i += 1;
    }
    out
}

/// The scopes, with what the scope `id` counts as.
fn set_parents(scopes: Vec<ScopeDefOwned>, id: ScopeId, parents: &Vec<ScopeId>) -> (r: Vec<
    ScopeDefOwned,
>)
    ensures
        views(r@) == with_parents(views(scopes@), id, parents@),
{
    let mut out: Vec<ScopeDefOwned> = Vec::new();
    let ghost all = views(scopes@);
    let mut i: usize = 0;
    assert(views(out@) =~= with_parents(all, id, parents@).subrange(0, 0));
    while i < scopes.len()
        invariant
            i <= scopes@.len(),
            all == views(scopes@),
            views(out@) == with_parents(all, id, parents@).subrange(0, i as int),
        decreases scopes@.len() - i,
    {
        assert(all[i as int] == scopes@[i as int]@);
        let d = &scopes[i];
        let subscope_of = if d.id == id {
            copy_scopes(parents)
        } else {
            copy_scopes(&d.subscope_of)
        };
        let def = ScopeDefOwned {
            id: d.id,
            name: d.name.clone(),
            aliases: clone_list(&d.aliases),
            subscope_of,
        };
        let ghost before = out@;
        out.push(def);
        proof {
            lemma_views_push(before, def);
            let w = with_parents(all, id, parents@);
            assert(w[i as int] =~= def@);
            assert(w.subrange(0, i as int).push(w[i as int]) =~= w.subrange(0, i + 1));
        }
        i += 1;
    }
    assert(with_parents(all, id, parents@).subrange(0, i as int) =~= with_parents(
        all,
        id,
        parents@,
    ));
    out
}

fn relate_scopes(reg: ScopeRegistry, inputs: &Vec<ScopeInput>) -> (r: ScopeRegistry)
    ensures
        r@ == (RegistryV {
            scopes: with_all_parents(reg@, views(inputs@), inputs@.len() as int),
            ..reg@
        }),
{
    let ghost all = views(inputs@);
    let ghost start = reg@;
    let mut reg = reg;
    let mut i: usize = 0;
    while i < inputs.len()
        invariant
            i <= inputs@.len(),
            all == views(inputs@),
            reg@ == (RegistryV { scopes: with_all_parents(start, all, i as int), ..start }),
        decreases inputs@.len() - i,
    {
        let si = &inputs[i];
        assert(all[i as int] == si@);
        let parents = find_ids(&reg, &si.is_subscope_of);
        proof {
            lemma_ids_of(reg@, start, si@.is_subscope_of, si@.is_subscope_of.len() as int);
        }
        match reg.id_of(si.name.as_str()) {
            Some(id) => {
                let mut scopes: Vec<ScopeDefOwned> = Vec::new();
                std::mem::swap(&mut reg.scopes, &mut scopes);
                reg.scopes = set_parents(scopes, id, &parents);
            },
            None => {},
        }
        i += 1;
    }
    reg
}

/// Only the names decide which scopes a list of names stands for.
proof fn lemma_ids_of(a: RegistryV, b: RegistryV, names: Seq<Seq<char>>, n: int)
    requires
        a.by_name == b.by_name,
    ensures
        ids_of(a, names, n) == ids_of(b, names, n),
    decreases n,
{
    if 0 < n <= names.len() {
        lemma_ids_of(a, b, names, n - 1);
    }
}

fn add_links(reg: ScopeRegistry, links: &Vec<LinkInput>) -> (r: ScopeRegistry)
    ensures
        r@ == with_link_inputs(reg@, views(links@), links@.len() as int),
{
    let ghost all = views(links@);
    let ghost start = reg@;
    let mut reg = reg;
    let mut i: usize = 0;
    while i < links.len()
        invariant
            i <= links@.len(),
            all == views(links@),
            reg@ == with_link_inputs(start, all, i as int),
            reg@.by_name == start.by_name,
        decreases links@.len() - i,
    {
        let li = &links[i];
        assert(all[i as int] == li@);
        let target = match &li.output_scope {
            Some(n) => reg.id_of(n.as_str()),
            None => None,
        };
        let valid_scopes = find_ids(&reg, &li.input_scopes);
        proof {
            lemma_ids_of(reg@, start, li@.input_scopes, li@.input_scopes.len() as int);
        }
        let link = ScopeLink { valid_scopes, target, is_scope_change: target.is_some() };
        assert(link@ =~= command_of(start, li@));
        match &li.prefix {
            Some(p) => {
                let ghost before = reg.prefix_links@;
                reg.prefix_links.push((to_ascii_lower(p.as_str()), link));
                assert(prefixes_view(reg.prefix_links@) =~= prefixes_view(before).push(
                    (ascii_lower(p@), link@),
                ));
            },
            None => {
                reg.links.insert(to_ascii_lower(li.name.as_str()), link);
            },
        }
        assert(reg@ =~= with_link_inputs(start, all, i + 1));
        i += 1;
    }
    reg
}

fn add_word(m: &mut NameMap<ScopeLink>, word: &str, alias: &str, id: ScopeId)
    ensures
        final(m)@ == ({
            let name = word@ + ascii_lower(alias@);
            if old(m)@.contains_key(name) {
                old(m)@
            } else {
                old(m)@.insert(name, iterator_link(id))
            }
        }),
{
    let mut name = word.to_owned();
    let lower = to_ascii_lower(alias);
    name.append(lower.as_str());
    if !m.contains(name.as_str()) {
        let link = ScopeLink { valid_scopes: Vec::new(), target: Some(id), is_scope_change: true };
        assert(link@.valid_scopes =~= Seq::empty());
        m.insert(name, link);
    }
}

#[verifier::loop_isolation(false)]
fn only_word_chars(s: &str) -> (r: bool)
    ensures
        r == is_word(s@),
{
    let cs = to_chars(s);
    let mut i: usize = 0;
    while i < cs.len()
        invariant
            i <= cs@.len(),
            forall|j: int| 0 <= j < i ==> is_word_char(#[trigger] cs@[j]),
        decreases cs@.len() - i,
    {
        let c = cs[i];
        if !(('0' <= c && c <= '9') || ('a' <= c && c <= 'z') || ('A' <= c && c <= 'Z') || c
            == '_') {
            return false;
        }
        i += 1;
    }
    true
}

fn add_alias_words(m: &mut NameMap<ScopeLink>, aliases: &Vec<String>, id: ScopeId)
    ensures
        final(m)@ == with_alias_words(old(m)@, texts(aliases@), id, aliases@.len() as int),
{
    let ghost start = m@;
    let mut i: usize = 0;
    while i < aliases.len()
        invariant
            i <= aliases@.len(),
            m@ == with_alias_words(start, texts(aliases@), id, i as int),
        decreases aliases@.len() - i,
    {
        assert(texts(aliases@)[i as int] == aliases@[i as int]@);
        let alias = aliases[i].as_str();
        if only_word_chars(alias) {
            proof {
                reveal_with_fuel(with_words, 5);
            }
            add_word(m, "every_", alias, id);
            add_word(m, "random_", alias, id);
            add_word(m, "any_", alias, id);
            add_word(m, "all_", alias, id);
        }
        i += 1;
    }
}

fn add_iterators(reg: ScopeRegistry) -> (r: ScopeRegistry)
    ensures
        r@ == (RegistryV {
            links: with_iterators(reg@.links, reg@.scopes, reg@.scopes.len() as int),
            ..reg@
        }),
{
    let ghost start = reg@;
    let mut reg = reg;
    let mut i: usize = 0;
    while i < reg.scopes.len()
        invariant
            i <= reg.scopes@.len(),
            reg@ == (RegistryV {
                links: with_iterators(start.links, start.scopes, i as int),
                ..start
            }),
        decreases reg.scopes@.len() - i,
    {
        assert(start.scopes[i as int] == reg.scopes@[i as int]@);
        let id = reg.scopes[i].id;
        add_alias_words(&mut reg.links, &reg.scopes[i].aliases, id);
        i += 1;
    }
    reg
}

/// The registry of a rule set; `hardcoded` for one that declares no scopes.
pub open spec fn scope_registry(rs: RuleSetV, hardcoded: RegistryV) -> RegistryV {
    if rs.scope_inputs.len() == 0 {
        hardcoded
    } else {
        registry_of(rs.scope_inputs, rs.link_inputs)
    }
}

/// Builds the registry of a rule set. One that declares no scopes has those that are
/// built in for its game.
pub fn build_scope_registry(ruleset: &RuleSet, hardcoded: ScopeRegistry) -> (r: ScopeRegistry)
    requires
        ruleset@.scope_inputs.len() <= u32::MAX - FIRST_SCOPE,
    ensures
        r@ == scope_registry(ruleset@, hardcoded@),
{
    if ruleset.scope_inputs.len() == 0 {
        return hardcoded;
    }
    let named = declare_scopes(&ruleset.scope_inputs);
    let related = relate_scopes(named, &ruleset.scope_inputs);
    let linked = add_links(related, &ruleset.link_inputs);
    add_iterators(linked)
}

/// Builds the registry that a run over many files shares; none without a game, so
/// that scopes are not checked.
pub fn build_scope_registry_arc(
    ruleset: &RuleSet,
    game: Option<Game>,
    hardcoded: ScopeRegistry,
) -> (r: Option<Arc<ScopeRegistry>>)
    requires
        ruleset@.scope_inputs.len() <= u32::MAX - FIRST_SCOPE,
    ensures
        match r {
            Some(a) => game is Some && a@ == scope_registry(ruleset@, hardcoded@),
            None => game is None,
        },
{
    match game {
        Some(_) => Some(Arc::new(build_scope_registry(ruleset, hardcoded))),
        None => None,
    }
}

// ---------------------------------------------------------------------------
// Requirements

/// The scope satisfies one of the required names.
pub open spec fn satisfies(reg: RegistryV, scope: ScopeId, required: Seq<Seq<char>>) -> bool {
    exists|i: int|
        0 <= i < required.len() && match reg.id_of(#[trigger] required[i]) {
            Some(id) => reg.counts_as(scope, id),
            None => false,
        }
}

/// The scope is one in which something with these requirements may stand.
pub open spec fn scope_fits(reg: RegistryV, scope: ScopeId, required: Seq<Seq<char>>) -> bool {
    required.len() == 0 || contains_ci(required, "any"@) || contains_ci(required, "all"@) || scope
        == ScopeId::Any || satisfies(reg, scope, required)
}

/// Whether the scope is one in which something with these requirements may stand.
/// A required name that is no scope is not satisfied.
#[verifier::loop_isolation(false)]
pub fn scope_matches_required(
    current: ScopeId,
    registry: &ScopeRegistry,
    required: &Vec<String>,
) -> (r: bool)
    ensures
        r == scope_fits(registry@, current, texts(required@)),
{
    if required.len() == 0 || list_contains_ci(required, "any") || list_contains_ci(
        required,
        "all",
    ) || current == ScopeId::Any {
        return true;
    }
    let ghost names = texts(required@);
    let mut i: usize = 0;
    while i < required.len()
        invariant
            i <= required@.len(),
            forall|j: int|
                0 <= j < i ==> match registry@.id_of(#[trigger] names[j]) {
                    Some(id) => !registry@.counts_as(current, id),
                    None => true,
                },
        decreases required@.len() - i,
    {
        assert(names[i as int] == required@[i as int]@);
        match registry.id_of(required[i].as_str()) {
            Some(id) => {
                if registry.is_subscope_or_eq(current, id) {
                    return true;
                }
            },
            None => {},
        }
        i += 1;
    }
    false
}

/// Every one of the names is that of a scope, or stands for any.
pub open spec fn all_scopes(reg: RegistryV, names: Seq<Seq<char>>) -> bool {
    forall|i: int|
        0 <= i < names.len() ==> one_of_ci(#[trigger] names[i], "any"@, "all"@) || reg.id_of(
            names[i],
        ) is Some
}

#[verifier::loop_isolation(false)]
fn names_are_scopes(reg: &ScopeRegistry, names: &Vec<String>) -> (r: bool)
    ensures
        r == all_scopes(reg@, texts(names@)),
{
    let ghost all = texts(names@);
    let mut i: usize = 0;
    while i < names.len()
        invariant
            i <= names@.len(),
            forall|j: int|
                0 <= j < i ==> one_of_ci(#[trigger] all[j], "any"@, "all"@) || reg@.id_of(
                    all[j],
                ) is Some,
        decreases names@.len() - i,
    {
        assert(all[i as int] == names@[i as int]@);
        let n = names[i].as_str();
        if !same_ci(n, "any") && !same_ci(n, "all") && reg.id_of(n).is_none() {
            return false;
        }
        i += 1;
    }
    true
}

/// The names of the first `n` scopes.
pub open spec fn scope_names(reg: RegistryV, s: Seq<ScopeId>, n: int) -> Seq<Seq<char>>
    decreases n,
{
    if n <= 0 || n > s.len() {
        Seq::empty()
    } else {
        scope_names(reg, s, n - 1).push(reg.name_of(s[n - 1]))
    }
}

/// The names of scopes.
pub fn names_of(reg: &ScopeRegistry, s: &Vec<ScopeId>) -> (r: Vec<String>)
    ensures
        texts(r@) == scope_names(reg@, s@, s@.len() as int),
{
    let mut out: Vec<String> = Vec::new();
    let mut i: usize = 0;
    assert(texts(out@) =~= scope_names(reg@, s@, 0));
    while i < s.len()
        invariant
            i <= s@.len(),
            texts(out@) == scope_names(reg@, s@, i as int),
        decreases s@.len() - i,
    {
        let ghost before = texts(out@);
        out.push(reg.name_of(s[i]));
        assert(texts(out@) =~= before.push(reg@.name_of(s@[i as int])));
        i += 1;
    }
    out
}

/// What is wrong with a value that must lead to one of the expected scopes. Nothing
/// is said of a value that names something in the game's data, nor where an expected
/// name is none of a scope: that is no place for a target.
pub open spec fn target_problem(
    sc: ScopeV,
    value: Seq<char>,
    expected: Seq<Seq<char>>,
    pos: SourcePos,
    file: Seq<char>,
) -> Seq<ErrorV> {
    let reg = sc.registry;
    if value.len() == 0 || is_data_ref(value) || !all_scopes(reg, expected) {
        Seq::empty()
    } else {
        match sc.command(value) {
            ScopeResultV::WrongScope { command, current, expected: exp } => seq![
                coded(
                    cw245(),
                    file,
                    pos.line,
                    pos.col,
                    seq![
                        command,
                        reg.name_of(current),
                        join_spec(scope_names(reg, exp, exp.len() as int), " or "@),
                    ],
                ),
            ],
            ScopeResultV::NewScope { scope } => if expected.len() > 0 && !scope_fits(
                reg,
                scope,
                expected,
            ) {
                seq![
                    coded(
                        cw243(),
                        file,
                        pos.line,
                        pos.col,
                        seq![value, reg.name_of(scope), join_spec(expected, " or "@)],
                    ),
                ]
            } else {
                Seq::empty()
            },
            ScopeResultV::NotFound => seq![
                coded(
                    cw244(),
                    file,
                    pos.line,
                    pos.col,
                    seq![value, join_spec(expected, " or "@)],
                ),
            ],
            _ => Seq::empty(),
        }
    }
}

/// Reports what is wrong with a value that must lead to one of the expected scopes.
pub fn validate_scope_target(
    ctx: &ScopeContext,
    value: &str,
    expected: &Vec<String>,
    pos: SourcePos,
    file_path: &str,
    errors: &mut Vec<ValidationError>,
)
    ensures
        views(final(errors)@) == views(old(errors)@) + target_problem(
            ctx@,
            value@,
            texts(expected@),
            pos,
            file_path@,
        ),
{
    let ghost start = views(errors@);
    let reg = ctx.registry;
    if value.unicode_len() > 0 && !looks_like_data_ref(value) && names_are_scopes(reg, expected) {
        match ctx.probe(value) {
            ScopeResult::WrongScope { command, current, expected: exp } => {
                let names = names_of(reg, &exp);
                let e = report3(
                    &cw245_error_in_target(),
                    file_path,
                    pos.line,
                    pos.col,
                    command.as_str(),
                    reg.name_of(current).as_str(),
                    join(&names, " or ").as_str(),
                );
                add_one(errors, e);
            },
            ScopeResult::NewScope { scope } => {
                if expected.len() > 0 && !scope_matches_required(scope, reg, expected) {
                    let e = report3(
                        &cw243_target_wrong_scope(),
                        file_path,
                        pos.line,
                        pos.col,
                        value,
                        reg.name_of(scope).as_str(),
                        join(expected, " or ").as_str(),
                    );
                    add_one(errors, e);
                }
            },
            ScopeResult::NotFound => {
                let e = report2(
                    &cw244_invalid_target(),
                    file_path,
                    pos.line,
                    pos.col,
                    value,
                    join(expected, " or ").as_str(),
                );
                add_one(errors, e);
            },
            _ => {},
        }
    }
    assert(views(errors@) =~= start + target_problem(
        ctx@,
        value@,
        texts(expected@),
        pos,
        file_path@,
    ));
}

// ---------------------------------------------------------------------------
// Entering blocks

/// The first of the names in `push`, which may be a list in braces.
pub open spec fn first_name(push: Seq<char>) -> Seq<char> {
    let w = words(trim_of(push, CharSet::BraceOrWhite));
    if w.len() > 0 {
        w[0]
    } else {
        push
    }
}

/// The context in the scope that a rule pushes: the first one named, where `any` and
/// `all` stand for every scope, else where a command of that name leads.
pub open spec fn named_scope(sc: ScopeV, push: Seq<char>) -> ScopeV {
    match sc.registry.id_of(first_name(push)) {
        Some(id) => sc.pushed(id),
        None => if one_of_ci(first_name(push), "any"@, "all"@) {
            sc.pushed(ScopeId::Any)
        } else {
            sc.after(push)
        },
    }
}

/// Enters the scope that a rule pushes.
pub fn push_named_scope(ctx: &mut ScopeContext, push: &str)
    ensures
        final(ctx)@ == named_scope(old(ctx)@, push@),
{
    let w = split_whitespace(trim_matches(push, CharSet::BraceOrWhite));
    let name = if w.len() > 0 {
        assert(texts(w@)[0] == w@[0]@);
        w[0].as_str()
    } else {
        push
    };
    match ctx.registry.id_of(name) {
        Some(id) => {
            ctx.push_scope(id);
        },
        None => {
            if same_ci(name, "any") || same_ci(name, "all") {
                ctx.push_scope(ScopeId::Any);
            } else {
                let _result = ctx.change_scope(push);
            }
        },
    }
}

/// The context with the scopes that a rule puts in place, where scopes are checked.
pub open spec fn with_replaced(
    sc: ScopeV,
    replace: Option<ReplaceScopesV>,
    game: Option<Game>,
) -> ScopeV {
    match replace {
        Some(r) => if game is Some {
            sc.replaced(r)
        } else {
            sc
        },
        None => sc,
    }
}

/// Puts the scopes of a rule in place.
pub fn apply_replace_scopes(ctx: &mut ScopeContext, replace: &ReplaceScopes, game: Option<Game>)
    ensures
        final(ctx)@ == with_replaced(old(ctx)@, Some(replace@), game),
{
    if game.is_some() {
        ctx.apply_replace_scope(replace);
    }
}

/// The context in a block whose key is run as a command. A key that is none but
/// names something in the game's data leads to a scope of which nothing is known.
pub open spec fn keyed_scope(sc: ScopeV, key: Seq<char>, data: bool) -> ScopeV {
    let a = sc.after(key);
    if a.stack.len() == sc.stack.len() && data {
        a.pushed(ScopeId::Any)
    } else {
        a
    }
}

fn run_key(ctx: &mut ScopeContext, key: &str, data: bool)
    ensures
        final(ctx)@ == keyed_scope(old(ctx)@, key@, data),
{
    let before: usize = ctx.scope_depth();
    let _result = ctx.change_scope(key);
    if ctx.scope_depth() == before && data {
        ctx.push_scope(ScopeId::Any);
    }
}

/// The context in the body of an instance of a type: what its subtype pushes, else
/// what the rule of the type pushes or puts in place, else where its key leads.
pub open spec fn root_scope(
    sc: ScopeV,
    type_: Seq<char>,
    subtype_push: Option<Seq<char>>,
    node_key: Option<Seq<char>>,
    rs: RuleSetV,
    game: Option<Game>,
) -> ScopeV {
    let opts = rule_options(rs, type_);
    if subtype_push is Some {
        named_scope(sc, subtype_push->0)
    } else if opts is Some && opts->0.push_scope is Some {
        named_scope(sc, opts->0.push_scope->0)
    } else if opts is Some && opts->0.replace_scopes is Some {
        with_replaced(sc, opts->0.replace_scopes, game)
    } else {
        match node_key {
            Some(k) => keyed_scope(sc, k, is_data_ref(k)),
            None => sc,
        }
    }
}

fn run_node_key(ctx: &mut ScopeContext, node_key: Option<&str>)
    ensures
        final(ctx)@ == match opt_str(node_key) {
            Some(k) => keyed_scope(old(ctx)@, k, is_data_ref(k)),
            None => old(ctx)@,
        },
{
    match node_key {
        Some(k) => {
            run_key(ctx, k, looks_like_data_ref(k));
        },
        None => {},
    }
}

/// Enters the scope of the body of an instance of a type.
pub fn seed_root_scope(
    ctx: &mut ScopeContext,
    type_def: &TypeDefinition,
    subtype_push: Option<&str>,
    node_key: Option<&str>,
    ruleset: &RuleSet,
    game: Option<Game>,
)
    ensures
        final(ctx)@ == root_scope(
            old(ctx)@,
            type_def@.name,
            opt_str(subtype_push),
            opt_str(node_key),
            ruleset@,
            game,
        ),
{
    match subtype_push {
        Some(ps) => {
            push_named_scope(ctx, ps);
        },
        None => match find_type_rule_opts(type_def.name.as_str(), ruleset) {
            Some(o) => match &o.push_scope {
                Some(p) => {
                    push_named_scope(ctx, p.as_str());
                },
                None => match &o.replace_scopes {
                    Some(r) => {
                        apply_replace_scopes(ctx, r, game);
                    },
                    None => {
                        run_node_key(ctx, node_key);
                    },
                },
            },
            None => {
                run_node_key(ctx, node_key);
            },
        },
    }
}

/// The context in a block of that key under a rule with these options.
///
/// A key with a colon is a reference into the game's data whatever the rule says. A
/// number is one only where `numeric_state_ok` says so: elsewhere it is a weight.
pub open spec fn block_scope(
    sc: ScopeV,
    key: Seq<char>,
    opts: OptionsV,
    game: Option<Game>,
    numeric_state_ok: bool,
) -> ScopeV {
    let entered = if key.contains(':') {
        keyed_scope(sc, key, true)
    } else if opts.push_scope is Some {
        named_scope(sc, opts.push_scope->0)
    } else {
        keyed_scope(sc, key, is_data_ref(key) && (numeric_state_ok || !all_digits(key)))
    };
    with_replaced(entered, opts.replace_scopes, game)
}

/// Enters the scope of a block of that key under a rule with these options.
pub fn enter_block_scope(
    ctx: &mut ScopeContext,
    key: &str,
    opts: &Options,
    game: Option<Game>,
    numeric_state_ok: bool,
)
    ensures
        final(ctx)@ == block_scope(old(ctx)@, key@, opts@, game, numeric_state_ok),
{
    if contains_char(key, ':') {
        run_key(ctx, key, true);
    } else {
        match &opts.push_scope {
            Some(push) => {
                push_named_scope(ctx, push.as_str());
            },
            None => {
                run_key(
                    ctx,
                    key,
                    looks_like_data_ref(key) && (numeric_state_ok || !only_digits(key)),
                );
            },
        }
    }
    match &opts.replace_scopes {
        Some(r) => {
            apply_replace_scopes(ctx, r, game);
        },
        None => {},
    }
}

/// The key is a word or a command that leads to a scope.
pub open spec fn is_scope_word(reg: RegistryV, key: Seq<char>) -> bool {
    let k = ascii_lower(key);
    way_back(k) is Some || reg.id_of(k) is Some || reg.links.contains_key(k)
}

/// Whether the key is a word or a command that leads to a scope, and so no variable.
pub fn resolves_as_scope_key(ctx: &ScopeContext, key: &str) -> (r: bool)
    ensures
        r == is_scope_word(ctx@.registry, key@),
{
    let k = to_ascii_lower(key);
    read_way_back(k.as_str()).is_some() || ctx.registry.id_of(k.as_str()).is_some()
        || ctx.registry.links.contains(k.as_str())
}

} // verus!
