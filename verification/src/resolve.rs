//! Which type, and so which rules, a file or a block in it is an instance of.

use vstd::prelude::*;

use crate::common::{dir_matches, dir_matches_pattern};
use crate::rules_types::{
    MatchKind, Options, OptionsV, PathOptions, PathOptionsV, RootRule, RootRuleV, RuleType,
    RuleTypeV, RuleV, SkipRootKey, SkipRootKeyV, SubTypeV, TypeDefV, TypeDefinition,
    lemma_views_push, rule_view, rules_view, views,
};
use crate::ruleset::{RuleSet, RuleSetV};
use crate::text::{
    CharSet, after_last, byte_len, contains_ci, eq_ci, lemma_skip_back, list_contains_ci,
    lowercase, replace_char, replace_char_spec, same, same_ci, tail_after, to_lowercase, trim_end,
    trim_end_of,
};

verus! {

// ---------------------------------------------------------------------------
// Wrapper keys

/// The key is one that the level skips.
pub open spec fn skip_matches(sk: SkipRootKeyV, key: Seq<char>) -> bool {
    match sk {
        SkipRootKeyV::SpecificKey(k) => eq_ci(k, key),
        SkipRootKeyV::AnyKey => true,
        SkipRootKeyV::MultipleKeys(ks, kind) => contains_ci(ks, key) == (kind is Equals),
    }
}

/// Whether the key is one that the level skips.
pub fn skip_root_key_matches(sk: &SkipRootKey, key: &str) -> (r: bool)
    ensures
        r == skip_matches(sk@, key@),
{
    match sk {
        SkipRootKey::SpecificKey(k) => same_ci(k.as_str(), key),
        SkipRootKey::AnyKey => true,
        SkipRootKey::MultipleKeys(ks, kind) => {
            let hit = list_contains_ci(ks, key);
            match kind {
                MatchKind::Equals => hit,
                MatchKind::NotEquals => !hit,
            }
        },
    }
}

/// The key is a wrapper around instances of the type.
pub open spec fn skips(key: Seq<char>, t: TypeDefV) -> bool {
    t.skip_root_key.len() > 0 && skip_matches(t.skip_root_key[0], key)
}

/// Whether the key is a wrapper around instances of the type. Each entry of the
/// type's skipped keys is a level of its own, and only the first is the outermost.
pub fn should_skip_root_key(key: &str, type_def: &TypeDefinition) -> (r: bool)
    ensures
        r == skips(key@, type_def@),
{
    if type_def.skip_root_key.len() > 0 {
        assert(type_def@.skip_root_key[0] == type_def.skip_root_key@[0]@);
        skip_root_key_matches(&type_def.skip_root_key[0], key)
    } else {
        false
    }
}

/// The filter on keys lets the key through.
pub open spec fn filter_allows(filter: Option<(Seq<Seq<char>>, bool)>, key: Seq<char>) -> bool {
    match filter {
        Some((keys, negate)) => contains_ci(keys, key) != negate,
        None => true,
    }
}

/// Whether the type's filter on keys lets the key through.
pub fn type_filter_allows(type_def: &TypeDefinition, key: &str) -> (r: bool)
    ensures
        r == filter_allows(type_def@.type_key_filter, key@),
{
    match &type_def.type_key_filter {
        Some(f) => list_contains_ci(&f.0, key) != f.1,
        None => true,
    }
}

// ---------------------------------------------------------------------------
// By name

/// The type of that name.
pub open spec fn type_named(rs: RuleSetV, name: Seq<char>) -> Option<TypeDefV> {
    if rs.type_by_name.contains_key(name) && rs.type_by_name[name] < rs.types.len() {
        Some(rs.types[rs.type_by_name[name] as int])
    } else {
        None
    }
}

/// The type of that name.
pub fn find_type<'a>(name: &str, ruleset: &'a RuleSet) -> (r: Option<&'a TypeDefinition>)
    ensures
        match r {
            Some(t) => type_named(ruleset@, name@) == Some(t@),
            None => type_named(ruleset@, name@) is None,
        },
{
    match ruleset.type_by_name.get(name) {
        Some(i) => {
            if *i < ruleset.types.len() {
                assert(ruleset@.types[*i as int] == ruleset.types@[*i as int]@);
                Some(&ruleset.types[*i])
            } else {
                None
            }
        },
        None => None,
    }
}

/// The rule for the instances of a type.
pub open spec fn type_rule(rs: RuleSetV, name: Seq<char>) -> Option<RuleV> {
    if rs.type_rules_idx.contains_key(name) && rs.type_rules_idx[name] < rs.root_rules.len() {
        match rs.root_rules[rs.type_rules_idx[name] as int] {
            RootRuleV::TypeRule(_, r) => Some(r),
            _ => None,
        }
    } else {
        None
    }
}

/// The rules for the body of an instance of a type; none for a type without a rule.
pub open spec fn rules_named(rs: RuleSetV, name: Seq<char>) -> Seq<RuleV> {
    match type_rule(rs, name) {
        Some((RuleTypeV::NodeRule { rules, .. }, _)) => rules,
        _ => Seq::empty(),
    }
}

/// The options of the rule for the instances of a type: they say which scope an
/// instance starts in.
pub open spec fn rule_options(rs: RuleSetV, name: Seq<char>) -> Option<OptionsV> {
    match type_rule(rs, name) {
        Some((_, o)) => Some(o),
        None => None,
    }
}

/// The rule for the instances of a type.
fn find_type_rule<'a>(name: &str, ruleset: &'a RuleSet) -> (r: Option<&'a (RuleType, Options)>)
    ensures
        match r {
            Some(x) => type_rule(ruleset@, name@) == Some((rule_view(x.0), x.1@)),
            None => type_rule(ruleset@, name@) is None,
        },
{
    match ruleset.type_rules_idx.get(name) {
        Some(i) => {
            if *i < ruleset.root_rules.len() {
                assert(ruleset@.root_rules[*i as int] == ruleset.root_rules@[*i as int]@);
                match &ruleset.root_rules[*i] {
                    RootRule::TypeRule(_, r) => Some(r),
                    _ => None,
                }
            } else {
                None
            }
        },
        None => None,
    }
}

/// Rules that may be missing.
pub open spec fn opt_rules(r: Option<&Vec<(RuleType, Options)>>) -> Seq<RuleV> {
    match r {
        Some(v) => rules_view(v@),
        None => Seq::empty(),
    }
}

/// The rules for the body of an instance of a type.
pub fn find_rules_by_name<'a>(name: &str, ruleset: &'a RuleSet) -> (r: Option<
    &'a Vec<(RuleType, Options)>,
>)
    ensures
        opt_rules(r) == rules_named(ruleset@, name@),
{
    match find_type_rule(name, ruleset) {
        Some(x) => match &x.0 {
            RuleType::NodeRule { rules, .. } => Some(rules),
            _ => None,
        },
        None => None,
    }
}

/// The options of the rule for the instances of a type.
pub fn find_type_rule_opts<'a>(name: &str, ruleset: &'a RuleSet) -> (r: Option<&'a Options>)
    ensures
        match r {
            Some(o) => rule_options(ruleset@, name@) == Some(o@),
            None => rule_options(ruleset@, name@) is None,
        },
{
    match find_type_rule(name, ruleset) {
        Some(x) => Some(&x.1),
        None => None,
    }
}

/// A subtype has rules of its own.
pub open spec fn subtypes_have_rules(s: Seq<SubTypeV>) -> bool {
    exists|i: int| 0 <= i < s.len() && (#[trigger] s[i]).rules.len() > 0
}

/// There is something to check an instance of the type against.
pub open spec fn has_content(t: TypeDefV, rules: Seq<RuleV>) -> bool {
    rules.len() > 0 || subtypes_have_rules(t.subtypes)
}

/// Whether there is something to check an instance of the type against. A type may
/// be declared for the sake of its names alone.
#[verifier::loop_isolation(false)]
pub fn type_has_content(t: &TypeDefinition, rules: Option<&Vec<(RuleType, Options)>>) -> (r: bool)
    ensures
        r == has_content(t@, opt_rules(rules)),
{
    match rules {
        Some(v) => {
            if v.len() > 0 {
                return true;
            }
        },
        None => {},
    }
    let mut i: usize = 0;
    while i < t.subtypes.len()
        invariant
            i <= t.subtypes@.len(),
            forall|j: int| 0 <= j < i ==> (#[trigger] t@.subtypes[j]).rules.len() == 0,
        decreases t.subtypes@.len() - i,
    {
        assert(t@.subtypes[i as int] == t.subtypes@[i as int]@);
        if t.subtypes[i].rules.len() > 0 {
            return true;
        }
        i += 1;
    }
    false
}

// ---------------------------------------------------------------------------
// By path

/// A path in lower case, with forward slashes.
pub open spec fn lower_path(path: Seq<char>) -> Seq<char> {
    replace_char_spec(lowercase(path), '\\', '/')
}

/// A path in lower case, with forward slashes.
pub fn to_lower_path(path: &str) -> (r: String)
    ensures
        r@ == lower_path(path@),
{
    let p = to_lowercase(path);
    replace_char(p.as_str(), '\\', '/')
}

/// The file in a path.
pub open spec fn path_base(p: Seq<char>) -> Seq<char> {
    after_last(p, CharSet::One('/'))
}

/// The directory in a path.
pub open spec fn path_dir(p: Seq<char>) -> Seq<char> {
    trim_end_of(p.subrange(0, p.len() - path_base(p).len()), CharSet::One('/'))
}

/// What follows the last dot in the name of the file; all of it where there is
/// none.
pub open spec fn path_ext(p: Seq<char>) -> Seq<char> {
    after_last(path_base(p), CharSet::One('.'))
}

/// A path with forward slashes, in its parts.
struct PathParts {
    base: String,
    dir: String,
    ext: String,
}

/// Takes a path with forward slashes apart.
fn path_parts(p: &str) -> (r: PathParts)
    ensures
        r.base@ == path_base(p@),
        r.dir@ == path_dir(p@),
        r.ext@ == path_ext(p@),
{
    let base = tail_after(p, CharSet::One('/'));
    proof {
        lemma_skip_back(p@, CharSet::One('/'), p@.len() as int);
    }
    let head = p.substring_char(0, p.unicode_len() - base.unicode_len());
    let dir = trim_end(head, CharSet::One('/'));
    let ext = tail_after(base, CharSet::One('.'));
    PathParts { base: base.to_owned(), dir: dir.to_owned(), ext: ext.to_owned() }
}

/// The file has the extension that the type asks for, if it asks for one.
pub open spec fn extension_matches(path: Seq<char>, t: TypeDefV) -> bool {
    match t.path_options.path_ext_lower {
        None => true,
        Some(ext) => ext.len() == 0 || path_ext(lower_path(path)) == ext,
    }
}

/// Whether the file has the extension that the type asks for, if it asks for one.
pub fn type_extension_matches(file_path: &str, t: &TypeDefinition) -> (r: bool)
    ensures
        r == extension_matches(file_path@, t@),
{
    match &t.path_options.path_ext_lower {
        None => true,
        Some(ext) => {
            if ext.as_str().unicode_len() == 0 {
                return true;
            }
            let p = to_lower_path(file_path);
            let parts = path_parts(p.as_str());
            same(parts.ext.as_str(), ext.as_str())
        },
    }
}

/// The file has the name and the extension that the type asks for.
pub open spec fn file_fits(o: PathOptionsV, p: Seq<char>) -> bool {
    &&& match o.path_file_lower {
        Some(f) => path_base(p) == f,
        None => true,
    }
    &&& match o.path_ext_lower {
        Some(e) => path_ext(p) == e,
        None => true,
    }
}

fn parts_fit(o: &PathOptions, parts: &PathParts, Ghost(p): Ghost<Seq<char>>) -> (r: bool)
    requires
        parts.base@ == path_base(p),
        parts.ext@ == path_ext(p),
    ensures
        r == file_fits(o@, p),
{
    let named = match &o.path_file_lower {
        Some(f) => same(parts.base.as_str(), f.as_str()),
        None => true,
    };
    let extended = match &o.path_ext_lower {
        Some(e) => same(parts.ext.as_str(), e.as_str()),
        None => true,
    };
    named && extended
}

/// What a type gains for asking for the file by its name.
pub open spec fn file_bonus(o: PathOptionsV) -> int {
    if o.path_file is Some {
        1000
    } else {
        0
    }
}

/// The weight of the heaviest of the first `n` directories of a type that the file
/// stands in: the longer, the more specific.
pub open spec fn dir_weight(o: PathOptionsV, dir: Seq<char>, n: int) -> int
    decreases n,
{
    if n <= 0 || n > o.paths_lower.len() {
        0
    } else {
        let before = dir_weight(o, dir, n - 1);
        let w = byte_len(o.paths_lower[n - 1]) + file_bonus(o);
        if dir_matches(dir, o.paths_lower[n - 1], o.path_strict) && w > before {
            w
        } else {
            before
        }
    }
}

/// The weight of a type for a file; zero for a type that the file is none of.
pub open spec fn base_weight(t: TypeDefV, p: Seq<char>) -> int {
    if file_fits(t.path_options, p) {
        dir_weight(t.path_options, path_dir(p), t.path_options.paths_lower.len() as int)
    } else {
        0
    }
}

/// A type that a file may hold, with its weight.
pub struct PathCandidate<'a> {
    pub type_def: &'a TypeDefinition,
    pub base_weight: u128,
}

/// The model of [`PathCandidate`].
#[verifier::ext_equal]
pub struct CandidateV {
    pub type_def: TypeDefV,
    pub base_weight: int,
}

impl<'a> View for PathCandidate<'a> {
    type V = CandidateV;

    open spec fn view(&self) -> CandidateV {
        CandidateV { type_def: self.type_def@, base_weight: self.base_weight as int }
    }
}

/// The first `n` types that a file may hold, with their weights.
pub open spec fn candidates(types: Seq<TypeDefV>, p: Seq<char>, n: int) -> Seq<CandidateV>
    decreases n,
{
    if n <= 0 || n > types.len() {
        Seq::empty()
    } else {
        let before = candidates(types, p, n - 1);
        let w = base_weight(types[n - 1], p);
        if w > 0 {
            before.push(CandidateV { type_def: types[n - 1], base_weight: w })
        } else {
            before
        }
    }
}

/// The types that the file at a path in lower case may hold.
pub open spec fn candidates_at(rs: RuleSetV, path_lower: Seq<char>) -> Seq<CandidateV> {
    candidates(rs.types, replace_char_spec(path_lower, '\\', '/'), rs.types.len() as int)
}

/// A weight that leaves room for what a key adds.
pub open spec fn small_weight(w: u128) -> bool {
    w <= usize::MAX + 1000
}

fn weigh(t: &TypeDefinition, parts: &PathParts, Ghost(p): Ghost<Seq<char>>) -> (r: u128)
    requires
        parts.base@ == path_base(p),
        parts.dir@ == path_dir(p),
        parts.ext@ == path_ext(p),
    ensures
        r == base_weight(t@, p),
        small_weight(r),
{
    let o = &t.path_options;
    if !parts_fit(o, parts, Ghost(p)) {
        return 0;
    }
    let bonus: u128 = if o.path_file.is_some() {
        1000
    } else {
        0
    };
    let mut best: u128 = 0;
    let mut i: usize = 0;
    while i < o.paths_lower.len()
        invariant
            i <= o.paths_lower@.len(),
            parts.dir@ == path_dir(p),
            bonus == file_bonus(o@),
            small_weight(best),
            best == dir_weight(o@, parts.dir@, i as int),
        decreases o.paths_lower@.len() - i,
    {
        assert(o@.paths_lower[i as int] == o.paths_lower@[i as int]@);
        if dir_matches_pattern(parts.dir.as_str(), o.paths_lower[i].as_str(), o.path_strict) {
            let w: u128 = o.paths_lower[i].as_str().len() as u128 + bonus;
            if w > best {
                best = w;
            }
        }
        i += 1;
    }
    best
}

/// The types that the file at a path in lower case may hold, with their weights.
pub fn path_candidates_for_file<'a>(file_path_lower: &str, ruleset: &'a RuleSet) -> (r: Vec<
    PathCandidate<'a>,
>)
    ensures
        views(r@) == candidates_at(ruleset@, file_path_lower@),
        forall|i: int| 0 <= i < r@.len() ==> small_weight((#[trigger] r@[i]).base_weight),
{
    let path = replace_char(file_path_lower, '\\', '/');
    let parts = path_parts(path.as_str());
    let ghost p = path@;
    let mut out: Vec<PathCandidate<'a>> = Vec::new();
    let mut i: usize = 0;
    assert(views(out@) =~= candidates(ruleset@.types, p, 0));
    while i < ruleset.types.len()
        invariant
            i <= ruleset.types@.len(),
            parts.base@ == path_base(p),
            parts.dir@ == path_dir(p),
            parts.ext@ == path_ext(p),
            views(out@) == candidates(ruleset@.types, p, i as int),
            forall|j: int| 0 <= j < out@.len() ==> small_weight((#[trigger] out@[j]).base_weight),
        decreases ruleset.types@.len() - i,
    {
        let t = &ruleset.types[i];
        assert(ruleset@.types[i as int] == t@);
        let w = weigh(t, &parts, Ghost(p));
        if w > 0 {
            let ghost before = out@;
            out.push(PathCandidate { type_def: t, base_weight: w });
            proof {
                lemma_views_push(before, out@.last());
            }
        }
        i += 1;
    }
    out
}

/// What the key of a block adds to the weight of a type. A type whose filter keeps
/// the key out does not apply at all.
pub open spec fn key_weight(t: TypeDefV, key: Option<Seq<char>>) -> Option<int> {
    match key {
        None => Some(0),
        Some(k) => if t.skip_root_key.len() == 0 && t.type_key_filter is Some {
            if filter_allows(t.type_key_filter, k) {
                Some(5000)
            } else {
                None
            }
        } else if skips(k, t) {
            Some(10000)
        } else {
            Some(0)
        },
    }
}

/// The heaviest of the first `n` candidates, with its weight. The first one wins
/// among equals.
pub open spec fn heaviest(c: Seq<CandidateV>, key: Option<Seq<char>>, n: int) -> (
    Option<TypeDefV>,
    int,
)
    decreases n,
{
    if n <= 0 || n > c.len() {
        (None, 0)
    } else {
        let before = heaviest(c, key, n - 1);
        match key_weight(c[n - 1].type_def, key) {
            Some(k) => if c[n - 1].base_weight + k > before.1 {
                (Some(c[n - 1].type_def), c[n - 1].base_weight + k)
            } else {
                before
            },
            None => before,
        }
    }
}

/// The type that wins among the candidates for a block of that key.
pub open spec fn winner(c: Seq<CandidateV>, key: Option<Seq<char>>) -> Option<TypeDefV> {
    heaviest(c, key, c.len() as int).0
}

pub open spec fn opt_str(o: Option<&str>) -> Option<Seq<char>> {
    match o {
        Some(s) => Some(s@),
        None => None,
    }
}

pub open spec fn opt_type(o: Option<&TypeDefinition>) -> Option<TypeDefV> {
    match o {
        Some(t) => Some(t@),
        None => None,
    }
}

fn weigh_key(t: &TypeDefinition, key: Option<&str>) -> (r: Option<u128>)
    ensures
        match r {
            Some(w) => key_weight(t@, opt_str(key)) == Some(w as int) && w <= 10000,
            None => key_weight(t@, opt_str(key)) is None,
        },
{
    match key {
        None => Some(0),
        Some(k) => {
            if t.skip_root_key.len() == 0 && t.type_key_filter.is_some() {
                if type_filter_allows(t, k) {
                    Some(5000)
                } else {
                    None
                }
            } else if should_skip_root_key(k, t) {
                Some(10000)
            } else {
                Some(0)
            }
        },
    }
}

/// The type that wins among the candidates for a block of that key.
pub fn find_type_from_candidates<'a>(
    candidates: &Vec<PathCandidate<'a>>,
    root_key: Option<&str>,
) -> (r: Option<&'a TypeDefinition>)
    requires
        forall|i: int|
            0 <= i < candidates@.len() ==> small_weight((#[trigger] candidates@[i]).base_weight),
    ensures
        opt_type(r) == winner(views(candidates@), opt_str(root_key)),
{
    let mut best: Option<&'a TypeDefinition> = None;
    let mut best_weight: u128 = 0;
    let ghost c = views(candidates@);
    let mut i: usize = 0;
    while i < candidates.len()
        invariant
            i <= candidates@.len(),
            c == views(candidates@),
            forall|j: int|
                0 <= j < candidates@.len() ==> small_weight(
                    (#[trigger] candidates@[j]).base_weight,
                ),
            (opt_type(best), best_weight as int) == heaviest(c, opt_str(root_key), i as int),
        decreases candidates@.len() - i,
    {
        assert(c[i as int] == candidates@[i as int]@);
        match weigh_key(candidates[i].type_def, root_key) {
            Some(k) => {
                let w: u128 = candidates[i].base_weight + k;
                if w > best_weight {
                    best = Some(candidates[i].type_def);
                    best_weight = w;
                }
            },
            None => {},
        }
        i += 1;
    }
    best
}

/// The type of a block of that key in a file at a path in lower case. A type that
/// the key wraps beats one with a longer path.
pub fn find_type_by_path_and_key<'a>(
    file_path_lower: &str,
    root_key: Option<&str>,
    ruleset: &'a RuleSet,
) -> (r: Option<&'a TypeDefinition>)
    ensures
        opt_type(r) == winner(candidates_at(ruleset@, file_path_lower@), opt_str(root_key)),
{
    let c = path_candidates_for_file(file_path_lower, ruleset);
    find_type_from_candidates(&c, root_key)
}

/// The type of a file: the one with the longest path.
pub open spec fn type_at(rs: RuleSetV, path: Seq<char>) -> Option<TypeDefV> {
    winner(candidates_at(rs, lower_path(path)), None)
}

/// The type of a file: the one with the longest path.
pub fn find_type_by_path<'a>(file_path: &str, ruleset: &'a RuleSet) -> (r: Option<
    &'a TypeDefinition,
>)
    ensures
        opt_type(r) == type_at(ruleset@, file_path@),
{
    let p = to_lower_path(file_path);
    find_type_by_path_and_key(p.as_str(), None, ruleset)
}

/// The type of a block by its key: the type of that name, unless that one asks for
/// files of another extension.
pub open spec fn type_by_key(rs: RuleSetV, name: Seq<char>, path: Seq<char>) -> Option<TypeDefV> {
    match type_named(rs, name) {
        Some(t) => if extension_matches(path, t) {
            Some(t)
        } else {
            winner(candidates_at(rs, lowercase(path)), Some(name))
        },
        None => None,
    }
}

/// The type of a block by its key. Several types can share a key and a path and
/// differ in the extension alone.
pub fn find_type_for_file<'a>(name: &str, file_path: &str, ruleset: &'a RuleSet) -> (r: Option<
    &'a TypeDefinition,
>)
    ensures
        opt_type(r) == type_by_key(ruleset@, name@, file_path@),
{
    match find_type(name, ruleset) {
        Some(t) => {
            if type_extension_matches(file_path, t) {
                return Some(t);
            }
            let p = to_lowercase(file_path);
            find_type_by_path_and_key(p.as_str(), Some(name), ruleset)
        },
        None => None,
    }
}

/// The file stands where the type's instances do.
pub open spec fn path_matches(path: Seq<char>, t: TypeDefV) -> bool {
    let p = lower_path(path);
    file_fits(t.path_options, p) && exists|i: int|
        0 <= i < t.path_options.paths_lower.len() && dir_matches(
            path_dir(p),
            #[trigger] t.path_options.paths_lower[i],
            t.path_options.path_strict,
        )
}

/// Whether the file stands where the type's instances do.
#[verifier::loop_isolation(false)]
pub fn type_path_matches(file_path: &str, t: &TypeDefinition) -> (r: bool)
    ensures
        r == path_matches(file_path@, t@),
{
    let path = to_lower_path(file_path);
    let parts = path_parts(path.as_str());
    let o = &t.path_options;
    if !parts_fit(o, &parts, Ghost(path@)) {
        return false;
    }
    let mut i: usize = 0;
    while i < o.paths_lower.len()
        invariant
            i <= o.paths_lower@.len(),
            forall|j: int|
                0 <= j < i ==> !dir_matches(
                    parts.dir@,
                    #[trigger] t@.path_options.paths_lower[j],
                    o.path_strict,
                ),
        decreases o.paths_lower@.len() - i,
    {
        assert(t@.path_options.paths_lower[i as int] == o.paths_lower@[i as int]@);
        if dir_matches_pattern(parts.dir.as_str(), o.paths_lower[i].as_str(), o.path_strict) {
            return true;
        }
        i += 1;
    }
    false
}

/// The type, from the `i`th on, of a block of the key `key` in a wrapper: one whose
/// filter lets the key through, else `generic`, the first one without a filter.
pub open spec fn grandchild_from(
    types: Seq<TypeDefV>,
    path: Seq<char>,
    wrapper: Seq<char>,
    key: Seq<char>,
    i: int,
    generic: Option<TypeDefV>,
) -> Option<TypeDefV>
    decreases types.len() - i,
{
    if i < 0 || i >= types.len() {
        generic
    } else if !skips(wrapper, types[i]) || !path_matches(path, types[i]) {
        grandchild_from(types, path, wrapper, key, i + 1, generic)
    } else if types[i].type_key_filter is None {
        grandchild_from(
            types,
            path,
            wrapper,
            key,
            i + 1,
            if generic is None {
                Some(types[i])
            } else {
                generic
            },
        )
    } else if filter_allows(types[i].type_key_filter, key) {
        Some(types[i])
    } else {
        grandchild_from(types, path, wrapper, key, i + 1, generic)
    }
}

/// The type of a block of the key `key` in a wrapper.
pub open spec fn grandchild_type(
    rs: RuleSetV,
    path: Seq<char>,
    wrapper: Seq<char>,
    key: Seq<char>,
) -> Option<TypeDefV> {
    grandchild_from(rs.types, path, wrapper, key, 0, None)
}

/// The type of a block in a wrapper. Several types can share a path and a wrapper;
/// their filters on keys tell them apart.
#[verifier::loop_isolation(false)]
pub fn find_grandchild_type<'a>(
    file_path: &str,
    wrapper_root_key: &str,
    gc_key: &str,
    ruleset: &'a RuleSet,
) -> (r: Option<&'a TypeDefinition>)
    ensures
        opt_type(r) == grandchild_type(ruleset@, file_path@, wrapper_root_key@, gc_key@),
{
    let mut generic: Option<&'a TypeDefinition> = None;
    let mut i: usize = 0;
    while i < ruleset.types.len()
        invariant
            i <= ruleset.types@.len(),
            grandchild_type(ruleset@, file_path@, wrapper_root_key@, gc_key@) == grandchild_from(
                ruleset@.types,
                file_path@,
                wrapper_root_key@,
                gc_key@,
                i as int,
                opt_type(generic),
            ),
        decreases ruleset.types@.len() - i,
    {
        let t = &ruleset.types[i];
        assert(ruleset@.types[i as int] == t@);
        if should_skip_root_key(wrapper_root_key, t) && type_path_matches(file_path, t) {
            if t.type_key_filter.is_none() {
                if generic.is_none() {
                    generic = Some(t);
                }
            } else if type_filter_allows(t, gc_key) {
                return Some(t);
            }
        }
        i += 1;
    }
    generic
}

// ---------------------------------------------------------------------------
// Blocks at the top of a file

/// What a block at the top of a file is.
pub enum ResolvedType<'a> {
    /// An instance of the type.
    Entity { type_def: &'a TypeDefinition },
    /// A wrapper around instances of the type.
    Wrapper { type_def: &'a TypeDefinition },
    /// Nothing that there are rules for.
    Unknown,
}

/// The model of [`ResolvedType`].
#[verifier::ext_equal]
pub enum ResolvedV {
    Entity(TypeDefV),
    Wrapper(TypeDefV),
    Unknown,
}

impl<'a> View for ResolvedType<'a> {
    type V = ResolvedV;

    open spec fn view(&self) -> ResolvedV {
        match self {
            ResolvedType::Entity { type_def } => ResolvedV::Entity(type_def@),
            ResolvedType::Wrapper { type_def } => ResolvedV::Wrapper(type_def@),
            ResolvedType::Unknown => ResolvedV::Unknown,
        }
    }
}

/// The type has rules in the rule set.
pub open spec fn is_checked(rs: RuleSetV, t: TypeDefV) -> bool {
    has_content(t, rules_named(rs, t.name))
}

/// The first `n` candidates, without those that have no rules.
pub open spec fn checked_only(rs: RuleSetV, c: Seq<CandidateV>, n: int) -> Seq<CandidateV>
    decreases n,
{
    if n <= 0 || n > c.len() {
        Seq::empty()
    } else if is_checked(rs, c[n - 1].type_def) {
        checked_only(rs, c, n - 1).push(c[n - 1])
    } else {
        checked_only(rs, c, n - 1)
    }
}

/// The type that the path of the file gives to a block. With `fallback`, a winner
/// without rules leaves its place to the best type that has some.
pub open spec fn type_by_path(
    rs: RuleSetV,
    path: Seq<char>,
    key: Seq<char>,
    fallback: bool,
) -> Option<TypeDefV> {
    let c = candidates_at(rs, lowercase(path));
    match winner(c, Some(key)) {
        Some(t) => if is_checked(rs, t) {
            Some(t)
        } else if fallback {
            winner(checked_only(rs, c, c.len() as int), Some(key))
        } else {
            None
        },
        None => None,
    }
}

/// What a block at the top of a file is: what its key says, else what the path of
/// the file says. A type with wrapper keys applies to a block of such a key alone.
pub open spec fn resolved(
    rs: RuleSetV,
    path: Seq<char>,
    key: Seq<char>,
    fallback: bool,
) -> ResolvedV {
    let by_key = match type_by_key(rs, key, path) {
        Some(t) => if is_checked(rs, t) && (t.skip_root_key.len() == 0 || skips(key, t)) {
            Some(t)
        } else {
            None
        },
        None => None,
    };
    let found = if by_key is Some {
        by_key
    } else {
        type_by_path(rs, path, key, fallback)
    };
    match found {
        Some(t) => if skips(key, t) {
            ResolvedV::Wrapper(t)
        } else if t.skip_root_key.len() > 0 {
            ResolvedV::Unknown
        } else {
            ResolvedV::Entity(t)
        },
        None => ResolvedV::Unknown,
    }
}

fn type_is_checked(t: &TypeDefinition, ruleset: &RuleSet) -> (r: bool)
    ensures
        r == is_checked(ruleset@, t@),
{
    type_has_content(t, find_rules_by_name(t.name.as_str(), ruleset))
}

fn keep_checked<'a>(c: Vec<PathCandidate<'a>>, ruleset: &'a RuleSet) -> (r: Vec<PathCandidate<'a>>)
    requires
        forall|i: int| 0 <= i < c@.len() ==> small_weight((#[trigger] c@[i]).base_weight),
    ensures
        views(r@) == checked_only(ruleset@, views(c@), c@.len() as int),
        forall|i: int| 0 <= i < r@.len() ==> small_weight((#[trigger] r@[i]).base_weight),
{
    let mut out: Vec<PathCandidate<'a>> = Vec::new();
    let ghost cv = views(c@);
    let mut i: usize = 0;
    assert(views(out@) =~= checked_only(ruleset@, cv, 0));
    while i < c.len()
        invariant
            i <= c@.len(),
            cv == views(c@),
            views(out@) == checked_only(ruleset@, cv, i as int),
            forall|j: int| 0 <= j < c@.len() ==> small_weight((#[trigger] c@[j]).base_weight),
            forall|j: int| 0 <= j < out@.len() ==> small_weight((#[trigger] out@[j]).base_weight),
        decreases c@.len() - i,
    {
        assert(cv[i as int] == c@[i as int]@);
        if type_is_checked(c[i].type_def, ruleset) {
            let ghost before = out@;
            out.push(
                PathCandidate { type_def: c[i].type_def, base_weight: c[i].base_weight },
            );
            proof {
                lemma_views_push(before, out@.last());
            }
        }
        i += 1;
    }
    out
}

fn find_type_in_place<'a>(
    ruleset: &'a RuleSet,
    file_path: &str,
    root_key: &str,
    fallback: bool,
) -> (r: Option<&'a TypeDefinition>)
    ensures
        opt_type(r) == type_by_path(ruleset@, file_path@, root_key@, fallback),
{
    let p = to_lowercase(file_path);
    let c = path_candidates_for_file(p.as_str(), ruleset);
    match find_type_from_candidates(&c, Some(root_key)) {
        Some(t) => {
            if type_is_checked(t, ruleset) {
                Some(t)
            } else if fallback {
                let kept = keep_checked(c, ruleset);
                find_type_from_candidates(&kept, Some(root_key))
            } else {
                None
            }
        },
        None => None,
    }
}

/// What a block at the top of a file is. Checking asks without `fallback`; an editor
/// asks with it, so as to find its way through a wrapper whose rules belong to
/// another type.
pub fn resolve_root_child<'a>(
    ruleset: &'a RuleSet,
    file_path: &str,
    root_key: &str,
    fallback: bool,
) -> (r: ResolvedType<'a>)
    ensures
        r@ == resolved(ruleset@, file_path@, root_key@, fallback),
{
    let by_key = match find_type_for_file(root_key, file_path, ruleset) {
        Some(t) => {
            if type_is_checked(t, ruleset) && (t.skip_root_key.len() == 0
                || should_skip_root_key(root_key, t)) {
                Some(t)
            } else {
                None
            }
        },
        None => None,
    };
    let found = match by_key {
        Some(t) => Some(t),
        None => find_type_in_place(ruleset, file_path, root_key, fallback),
    };
    match found {
        Some(t) => {
            if should_skip_root_key(root_key, t) {
                ResolvedType::Wrapper { type_def: t }
            } else if t.skip_root_key.len() > 0 {
                ResolvedType::Unknown
            } else {
                ResolvedType::Entity { type_def: t }
            }
        },
        None => ResolvedType::Unknown,
    }
}

} // verus!
