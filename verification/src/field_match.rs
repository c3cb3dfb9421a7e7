//! Which keys and values a field of a rule accepts.

use vstd::prelude::*;

use crate::ast::Value;
use crate::common::{
    all_hex, any_constant, any_upper, date_shape, datetime_shape, enum_accepts, enum_contains,
    enum_is_authoritative, enum_named, find_enum, has_constant, has_upper, is_authoritative,
    is_date_shape, is_datetime_shape, is_number, is_yes_or_no, leaf_value_to_string, one_of_ci,
    only_digits, only_hex, string_text, text_within, value_text, within,
};
use crate::number::read_number;
use crate::rule_converter::{unquote_key, unquoted};
use crate::rules_types::{
    FieldV, LinkInputV, NewField, Options, ParsedAliasPattern, PatternKind, PatternV, RuleType,
    RuleTypeV, RuleV, ValueType, ValueTypeV, lemma_views_push, rule_view, rules_view, views,
};
use crate::ruleset::{RuleSet, RuleSetV};
use crate::scope_engine::{read_way_back, way_back};
use crate::text::{
    CharSet, all_digits, ascii_lower, before_first, contains, contains_char, contains_ci,
    contains_text, decimal, ends, ends_char, ends_with, ends_with_char, eq_ci, head_before,
    is_digit, is_upper, list_contains, list_contains_ci, parse_i64, parse_int_within, print_i64,
    same, same_ci, starts, starts_char, starts_with, starts_with_char, strip_end, strip_prefix,
    strip_start, strip_suffix, texts, to_ascii_lower, to_chars, trim, trimmed,
};
use crate::type_index::{IndexV, TypeIndex};

verus! {

/// What a project defines, if it is known.
pub open spec fn opt_index(o: Option<&TypeIndex>) -> Option<IndexV> {
    match o {
        Some(i) => Some(i@),
        None => None,
    }
}

// ---------------------------------------------------------------------------
// Keys that open a scope

/// The key is one of the words for a scope.
pub open spec fn is_scope_keyword(key: Seq<char>) -> bool {
    let k = ascii_lower(key);
    way_back(k) is Some || k == "owner"@ || k == "controller"@ || k == "capital"@ || k
        == "overlord"@
}

/// The key has the shape of a country tag.
pub open spec fn is_tag(key: Seq<char>) -> bool {
    2 <= key.len() <= 4 && has_upper(key) && forall|i: int|
        0 <= i < key.len() ==> is_upper(#[trigger] key[i]) || is_digit(key[i])
}

/// The key has the shape of a scope command.
pub open spec fn is_scope_command(key: Seq<char>) -> bool {
    is_scope_keyword(key) || key.contains('.') || key.contains(':') || (key.len() > 0
        && all_digits(key)) || is_tag(key)
}

#[verifier::loop_isolation(false)]
fn looks_like_tag(key: &str) -> (r: bool)
    ensures
        r == is_tag(key@),
{
    let cs = to_chars(key);
    if cs.len() < 2 || cs.len() > 4 || !any_upper(key) {
        return false;
    }
    let mut i: usize = 0;
    while i < cs.len()
        invariant
            i <= cs@.len(),
            forall|j: int| 0 <= j < i ==> is_upper(#[trigger] cs@[j]) || is_digit(cs@[j]),
        decreases cs@.len() - i,
    {
        let c = cs[i];
        if !(('A' <= c && c <= 'Z') || ('0' <= c && c <= '9')) {
            return false;
        }
        i += 1;
    }
    true
}

/// Whether the key has the shape of a scope command: a word for a scope, a chain, a
/// prefixed reference, the number of a state, or a country tag. Where it leads is
/// not asked here.
pub fn looks_like_scope_command(key: &str) -> (r: bool)
    ensures
        r == is_scope_command(key@),
{
    let k = to_ascii_lower(key);
    let l = k.as_str();
    read_way_back(l).is_some() || same(l, "owner") || same(l, "controller") || same(l, "capital")
        || same(l, "overlord") || contains_char(key, '.') || contains_char(key, ':') || (
    key.unicode_len() > 0 && only_digits(key)) || looks_like_tag(key)
}

/// The value set in `value[set]`.
pub open spec fn set_name(source: Seq<char>) -> Option<Seq<char>> {
    match strip_start(source, "value["@) {
        Some(rest) => match strip_end(rest, "]"@) {
            Some(s) => Some(trimmed(s)),
            None => None,
        },
        None => None,
    }
}

/// The value set in `value[set]`; none for a source of another shape.
pub fn value_set_name(data_source: &str) -> (r: Option<&str>)
    ensures
        match r {
            Some(s) => set_name(data_source@) == Some(s@),
            None => set_name(data_source@) is None,
        },
{
    match strip_prefix(data_source, "value[") {
        Some(rest) => match strip_suffix(rest, "]") {
            Some(s) => Some(trim(s)),
            None => None,
        },
        None => None,
    }
}

/// The key is a member of a value set among the sources.
pub open spec fn in_sources(sources: Seq<Seq<char>>, key: Seq<char>, idx: IndexV) -> bool {
    exists|i: int|
        0 <= i < sources.len() && match set_name(#[trigger] sources[i]) {
            Some(set) => idx.in_set(set, key),
            None => false,
        }
}

/// The key is a member of a value set that a link from data draws on.
pub open spec fn is_linked_member(links: Seq<LinkInputV>, key: Seq<char>, idx: IndexV) -> bool {
    exists|i: int|
        0 <= i < links.len() && (#[trigger] links[i]).from_data && in_sources(
            links[i].data_source,
            key,
            idx,
        )
}

#[verifier::loop_isolation(false)]
fn sources_contain(sources: &Vec<String>, key: &str, idx: &TypeIndex) -> (r: bool)
    ensures
        r == in_sources(texts(sources@), key@, idx@),
{
    let ghost all = texts(sources@);
    let mut i: usize = 0;
    while i < sources.len()
        invariant
            i <= sources@.len(),
            forall|j: int|
                0 <= j < i ==> match set_name(#[trigger] all[j]) {
                    Some(set) => !idx@.in_set(set, key@),
                    None => true,
                },
        decreases sources@.len() - i,
    {
        assert(all[i as int] == sources@[i as int]@);
        match value_set_name(sources[i].as_str()) {
            Some(set) => {
                if idx.set_contains(set, key) {
                    return true;
                }
            },
            None => {},
        }
        i += 1;
    }
    false
}

/// Whether the key is a member of a value set that a link from data draws on: such a
/// member opens the scope that the link leads to.
#[verifier::loop_isolation(false)]
pub fn is_from_data_value_set_member(key: &str, ruleset: &RuleSet, idx: &TypeIndex) -> (r: bool)
    ensures
        r == is_linked_member(ruleset@.link_inputs, key@, idx@),
{
    let mut i: usize = 0;
    while i < ruleset.link_inputs.len()
        invariant
            i <= ruleset.link_inputs@.len(),
            forall|j: int|
                0 <= j < i ==> !((#[trigger] ruleset@.link_inputs[j]).from_data && in_sources(
                    ruleset@.link_inputs[j].data_source,
                    key@,
                    idx@,
                )),
        decreases ruleset.link_inputs@.len() - i,
    {
        let li = &ruleset.link_inputs[i];
        assert(ruleset@.link_inputs[i as int] == li@);
        if li.from_data && sources_contain(&li.data_source, key, idx) {
            return true;
        }
        i += 1;
    }
    false
}

/// The key can open a scope.
pub open spec fn opens_scope(key: Seq<char>, rs: RuleSetV, idx: Option<IndexV>) -> bool {
    is_scope_command(key) || rs.scope_links.contains(ascii_lower(key)) || match idx {
        Some(i) => i.names(key) || is_linked_member(rs.link_inputs, key, i),
        None => false,
    }
}

/// Whether the key can open a scope: a scope command, a link, an instance of a type,
/// or a member of a value set that a link draws on.
pub fn is_scope_key(key: &str, ruleset: &RuleSet, type_index: Option<&TypeIndex>) -> (r: bool)
    ensures
        r == opens_scope(key@, ruleset@, opt_index(type_index)),
{
    if looks_like_scope_command(key) {
        return true;
    }
    let lower = to_ascii_lower(key);
    if ruleset.scope_links.contains(lower.as_str()) {
        return true;
    }
    match type_index {
        Some(idx) => idx.is_any_instance(key) || is_from_data_value_set_member(key, ruleset, idx),
        None => false,
    }
}

// ---------------------------------------------------------------------------
// Aliases

/// How a key matches an alias whose name holds a placeholder.
#[derive(Clone, Copy, PartialEq, Eq, Structural)]
pub enum PatternMatch {
    /// The placeholder's data holds what stands in its place.
    Confident,
    /// The placeholder has no data, so anything may stand in its place.
    PermissiveOnly,
    No,
}

/// What stands in place of the placeholder.
pub open spec fn placeholder_text(p: PatternV, key: Seq<char>) -> Option<Seq<char>> {
    if key.len() >= p.prefix.len() + p.suffix.len() && starts(key, p.prefix) && ends(
        key,
        p.suffix,
    ) {
        Some(key.subrange(p.prefix.len() as int, key.len() - p.suffix.len()))
    } else {
        None
    }
}

/// The members of a value set, if it has any.
pub open spec fn set_members(rs: RuleSetV, name: Seq<char>) -> Option<Seq<Seq<char>>> {
    if rs.values.contains_key(name) && rs.values[name].len() > 0 {
        Some(rs.values[name])
    } else {
        None
    }
}

pub open spec fn confident_if(b: bool) -> PatternMatch {
    if b {
        PatternMatch::Confident
    } else {
        PatternMatch::No
    }
}

/// How a key matches an alias whose name holds a placeholder.
pub open spec fn pattern_match(
    p: PatternV,
    key: Seq<char>,
    rs: RuleSetV,
    idx: Option<IndexV>,
) -> PatternMatch {
    match placeholder_text(p, key) {
        None => PatternMatch::No,
        Some(middle) => match p.kind {
            PatternKind::Type => confident_if(
                match idx {
                    Some(i) => i.has(before_first(p.placeholder_name, CharSet::One('.')), middle),
                    None => false,
                },
            ),
            PatternKind::Enum => match enum_named(rs, p.placeholder_name) {
                Some(e) => confident_if(
                    contains_ci(e.values, middle) || has_constant(e.values) || !is_authoritative(
                        e,
                    ),
                ),
                None => PatternMatch::PermissiveOnly,
            },
            PatternKind::Value => match set_members(rs, p.placeholder_name) {
                Some(v) => confident_if(v.contains(middle)),
                None => PatternMatch::PermissiveOnly,
            },
        },
    }
}

fn confident(b: bool) -> (r: PatternMatch)
    ensures
        r == confident_if(b),
{
    if b {
        PatternMatch::Confident
    } else {
        PatternMatch::No
    }
}

fn between<'a>(key: &'a str, p: &ParsedAliasPattern) -> (r: Option<&'a str>)
    ensures
        match r {
            Some(m) => placeholder_text(p@, key@) == Some(m@),
            None => placeholder_text(p@, key@) is None,
        },
{
    let n: usize = key.unicode_len();
    let a: usize = p.prefix.as_str().unicode_len();
    let b: usize = p.suffix.as_str().unicode_len();
    if a > n || b > n - a || !starts_with(key, p.prefix.as_str()) || !ends_with(
        key,
        p.suffix.as_str(),
    ) {
        return None;
    }
    Some(key.substring_char(a, n - b))
}

/// How a key matches an alias whose name holds a placeholder. A type that is not
/// indexed has no instances; an enum or value set without members may have any.
pub fn classify_pattern_match(
    p: &ParsedAliasPattern,
    key: &str,
    ruleset: &RuleSet,
    type_index: Option<&TypeIndex>,
) -> (r: PatternMatch)
    ensures
        r == pattern_match(p@, key@, ruleset@, opt_index(type_index)),
{
    let name = p.placeholder_name.as_str();
    match between(key, p) {
        None => PatternMatch::No,
        Some(middle) => match p.kind {
            PatternKind::Type => match type_index {
                Some(idx) => confident(
                    idx.contains(head_before(name, CharSet::One('.')), middle),
                ),
                None => PatternMatch::No,
            },
            PatternKind::Enum => match find_enum(ruleset, name) {
                Some(e) => confident(
                    list_contains_ci(&e.values, middle) || any_constant(&e.values)
                        || !enum_is_authoritative(e),
                ),
                None => PatternMatch::PermissiveOnly,
            },
            PatternKind::Value => match ruleset.values.get(name) {
                Some(v) => {
                    assert(v.deep_view() =~= texts(v@));
                    if v.len() > 0 {
                        confident(list_contains(v, middle))
                    } else {
                        PatternMatch::PermissiveOnly
                    }
                },
                None => PatternMatch::PermissiveOnly,
            },
        },
    }
}

/// The places of the aliases of exactly that name.
pub open spec fn exact_places(rs: RuleSetV, category: Seq<char>, key: Seq<char>) -> Seq<usize> {
    if rs.alias_exact.contains_key(category) && rs.alias_exact[category].contains_key(key) {
        rs.alias_exact[category][key]
    } else {
        Seq::empty()
    }
}

/// There is an alias of exactly that name.
pub open spec fn has_exact(rs: RuleSetV, category: Seq<char>, key: Seq<char>) -> bool {
    rs.alias_exact.contains_key(category) && rs.alias_exact[category].contains_key(key)
}

fn find_exact<'a>(ruleset: &'a RuleSet, category: &str, key: &str) -> (r: Option<&'a Vec<usize>>)
    ensures
        match r {
            Some(v) => has_exact(ruleset@, category@, key@) && exact_places(
                ruleset@,
                category@,
                key@,
            ) == v@,
            None => !has_exact(ruleset@, category@, key@),
        },
{
    match ruleset.alias_exact.get(category) {
        Some(m) => match m.get(key) {
            Some(v) => {
                assert(v.deep_view() =~= v@);
                Some(v)
            },
            None => None,
        },
        None => None,
    }
}

/// A pattern, from the `i`th on, matches the key in some way.
pub open spec fn some_pattern(
    p: Seq<PatternV>,
    key: Seq<char>,
    rs: RuleSetV,
    idx: Option<IndexV>,
) -> bool {
    exists|i: int|
        0 <= i < p.len() && pattern_match(#[trigger] p[i], key, rs, idx) != PatternMatch::No
}

/// The category has an alias for the key. A category without aliases has one for
/// every key.
pub open spec fn category_takes(
    category: Seq<char>,
    key: Seq<char>,
    rs: RuleSetV,
    idx: Option<IndexV>,
) -> bool {
    has_exact(rs, category, key) || has_exact(rs, category, ascii_lower(key)) || (
    if rs.alias_categories.contains_key(category) {
        let c = rs.alias_categories[category];
        some_pattern(c.parsed_patterns, key, rs, idx) || (c.scope_field_idx is Some && opens_scope(
            key,
            rs,
            idx,
        ))
    } else {
        true
    })
}

#[verifier::loop_isolation(false)]
fn any_pattern(
    p: &Vec<ParsedAliasPattern>,
    key: &str,
    ruleset: &RuleSet,
    type_index: Option<&TypeIndex>,
) -> (r: bool)
    ensures
        r == some_pattern(views(p@), key@, ruleset@, opt_index(type_index)),
{
    let ghost all = views(p@);
    let mut i: usize = 0;
    while i < p.len()
        invariant
            i <= p@.len(),
            forall|j: int|
                0 <= j < i ==> pattern_match(
                    #[trigger] all[j],
                    key@,
                    ruleset@,
                    opt_index(type_index),
                ) == PatternMatch::No,
        decreases p@.len() - i,
    {
        assert(all[i as int] == p@[i as int]@);
        if classify_pattern_match(&p[i], key, ruleset, type_index) != PatternMatch::No {
            return true;
        }
        i += 1;
    }
    false
}

/// Whether the category has an alias for the key.
pub fn category_has_alias(
    category: &str,
    key: &str,
    ruleset: &RuleSet,
    type_index: Option<&TypeIndex>,
) -> (r: bool)
    ensures
        r == category_takes(category@, key@, ruleset@, opt_index(type_index)),
{
    if find_exact(ruleset, category, key).is_some() {
        return true;
    }
    let lower = to_ascii_lower(key);
    if find_exact(ruleset, category, lower.as_str()).is_some() {
        return true;
    }
    match ruleset.alias_categories.get(category) {
        None => true,
        Some(c) => any_pattern(&c.parsed_patterns, key, ruleset, type_index) || (
        c.scope_field_idx.is_some() && is_scope_key(key, ruleset, type_index)),
    }
}

/// The rules of the first `n` places, each with `confident`.
pub open spec fn rules_at(
    aliases: Seq<(Seq<char>, RuleV)>,
    places: Seq<usize>,
    n: int,
) -> Seq<(RuleV, bool)>
    decreases n,
{
    if n <= 0 || n > places.len() {
        Seq::empty()
    } else {
        rules_at(aliases, places, n - 1) + rule_at(aliases, places[n - 1], true)
    }
}

/// The rule of a place, if there is one.
pub open spec fn rule_at(
    aliases: Seq<(Seq<char>, RuleV)>,
    place: usize,
    confident: bool,
) -> Seq<(RuleV, bool)> {
    if place < aliases.len() {
        seq![(aliases[place as int].1, confident)]
    } else {
        Seq::empty()
    }
}

/// The rules of those of the first `n` patterns that match the key.
pub open spec fn rules_by_pattern(
    p: Seq<PatternV>,
    key: Seq<char>,
    rs: RuleSetV,
    idx: Option<IndexV>,
    n: int,
) -> Seq<(RuleV, bool)>
    decreases n,
{
    if n <= 0 || n > p.len() {
        Seq::empty()
    } else {
        let before = rules_by_pattern(p, key, rs, idx, n - 1);
        match pattern_match(p[n - 1], key, rs, idx) {
            PatternMatch::Confident => before + rule_at(rs.aliases, p[n - 1].alias_idx, true),
            PatternMatch::PermissiveOnly => before + rule_at(
                rs.aliases,
                p[n - 1].alias_idx,
                false,
            ),
            PatternMatch::No => before,
        }
    }
}

/// The rules of every alias for the key, each with whether the match is certain:
/// those of that name, or else of that name in lower case; those with a placeholder
/// that fits; and that for any scope, if the key opens one.
pub open spec fn overloads(
    rs: RuleSetV,
    idx: Option<IndexV>,
    category: Seq<char>,
    key: Seq<char>,
) -> Seq<(RuleV, bool)> {
    let exact = exact_places(rs, category, key);
    let by_name = rules_at(rs.aliases, exact, exact.len() as int);
    let lower = exact_places(rs, category, ascii_lower(key));
    let by_lower = if by_name.len() == 0 && has_upper(key) {
        rules_at(rs.aliases, lower, lower.len() as int)
    } else {
        Seq::empty()
    };
    let in_category = if rs.alias_categories.contains_key(category) {
        let c = rs.alias_categories[category];
        rules_by_pattern(c.parsed_patterns, key, rs, idx, c.parsed_patterns.len() as int) + (
        if c.scope_field_idx is Some && opens_scope(key, rs, idx) {
            rule_at(rs.aliases, c.scope_field_idx->0, true)
        } else {
            Seq::empty()
        })
    } else {
        Seq::empty()
    };
    by_name + by_lower + in_category
}

/// A rule with whether it is certain to be meant.
pub struct Overload<'a> {
    pub rule: &'a (RuleType, Options),
    pub confident: bool,
}

impl<'a> View for Overload<'a> {
    type V = (RuleV, bool);

    open spec fn view(&self) -> (RuleV, bool) {
        ((rule_view(self.rule.0), self.rule.1@), self.confident)
    }
}

fn add_rule_at<'a>(out: &mut Vec<Overload<'a>>, ruleset: &'a RuleSet, place: usize, confident: bool)
    ensures
        views(final(out)@) == views(old(out)@) + rule_at(ruleset@.aliases, place, confident),
{
    let ghost before = out@;
    if place < ruleset.aliases.len() {
        assert(ruleset@.aliases[place as int] == ruleset.aliases@[place as int]@);
        out.push(Overload { rule: &ruleset.aliases[place].1, confident });
        proof {
            lemma_views_push(before, out@.last());
        }
    }
    assert(views(out@) =~= views(before) + rule_at(ruleset@.aliases, place, confident));
}

fn add_rules_at<'a>(out: &mut Vec<Overload<'a>>, ruleset: &'a RuleSet, places: &Vec<usize>)
    ensures
        views(final(out)@) == views(old(out)@) + rules_at(
            ruleset@.aliases,
            places@,
            places@.len() as int,
        ),
{
    let ghost start = views(out@);
    let mut i: usize = 0;
    assert(views(out@) =~= start + rules_at(ruleset@.aliases, places@, 0));
    while i < places.len()
        invariant
            i <= places@.len(),
            views(out@) == start + rules_at(ruleset@.aliases, places@, i as int),
        decreases places@.len() - i,
    {
        add_rule_at(out, ruleset, places[i], true);
        assert(views(out@) =~= start + rules_at(ruleset@.aliases, places@, i + 1));
        i += 1;
    }
}

fn add_pattern_rules<'a>(
    out: &mut Vec<Overload<'a>>,
    ruleset: &'a RuleSet,
    p: &Vec<ParsedAliasPattern>,
    key: &str,
    type_index: Option<&TypeIndex>,
)
    ensures
        views(final(out)@) == views(old(out)@) + rules_by_pattern(
            views(p@),
            key@,
            ruleset@,
            opt_index(type_index),
            p@.len() as int,
        ),
{
    let ghost start = views(out@);
    let ghost all = views(p@);
    let ghost idx = opt_index(type_index);
    let mut i: usize = 0;
    assert(views(out@) =~= start + rules_by_pattern(all, key@, ruleset@, idx, 0));
    while i < p.len()
        invariant
            i <= p@.len(),
            all == views(p@),
            idx == opt_index(type_index),
            views(out@) == start + rules_by_pattern(all, key@, ruleset@, idx, i as int),
        decreases p@.len() - i,
    {
        assert(all[i as int] == p@[i as int]@);
        match classify_pattern_match(&p[i], key, ruleset, type_index) {
            PatternMatch::Confident => {
                add_rule_at(out, ruleset, p[i].alias_idx, true);
            },
            PatternMatch::PermissiveOnly => {
                add_rule_at(out, ruleset, p[i].alias_idx, false);
            },
            PatternMatch::No => {},
        }
        assert(views(out@) =~= start + rules_by_pattern(all, key@, ruleset@, idx, i + 1));
        i += 1;
    }
}

/// The rules of every alias for the key, each with whether the match is certain. The
/// scope check trusts certain ones alone: a key that matches an enum without members
/// by chance says nothing of the scope it needs.
pub fn alias_overloads<'a>(
    ruleset: &'a RuleSet,
    type_index: Option<&TypeIndex>,
    category: &str,
    key: &str,
) -> (r: Vec<Overload<'a>>)
    ensures
        views(r@) == overloads(ruleset@, opt_index(type_index), category@, key@),
{
    let ghost idx = opt_index(type_index);
    let mut out: Vec<Overload<'a>> = Vec::new();
    assert(views(out@) =~= Seq::empty());
    match find_exact(ruleset, category, key) {
        Some(v) => {
            add_rules_at(&mut out, ruleset, v);
        },
        None => {},
    }
    let ghost by_name = views(out@);
    assert(by_name =~= ({
        let exact = exact_places(ruleset@, category@, key@);
        rules_at(ruleset@.aliases, exact, exact.len() as int)
    }));
    if out.len() == 0 && any_upper(key) {
        let lower = to_ascii_lower(key);
        match find_exact(ruleset, category, lower.as_str()) {
            Some(v) => {
                add_rules_at(&mut out, ruleset, v);
            },
            None => {},
        }
    }
    let ghost named = views(out@);
    assert(named =~= by_name + ({
        let lower = exact_places(ruleset@, category@, ascii_lower(key@));
        if by_name.len() == 0 && has_upper(key@) {
            rules_at(ruleset@.aliases, lower, lower.len() as int)
        } else {
            Seq::empty()
        }
    }));
    match ruleset.alias_categories.get(category) {
        Some(c) => {
            add_pattern_rules(&mut out, ruleset, &c.parsed_patterns, key, type_index);
            match c.scope_field_idx {
                Some(i) => {
                    if is_scope_key(key, ruleset, type_index) {
                        add_rule_at(&mut out, ruleset, i, true);
                    }
                },
                None => {},
            }
        },
        None => {},
    }
    assert(views(out@) =~= overloads(ruleset@, idx, category@, key@));
    out
}

// ---------------------------------------------------------------------------
// Fields and keys

/// The field, on the left of a rule, accepts the key.
pub open spec fn takes_key(
    f: FieldV,
    key: Seq<char>,
    rs: RuleSetV,
    idx: Option<IndexV>,
) -> bool
    decreases f,
{
    match f {
        FieldV::SpecificField(s) => eq_ci(s, key),
        FieldV::AliasField(category) => category_takes(category, key, rs, idx),
        FieldV::SingleAliasField(s) => s == key,
        FieldV::IgnoreField(inner) => takes_key(*inner, key, rs, idx),
        FieldV::IgnoreMarkerField => true,
        FieldV::ScalarField => true,
        FieldV::ValueField(t) => match t {
            ValueTypeV::Enum(name) => match enum_named(rs, name) {
                Some(e) => contains_ci(e.values, key) || has_constant(e.values)
                    || !is_authoritative(e),
                None => true,
            },
            ValueTypeV::Int { .. } => parse_int_within(
                key,
                true,
                i64::MIN as int,
                i64::MAX as int,
            ) is Some,
            ValueTypeV::Float { .. } => read_number(key) is Some,
            ValueTypeV::Percent => read_number(key) is Some,
            ValueTypeV::Date => date_shape(key),
            ValueTypeV::DateTime => datetime_shape(key),
            _ => false,
        },
        FieldV::MarkerField(_) => false,
        _ => true,
    }
}

/// Whether the field, on the left of a rule, accepts the key. Keys of fields and
/// commands match whatever their case. A key that must name an instance, a scope, a
/// variable or a file is accepted here: that it does is asked elsewhere.
pub fn field_matches_key(
    field: &NewField,
    key: &str,
    ruleset: &RuleSet,
    type_index: Option<&TypeIndex>,
) -> (r: bool)
    ensures
        r == takes_key(field@, key@, ruleset@, opt_index(type_index)),
    decreases field,
{
    match field {
        NewField::SpecificField(s) => same_ci(s.as_str(), key),
        NewField::AliasField(category) => category_has_alias(
            category.as_str(),
            key,
            ruleset,
            type_index,
        ),
        NewField::SingleAliasField(s) => same(s.as_str(), key),
        NewField::IgnoreField(inner) => field_matches_key(&**inner, key, ruleset, type_index),
        NewField::IgnoreMarkerField => true,
        NewField::ScalarField => true,
        NewField::ValueField(t) => match t {
            ValueType::Enum(name) => match find_enum(ruleset, name.as_str()) {
                Some(e) => list_contains_ci(&e.values, key) || any_constant(&e.values)
                    || !enum_is_authoritative(e),
                None => true,
            },
            ValueType::Int { .. } => parse_i64(key).is_some(),
            ValueType::Float { .. } => is_number(key),
            ValueType::Percent => is_number(key),
            ValueType::Date => is_date_shape(key),
            ValueType::DateTime => is_datetime_shape(key),
            _ => false,
        },
        NewField::MarkerField(_) => false,
        _ => true,
    }
}

/// The rule is for a leaf, and its field on the left accepts the key.
pub open spec fn rule_takes_key(
    rt: RuleTypeV,
    key: Seq<char>,
    rs: RuleSetV,
    idx: Option<IndexV>,
) -> bool {
    match rt {
        RuleTypeV::LeafRule { left, .. } => takes_key(left, key, rs, idx),
        RuleTypeV::NodeRule { left, .. } => takes_key(left, key, rs, idx),
        _ => false,
    }
}

/// Whether the rule is for a leaf of that key. A rule for a block counts: a block is
/// a leaf too.
pub fn rule_matches_leaf_key(
    rule_type: &RuleType,
    key: &str,
    ruleset: &RuleSet,
    type_index: Option<&TypeIndex>,
) -> (r: bool)
    ensures
        r == rule_takes_key(rule_view(*rule_type), key@, ruleset@, opt_index(type_index)),
{
    match rule_type {
        RuleType::LeafRule { left, .. } => field_matches_key(left, key, ruleset, type_index),
        RuleType::NodeRule { left, .. } => field_matches_key(left, key, ruleset, type_index),
        _ => false,
    }
}

/// The rule is for that key by name.
pub open spec fn is_specific(rt: RuleTypeV, key: Seq<char>) -> bool {
    match rt {
        RuleTypeV::LeafRule { left: FieldV::SpecificField(s), .. } => eq_ci(s, key),
        RuleTypeV::NodeRule { left: FieldV::SpecificField(s), .. } => eq_ci(s, key),
        _ => false,
    }
}

fn rule_is_specific(rt: &RuleType, key: &str) -> (r: bool)
    ensures
        r == is_specific(rule_view(*rt), key@),
{
    match rt {
        RuleType::LeafRule { left: NewField::SpecificField(s), .. } => same_ci(s.as_str(), key),
        RuleType::NodeRule { left: NewField::SpecificField(s), .. } => same_ci(s.as_str(), key),
        _ => false,
    }
}

/// One of the rules is for that key by name.
pub open spec fn any_specific(rules: Seq<RuleV>, key: Seq<char>) -> bool {
    exists|i: int| 0 <= i < rules.len() && is_specific((#[trigger] rules[i]).0, key)
}

/// Those of the first `n` rules that are for a leaf of that key; with `specific`,
/// only those that are so by name.
pub open spec fn matching_rules(
    rules: Seq<RuleV>,
    key: Seq<char>,
    rs: RuleSetV,
    idx: Option<IndexV>,
    specific: bool,
    n: int,
) -> Seq<RuleV>
    decreases n,
{
    if n <= 0 || n > rules.len() {
        Seq::empty()
    } else {
        let before = matching_rules(rules, key, rs, idx, specific, n - 1);
        if rule_takes_key(rules[n - 1].0, key, rs, idx) && (!specific || is_specific(
            rules[n - 1].0,
            key,
        )) {
            before.push(rules[n - 1])
        } else {
            before
        }
    }
}

/// The rules for a leaf of that key. Rules that are so by name leave no place to
/// those that accept many keys.
pub open spec fn matching(
    rules: Seq<RuleV>,
    key: Seq<char>,
    rs: RuleSetV,
    idx: Option<IndexV>,
) -> Seq<RuleV> {
    matching_rules(rules, key, rs, idx, any_specific(rules, key), rules.len() as int)
}

/// References to rules.
pub open spec fn refs_view(s: Seq<&(RuleType, Options)>) -> Seq<RuleV> {
    Seq::new(s.len(), |i: int| (rule_view(s[i].0), s[i].1@))
}

#[verifier::loop_isolation(false)]
fn has_specific(rules: &Vec<(RuleType, Options)>, key: &str) -> (r: bool)
    ensures
        r == any_specific(rules_view(rules@), key@),
{
    let ghost all = rules_view(rules@);
    let mut i: usize = 0;
    while i < rules.len()
        invariant
            i <= rules@.len(),
            forall|j: int| 0 <= j < i ==> !is_specific((#[trigger] all[j]).0, key@),
        decreases rules@.len() - i,
    {
        assert(all[i as int].0 == rule_view(rules@[i as int].0));
        if rule_is_specific(&rules[i].0, key) {
            return true;
        }
        i += 1;
    }
    false
}

/// The rules for a leaf of that key.
pub fn matching_candidates<'a>(
    rules: &'a Vec<(RuleType, Options)>,
    key: &str,
    ruleset: &RuleSet,
    type_index: Option<&TypeIndex>,
) -> (r: Vec<&'a (RuleType, Options)>)
    ensures
        refs_view(r@) == matching(rules_view(rules@), key@, ruleset@, opt_index(type_index)),
{
    let specific = has_specific(rules, key);
    let ghost all = rules_view(rules@);
    let ghost idx = opt_index(type_index);
    let mut out: Vec<&'a (RuleType, Options)> = Vec::new();
    let mut i: usize = 0;
    assert(refs_view(out@) =~= matching_rules(all, key@, ruleset@, idx, specific, 0));
    while i < rules.len()
        invariant
            i <= rules@.len(),
            all == rules_view(rules@),
            idx == opt_index(type_index),
            refs_view(out@) == matching_rules(all, key@, ruleset@, idx, specific, i as int),
        decreases rules@.len() - i,
    {
        assert(all[i as int] == (rule_view(rules@[i as int].0), rules@[i as int].1@));
        if rule_matches_leaf_key(&rules[i].0, key, ruleset, type_index) && (!specific
            || rule_is_specific(&rules[i].0, key)) {
            let ghost before = refs_view(out@);
            out.push(&rules[i]);
            assert(refs_view(out@) =~= before.push(all[i as int]));
        }
        i += 1;
    }
    out
}

// ---------------------------------------------------------------------------
// Fields and values

/// The text may stand in place of any value: a scripted variable, a reference to
/// localisation, or inline arithmetic.
pub open spec fn is_dynamic_text(s: Seq<char>) -> bool {
    starts_char(s, '@') || contains_text(s, "$$"@) || starts_char(s, '[')
}

/// Whether the text may stand in place of any value.
pub fn text_is_dynamic(s: &str) -> (r: bool)
    ensures
        r == is_dynamic_text(s@),
{
    starts_with_char(s, '@') || contains(s, "$$") || starts_with_char(s, '[')
}

/// The kind of value accepts the text of a string, which has no quotes.
pub open spec fn value_type_takes_text(t: ValueTypeV, s: Seq<char>, rs: RuleSetV) -> bool {
    match t {
        ValueTypeV::Bool => one_of_ci(s, "yes"@, "no"@),
        ValueTypeV::Int { min, max } => match parse_int_within(
            s,
            true,
            i64::MIN as int,
            i64::MAX as int,
        ) {
            Some(v) => min <= v <= max,
            None => false,
        },
        ValueTypeV::Float { min, max } => text_within(s, min, max),
        ValueTypeV::Enum(name) => enum_accepts(rs, name, s),
        ValueTypeV::Percent => ends_char(s, '%') || read_number(s) is Some,
        ValueTypeV::Date => date_shape(s),
        ValueTypeV::DateTime => datetime_shape(s),
        ValueTypeV::Ck2Dna => s.len() == 32 && all_hex(s),
        ValueTypeV::Ck2DnaProperty => (s.len() == 8 || s.len() == 32) && all_hex(s),
        ValueTypeV::IrFamilyName => true,
        ValueTypeV::StlNameFormat(_) => true,
        ValueTypeV::MathExpr => true,
    }
}

/// The kind of value accepts a value that is no string.
pub open spec fn value_type_takes_other(t: ValueTypeV, v: Value, rs: RuleSetV) -> bool {
    match (t, v) {
        (ValueTypeV::MathExpr, _) => true,
        (ValueTypeV::Bool, Value::Bool(_)) => true,
        (ValueTypeV::Int { min, max }, Value::Int(n)) => min <= n <= max,
        (ValueTypeV::Float { min, max }, Value::Float(s)) => text_within(s@, min, max),
        (ValueTypeV::Float { min, max }, Value::Int(n)) => text_within(
            decimal(n as int),
            min,
            max,
        ),
        (ValueTypeV::Enum(name), Value::Int(n)) => enum_accepts(rs, name, decimal(n as int)),
        (ValueTypeV::Enum(name), Value::Float(s)) => enum_accepts(rs, name, s@),
        (ValueTypeV::Percent, Value::Float(_)) => true,
        (ValueTypeV::Percent, Value::Int(_)) => true,
        _ => false,
    }
}

/// The field accepts a bare or quoted string.
pub open spec fn takes_text(f: FieldV, text: Seq<char>, rs: RuleSetV) -> bool {
    let s = unquoted(text);
    is_dynamic_text(s) || match f {
        FieldV::ValueField(t) => value_type_takes_text(t, s, rs),
        FieldV::SpecificField(x) => eq_ci(s, x),
        FieldV::TypeField(_) => text.len() > 0,
        FieldV::ScopeField(_) => text.len() > 0,
        FieldV::VariableField { min, max, .. } => read_number(s) is None || text_within(
            s,
            min,
            max,
        ),
        _ => true,
    }
}

/// The field accepts a value that is no string.
pub open spec fn takes_other(f: FieldV, v: Value, rs: RuleSetV) -> bool {
    match f {
        FieldV::ValueField(t) => value_type_takes_other(t, v, rs),
        FieldV::ScalarField => true,
        FieldV::SpecificField(s) => match v {
            Value::Bool(b) => s == (if b {
                "yes"@
            } else {
                "no"@
            }),
            Value::Clause(_) => true,
            _ => s == value_text(v),
        },
        FieldV::TypeField(_) => v is Int || v is Float,
        FieldV::ScopeField(_) => v is Int || v is Float,
        FieldV::VariableField { min, max, .. } => match v {
            Value::Bool(_) => true,
            Value::Clause(_) => false,
            _ => text_within(value_text(v), min, max),
        },
        FieldV::LocalisationField { .. } => v is Clause,
        FieldV::FilepathField { .. } => false,
        FieldV::IconField(_) => false,
        FieldV::VariableGetField(_) => true,
        FieldV::VariableSetField(_) => true,
        FieldV::ValueScopeField { .. } => v is Int || v is Float,
        FieldV::ValueScopeMarkerField { .. } => v is Int || v is Float,
        FieldV::AliasValueKeysField(_) => false,
        FieldV::AliasField(_) => v is Clause,
        FieldV::SingleAliasField(_) => v is Clause,
        FieldV::MarkerField(_) => true,
        FieldV::IgnoreMarkerField => true,
        FieldV::IgnoreField(_) => true,
    }
}

/// The field, on the right of a rule, accepts the value.
pub open spec fn takes_value(f: FieldV, v: Value, rs: RuleSetV) -> bool {
    match string_text(v) {
        Some(text) => takes_text(f, text, rs),
        None => takes_other(f, v, rs),
    }
}

fn value_type_matches_text(t: &ValueType, s: &str, ruleset: &RuleSet) -> (r: bool)
    ensures
        r == value_type_takes_text(t@, s@, ruleset@),
{
    match t {
        ValueType::Bool => is_yes_or_no(s),
        ValueType::Int { min, max } => match parse_i64(s) {
            Some(v) => *min as i64 <= v && v <= *max as i64,
            None => false,
        },
        ValueType::Float { min, max } => within(s, min.as_str(), max.as_str()),
        ValueType::Enum(name) => enum_contains(ruleset, name.as_str(), s),
        ValueType::Percent => ends_with_char(s, '%') || is_number(s),
        ValueType::Date => is_date_shape(s),
        ValueType::DateTime => is_datetime_shape(s),
        ValueType::Ck2Dna => s.unicode_len() == 32 && only_hex(s),
        ValueType::Ck2DnaProperty => (s.unicode_len() == 8 || s.unicode_len() == 32) && only_hex(s),
        ValueType::IrFamilyName => true,
        ValueType::StlNameFormat(_) => true,
        ValueType::MathExpr => true,
    }
}

fn value_type_matches_other(t: &ValueType, v: &Value, ruleset: &RuleSet) -> (r: bool)
    ensures
        r == value_type_takes_other(t@, *v, ruleset@),
{
    match (t, v) {
        (ValueType::MathExpr, _) => true,
        (ValueType::Bool, Value::Bool(_)) => true,
        (ValueType::Int { min, max }, Value::Int(n)) => *min as i64 <= *n && *n <= *max as i64,
        (ValueType::Float { min, max }, Value::Float(s)) => within(
            s.as_str(),
            min.as_str(),
            max.as_str(),
        ),
        (ValueType::Float { min, max }, Value::Int(n)) => within(
            print_i64(*n).as_str(),
            min.as_str(),
            max.as_str(),
        ),
        (ValueType::Enum(name), Value::Int(n)) => enum_contains(
            ruleset,
            name.as_str(),
            print_i64(*n).as_str(),
        ),
        (ValueType::Enum(name), Value::Float(s)) => enum_contains(
            ruleset,
            name.as_str(),
            s.as_str(),
        ),
        (ValueType::Percent, Value::Float(_)) => true,
        (ValueType::Percent, Value::Int(_)) => true,
        _ => false,
    }
}

fn field_matches_text(f: &NewField, text: &str, ruleset: &RuleSet) -> (r: bool)
    ensures
        r == takes_text(f@, text@, ruleset@),
{
    let s = unquote_key(text);
    if text_is_dynamic(s) {
        return true;
    }
    match f {
        NewField::ValueField(t) => value_type_matches_text(t, s, ruleset),
        NewField::SpecificField(x) => same_ci(s, x.as_str()),
        NewField::TypeField(_) => text.unicode_len() > 0,
        NewField::ScopeField(_) => text.unicode_len() > 0,
        NewField::VariableField { min, max, .. } => !is_number(s) || within(
            s,
            min.as_str(),
            max.as_str(),
        ),
        _ => true,
    }
}

fn field_matches_other(f: &NewField, v: &Value, ruleset: &RuleSet) -> (r: bool)
    requires
        string_text(*v) is None,
    ensures
        r == takes_other(f@, *v, ruleset@),
{
    let is_number = match v {
        Value::Int(_) => true,
        Value::Float(_) => true,
        _ => false,
    };
    let is_clause = match v {
        Value::Clause(_) => true,
        _ => false,
    };
    match f {
        NewField::ValueField(t) => value_type_matches_other(t, v, ruleset),
        NewField::ScalarField => true,
        NewField::SpecificField(s) => match v {
            Value::Bool(b) => if *b {
                same(s.as_str(), "yes")
            } else {
                same(s.as_str(), "no")
            },
            Value::Clause(_) => true,
            _ => same(s.as_str(), leaf_value_to_string(v).as_str()),
        },
        NewField::TypeField(_) => is_number,
        NewField::ScopeField(_) => is_number,
        NewField::VariableField { min, max, .. } => match v {
            Value::Bool(_) => true,
            Value::Clause(_) => false,
            _ => within(leaf_value_to_string(v).as_str(), min.as_str(), max.as_str()),
        },
        NewField::LocalisationField { .. } => is_clause,
        NewField::FilepathField { .. } => false,
        NewField::IconField(_) => false,
        NewField::VariableGetField(_) => true,
        NewField::VariableSetField(_) => true,
        NewField::ValueScopeField { .. } => is_number,
        NewField::ValueScopeMarkerField { .. } => is_number,
        NewField::AliasValueKeysField(_) => false,
        NewField::AliasField(_) => is_clause,
        NewField::SingleAliasField(_) => is_clause,
        NewField::MarkerField(_) => true,
        NewField::IgnoreMarkerField => true,
        NewField::IgnoreField(_) => true,
    }
}

/// Whether the field, on the right of a rule, accepts the value. That a name is one
/// of an instance, a scope or a file is asked elsewhere.
pub fn field_matches_value(field: &NewField, value: &Value, ruleset: &RuleSet) -> (r: bool)
    ensures
        r == takes_value(field@, *value, ruleset@),
{
    match value {
        Value::String(s) => field_matches_text(field, s.as_str(), ruleset),
        Value::QString(s) => field_matches_text(field, s.as_str(), ruleset),
        _ => field_matches_other(field, value, ruleset),
    }
}

} // verus!
