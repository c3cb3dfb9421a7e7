//! What aliases, localisation keys and definitions a script or a configuration refers to.

use vstd::prelude::*;

use crate::ast::{Child, Comment, Leaf, LeafValue, SourcePos, SourceRange, Value};
use crate::check_laws::lemma_sum_contains;
use crate::common::{date_shape, has_upper};
use crate::config_validation::{
    ParseErrorV, child_problems, children_problems, field_problem, value_problems,
};
use crate::context::{
    CtxV, LocCommandsV, LocDiagnosticV, LocIndexV, LocLanguageV, command_diagnostics,
    missing_languages,
};
use crate::diagnostic::ErrorV;
use crate::field_match::{
    PatternMatch, exact_places, is_tag, opens_scope, overloads, pattern_match, rules_at,
    rules_by_pattern, takes_key,
};
use crate::field_parser::field_of;
use crate::key_buffer::folded;
use crate::loc_field::{
    LocReference, command_problem, command_problems, existence_problems, is_bare,
    loc_field_problems, missing_in, reference_problems,
};
use crate::missing_loc::{instance_lacks, key_problems, lacking_key, type_lacks, types_lack};
use crate::number::read_number;
use crate::resolve::path_matches;
use crate::rule_converter::config_text;
use crate::rules_types::{
    FieldV, PatternKind, PatternV, RuleV, TypeDefV, TypeLocalisationV, TypeTypeV, ValueTypeV,
};
use crate::ruleset::RuleSetV;
use crate::scope_engine::{RegistryV, ScopeId, ScopeV};
use crate::text::{
    CharSet, all_digits, ascii_lower, before_first, eq_ci, is_upper, lowercase, parse_int,
    starts_char,
};
use crate::text_laws::{is_free_of, law_split_first, lemma_find_is, lemma_rfind_is};
use crate::type_index::{IndexV, InstanceV, beside, file_name, instances_of};
use crate::type_laws::lemma_listed;
use crate::value_laws::{is_instance, is_one, known_as, lemma_is_instance};

verus! {

// ---------------------------------------------------------------------------
// Aliases

proof fn lemma_rules_at(aliases: Seq<(Seq<char>, RuleV)>, places: Seq<usize>, n: int, k: int)
    requires
        0 <= k < n <= places.len(),
        places[k] < aliases.len(),
    ensures
        rules_at(aliases, places, n).contains((aliases[places[k] as int].1, true)),
    decreases n,
{
    let r = (aliases[places[k] as int].1, true);
    let now = rules_at(aliases, places, n);
    let before = rules_at(aliases, places, n - 1);
    if k < n - 1 {
        lemma_rules_at(aliases, places, n - 1, k);
        let i = choose|i: int| 0 <= i < before.len() && before[i] == r;
        assert(now[i] == r);
    } else {
        assert(now[before.len() as int] == r);
    }
}

/// Every alias of exactly that name is an overload of it, and a certain one.
pub proof fn law_aliases_by_name(
    rs: RuleSetV,
    idx: Option<IndexV>,
    category: Seq<char>,
    key: Seq<char>,
    k: int,
)
    requires
        rs.alias_exact.contains_key(category),
        rs.alias_exact[category].contains_key(key),
        0 <= k < rs.alias_exact[category][key].len(),
        rs.alias_exact[category][key][k] < rs.aliases.len(),
    ensures
        overloads(rs, idx, category, key).contains(
            (rs.aliases[rs.alias_exact[category][key][k] as int].1, true),
        ),
{
    let places = rs.alias_exact[category][key];
    let r = (rs.aliases[places[k] as int].1, true);
    lemma_rules_at(rs.aliases, places, places.len() as int, k);
    let first = rules_at(rs.aliases, places, places.len() as int);
    let i = choose|i: int| 0 <= i < first.len() && first[i] == r;
    assert(overloads(rs, idx, category, key)[i] == r);
}

/// What stands in the place of the placeholder decides whether a key is for an alias with
/// one: an instance of the type, a member of the enum or of the value set. Where nothing
/// is known of the enum or the value set, the key may be for it.
#[verifier::rlimit(50)]
pub proof fn law_placeholders(
    p: PatternV,
    middle: Seq<char>,
    rs: RuleSetV,
    idx: Option<IndexV>,
)
    ensures
        ({
            let m = pattern_match(p, p.prefix + middle + p.suffix, rs, idx);
            let name = p.placeholder_name;
            &&& p.kind == PatternKind::Type && is_free_of(name, CharSet::One('.')) ==> (match idx {
                Some(i) => if is_instance(i, name, middle) {
                    m == PatternMatch::Confident
                } else {
                    m == PatternMatch::No
                },
                None => m == PatternMatch::No,
            })
            &&& p.kind == PatternKind::Enum ==> ({
                let known = rs.enum_by_name.contains_key(name) && rs.enum_by_name[name]
                    < rs.enums.len() && rs.enums[rs.enum_by_name[name] as int].values.len() > 0;
                let values = rs.enums[rs.enum_by_name[name] as int].values;
                let member = exists|i: int|
                    0 <= i < values.len() && ascii_lower(#[trigger] values[i]) == ascii_lower(
                        middle,
                    );
                let constant = exists|i: int|
                    0 <= i < values.len() && (#[trigger] values[i]).len() > 0 && values[i][0]
                        == '@';
                &&& !known ==> m == PatternMatch::PermissiveOnly
                &&& known && (member || constant || values.len() > 5) ==> m
                    == PatternMatch::Confident
                &&& known && !member && !constant && values.len() <= 5 ==> m == PatternMatch::No
            })
            &&& p.kind == PatternKind::Value ==> ({
                let known = rs.values.contains_key(name) && rs.values[name].len() > 0;
                &&& !known ==> m == PatternMatch::PermissiveOnly
                &&& known && rs.values[name].contains(middle) ==> m == PatternMatch::Confident
                &&& known && !rs.values[name].contains(middle) ==> m == PatternMatch::No
            })
        }),
{
    let key = p.prefix + middle + p.suffix;
    assert(key.subrange(0, p.prefix.len() as int) =~= p.prefix);
    assert(key.subrange(key.len() - p.suffix.len(), key.len() as int) =~= p.suffix);
    assert(key.subrange(p.prefix.len() as int, key.len() - p.suffix.len()) =~= middle);
    let name = p.placeholder_name;
    if is_free_of(name, CharSet::One('.')) {
        lemma_find_is(name, CharSet::One('.'), 0, name.len() as int);
        assert(before_first(name, CharSet::One('.')) =~= name);
    }
    match idx {
        Some(i) => lemma_is_instance(i, name, middle),
        None => {},
    }
    if rs.enum_by_name.contains_key(name) && rs.enum_by_name[name] < rs.enums.len() {
        let values = rs.enums[rs.enum_by_name[name] as int].values;
        lemma_listed(values, middle);
        assert forall|i: int| 0 <= i < values.len() implies ((#[trigger] values[i]).len() > 0
            && values[i][0] == '@') == starts_char(values[i], '@') by {}
    }
}

/// A key that does not have what stands around the placeholder is not for the alias.
pub proof fn law_text_around_placeholders(
    p: PatternV,
    key: Seq<char>,
    rs: RuleSetV,
    idx: Option<IndexV>,
)
    requires
        pattern_match(p, key, rs, idx) != PatternMatch::No,
    ensures
        exists|middle: Seq<char>| key == #[trigger] (p.prefix + middle + p.suffix),
{
    let a = p.prefix.len() as int;
    let b = key.len() - p.suffix.len();
    let middle = key.subrange(a, b);
    assert(key.subrange(0, a) == p.prefix);
    assert(key.subrange(b, key.len() as int) == p.suffix);
    assert(key =~= key.subrange(0, a) + middle + key.subrange(b, key.len() as int));
    assert(key == p.prefix + middle + p.suffix);
}

/// A category takes a key exactly if it has an alias of that name, in its own case or in
/// lower case, one whose placeholder the key fills, or one for scopes, where the key opens
/// one. One without aliases takes every key.
pub proof fn law_categories(
    category: Seq<char>,
    key: Seq<char>,
    rs: RuleSetV,
    idx: Option<IndexV>,
)
    ensures
        ({
            let named = |k: Seq<char>|
                rs.alias_exact.contains_key(category) && rs.alias_exact[category].contains_key(k);
            let c = rs.alias_categories[category];
            takes_key(FieldV::AliasField(category), key, rs, idx) <==> {
                ||| named(key)
                ||| named(ascii_lower(key))
                ||| !rs.alias_categories.contains_key(category)
                ||| exists|i: int|
                    0 <= i < c.parsed_patterns.len() && pattern_match(
                        #[trigger] c.parsed_patterns[i],
                        key,
                        rs,
                        idx,
                    ) != PatternMatch::No
                ||| c.scope_field_idx is Some && opens_scope(key, rs, idx)
            }
        }),
{
}

// ---------------------------------------------------------------------------
// Keys

/// A field on the left of a rule takes: its own word, in whatever case; a number, where it
/// is for numbers; every key, where it is for anything.
pub proof fn law_keys(key: Seq<char>, word: Seq<char>, rs: RuleSetV, idx: Option<IndexV>)
    ensures
        takes_key(FieldV::SpecificField(word), key, rs, idx) <==> ascii_lower(word) == ascii_lower(
            key,
        ),
        takes_key(FieldV::ScalarField, key, rs, idx),
        takes_key(FieldV::ValueField(ValueTypeV::Float { min: word, max: word }), key, rs, idx)
            <==> read_number(key) is Some,
        takes_key(FieldV::ValueField(ValueTypeV::Int { min: 0, max: 0 }), key, rs, idx) <==> (
        parse_int(key, true) matches Some(n) && i64::MIN <= n <= i64::MAX),
        !takes_key(FieldV::ValueField(ValueTypeV::Bool), key, rs, idx),
{
}

// ---------------------------------------------------------------------------
// Localisation

/// The reference is one to a key: it has a name, without spaces, and is not filled in when
/// the game runs.
pub open spec fn is_plain_key(key: Seq<char>) -> bool {
    key.len() > 0 && !key.contains(' ') && !key.contains('[') && !key.contains('$') && key[0] != '@'
}

/// Some language has the key, or the project provides it otherwise.
pub open spec fn is_provided(ctx: CtxV, loc: LocIndexV, key: Seq<char>) -> bool {
    ||| exists|i: int|
        0 <= i < loc.languages.len() && (#[trigger] loc.languages[i]).keys.contains(folded(key))
    ||| ctx.extra_loc_keys matches Some(k) && k.contains(folded(key))
}

/// A reference to localisation is reported, as `CW100`, exactly if no language has the key
/// and nothing else provides it. Without an index nothing is.
pub proof fn law_missing_keys(ctx: CtxV, loc: LocIndexV, key: Seq<char>, at: LocReference)
    requires
        ctx.loc == Some(loc),
        is_plain_key(key),
        !at.synced,
        !at.is_inline,
    ensures
        ({
            let e = existence_problems(ctx, loc, key, at);
            if is_provided(ctx, loc, key) {
                e.len() == 0
            } else {
                is_one(e, "CW100"@, ctx.file, at.pos.start)
            }
        }),
        !is_provided(ctx, loc, key) ==> reference_problems(ctx, key, at, None) =~= existence_problems(
            ctx,
            loc,
            key,
            at,
        ),
        reference_problems(CtxV { loc: None, ..ctx }, key, at, None).len() == 0,
{
}

proof fn lemma_missing_in(
    file: Seq<char>,
    pos: SourceRange,
    key: Seq<char>,
    langs: Seq<Seq<char>>,
    n: int,
)
    requires
        0 <= n <= langs.len(),
    ensures
        missing_in(file, pos, key, langs, n).len() == n,
        forall|i: int|
            0 <= i < n ==> (#[trigger] missing_in(file, pos, key, langs, n)[i]).code == Some(
                "CW100"@,
            ) && missing_in(file, pos, key, langs, n)[i].file == file && missing_in(
                file,
                pos,
                key,
                langs,
                n,
            )[i].line == pos.start.line,
    decreases n,
{
    if n > 0 {
        lemma_missing_in(file, pos, key, langs, n - 1);
        let before = missing_in(file, pos, key, langs, n - 1);
        let now = missing_in(file, pos, key, langs, n);
        assert forall|i: int| 0 <= i < n implies (#[trigger] now[i]).code == Some("CW100"@)
            && now[i].file == file && now[i].line == pos.start.line by {
            if i < n - 1 {
                assert(now[i] == before[i]);
            }
        }
    }
}

/// A key that every language must have is reported once for each that lacks it.
pub proof fn law_keys_in_every_language(
    ctx: CtxV,
    loc: LocIndexV,
    key: Seq<char>,
    at: LocReference,
)
    requires
        at.synced,
        !at.is_inline,
        ctx.extra_loc_keys is None,
    ensures
        ({
            let e = existence_problems(ctx, loc, key, at);
            &&& e.len() == 0 <==> forall|i: int|
                0 <= i < loc.languages.len() ==> (#[trigger] loc.languages[i]).keys.contains(
                    folded(key),
                )
            &&& forall|i: int| 0 <= i < e.len() ==> (#[trigger] e[i]).code == Some("CW100"@)
        }),
{
    let n = loc.languages.len() as int;
    let langs = missing_languages(loc.languages, folded(key), n);
    lemma_missing_in(ctx.file, at.pos, key, langs, langs.len() as int);
    lemma_number_missing(loc.languages, folded(key), n);
}

proof fn lemma_number_missing(l: Seq<LocLanguageV>, key: Seq<char>, n: int)
    requires
        0 <= n <= l.len(),
    ensures
        missing_languages(l, key, n).len() == 0 <==> forall|i: int|
            0 <= i < n ==> (#[trigger] l[i]).keys.contains(key),
    decreases n,
{
    if n > 0 {
        lemma_number_missing(l, key, n - 1);
    }
}

/// A text that may be shown as it is, is reported only where it is a bare word that is no
/// key, as `CW100`, or a key in quotes that need not stand there, as `CW122`.
pub proof fn law_inline_texts(ctx: CtxV, loc: LocIndexV, key: Seq<char>, at: LocReference)
    requires
        at.is_inline,
    ensures
        ({
            let e = existence_problems(ctx, loc, key, at);
            let known = is_provided(ctx, loc, key);
            &&& !at.quoted && known ==> e.len() == 0
            &&& !at.quoted && !known ==> is_one(e, "CW100"@, ctx.file, at.pos.start)
            &&& at.quoted && !known ==> e.len() == 0
            &&& at.quoted && known && is_bare(key) ==> is_one(e, "CW122"@, ctx.file, at.pos.start)
        }),
{
}

/// The instance must have the key, and does not.
pub open spec fn lacks(l: TypeLocalisationV, name: Seq<char>, keys: Set<Seq<char>>) -> bool {
    &&& l.required
    &&& !l.optional
    &&& l.explicit_field is None
    &&& !keys.contains(ascii_lower(l.prefix + name + l.suffix))
}

proof fn lemma_instance_lacks(
    file: Seq<char>,
    inst: InstanceV,
    l: Seq<TypeLocalisationV>,
    keys: Set<Seq<char>>,
    n: int,
    k: int,
)
    requires
        0 <= k < n <= l.len(),
        lacks(l[k], inst.name, keys),
    ensures
        instance_lacks(file, inst, l, keys, n).contains(
            lacking_key(file, inst, l[k].prefix + inst.name + l[k].suffix),
        ),
    decreases n,
{
    let e = lacking_key(file, inst, l[k].prefix + inst.name + l[k].suffix);
    let a = instance_lacks(file, inst, l, keys, n - 1);
    let b = key_problems(file, inst, l[n - 1], keys);
    lemma_sum_contains(a, b, e);
    if k < n - 1 {
        lemma_instance_lacks(file, inst, l, keys, n - 1, k);
    } else {
        assert(b[0] == e);
    }
}

proof fn lemma_type_lacks(
    file: Seq<char>,
    t: TypeDefV,
    inst: Seq<(Seq<char>, InstanceV)>,
    keys: Set<Seq<char>>,
    n: int,
    j: int,
    e: ErrorV,
)
    requires
        0 <= j < n <= inst.len(),
        inst[j].0 == t.name,
        instance_lacks(
            file,
            inst[j].1,
            t.localisation,
            keys,
            t.localisation.len() as int,
        ).contains(e),
    ensures
        type_lacks(file, t, inst, keys, n).contains(e),
    decreases n,
{
    let a = type_lacks(file, t, inst, keys, n - 1);
    let b = instance_lacks(
        file,
        inst[n - 1].1,
        t.localisation,
        keys,
        t.localisation.len() as int,
    );
    lemma_sum_contains(a, b, e);
    if j < n - 1 {
        lemma_type_lacks(file, t, inst, keys, n - 1, j, e);
    }
}

proof fn lemma_types_lack(
    file: Seq<char>,
    path: Seq<char>,
    types: Seq<TypeDefV>,
    inst: Seq<(Seq<char>, InstanceV)>,
    keys: Set<Seq<char>>,
    n: int,
    i: int,
    e: ErrorV,
)
    requires
        0 <= i < n <= types.len(),
        path_matches(path, types[i]),
        type_lacks(file, types[i], inst, keys, inst.len() as int).contains(e),
    ensures
        types_lack(file, path, types, inst, keys, n).contains(e),
    decreases n,
{
    let a = types_lack(file, path, types, inst, keys, n - 1);
    let b = type_lacks(file, types[n - 1], inst, keys, inst.len() as int);
    lemma_sum_contains(a, b, e);
    if i < n - 1 {
        lemma_types_lack(file, path, types, inst, keys, n - 1, i, e);
    }
}

/// An instance that lacks a key that its type requires is reported, as `CW100`, where it
/// stands, with the key as what the fix creates.
pub proof fn law_lacking_localisation(
    file: Seq<char>,
    path: Seq<char>,
    types: Seq<TypeDefV>,
    inst: Seq<(Seq<char>, InstanceV)>,
    keys: Set<Seq<char>>,
    i: int,
    j: int,
    k: int,
)
    requires
        0 <= i < types.len(),
        0 <= j < inst.len(),
        0 <= k < types[i].localisation.len(),
        path_matches(path, types[i]),
        inst[j].0 == types[i].name,
        lacks(types[i].localisation[k], inst[j].1.name, keys),
    ensures
        ({
            let l = types[i].localisation[k];
            let all = types_lack(file, path, types, inst, keys, types.len() as int);
            exists|e: ErrorV| #[trigger]
                all.contains(e) && e.code == Some("CW100"@) && e.file == file && e.line
                    == inst[j].1.location.line && e.col == inst[j].1.location.col && e.fix is Some
                    && e.fix->0.create_loc_key == Some(l.prefix + inst[j].1.name + l.suffix)
        }),
{
    let t = types[i];
    let l = t.localisation[k];
    let e = lacking_key(file, inst[j].1, l.prefix + inst[j].1.name + l.suffix);
    lemma_instance_lacks(file, inst[j].1, t.localisation, keys, t.localisation.len() as int, k);
    lemma_type_lacks(file, t, inst, keys, inst.len() as int, j, e);
    lemma_types_lack(file, path, types, inst, keys, types.len() as int, i, e);
}

// ---------------------------------------------------------------------------
// Definitions that a configuration refers to

/// A reference to a type, an enum or a single alias is reported, where it stands, exactly
/// if nothing defines what it refers to. Of `type.subtype` only the type counts.
pub proof fn law_undefined_references(
    s: Seq<char>,
    pos: SourcePos,
    rs: RuleSetV,
    path: Seq<char>,
    name: Seq<char>,
    sub: Seq<char>,
)
    requires
        is_free_of(name, CharSet::One('.')),
    ensures
        ({
            let e = field_problem(s, pos, rs, path);
            let f = field_of(s);
            let reported = e.len() == 1 && e[0].file == path && e[0].line == pos.line && e[0].col
                == pos.col;
            let is_enum = rs.enum_by_name.contains_key(name) || exists|i: int|
                0 <= i < rs.complex_enums.len() && (#[trigger] rs.complex_enums[i]).name == name;
            let is_single = exists|i: int|
                0 <= i < rs.single_aliases.len() && (#[trigger] rs.single_aliases[i]).0 == name;
            &&& f == FieldV::TypeField(TypeTypeV::Simple(name)) || f == FieldV::TypeField(
                TypeTypeV::Simple(name + seq!['.'] + sub),
            ) ==> if rs.type_by_name.contains_key(name) {
                e.len() == 0
            } else {
                reported && e[0].message == "rule references undefined "@ + "type"@ + " `"@ + name
                    + "`"@
            }
            &&& f == FieldV::ValueField(ValueTypeV::Enum(name)) ==> if is_enum {
                e.len() == 0
            } else {
                reported
            }
            &&& f == FieldV::SingleAliasField(name) ==> if is_single {
                e.len() == 0
            } else {
                reported
            }
            &&& f is SpecificField || f is ScalarField || f is AliasField ==> e.len() == 0
        }),
{
    law_split_first(name, '.', sub);
    lemma_find_is(name, CharSet::One('.'), 0, name.len() as int);
    assert(before_first(name, CharSet::One('.')) =~= name);
}

/// Every key and every value of a configuration is looked at, at any depth.
pub proof fn law_every_reference_is_looked_at(
    ch: Seq<Child>,
    n: int,
    i: int,
    rs: RuleSetV,
    path: Seq<char>,
    e: ParseErrorV,
)
    requires
        0 <= i < n <= ch.len(),
    ensures
        ({
            let all = children_problems(ch, n, rs, path);
            match ch[i] {
                Child::Leaf(l) => {
                    &&& field_problem(l.key@, l.pos.start, rs, path).contains(e) ==> all.contains(e)
                    &&& match l.value {
                        Value::Clause(c) => children_problems(
                            c@,
                            c@.len() as int,
                            rs,
                            path,
                        ).contains(e) ==> all.contains(e),
                        v => field_problem(config_text(v), l.pos.start, rs, path).contains(e)
                            ==> all.contains(e),
                    }
                },
                Child::LeafValue(lv) => match lv.value {
                    Value::Clause(c) => children_problems(c@, c@.len() as int, rs, path).contains(e)
                        ==> all.contains(e),
                    v => field_problem(config_text(v), lv.pos.start, rs, path).contains(e)
                        ==> all.contains(e),
                },
                Child::Comment(_) => true,
            }
        }),
    decreases n,
{
    let a = children_problems(ch, n - 1, rs, path);
    let b = child_problems(ch[n - 1], rs, path);
    lemma_parse_sum(a, b, e);
    if i < n - 1 {
        law_every_reference_is_looked_at(ch, n - 1, i, rs, path, e);
    } else {
        match ch[i] {
            Child::Leaf(l) => lemma_parse_sum(
                field_problem(l.key@, l.pos.start, rs, path),
                value_problems(l.value, l.pos.start, rs, path),
                e,
            ),
            _ => {},
        }
    }
}

proof fn lemma_parse_sum(a: Seq<ParseErrorV>, b: Seq<ParseErrorV>, e: ParseErrorV)
    ensures
        (a + b).contains(e) <==> a.contains(e) || b.contains(e),
{
    if a.contains(e) {
        let i = choose|i: int| 0 <= i < a.len() && a[i] == e;
        assert((a + b)[i] == e);
    }
    if b.contains(e) {
        let i = choose|i: int| 0 <= i < b.len() && b[i] == e;
        assert((a + b)[a.len() + i] == e);
    }
    if (a + b).contains(e) {
        let i = choose|i: int| 0 <= i < (a + b).len() && (a + b)[i] == e;
        if i < a.len() {
            assert(a[i] == e);
        } else {
            assert(b[i - a.len()] == e);
        }
    }
}

// ---------------------------------------------------------------------------
// Which overloads an alias has

proof fn lemma_by_pattern(
    p: Seq<PatternV>,
    key: Seq<char>,
    rs: RuleSetV,
    idx: Option<IndexV>,
    n: int,
    i: int,
)
    requires
        0 <= i < n <= p.len(),
        p[i].alias_idx < rs.aliases.len(),
        pattern_match(p[i], key, rs, idx) != PatternMatch::No,
    ensures
        rules_by_pattern(p, key, rs, idx, n).contains(
            (
                rs.aliases[p[i].alias_idx as int].1,
                pattern_match(p[i], key, rs, idx) == PatternMatch::Confident,
            ),
        ),
    decreases n,
{
    let r = (
        rs.aliases[p[i].alias_idx as int].1,
        pattern_match(p[i], key, rs, idx) == PatternMatch::Confident,
    );
    let now = rules_by_pattern(p, key, rs, idx, n);
    let before = rules_by_pattern(p, key, rs, idx, n - 1);
    if i < n - 1 {
        lemma_by_pattern(p, key, rs, idx, n - 1, i);
        let k = choose|k: int| 0 <= k < before.len() && before[k] == r;
        assert(now[k] == r);
    } else {
        assert(now[before.len() as int] == r);
    }
}

/// An alias with a placeholder that the key fills is an overload of it, a certain one
/// where what fills the placeholder is known; and so is the alias for scopes, where the key
/// opens one.
pub proof fn law_aliases_by_placeholder(
    rs: RuleSetV,
    idx: Option<IndexV>,
    category: Seq<char>,
    key: Seq<char>,
    i: int,
)
    requires
        rs.alias_categories.contains_key(category),
    ensures
        ({
            let c = rs.alias_categories[category];
            let p = c.parsed_patterns;
            let all = overloads(rs, idx, category, key);
            &&& 0 <= i < p.len() && p[i].alias_idx < rs.aliases.len() && pattern_match(
                p[i],
                key,
                rs,
                idx,
            ) == PatternMatch::Confident ==> all.contains(
                (rs.aliases[p[i].alias_idx as int].1, true),
            )
            &&& 0 <= i < p.len() && p[i].alias_idx < rs.aliases.len() && pattern_match(
                p[i],
                key,
                rs,
                idx,
            ) == PatternMatch::PermissiveOnly ==> all.contains(
                (rs.aliases[p[i].alias_idx as int].1, false),
            )
            &&& c.scope_field_idx is Some && c.scope_field_idx->0 < rs.aliases.len() && opens_scope(
                key,
                rs,
                idx,
            ) ==> all.contains((rs.aliases[c.scope_field_idx->0 as int].1, true))
        }),
{
    let c = rs.alias_categories[category];
    let p = c.parsed_patterns;
    let all = overloads(rs, idx, category, key);
    let exact = exact_places(rs, category, key);
    let by_name = rules_at(rs.aliases, exact, exact.len() as int);
    let lower = exact_places(rs, category, ascii_lower(key));
    let by_lower = if by_name.len() == 0 && has_upper(key) {
        rules_at(rs.aliases, lower, lower.len() as int)
    } else {
        Seq::empty()
    };
    let by_pattern = rules_by_pattern(p, key, rs, idx, p.len() as int);
    let at = (by_name + by_lower).len() as int;
    if 0 <= i < p.len() && p[i].alias_idx < rs.aliases.len() && pattern_match(p[i], key, rs, idx)
        != PatternMatch::No {
        lemma_by_pattern(p, key, rs, idx, p.len() as int, i);
        let r = (
            rs.aliases[p[i].alias_idx as int].1,
            pattern_match(p[i], key, rs, idx) == PatternMatch::Confident,
        );
        let k = choose|k: int| 0 <= k < by_pattern.len() && by_pattern[k] == r;
        assert(all[at + k] == r);
    }
    if c.scope_field_idx is Some && c.scope_field_idx->0 < rs.aliases.len() && opens_scope(
        key,
        rs,
        idx,
    ) {
        let r = (rs.aliases[c.scope_field_idx->0 as int].1, true);
        assert(all[at + by_pattern.len()] == r);
    }
}

/// A key in capitals that no alias is named is looked up in lower case.
pub proof fn law_aliases_in_lower_case(
    rs: RuleSetV,
    idx: Option<IndexV>,
    category: Seq<char>,
    key: Seq<char>,
    k: int,
    i: int,
)
    requires
        rs.alias_exact.contains_key(category),
        !rs.alias_exact[category].contains_key(key),
        rs.alias_exact[category].contains_key(ascii_lower(key)),
        0 <= k < rs.alias_exact[category][ascii_lower(key)].len(),
        rs.alias_exact[category][ascii_lower(key)][k] < rs.aliases.len(),
        0 <= i < key.len(),
        'A' <= key[i] <= 'Z',
    ensures
        overloads(rs, idx, category, key).contains(
            (rs.aliases[rs.alias_exact[category][ascii_lower(key)][k] as int].1, true),
        ),
{
    let places = rs.alias_exact[category][ascii_lower(key)];
    let r = (rs.aliases[places[k] as int].1, true);
    assert(is_upper(key[i]));
    assert(rules_at(rs.aliases, exact_places(rs, category, key), 0) =~= Seq::<(RuleV, bool)>::empty());
    lemma_rules_at(rs.aliases, places, places.len() as int, k);
    let lower = rules_at(rs.aliases, places, places.len() as int);
    let x = choose|x: int| 0 <= x < lower.len() && lower[x] == r;
    assert(overloads(rs, idx, category, key)[x] == r);
}

/// A key opens a scope where it is a word for one, a chain, a reference into the game's
/// data, a number, a tag, a link that is declared, or the name of an instance.
pub proof fn law_keys_that_open_scopes(key: Seq<char>, rs: RuleSetV, idx: Option<IndexV>)
    ensures
        ascii_lower(key) == "root"@ || ascii_lower(key) == "prev"@ || ascii_lower(key) == "from"@
            || ascii_lower(key) == "this"@ || ascii_lower(key) == "owner"@ ==> opens_scope(
            key,
            rs,
            idx,
        ),
        key.contains('.') || key.contains(':') ==> opens_scope(key, rs, idx),
        key.len() > 0 && all_digits(key) ==> opens_scope(key, rs, idx),
        key.len() == 3 && 'A' <= key[0] <= 'Z' && 'A' <= key[1] <= 'Z' && 'A' <= key[2] <= 'Z'
            ==> opens_scope(key, rs, idx),
        rs.scope_links.contains(ascii_lower(key)) ==> opens_scope(key, rs, idx),
        idx matches Some(i) && (exists|k: int|
            0 <= k < i.entries.len() && ascii_lower((#[trigger] i.entries[k]).1.name)
                == ascii_lower(key)) ==> opens_scope(key, rs, idx),
{
    reveal_strlit("root");
    reveal_strlit("prev");
    reveal_strlit("from");
    reveal_strlit("this");
    reveal_strlit("owner");
    if key.len() == 3 && 'A' <= key[0] <= 'Z' && 'A' <= key[1] <= 'Z' && 'A' <= key[2] <= 'Z' {
        assert(is_upper(key[0]));
        assert(has_upper(key));
        assert(is_tag(key));
    }
    match idx {
        Some(i) => {
            if exists|k: int|
                0 <= k < i.entries.len() && ascii_lower((#[trigger] i.entries[k]).1.name)
                    == ascii_lower(key) {
                let k = choose|k: int|
                    0 <= k < i.entries.len() && ascii_lower((#[trigger] i.entries[k]).1.name)
                        == ascii_lower(key);
                assert(eq_ci(i.entries[k].1.name, key));
                assert(i.names(key));
            }
        },
        None => {},
    }
}

/// Prose, an empty text and what is filled in when the game runs are no references to
/// localisation, and neither is a block.
pub proof fn law_no_references(
    ctx: CtxV,
    l: Leaf,
    key: Seq<char>,
    at: LocReference,
    synced: bool,
    is_inline: bool,
    sc: Option<ScopeV>,
)
    ensures
        key.len() == 0 || key.contains(' ') || key.contains('$') || (key.len() > 0 && key[0] == '@')
            || (key.contains('[') && key.contains(']')) ==> reference_problems(
            ctx,
            key,
            at,
            sc,
        ).len() == 0,
        l.value is Clause ==> loc_field_problems(ctx, l, synced, is_inline, sc).len() == 0,
{
}

// ---------------------------------------------------------------------------
// Commands in localisation

/// A command in a text that is used in the wrong scope is reported as `CW260`, one that
/// leads nowhere in the end as `CW266`, one that is not known as `CW226`.
pub proof fn law_commands_in_texts(
    d: LocDiagnosticV,
    key: Seq<char>,
    pos: SourceRange,
    file: Seq<char>,
    reg: RegistryV,
)
    ensures
        ({
            let e = seq![command_problem(d, key, pos, file, reg)];
            match d {
                LocDiagnosticV::WrongScope { .. } => is_one(e, "CW260"@, file, pos.start),
                LocDiagnosticV::ChainEndsInScope { .. } => is_one(e, "CW266"@, file, pos.start),
                LocDiagnosticV::NotFound { .. } => is_one(e, "CW226"@, file, pos.start),
            }
        }),
{
}

/// What is wrong with the commands of a text is what is known of that key in that scope.
pub proof fn law_commands_by_key(c: Seq<LocCommandsV>, key: Seq<char>, scope: ScopeId, i: int)
    requires
        0 <= i < c.len(),
        c[i].key == key,
        c[i].scope == scope,
        forall|j: int| 0 <= j < i ==> (#[trigger] c[j]).key != key || c[j].scope != scope,
    ensures
        command_diagnostics(c, key, scope, 0) == c[i].diagnostics,
{
    lemma_commands(c, key, scope, 0, i);
}

proof fn lemma_commands(c: Seq<LocCommandsV>, key: Seq<char>, scope: ScopeId, k: int, i: int)
    requires
        0 <= k <= i < c.len(),
        c[i].key == key,
        c[i].scope == scope,
        forall|j: int| k <= j < i ==> (#[trigger] c[j]).key != key || c[j].scope != scope,
    ensures
        command_diagnostics(c, key, scope, k) == c[i].diagnostics,
    decreases i - k,
{
    if k < i {
        lemma_commands(c, key, scope, k + 1, i);
    }
}

/// A key that is there is held to what its commands do in the current scope.
pub proof fn law_commands_of_references(
    ctx: CtxV,
    loc: LocIndexV,
    key: Seq<char>,
    at: LocReference,
    s: ScopeV,
    k: int,
)
    requires
        ctx.loc == Some(loc),
        is_plain_key(key),
        is_provided(ctx, loc, key),
        0 <= k < command_diagnostics(loc.commands, folded(key), s.current(), 0).len(),
    ensures
        ({
            let d = command_diagnostics(loc.commands, folded(key), s.current(), 0);
            reference_problems(ctx, key, at, Some(s)).contains(
                command_problem(d[k], key, at.pos, ctx.file, s.registry),
            )
        }),
{
    let d = command_diagnostics(loc.commands, folded(key), s.current(), 0);
    let e = command_problem(d[k], key, at.pos, ctx.file, s.registry);
    let a = existence_problems(ctx, loc, key, at);
    let b = command_problems(d, key, at.pos, ctx.file, s.registry, d.len() as int);
    lemma_command_problems(d, key, at.pos, ctx.file, s.registry, d.len() as int, k);
    lemma_sum_contains(a, b, e);
}

proof fn lemma_command_problems(
    d: Seq<LocDiagnosticV>,
    key: Seq<char>,
    pos: SourceRange,
    file: Seq<char>,
    reg: RegistryV,
    n: int,
    k: int,
)
    requires
        0 <= k < n <= d.len(),
    ensures
        command_problems(d, key, pos, file, reg, n).contains(
            command_problem(d[k], key, pos, file, reg),
        ),
    decreases n,
{
    let e = command_problem(d[k], key, pos, file, reg);
    let before = command_problems(d, key, pos, file, reg, n - 1);
    let now = command_problems(d, key, pos, file, reg, n);
    if k < n - 1 {
        lemma_command_problems(d, key, pos, file, reg, n - 1, k);
        let i = choose|i: int| 0 <= i < before.len() && before[i] == e;
        assert(now[i] == e);
    } else {
        lemma_number_of_commands(d, key, pos, file, reg, n - 1);
        assert(now[before.len() as int] == e);
    }
}

proof fn lemma_number_of_commands(
    d: Seq<LocDiagnosticV>,
    key: Seq<char>,
    pos: SourceRange,
    file: Seq<char>,
    reg: RegistryV,
    n: int,
)
    requires
        0 <= n <= d.len(),
    ensures
        command_problems(d, key, pos, file, reg, n).len() == n,
    decreases n,
{
    if n > 0 {
        lemma_number_of_commands(d, key, pos, file, reg, n - 1);
    }
}

// ---------------------------------------------------------------------------
// What a project defines

/// The instances of a type are those listed under its name, and no others.
pub proof fn law_instances_of_types(
    e: Seq<(Seq<char>, InstanceV)>,
    type_: Seq<char>,
    n: int,
    x: InstanceV,
)
    requires
        0 <= n <= e.len(),
    ensures
        instances_of(e, type_, n).contains(x) <==> exists|i: int|
            0 <= i < n && (#[trigger] e[i]).0 == type_ && e[i].1 == x,
    decreases n,
{
    let now = instances_of(e, type_, n);
    if n > 0 {
        law_instances_of_types(e, type_, n - 1, x);
        let before = instances_of(e, type_, n - 1);
        if before.contains(x) {
            let i = choose|i: int| 0 <= i < before.len() && before[i] == x;
            assert(now[i] == x);
        }
        if e[n - 1].0 == type_ {
            if e[n - 1].1 == x {
                assert(now[before.len() as int] == x);
            }
            if now.contains(x) && e[n - 1].1 != x {
                let i = choose|i: int| 0 <= i < now.len() && now[i] == x;
                assert(before[i] == x);
            }
        }
    } else {
        assert(now =~= Seq::<InstanceV>::empty());
    }
}

/// A path beside a file stands in the directory of the file.
pub proof fn law_paths_beside_files(dir: Seq<char>, file: Seq<char>, path: Seq<char>)
    requires
        is_free_of(known_as(file), CharSet::One('/')),
    ensures
        beside(dir + seq!['/'] + file, path) == known_as(dir) + seq!['/'] + known_as(path),
{
    let whole = dir + seq!['/'] + file;
    let f = file_name(whole);
    let d = known_as(dir);
    let g = known_as(file);
    assert(f =~= d + seq!['/'] + g);
    let slash = CharSet::One('/');
    let n = d.len() + 1;
    assert forall|k: int| n <= k < f.len() implies !slash.has(#[trigger] f[k]) by {
        assert(f[k] == g[k - n]);
        assert(!slash.has(g[k - n]));
    }
    assert(f[n - 1] == '/');
    lemma_rfind_is(f, slash, f.len() as int, n as int);
    assert(f.subrange(0, n as int) =~= d + seq!['/']);
}

/// A key for a member of an enum is one of its members, in whatever case, where the enum has
/// at most five members and none that is filled in when the game runs; one for a date has
/// the shape of a date; one for an instance may be any.
pub proof fn law_keys_of_kinds(key: Seq<char>, name: Seq<char>, rs: RuleSetV, idx: Option<IndexV>)
    ensures
        ({
            let known = rs.enum_by_name.contains_key(name) && rs.enum_by_name[name] < rs.enums.len()
                && rs.enums[rs.enum_by_name[name] as int].values.len() > 0;
            let values = rs.enums[rs.enum_by_name[name] as int].values;
            let member = exists|i: int|
                0 <= i < values.len() && ascii_lower(#[trigger] values[i]) == ascii_lower(key);
            let constant = exists|i: int|
                0 <= i < values.len() && (#[trigger] values[i]).len() > 0 && values[i][0] == '@';
            takes_key(FieldV::ValueField(ValueTypeV::Enum(name)), key, rs, idx) <==> !known || member
                || constant || values.len() > 5
        }),
        takes_key(FieldV::TypeField(TypeTypeV::Simple(name)), key, rs, idx),
        takes_key(FieldV::ValueField(ValueTypeV::Date), key, rs, idx) <==> date_shape(key),
        takes_key(FieldV::IgnoreField(Box::new(FieldV::SpecificField(name))), key, rs, idx) <==> (
        ascii_lower(name) == ascii_lower(key)),
{
    assert(takes_key(FieldV::SpecificField(name), key, rs, idx) == eq_ci(name, key));
    if rs.enum_by_name.contains_key(name) && rs.enum_by_name[name] < rs.enums.len() {
        let values = rs.enums[rs.enum_by_name[name] as int].values;
        lemma_listed(values, key);
        assert forall|i: int| 0 <= i < values.len() implies ((#[trigger] values[i]).len() > 0
            && values[i][0] == '@') == starts_char(values[i], '@') by {}
    }
}

/// A key is looked up in lower case.
pub proof fn law_keys_in_lower_case(key: Seq<char>)
    ensures
        vstd::utf8::is_ascii_chars(key) ==> folded(key) == ascii_lower(key),
        !vstd::utf8::is_ascii_chars(key) ==> folded(key) == lowercase(key),
{
}

} // verus!
