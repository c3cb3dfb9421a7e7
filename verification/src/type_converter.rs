//! Reading types and their subtypes from a configuration.

use vstd::prelude::*;
use vstd::string::*;

use crate::ast::{Child, Comment, Leaf, LeafValue, Operator, Value};
use crate::comment_directives::{
    comment_value, extract_comment_value, graph_related_of, has_directive, key_filter_of, mentions,
    only_if_not_of, parse_graph_related_types_from_comments, parse_only_if_not_from_comments,
    parse_replace_scopes_from_comments, parse_type_key_filter_from_comments, replace_scopes_of,
};
use crate::rule_converter::{
    bracket_content, clean_path, cleaned_path, comments_before, config_text, convert_children,
    extract_bracket_content, precompute_comments, subtype_rules, value_to_string,
};
use crate::rules_types::{
    MatchKind, PathOptions, PathOptionsV, SkipRootKey, SkipRootKeyV, SubTypeDefinition, SubTypeV,
    TypeDefV, TypeDefinition, TypeLocalisation, TypeLocalisationV, TypeModifier, TypeModifierV,
    lemma_views_push, no_paths, views,
};
use crate::ruleset::{RuleSet, RuleSetV};
use crate::text::{
    CharSet, clone_list, opt_text, same, split_once, split_once_spec, starts, starts_with, texts,
    trim, trim_start, trim_start_of, trimmed,
};

verus! {

// ---------------------------------------------------------------------------
// Localisation and modifiers of a type

/// The localisation key that `name = value` declares: made from the name of an
/// instance where the value holds a `$`, else taken from the field it names.
pub open spec fn localisation_of(l: Leaf, comments: Seq<Seq<char>>) -> TypeLocalisationV {
    let value = config_text(l.value);
    let parts = split_once_spec(value, '$');
    TypeLocalisationV {
        name: l.key@,
        prefix: match parts {
            Some((a, _)) => a,
            None => Seq::empty(),
        },
        suffix: match parts {
            Some((_, b)) => b,
            None => Seq::empty(),
        },
        required: mentions(comments, "required"@),
        optional: mentions(comments, "optional"@),
        explicit_field: match parts {
            Some(_) => None,
            None => Some(value),
        },
        replace_scopes: replace_scopes_of(comments),
        primary: mentions(comments, "primary"@),
    }
}

/// The localisation keys that the first `n` children of a block declare.
pub open spec fn localisations(ch: Seq<Child>, n: int) -> Seq<TypeLocalisationV>
    decreases n,
{
    if n <= 0 {
        Seq::empty()
    } else {
        let head = localisations(ch, n - 1);
        match ch[n - 1] {
            Child::Leaf(l) => if starts(l.key@, "subtype["@) {
                head
            } else {
                head.push(localisation_of(l, comments_before(ch, n - 1)))
            },
            _ => head,
        }
    }
}

fn make_localisation(l: &Leaf, comments: &Vec<String>) -> (r: TypeLocalisation)
    ensures
        r@ == localisation_of(*l, texts(comments@)),
{
    let value = value_to_string(&l.value);
    let (prefix, suffix, explicit_field) = match split_once(value.as_str(), '$') {
        Some((a, b)) => (a.to_owned(), b.to_owned(), None),
        None => (String::new(), String::new(), Some(value.clone())),
    };
    TypeLocalisation {
        name: l.key.clone(),
        prefix,
        suffix,
        required: has_directive(comments, "required"),
        optional: has_directive(comments, "optional"),
        explicit_field,
        replace_scopes: parse_replace_scopes_from_comments(comments),
        primary: has_directive(comments, "primary"),
    }
}

/// The localisation keys that a block declares.
pub fn parse_localisation_block(children: &Vec<Child>) -> (r: Vec<TypeLocalisation>)
    ensures
        views(r@) == localisations(children@, children@.len() as int),
{
    let precomputed = precompute_comments(children);
    let mut out: Vec<TypeLocalisation> = Vec::new();
    let mut i: usize = 0;
    assert(views(out@) =~= Seq::empty());
    while i < children.len()
        invariant
            i <= children@.len(),
            precomputed@.len() == children@.len(),
            forall|j: int|
                0 <= j < children@.len() ==> texts((#[trigger] precomputed@[j])@) == (
                if children@[j] is Comment {
                    Seq::empty()
                } else {
                    comments_before(children@, j)
                }),
            views(out@) == localisations(children@, i as int),
        decreases children@.len() - i,
    {
        if let Child::Leaf(l) = &children[i] {
            if !starts_with(l.key.as_str(), "subtype[") {
                let ghost before = out@;
                let loc = make_localisation(l, &precomputed[i]);
                out.push(loc);
                proof {
                    lemma_views_push(before, loc);
                }
            }
        }
        i += 1;
    }
    out
}

/// The first `###` line of `comments[i..]`, without its `#`s and the white space
/// around it.
pub open spec fn first_doc_line(comments: Seq<Seq<char>>, i: int) -> Option<Seq<char>>
    decreases comments.len() - i,
{
    if i < 0 || i >= comments.len() {
        None
    } else if starts(comments[i], "###"@) {
        Some(trimmed(trim_start_of(comments[i], CharSet::One('#'))))
    } else {
        first_doc_line(comments, i + 1)
    }
}

fn doc_line(comments: &Vec<String>) -> (r: Option<String>)
    ensures
        opt_text(r) == first_doc_line(texts(comments@), 0),
{
    let mut i: usize = 0;
    while i < comments.len()
        invariant
            i <= comments@.len(),
            first_doc_line(texts(comments@), 0) == first_doc_line(texts(comments@), i as int),
        decreases comments@.len() - i,
    {
        if starts_with(comments[i].as_str(), "###") {
            return Some(trim(trim_start(comments[i].as_str(), CharSet::One('#'))).to_owned());
        }
        i += 1;
    }
    None
}

/// The modifier that `category = value` declares.
pub open spec fn modifier_of(l: Leaf, comments: Seq<Seq<char>>) -> TypeModifierV {
    let parts = split_once_spec(config_text(l.value), '$');
    TypeModifierV {
        prefix: match parts {
            Some((a, _)) => a,
            None => Seq::empty(),
        },
        suffix: match parts {
            Some((_, b)) => b,
            None => Seq::empty(),
        },
        category: l.key@,
        documentation: first_doc_line(comments, 0),
        explicit: mentions(comments, "explicit"@),
    }
}

/// The modifiers that the first `n` children of a block declare.
pub open spec fn modifiers_in(ch: Seq<Child>, n: int) -> Seq<TypeModifierV>
    decreases n,
{
    if n <= 0 {
        Seq::empty()
    } else {
        let head = modifiers_in(ch, n - 1);
        match ch[n - 1] {
            Child::Leaf(l) => if starts(l.key@, "subtype["@) {
                head
            } else {
                head.push(modifier_of(l, comments_before(ch, n - 1)))
            },
            _ => head,
        }
    }
}

fn make_modifier(l: &Leaf, comments: &Vec<String>) -> (r: TypeModifier)
    ensures
        r@ == modifier_of(*l, texts(comments@)),
{
    let value = value_to_string(&l.value);
    let (prefix, suffix) = match split_once(value.as_str(), '$') {
        Some((a, b)) => (a.to_owned(), b.to_owned()),
        None => (String::new(), String::new()),
    };
    TypeModifier {
        prefix,
        suffix,
        category: l.key.clone(),
        documentation: doc_line(comments),
        explicit: has_directive(comments, "explicit"),
    }
}

/// The modifiers that a block declares.
pub fn parse_modifiers_block(children: &Vec<Child>) -> (r: Vec<TypeModifier>)
    ensures
        views(r@) == modifiers_in(children@, children@.len() as int),
{
    let precomputed = precompute_comments(children);
    let mut out: Vec<TypeModifier> = Vec::new();
    let mut i: usize = 0;
    assert(views(out@) =~= Seq::empty());
    while i < children.len()
        invariant
            i <= children@.len(),
            precomputed@.len() == children@.len(),
            forall|j: int|
                0 <= j < children@.len() ==> texts((#[trigger] precomputed@[j])@) == (
                if children@[j] is Comment {
                    Seq::empty()
                } else {
                    comments_before(children@, j)
                }),
            views(out@) == modifiers_in(children@, i as int),
        decreases children@.len() - i,
    {
        if let Child::Leaf(l) = &children[i] {
            if !starts_with(l.key.as_str(), "subtype[") {
                let ghost before = out@;
                let m = make_modifier(l, &precomputed[i]);
                out.push(m);
                proof {
                    lemma_views_push(before, m);
                }
            }
        }
        i += 1;
    }
    out
}

// ---------------------------------------------------------------------------
// Subtypes

/// The text of the first leaf with `key` in `ch[i..]`.
pub open spec fn first_key_text(ch: Seq<Child>, key: Seq<char>, i: int) -> Option<Seq<char>>
    decreases ch.len() - i,
{
    if i < 0 || i >= ch.len() {
        None
    } else {
        match ch[i] {
            Child::Leaf(l) => if l.key@ == key {
                Some(config_text(l.value))
            } else {
                first_key_text(ch, key, i + 1)
            },
            _ => first_key_text(ch, key, i + 1),
        }
    }
}

fn text_of_key(children: &Vec<Child>, key: &str) -> (r: Option<String>)
    ensures
        opt_text(r) == first_key_text(children@, key@, 0),
{
    let mut i: usize = 0;
    while i < children.len()
        invariant
            i <= children@.len(),
            first_key_text(children@, key@, 0) == first_key_text(children@, key@, i as int),
        decreases children@.len() - i,
    {
        if let Child::Leaf(l) = &children[i] {
            if same(l.key.as_str(), key) {
                return Some(value_to_string(&l.value));
            }
        }
        i += 1;
    }
    None
}

/// The subtype that a body with comments in front of it declares. A
/// `type_key_field` leaf of the body is the field by which instances are told
/// apart, and no rule.
pub open spec fn subtype_of_body(
    name: Seq<char>,
    body: Seq<Child>,
    comments: Seq<Seq<char>>,
) -> SubTypeV {
    SubTypeV {
        name,
        display_name: comment_value(comments, "display_name"@),
        abbreviation: comment_value(comments, "abbreviation"@),
        rules: subtype_rules(body),
        type_key_field: first_key_text(body, "type_key_field"@, 0),
        starts_with: comment_value(comments, "starts_with"@),
        push_scope: comment_value(comments, "push_scope"@),
        localisation: Seq::empty(),
        only_if_not: only_if_not_of(comments),
        modifiers: Seq::empty(),
        type_key_filter: match key_filter_of(comments, comments.len() as int) {
            Some((keys, _)) => keys,
            None => Seq::empty(),
        },
    }
}

/// The subtype that `subtype[name] = { ... }` declares.
pub open spec fn subtype_of(name: Seq<char>, l: Leaf, comments: Seq<Seq<char>>) -> SubTypeV {
    match l.value {
        Value::Clause(c) => subtype_of_body(name, c@, comments),
        _ => subtype_of_body(name, Seq::empty(), comments),
    }
}

/// The subtype that a body with comments in front of it declares.
pub fn build_subtype(name: String, children: &Vec<Child>, comments: &Vec<String>) -> (r:
    SubTypeDefinition)
    ensures
        r@ == subtype_of_body(name@, children@, texts(comments@)),
{
    let type_key_filter = match parse_type_key_filter_from_comments(comments) {
        Some((keys, _)) => keys,
        None => {
            let v: Vec<String> = Vec::new();
            assert(texts(v@) =~= Seq::empty());
            v
        },
    };
    let r = SubTypeDefinition {
        name,
        display_name: extract_comment_value(comments, "display_name"),
        abbreviation: extract_comment_value(comments, "abbreviation"),
        rules: convert_children(children, true),
        type_key_field: text_of_key(children, "type_key_field"),
        starts_with: extract_comment_value(comments, "starts_with"),
        push_scope: extract_comment_value(comments, "push_scope"),
        localisation: Vec::new(),
        only_if_not: parse_only_if_not_from_comments(comments),
        modifiers: Vec::new(),
        type_key_filter,
    };
    assert(r@ =~= subtype_of_body(name@, children@, texts(comments@)));
    r
}

/// The subtype that `subtype[name] = { ... }` declares.
pub fn process_subtype_node_from_leaf(name: String, leaf: &Leaf, comments: &Vec<String>) -> (r:
    SubTypeDefinition)
    ensures
        r@ == subtype_of(name@, *leaf, texts(comments@)),
{
    match &leaf.value {
        Value::Clause(c) => build_subtype(name, c, comments),
        _ => {
            let none: Vec<Child> = Vec::new();
            assert(none@ =~= Seq::empty());
            build_subtype(name, &none, comments)
        },
    }
}

/// The place of the first subtype of a name in `s[i..]`.
pub open spec fn first_subtype(s: Seq<SubTypeV>, name: Seq<char>, i: int) -> Option<int>
    decreases s.len() - i,
{
    if i < 0 || i >= s.len() {
        None
    } else if s[i].name == name {
        Some(i)
    } else {
        first_subtype(s, name, i + 1)
    }
}

fn find_subtype(s: &Vec<SubTypeDefinition>, name: &str) -> (r: Option<usize>)
    ensures
        match r {
            Some(i) => i < s@.len() && first_subtype(views(s@), name@, 0) == Some(i as int),
            None => first_subtype(views(s@), name@, 0) is None,
        },
{
    let mut i: usize = 0;
    while i < s.len()
        invariant
            i <= s@.len(),
            first_subtype(views(s@), name@, 0) == first_subtype(views(s@), name@, i as int),
        decreases s@.len() - i,
    {
        assert(views(s@)[i as int].name == s@[i as int].name@);
        if same(s[i].name.as_str(), name) {
            return Some(i);
        }
        i += 1;
    }
    None
}

/// Subtypes with localisation keys added to the first one of a name.
pub open spec fn add_localisation(
    s: Seq<SubTypeV>,
    name: Seq<char>,
    locs: Seq<TypeLocalisationV>,
) -> Seq<SubTypeV> {
    match first_subtype(s, name, 0) {
        Some(i) => s.update(i, SubTypeV { localisation: s[i].localisation + locs, ..s[i] }),
        None => s,
    }
}

/// Subtypes with modifiers added to the first one of a name.
pub open spec fn add_modifiers(
    s: Seq<SubTypeV>,
    name: Seq<char>,
    mods: Seq<TypeModifierV>,
) -> Seq<SubTypeV> {
    match first_subtype(s, name, 0) {
        Some(i) => s.update(i, SubTypeV { modifiers: s[i].modifiers + mods, ..s[i] }),
        None => s,
    }
}

/// The name and the body of a child `subtype[name] = { ... }`.
pub open spec fn subtype_block(c: Child) -> Option<(Seq<char>, Seq<Child>)> {
    match c {
        Child::Leaf(l) => match (bracket_content(l.key@, "subtype"@), l.value) {
            (Some(name), Value::Clause(body)) => Some((name, body@)),
            _ => None,
        },
        _ => None,
    }
}

/// Subtypes with the localisation that the subtype blocks among the first `n`
/// children declare.
pub open spec fn with_subtype_localisation(s: Seq<SubTypeV>, ch: Seq<Child>, n: int) -> Seq<SubTypeV>
    decreases n,
{
    if n <= 0 {
        s
    } else {
        let head = with_subtype_localisation(s, ch, n - 1);
        match subtype_block(ch[n - 1]) {
            Some((name, body)) => add_localisation(
                head,
                name,
                localisations(body, body.len() as int),
            ),
            None => head,
        }
    }
}

/// Subtypes with the modifiers that the subtype blocks among the first `n`
/// children declare.
pub open spec fn with_subtype_modifiers(s: Seq<SubTypeV>, ch: Seq<Child>, n: int) -> Seq<SubTypeV>
    decreases n,
{
    if n <= 0 {
        s
    } else {
        let head = with_subtype_modifiers(s, ch, n - 1);
        match subtype_block(ch[n - 1]) {
            Some((name, body)) => add_modifiers(head, name, modifiers_in(body, body.len() as int)),
            None => head,
        }
    }
}

/// Adds the localisation in subtype blocks to the subtypes.
pub fn parse_subtype_localisation(children: &Vec<Child>, subtypes: &mut Vec<SubTypeDefinition>)
    ensures
        views(final(subtypes)@) == with_subtype_localisation(
            views(old(subtypes)@),
            children@,
            children@.len() as int,
        ),
{
    let mut i: usize = 0;
    while i < children.len()
        invariant
            i <= children@.len(),
            views(subtypes@) == with_subtype_localisation(
                views(old(subtypes)@),
                children@,
                i as int,
            ),
        decreases children@.len() - i,
    {
        if let Child::Leaf(l) = &children[i] {
            if let Some(name) = extract_bracket_content(l.key.as_str(), "subtype") {
                if let Value::Clause(body) = &l.value {
                    let mut locs = parse_localisation_block(body);
                    let ghost added = locs@;
                    let ghost before = subtypes@;
                    if let Some(k) = find_subtype(subtypes, name.as_str()) {
                        subtypes[k].localisation.append(&mut locs);
                        proof {
                            let s = views(before);
                            assert(views(subtypes@[k as int].localisation@) =~= views(
                                before[k as int].localisation@,
                            ) + views(added));
                            assert(views(subtypes@) =~= add_localisation(s, name@, views(added)));
                        }
                    }
                }
            }
        }
        i += 1;
    }
}

/// Adds the modifiers in subtype blocks to the subtypes.
pub fn parse_subtype_modifiers(children: &Vec<Child>, subtypes: &mut Vec<SubTypeDefinition>)
    ensures
        views(final(subtypes)@) == with_subtype_modifiers(
            views(old(subtypes)@),
            children@,
            children@.len() as int,
        ),
{
    let mut i: usize = 0;
    while i < children.len()
        invariant
            i <= children@.len(),
            views(subtypes@) == with_subtype_modifiers(views(old(subtypes)@), children@, i as int),
        decreases children@.len() - i,
    {
        if let Child::Leaf(l) = &children[i] {
            if let Some(name) = extract_bracket_content(l.key.as_str(), "subtype") {
                if let Value::Clause(body) = &l.value {
                    let mut mods = parse_modifiers_block(body);
                    let ghost added = mods@;
                    let ghost before = subtypes@;
                    if let Some(k) = find_subtype(subtypes, name.as_str()) {
                        subtypes[k].modifiers.append(&mut mods);
                        proof {
                            let s = views(before);
                            assert(views(subtypes@[k as int].modifiers@) =~= views(
                                before[k as int].modifiers@,
                            ) + views(added));
                            assert(views(subtypes@) =~= add_modifiers(s, name@, views(added)));
                        }
                    }
                }
            }
        }
        i += 1;
    }
}

// ---------------------------------------------------------------------------
// Wrapping blocks

/// The wrapping levels that the values of a `skip_root_key` block add: one level
/// each, `any` for every key.
pub open spec fn skip_levels(s: Seq<SkipRootKeyV>, ch: Seq<Child>, n: int) -> Seq<SkipRootKeyV>
    decreases n,
{
    if n <= 0 {
        s
    } else {
        let head = skip_levels(s, ch, n - 1);
        match ch[n - 1] {
            Child::LeafValue(lv) => {
                let v = config_text(lv.value);
                if v.len() == 0 {
                    head
                } else if v == "any"@ {
                    head.push(SkipRootKeyV::AnyKey)
                } else {
                    head.push(SkipRootKeyV::SpecificKey(v))
                }
            },
            _ => head,
        }
    }
}

/// The keys that the first `n` levels name.
pub open spec fn level_keys(s: Seq<SkipRootKeyV>, n: int) -> Seq<Seq<char>>
    decreases n,
{
    if n <= 0 {
        Seq::empty()
    } else {
        level_keys(s, n - 1) + (match s[n - 1] {
            SkipRootKeyV::SpecificKey(k) => seq![k],
            SkipRootKeyV::MultipleKeys(ks, _) => ks,
            SkipRootKeyV::AnyKey => Seq::empty(),
        })
    }
}

/// The operator says that two things are the same.
pub open spec fn is_equality(op: Operator) -> bool {
    op == Operator::Equals || op == Operator::EqualEqual
}

/// The first `skip_root_key` of `ch[i..]` has `=` or `==`; so it is taken where there is
/// none.
pub open spec fn first_skip_equals(ch: Seq<Child>, i: int) -> bool
    decreases ch.len() - i,
{
    if i < 0 || i >= ch.len() {
        true
    } else {
        match ch[i] {
            Child::Leaf(l) => if l.key@ == "skip_root_key"@ {
                is_equality(l.op)
            } else {
                first_skip_equals(ch, i + 1)
            },
            _ => first_skip_equals(ch, i + 1),
        }
    }
}

fn first_skip_is_equals(children: &Vec<Child>) -> (r: bool)
    ensures
        r == first_skip_equals(children@, 0),
{
    let mut i: usize = 0;
    while i < children.len()
        invariant
            i <= children@.len(),
            first_skip_equals(children@, 0) == first_skip_equals(children@, i as int),
        decreases children@.len() - i,
    {
        if let Child::Leaf(l) = &children[i] {
            if same(l.key.as_str(), "skip_root_key") {
                return l.op == Operator::Equals || l.op == Operator::EqualEqual;
            }
        }
        i += 1;
    }
    true
}

/// The wrapping levels with `skip_root_key = v` taken in: the first key is a
/// level; each further key turns what is there into one level of alternatives, with
/// the operator of the first.
pub open spec fn with_skip_key(s: Seq<SkipRootKeyV>, v: Seq<char>, equals: bool) -> Seq<
    SkipRootKeyV,
> {
    if v == "any"@ {
        s.push(SkipRootKeyV::AnyKey)
    } else if s.len() == 0 {
        s.push(SkipRootKeyV::SpecificKey(v))
    } else {
        let kind = match s[0] {
            SkipRootKeyV::MultipleKeys(_, k) => k,
            _ => if equals {
                MatchKind::Equals
            } else {
                MatchKind::NotEquals
            },
        };
        seq![SkipRootKeyV::MultipleKeys(level_keys(s, s.len() as int).push(v), kind)]
    }
}

fn parse_skip_root_key_block(children: &Vec<Child>, out: &mut Vec<SkipRootKey>)
    ensures
        views(final(out)@) == skip_levels(views(old(out)@), children@, children@.len() as int),
{
    let mut i: usize = 0;
    while i < children.len()
        invariant
            i <= children@.len(),
            views(out@) == skip_levels(views(old(out)@), children@, i as int),
        decreases children@.len() - i,
    {
        if let Child::LeafValue(lv) = &children[i] {
            let v = value_to_string(&lv.value);
            if !v.as_str().is_empty() {
                let ghost before = out@;
                let level = if same(v.as_str(), "any") {
                    SkipRootKey::AnyKey
                } else {
                    SkipRootKey::SpecificKey(v)
                };
                out.push(level);
                proof {
                    lemma_views_push(before, level);
                }
            }
        }
        i += 1;
    }
}

fn keys_of_levels(s: &Vec<SkipRootKey>) -> (r: Vec<String>)
    ensures
        texts(r@) == level_keys(views(s@), s@.len() as int),
{
    let mut out: Vec<String> = Vec::new();
    let mut i: usize = 0;
    assert(texts(out@) =~= Seq::empty());
    while i < s.len()
        invariant
            i <= s@.len(),
            texts(out@) == level_keys(views(s@), i as int),
        decreases s@.len() - i,
    {
        let ghost before = texts(out@);
        assert(views(s@)[i as int] == s@[i as int]@);
        match &s[i] {
            SkipRootKey::SpecificKey(k) => {
                out.push(k.clone());
                assert(texts(out@) =~= before + seq![k@]);
            },
            SkipRootKey::MultipleKeys(ks, _) => {
                let mut copy = clone_list(ks);
                let ghost copied = copy@;
                out.append(&mut copy);
                assert(texts(out@) =~= before + texts(copied));
            },
            SkipRootKey::AnyKey => {
                assert(before + Seq::<Seq<char>>::empty() =~= before);
            },
        }
        i += 1;
    }
    out
}

fn parse_skip_root_key_leaf(l: &Leaf, equals: bool, out: &mut Vec<SkipRootKey>)
    ensures
        views(final(out)@) == with_skip_key(views(old(out)@), config_text(l.value), equals),
{
    let v = value_to_string(&l.value);
    let ghost before = out@;
    if same(v.as_str(), "any") {
        out.push(SkipRootKey::AnyKey);
        proof {
            lemma_views_push(before, SkipRootKey::AnyKey);
        }
    } else if out.len() == 0 {
        let level = SkipRootKey::SpecificKey(v);
        out.push(level);
        proof {
            lemma_views_push(before, level);
        }
    } else {
        assert(views(before)[0] == before[0]@);
        let kind = match &out[0] {
            SkipRootKey::MultipleKeys(_, k) => *k,
            _ => MatchKind::from_equals(equals),
        };
        let mut keys = keys_of_levels(out);
        let ghost held = texts(keys@);
        keys.push(v);
        assert(texts(keys@) =~= held.push(v@));
        out.clear();
        out.push(SkipRootKey::MultipleKeys(keys, kind));
        assert(views(out@) =~= with_skip_key(views(before), config_text(l.value), equals));
    }
}

// ---------------------------------------------------------------------------
// Types

/// The body of the last `key = { ... }` among the first `n` children.
pub open spec fn last_clause(ch: Seq<Child>, key: Seq<char>, n: int) -> Option<Seq<Child>>
    decreases n,
{
    if n <= 0 {
        None
    } else {
        match ch[n - 1] {
            Child::Leaf(l) => match l.value {
                Value::Clause(c) => if l.key@ == key {
                    Some(c@)
                } else {
                    last_clause(ch, key, n - 1)
                },
                _ => last_clause(ch, key, n - 1),
            },
            _ => last_clause(ch, key, n - 1),
        }
    }
}

/// A type with a directive of its block taken in. Whether the first key of a wrapper is
/// given with `=` is told.
pub open spec fn with_type_directive(d: TypeDefV, l: Leaf, equals: bool) -> TypeDefV {
    let k = l.key@;
    let v = config_text(l.value);
    let p = d.path_options;
    if k == "path"@ {
        TypeDefV {
            path_options: PathOptionsV { paths: p.paths.push(cleaned_path(v)), ..p },
            ..d
        }
    } else if k == "path_strict"@ {
        if v == "yes"@ {
            TypeDefV { path_options: PathOptionsV { path_strict: true, ..p }, ..d }
        } else {
            d
        }
    } else if k == "path_file"@ {
        TypeDefV { path_options: PathOptionsV { path_file: Some(v), ..p }, ..d }
    } else if k == "path_extension"@ {
        TypeDefV { path_options: PathOptionsV { path_extension: Some(v), ..p }, ..d }
    } else if k == "name_field"@ {
        TypeDefV { name_field: Some(v), ..d }
    } else if k == "type_per_file"@ {
        if v == "yes"@ {
            TypeDefV { type_per_file: true, ..d }
        } else {
            d
        }
    } else if k == "starts_with"@ {
        TypeDefV { starts_with: Some(v), ..d }
    } else if k == "type_key_prefix"@ {
        TypeDefV { key_prefix: Some(v), ..d }
    } else if k == "severity"@ {
        if v == "warning"@ {
            TypeDefV { warning_only: true, ..d }
        } else {
            d
        }
    } else if k == "unique"@ {
        if v == "yes"@ {
            TypeDefV { unique: true, ..d }
        } else {
            d
        }
    } else if k == "should_be_used"@ {
        if v == "yes"@ {
            TypeDefV { should_be_referenced: true, ..d }
        } else {
            d
        }
    } else if k == "skip_root_key"@ {
        TypeDefV {
            skip_root_key: match l.value {
                Value::Clause(c) => skip_levels(d.skip_root_key, c@, c@.len() as int),
                _ => with_skip_key(d.skip_root_key, v, equals),
            },
            ..d
        }
    } else {
        d
    }
}

/// A type with child `i` of its block taken in.
pub open spec fn with_type_entry(d: TypeDefV, ch: Seq<Child>, i: int) -> TypeDefV {
    match ch[i] {
        Child::Leaf(l) => if starts(l.key@, "subtype["@) {
            match bracket_content(l.key@, "subtype"@) {
                Some(name) => TypeDefV {
                    subtypes: d.subtypes.push(subtype_of(name, l, comments_before(ch, i))),
                    ..d
                },
                None => d,
            }
        } else {
            with_type_directive(d, l, first_skip_equals(ch, 0))
        },
        _ => d,
    }
}

/// A type with the first `n` children of its block taken in.
pub open spec fn type_fold(d: TypeDefV, ch: Seq<Child>, n: int) -> TypeDefV
    decreases n,
{
    if n <= 0 {
        d
    } else {
        with_type_entry(type_fold(d, ch, n - 1), ch, n - 1)
    }
}

/// A type with its `localisation` block taken in.
pub open spec fn with_localisation(d: TypeDefV, block: Option<Seq<Child>>) -> TypeDefV {
    match block {
        Some(ch) => TypeDefV {
            localisation: localisations(ch, ch.len() as int),
            subtypes: with_subtype_localisation(d.subtypes, ch, ch.len() as int),
            ..d
        },
        None => d,
    }
}

/// A type with its `modifiers` block taken in.
pub open spec fn with_type_modifiers(d: TypeDefV, block: Option<Seq<Child>>) -> TypeDefV {
    match block {
        Some(ch) => TypeDefV {
            modifiers: modifiers_in(ch, ch.len() as int),
            subtypes: with_subtype_modifiers(d.subtypes, ch, ch.len() as int),
            ..d
        },
        None => d,
    }
}

/// The type that comments alone declare.
pub open spec fn bare_type(name: Seq<char>, comments: Seq<Seq<char>>) -> TypeDefV {
    TypeDefV {
        name,
        name_field: None,
        path_options: no_paths(),
        subtypes: Seq::empty(),
        type_key_filter: key_filter_of(comments, comments.len() as int),
        skip_root_key: Seq::empty(),
        starts_with: None,
        type_per_file: false,
        key_prefix: None,
        warning_only: false,
        unique: false,
        should_be_referenced: false,
        localisation: Seq::empty(),
        graph_related_types: graph_related_of(comments),
        modifiers: Seq::empty(),
    }
}

/// The type that `type[name] = { ... }` declares.
pub open spec fn type_of(name: Seq<char>, l: Leaf, comments: Seq<Seq<char>>) -> TypeDefV {
    let d = bare_type(name, comments);
    match l.value {
        Value::Clause(c) => {
            let n = c@.len() as int;
            with_type_modifiers(
                with_localisation(type_fold(d, c@, n), last_clause(c@, "localisation"@, n)),
                last_clause(c@, "modifiers"@, n),
            )
        },
        _ => d,
    }
}

fn take_directive(d: &mut TypeDefinition, l: &Leaf, equals: bool)
    ensures
        final(d)@ == with_type_directive(old(d)@, *l, equals),
{
    let k = l.key.as_str();
    let v = value_to_string(&l.value);
    if same(k, "path") {
        let ghost before = texts(d.path_options.paths@);
        let p = clean_path(v.as_str());
        d.path_options.paths.push(p);
        assert(texts(d.path_options.paths@) =~= before.push(p@));
    } else if same(k, "path_strict") {
        if same(v.as_str(), "yes") {
            d.path_options.path_strict = true;
        }
    } else if same(k, "path_file") {
        d.path_options.path_file = Some(v);
    } else if same(k, "path_extension") {
        d.path_options.path_extension = Some(v);
    } else if same(k, "name_field") {
        d.name_field = Some(v);
    } else if same(k, "type_per_file") {
        if same(v.as_str(), "yes") {
            d.type_per_file = true;
        }
    } else if same(k, "starts_with") {
        d.starts_with = Some(v);
    } else if same(k, "type_key_prefix") {
        d.key_prefix = Some(v);
    } else if same(k, "severity") {
        if same(v.as_str(), "warning") {
            d.warning_only = true;
        }
    } else if same(k, "unique") {
        if same(v.as_str(), "yes") {
            d.unique = true;
        }
    } else if same(k, "should_be_used") {
        if same(v.as_str(), "yes") {
            d.should_be_referenced = true;
        }
    } else if same(k, "skip_root_key") {
        match &l.value {
            Value::Clause(c) => {
                parse_skip_root_key_block(c, &mut d.skip_root_key);
            },
            _ => {
                parse_skip_root_key_leaf(l, equals, &mut d.skip_root_key);
            },
        }
    }
}

fn find_last_clause<'a>(children: &'a Vec<Child>, key: &str) -> (r: Option<&'a Vec<Child>>)
    ensures
        match r {
            Some(c) => last_clause(children@, key@, children@.len() as int) == Some(c@),
            None => last_clause(children@, key@, children@.len() as int) is None,
        },
{
    let mut i: usize = children.len();
    while i > 0
        invariant
            i <= children@.len(),
            last_clause(children@, key@, children@.len() as int) == last_clause(
                children@,
                key@,
                i as int,
            ),
        decreases i,
    {
        if let Child::Leaf(l) = &children[i - 1] {
            if let Value::Clause(c) = &l.value {
                if same(l.key.as_str(), key) {
                    return Some(c);
                }
            }
        }
        i -= 1;
    }
    None
}

/// The type that `type[name] = { ... }` declares.
pub fn process_type_node(name: String, leaf: &Leaf, comments: &Vec<String>) -> (r: TypeDefinition)
    ensures
        r@ == type_of(name@, *leaf, texts(comments@)),
{
    let ghost declared = name@;
    let mut d = TypeDefinition {
        name,
        name_field: None,
        path_options: PathOptions::default(),
        subtypes: Vec::new(),
        type_key_filter: parse_type_key_filter_from_comments(comments),
        skip_root_key: Vec::new(),
        starts_with: None,
        type_per_file: false,
        key_prefix: None,
        warning_only: false,
        unique: false,
        should_be_referenced: false,
        localisation: Vec::new(),
        graph_related_types: parse_graph_related_types_from_comments(comments),
        modifiers: Vec::new(),
    };
    let ghost start = bare_type(declared, texts(comments@));
    assert(d@ =~= start);
    match &leaf.value {
        Value::Clause(children) => {
            let precomputed = precompute_comments(children);
            let equals = first_skip_is_equals(children);
            let mut i: usize = 0;
            while i < children.len()
                invariant
                    i <= children@.len(),
                    precomputed@.len() == children@.len(),
                    forall|j: int|
                        0 <= j < children@.len() ==> texts((#[trigger] precomputed@[j])@) == (
                        if children@[j] is Comment {
                            Seq::empty()
                        } else {
                            comments_before(children@, j)
                        }),
                    equals == first_skip_equals(children@, 0),
                    d@ == type_fold(start, children@, i as int),
                decreases children@.len() - i,
            {
                if let Child::Leaf(l) = &children[i] {
                    if starts_with(l.key.as_str(), "subtype[") {
                        if let Some(st_name) = extract_bracket_content(l.key.as_str(), "subtype") {
                            let ghost before = d.subtypes@;
                            let st = process_subtype_node_from_leaf(st_name, l, &precomputed[i]);
                            d.subtypes.push(st);
                            proof {
                                lemma_views_push(before, st);
                            }
                        }
                    } else {
                        take_directive(&mut d, l, equals);
                    }
                }
                i += 1;
            }
            if let Some(block) = find_last_clause(children, "localisation") {
                d.localisation = parse_localisation_block(block);
                parse_subtype_localisation(block, &mut d.subtypes);
            }
            if let Some(block) = find_last_clause(children, "modifiers") {
                d.modifiers = parse_modifiers_block(block);
                parse_subtype_modifiers(block, &mut d.subtypes);
            }
        },
        _ => {},
    }
    d
}

/// The types with the first `n` children of a `types` block taken in.
pub open spec fn with_types(types: Seq<TypeDefV>, ch: Seq<Child>, n: int) -> Seq<TypeDefV>
    decreases n,
{
    if n <= 0 {
        types
    } else {
        let head = with_types(types, ch, n - 1);
        match ch[n - 1] {
            Child::Leaf(l) => match bracket_content(l.key@, "type"@) {
                Some(name) => head.push(type_of(name, l, comments_before(ch, n - 1))),
                None => head,
            },
            _ => head,
        }
    }
}

/// Takes in the children of a `types` block.
pub fn extract_types_from_children(children: &Vec<Child>, ruleset: &mut RuleSet)
    ensures
        final(ruleset)@ == (RuleSetV {
            types: with_types(old(ruleset)@.types, children@, children@.len() as int),
            ..old(ruleset)@
        }),
{
    let precomputed = precompute_comments(children);
    let mut i: usize = 0;
    while i < children.len()
        invariant
            i <= children@.len(),
            precomputed@.len() == children@.len(),
            forall|j: int|
                0 <= j < children@.len() ==> texts((#[trigger] precomputed@[j])@) == (
                if children@[j] is Comment {
                    Seq::empty()
                } else {
                    comments_before(children@, j)
                }),
            ruleset@ == (RuleSetV {
                types: with_types(old(ruleset)@.types, children@, i as int),
                ..old(ruleset)@
            }),
        decreases children@.len() - i,
    {
        if let Child::Leaf(l) = &children[i] {
            if let Some(name) = extract_bracket_content(l.key.as_str(), "type") {
                let ghost before = ruleset.types@;
                let t = process_type_node(name, l, &precomputed[i]);
                ruleset.types.push(t);
                proof {
                    lemma_views_push(before, t);
                }
            }
        }
        i += 1;
    }
}

} // verus!
