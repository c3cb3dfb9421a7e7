//! What the blocks of a configuration declare.

use vstd::prelude::*;

use crate::ast::{Child, Comment, Leaf, LeafValue, Operator, Value};
use crate::comment_directives::{
    comment_value, first_with, key_filter_of, only_if_not_of, options_of,
};
use crate::enum_converter::{
    clause_members, complex_enum_fold, enum_of, member_text, member_texts, name_entry,
    name_tree_of, with_enum_child, with_enums, with_value_child, with_values,
};
use crate::field_parser::field_of;
use crate::link_converter::{
    clause_values, link_of, with_link_child, with_links, with_modifiers, with_scope_child,
    with_scopes,
};
use crate::rule_converter::{
    block_rules, bracket_content, cleaned_path, comments_before, config_text, leaf_rule,
    leaf_value_rule, rules_fold,
};
use crate::rules_converter::{root_rule, with_root_child, with_root_leaf};
use crate::rules_types::{
    ComplexEnumV, FieldV, MatchKind, NameEntryV, RootRuleV, RuleTypeV, ScopeInputV, SkipRootKeyV,
    SubTypeV, TypeDefV, TypeLocalisationV, TypeModifierV,
};
use crate::ruleset::RuleSetV;
use crate::text::{
    CharSet, ascii_lower, bracket_inner, contains_text, replace_char_spec, starts, trim_of,
};
use crate::text_laws::{has_bare_ends, is_free_of, law_split_first, lemma_find_is, lemma_trim_bare};
use crate::type_converter::{
    add_localisation, add_modifiers, bare_type, first_key_text, first_skip_equals, first_subtype,
    is_equality, last_clause, level_keys, localisation_of, localisations, modifier_of,
    modifiers_in, skip_levels, subtype_of, type_fold, type_of, with_skip_key, with_types,
};

verus! {

// ---------------------------------------------------------------------------
// Types

/// What the last of the first `n` children that is a field of that name gives.
pub open spec fn last_field(ch: Seq<Child>, name: Seq<char>, n: int) -> Option<Seq<char>>
    decreases n,
{
    if n <= 0 || n > ch.len() {
        None
    } else {
        match ch[n - 1] {
            Child::Leaf(l) => if l.key@ == name {
                Some(config_text(l.value))
            } else {
                last_field(ch, name, n - 1)
            },
            _ => last_field(ch, name, n - 1),
        }
    }
}

/// One of the first `n` children is a field of that name with that value.
pub open spec fn some_field(ch: Seq<Child>, name: Seq<char>, value: Seq<char>, n: int) -> bool {
    exists|i: int|
        0 <= i < n && (match #[trigger] ch[i] {
            Child::Leaf(l) => l.key@ == name && config_text(l.value) == value,
            _ => false,
        })
}

/// The paths that the first `n` children name, in order: with `/` throughout and without a
/// leading `game/`.
pub open spec fn paths_named(ch: Seq<Child>, n: int) -> Seq<Seq<char>>
    decreases n,
{
    if n <= 0 || n > ch.len() {
        Seq::empty()
    } else {
        match ch[n - 1] {
            Child::Leaf(l) => if l.key@ == "path"@ {
                paths_named(ch, n - 1).push(cleaned_path(config_text(l.value)))
            } else {
                paths_named(ch, n - 1)
            },
            _ => paths_named(ch, n - 1),
        }
    }
}

/// The type has what the first `n` children of its block set, each under its own name.
pub open spec fn has_settings(t: TypeDefV, ch: Seq<Child>, n: int) -> bool {
    let p = t.path_options;
    &&& p.paths == paths_named(ch, n)
    &&& p.path_strict <==> some_field(ch, "path_strict"@, "yes"@, n)
    &&& p.path_file == last_field(ch, "path_file"@, n)
    &&& p.path_extension == last_field(ch, "path_extension"@, n)
    &&& t.name_field == last_field(ch, "name_field"@, n)
    &&& t.type_per_file <==> some_field(ch, "type_per_file"@, "yes"@, n)
    &&& t.starts_with == last_field(ch, "starts_with"@, n)
    &&& t.key_prefix == last_field(ch, "type_key_prefix"@, n)
    &&& t.warning_only <==> some_field(ch, "severity"@, "warning"@, n)
    &&& t.unique <==> some_field(ch, "unique"@, "yes"@, n)
    &&& t.should_be_referenced <==> some_field(ch, "should_be_used"@, "yes"@, n)
}

proof fn lemma_words_differ()
    ensures
        "path"@.len() == 4 && "path_strict"@.len() == 11 && "path_file"@.len() == 9
            && "path_extension"@.len() == 14 && "name_field"@.len() == 10
            && "type_per_file"@.len() == 13 && "starts_with"@.len() == 11
            && "type_key_prefix"@.len() == 15 && "severity"@.len() == 8 && "unique"@.len() == 6
            && "should_be_used"@.len() == 14 && "skip_root_key"@.len() == 13,
        "path_strict"@[0] == 'p' && "starts_with"@[0] == 's' && "path_extension"@[0] == 'p'
            && "should_be_used"@[0] == 's' && "type_per_file"@[0] == 't' && "skip_root_key"@[0]
            == 's',
        forall|k: Seq<char>| #[trigger]
            starts(k, "subtype["@) ==> k.len() >= 8 && k[0] == 's' && k[1] == 'u',
        "severity"@[1] == 'e' && "starts_with"@[1] == 't' && "should_be_used"@[1] == 'h'
            && "path_strict"@[0] == 'p' && "path_file"@[0] == 'p' && "path_extension"@[0] == 'p'
            && "name_field"@[0] == 'n' && "type_per_file"@[0] == 't' && "type_key_prefix"@[0]
            == 't',
{
    reveal_strlit("path");
    reveal_strlit("path_strict");
    reveal_strlit("path_file");
    reveal_strlit("path_extension");
    reveal_strlit("name_field");
    reveal_strlit("type_per_file");
    reveal_strlit("starts_with");
    reveal_strlit("type_key_prefix");
    reveal_strlit("severity");
    reveal_strlit("unique");
    reveal_strlit("should_be_used");
    reveal_strlit("skip_root_key");
    reveal_strlit("subtype[");
    assert forall|k: Seq<char>| #[trigger] starts(k, "subtype["@) implies k.len() >= 8 && k[0] == 's'
        && k[1] == 'u' by {
        assert(k.subrange(0, 8)[0] == k[0]);
        assert(k.subrange(0, 8)[1] == k[1]);
    }
}

proof fn lemma_some_field(ch: Seq<Child>, name: Seq<char>, value: Seq<char>, n: int)
    requires
        0 < n <= ch.len(),
    ensures
        some_field(ch, name, value, n) <==> some_field(ch, name, value, n - 1) || (match ch[n - 1] {
            Child::Leaf(l) => l.key@ == name && config_text(l.value) == value,
            _ => false,
        }),
{
    if some_field(ch, name, value, n) {
        let i = choose|i: int|
            0 <= i < n && (match #[trigger] ch[i] {
                Child::Leaf(l) => l.key@ == name && config_text(l.value) == value,
                _ => false,
            });
        if i < n - 1 {
            assert(some_field(ch, name, value, n - 1));
        }
    }
    if some_field(ch, name, value, n - 1) {
        let i = choose|i: int|
            0 <= i < n - 1 && (match #[trigger] ch[i] {
                Child::Leaf(l) => l.key@ == name && config_text(l.value) == value,
                _ => false,
            });
        assert(some_field(ch, name, value, n));
    }
}

#[verifier::rlimit(40)]
proof fn lemma_type_fold(d: TypeDefV, ch: Seq<Child>, n: int)
    requires
        0 <= n <= ch.len(),
        has_settings(d, ch, 0),
    ensures
        has_settings(type_fold(d, ch, n), ch, n),
        type_fold(d, ch, n).name == d.name,
        type_fold(d, ch, n).type_key_filter == d.type_key_filter,
    decreases n,
{
    if n > 0 {
        lemma_type_fold(d, ch, n - 1);
        lemma_words_differ();
        lemma_some_field(ch, "path_strict"@, "yes"@, n);
        lemma_some_field(ch, "type_per_file"@, "yes"@, n);
        lemma_some_field(ch, "severity"@, "warning"@, n);
        lemma_some_field(ch, "unique"@, "yes"@, n);
        lemma_some_field(ch, "should_be_used"@, "yes"@, n);
    }
}

/// A block that declares a type gives it its name and, each under its own name, what the
/// block sets; the filter on keys is the one in front of it.
pub proof fn law_declared_type(name: Seq<char>, l: Leaf, comments: Seq<Seq<char>>)
    requires
        l.value is Clause,
    ensures
        ({
            let ch = l.value->Clause_0@;
            let t = type_of(name, l, comments);
            &&& t.name == name
            &&& has_settings(t, ch, ch.len() as int)
            &&& t.type_key_filter == key_filter_of(comments, comments.len() as int)
        }),
{
    let ch = l.value->Clause_0@;
    let d = bare_type(name, comments);
    assert(d.path_options.paths =~= paths_named(ch, 0));
    lemma_type_fold(d, ch, ch.len() as int);
}

/// Every type that a `types` block declares is taken in, in order, behind those that are
/// there.
pub proof fn law_types_are_taken_in(types: Seq<TypeDefV>, ch: Seq<Child>, i: int, name: Seq<char>)
    requires
        0 <= i < ch.len(),
        ch[i] is Leaf,
        ch[i]->Leaf_0.key@ == "type["@ + name + "]"@,
    ensures
        with_types(types, ch, ch.len() as int).contains(
            type_of(name, ch[i]->Leaf_0, comments_before(ch, i)),
        ),
        types.len() <= with_types(types, ch, ch.len() as int).len(),
        with_types(types, ch, ch.len() as int).take(types.len() as int) == types,
{
    let l = ch[i]->Leaf_0;
    let t = type_of(name, l, comments_before(ch, i));
    lemma_bracket_content("type"@, name);
    reveal_strlit("type[");
    reveal_strlit("type");
    reveal_strlit("[");
    assert("type"@ + "["@ + name + "]"@ =~= "type["@ + name + "]"@);
    lemma_types_grow(types, ch, i + 1, ch.len() as int);
    lemma_types_grow(types, ch, 0, ch.len() as int);
    let at = with_types(types, ch, i + 1);
    let all = with_types(types, ch, ch.len() as int);
    assert(at.last() == t);
    assert(all[at.len() - 1] == all.take(at.len() as int)[at.len() - 1]);
    assert(with_types(types, ch, 0) == types);
}

pub proof fn lemma_bracket_content(word: Seq<char>, name: Seq<char>)
    ensures
        bracket_content(word + "["@ + name + "]"@, word) == Some(name),
        starts(word + "["@ + name + "]"@, word + "["@),
{
    reveal_strlit("[");
    reveal_strlit("]");
    let p = word + "["@;
    let t = p + name + "]"@;
    assert(t.subrange(0, p.len() as int) =~= p);
    assert(t.subrange(p.len() as int, t.len() - 1) =~= name);
    assert(t.last() == ']');
}

proof fn lemma_types_grow(types: Seq<TypeDefV>, ch: Seq<Child>, m: int, n: int)
    requires
        0 <= m <= n <= ch.len(),
    ensures
        with_types(types, ch, m).len() <= with_types(types, ch, n).len(),
        with_types(types, ch, n).take(with_types(types, ch, m).len() as int) == with_types(
            types,
            ch,
            m,
        ),
    decreases n,
{
    let a = with_types(types, ch, m);
    let b = with_types(types, ch, n);
    if m < n {
        lemma_types_grow(types, ch, m, n - 1);
        let c = with_types(types, ch, n - 1);
        assert(b.take(c.len() as int) =~= c);
        assert(b.take(a.len() as int) =~= c.take(a.len() as int));
    } else {
        assert(b.take(a.len() as int) =~= a);
    }
}

/// The wrappers that a type names: the first key alone is a level; further keys make one
/// level of all of them, which is for the keys named, or with `<>` for all others; `any`
/// is a level for every key.
pub proof fn law_wrapper_keys(a: Seq<char>, b: Seq<char>, c: Seq<char>, equals: bool)
    requires
        a != "any"@ && b != "any"@ && c != "any"@,
    ensures
        ({
            let none = Seq::<SkipRootKeyV>::empty();
            let one = with_skip_key(none, a, equals);
            let two = with_skip_key(one, b, equals);
            let three = with_skip_key(two, c, equals);
            let kind = if equals {
                MatchKind::Equals
            } else {
                MatchKind::NotEquals
            };
            &&& one == seq![SkipRootKeyV::SpecificKey(a)]
            &&& two == seq![SkipRootKeyV::MultipleKeys(seq![a, b], kind)]
            &&& three == seq![SkipRootKeyV::MultipleKeys(seq![a, b, c], kind)]
            &&& with_skip_key(none, "any"@, equals) == seq![SkipRootKeyV::AnyKey]
        }),
{
    let none = Seq::<SkipRootKeyV>::empty();
    let one = with_skip_key(none, a, equals);
    let two = with_skip_key(one, b, equals);
    let three = with_skip_key(two, c, equals);
    assert(one =~= seq![SkipRootKeyV::SpecificKey(a)]);
    reveal_with_fuel(level_keys, 3);
    assert(level_keys(one, 1) =~= seq![a]);
    assert(level_keys(one, 1).push(b) =~= seq![a, b]);
    assert(level_keys(two, 1) =~= seq![a, b]);
    assert(level_keys(two, 1).push(c) =~= seq![a, b, c]);
    assert(with_skip_key(none, "any"@, equals) =~= seq![SkipRootKeyV::AnyKey]);
}

// ---------------------------------------------------------------------------
// Subtypes, localisation, modifiers

/// A block that declares a subtype gives it its name and the field that marks it; the lines
/// in front of it give it what they set, each under its own name, and the keys that it is
/// for.
pub proof fn law_declared_subtype(name: Seq<char>, l: Leaf, comments: Seq<Seq<char>>, i: int)
    requires
        l.value is Clause,
    ensures
        ({
            let ch = l.value->Clause_0@;
            let st = subtype_of(name, l, comments);
            &&& st.name == name
            &&& st.only_if_not == only_if_not_of(comments)
            &&& st.push_scope == comment_value(comments, "push_scope"@)
            &&& st.starts_with == comment_value(comments, "starts_with"@)
            &&& st.display_name == comment_value(comments, "display_name"@)
            &&& st.abbreviation == comment_value(comments, "abbreviation"@)
            &&& key_filter_of(comments, comments.len() as int) matches Some((keys, _))
                ==> st.type_key_filter == keys
            &&& key_filter_of(comments, comments.len() as int) is None ==> st.type_key_filter.len()
                == 0
            &&& 0 <= i < ch.len() && (match ch[i] {
                Child::Leaf(x) => x.key@ == "type_key_field"@ && forall|j: int|
                    0 <= j < i ==> !((#[trigger] ch[j]) is Leaf) || ch[j]->Leaf_0.key@
                        != "type_key_field"@,
                _ => false,
            }) ==> st.type_key_field == Some(config_text(ch[i]->Leaf_0.value))
        }),
{
    let ch = l.value->Clause_0@;
    if 0 <= i < ch.len() && ch[i] is Leaf && ch[i]->Leaf_0.key@ == "type_key_field"@ && (forall|
        j: int,
    |
        0 <= j < i ==> !((#[trigger] ch[j]) is Leaf) || ch[j]->Leaf_0.key@ != "type_key_field"@) {
        lemma_first_key_text(ch, "type_key_field"@, 0, i);
    }
}

proof fn lemma_first_key_text(ch: Seq<Child>, key: Seq<char>, k: int, i: int)
    requires
        0 <= k <= i < ch.len(),
        ch[i] is Leaf && ch[i]->Leaf_0.key@ == key,
        forall|j: int| k <= j < i ==> !((#[trigger] ch[j]) is Leaf) || ch[j]->Leaf_0.key@ != key,
    ensures
        first_key_text(ch, key, k) == Some(config_text(ch[i]->Leaf_0.value)),
    decreases i - k,
{
    if k < i {
        assert(!(ch[k] is Leaf) || ch[k]->Leaf_0.key@ != key);
        lemma_first_key_text(ch, key, k + 1, i);
    }
}

/// A localisation key is made of what stands before and behind the `$`, in that order;
/// without a `$` it is the field that holds the key. What the comments say of it is kept
/// apart.
pub proof fn law_localisation_keys(
    l: Leaf,
    comments: Seq<Seq<char>>,
    a: Seq<char>,
    b: Seq<char>,
)
    requires
        is_free_of(a, CharSet::One('$')),
    ensures
        ({
            let t = localisation_of(l, comments);
            &&& t.name == l.key@
            &&& config_text(l.value) == a + seq!['$'] + b ==> t.prefix == a && t.suffix == b
                && t.explicit_field is None
            &&& config_text(l.value) == a ==> t.prefix.len() == 0 && t.suffix.len() == 0
                && t.explicit_field == Some(a)
            &&& t.required <==> exists|i: int|
                0 <= i < comments.len() && contains_text(#[trigger] comments[i], "required"@)
            &&& t.optional <==> exists|i: int|
                0 <= i < comments.len() && contains_text(#[trigger] comments[i], "optional"@)
            &&& t.primary <==> exists|i: int|
                0 <= i < comments.len() && contains_text(#[trigger] comments[i], "primary"@)
        }),
{
    law_split_first(a, '$', b);
    lemma_find_is(a, CharSet::One('$'), 0, a.len() as int);
    lemma_mentions(comments, "required"@, 0);
    lemma_mentions(comments, "optional"@, 0);
    lemma_mentions(comments, "primary"@, 0);
}

proof fn lemma_mentions(comments: Seq<Seq<char>>, word: Seq<char>, k: int)
    requires
        0 <= k <= comments.len(),
    ensures
        first_with(comments, word, k) is Some <==> exists|i: int|
            k <= i < comments.len() && contains_text(#[trigger] comments[i], word),
    decreases comments.len() - k,
{
    if k < comments.len() {
        lemma_mentions(comments, word, k + 1);
        if contains_text(comments[k], word) {
            assert(contains_text(comments[k], word));
        }
    }
}

/// A modifier is made of what stands before and behind the `$`, in that order.
pub proof fn law_modifier_keys(
    l: Leaf,
    comments: Seq<Seq<char>>,
    a: Seq<char>,
    b: Seq<char>,
)
    requires
        is_free_of(a, CharSet::One('$')),
        config_text(l.value) == a + seq!['$'] + b,
    ensures
        ({
            let m = modifier_of(l, comments);
            &&& m.prefix == a
            &&& m.suffix == b
            &&& m.category == l.key@
            &&& m.explicit <==> exists|i: int|
                0 <= i < comments.len() && contains_text(#[trigger] comments[i], "explicit"@)
        }),
{
    law_split_first(a, '$', b);
    lemma_mentions(comments, "explicit"@, 0);
}

// ---------------------------------------------------------------------------
// Enums and value sets

proof fn lemma_members(ch: Seq<Child>, n: int, s: Seq<char>)
    requires
        0 <= n <= ch.len(),
    ensures
        member_texts(ch, n).contains(s) <==> exists|i: int|
            0 <= i < n && s.len() > 0 && (match #[trigger] ch[i] {
                Child::LeafValue(lv) => config_text(lv.value) == s,
                Child::Leaf(l) => l.key@ == s,
                Child::Comment(_) => false,
            }),
    decreases n,
{
    let now = member_texts(ch, n);
    if n > 0 {
        lemma_members(ch, n - 1, s);
        let before = member_texts(ch, n - 1);
        let t = member_text(ch[n - 1]);
        if before.contains(s) {
            let i = choose|i: int| 0 <= i < before.len() && before[i] == s;
            assert(now[i] == s);
        }
        if t.len() > 0 && t == s {
            assert(now[before.len() as int] == s);
            assert(ch[n - 1] == ch[n - 1]);
        }
        if now.contains(s) && !before.contains(s) {
            let i = choose|i: int| 0 <= i < now.len() && now[i] == s;
            if i < before.len() {
                assert(before[i] == s);
            }
            assert(t == s);
        }
        if exists|i: int|
            0 <= i < n && s.len() > 0 && (match #[trigger] ch[i] {
                Child::LeafValue(lv) => config_text(lv.value) == s,
                Child::Leaf(l) => l.key@ == s,
                Child::Comment(_) => false,
            }) {
            let i = choose|i: int|
                0 <= i < n && s.len() > 0 && (match #[trigger] ch[i] {
                    Child::LeafValue(lv) => config_text(lv.value) == s,
                    Child::Leaf(l) => l.key@ == s,
                    Child::Comment(_) => false,
                });
            if i < n - 1 {
                assert(before.contains(s));
            }
        }
    } else {
        assert(now =~= Seq::<Seq<char>>::empty());
    }
}

/// An enum has the name that it is declared under, and its members are the values in its
/// block and the keys of the fields there, and nothing else.
pub proof fn law_declared_enum(
    name: Seq<char>,
    v: Value,
    comments: Seq<Seq<char>>,
    s: Seq<char>,
)
    requires
        v is Clause,
    ensures
        ({
            let ch = v->Clause_0@;
            let e = enum_of(name, v, comments);
            &&& e.key == name
            &&& e.values.contains(s) <==> exists|i: int|
                0 <= i < ch.len() && s.len() > 0 && (match #[trigger] ch[i] {
                    Child::LeafValue(lv) => config_text(lv.value) == s,
                    Child::Leaf(l) => l.key@ == s,
                    Child::Comment(_) => false,
                })
        }),
{
    lemma_members(v->Clause_0@, v->Clause_0@.len() as int, s);
}

/// A value set that is declared more than once has the members of all its declarations,
/// in order; others stay as they are.
pub proof fn law_value_sets(
    m: Map<Seq<char>, Seq<Seq<char>>>,
    c: Child,
    name: Seq<char>,
    other: Seq<char>,
)
    requires
        c is Leaf,
        c->Leaf_0.key@ == "value["@ + name + "]"@,
    ensures
        ({
            let after = with_value_child(m, c);
            let new = clause_members(c->Leaf_0.value);
            &&& after.contains_key(name)
            &&& !m.contains_key(name) ==> after[name] == new
            &&& m.contains_key(name) ==> after[name] == m[name] + new
            &&& other != name ==> (after.contains_key(other) <==> m.contains_key(other))
            &&& other != name && m.contains_key(other) ==> after[other] == m[other]
        }),
{
    lemma_bracket_content("value"@, name);
    reveal_strlit("value[");
    reveal_strlit("value");
    reveal_strlit("[");
    assert("value"@ + "["@ + name + "]"@ =~= "value["@ + name + "]"@);
    let new = clause_members(c->Leaf_0.value);
    assert(Seq::<Seq<char>>::empty() + new =~= new);
}

// ---------------------------------------------------------------------------
// Rules

/// A path of a configuration has slashes, and no `game/` in front.
pub proof fn law_paths_are_cleaned(rest: Seq<char>)
    requires
        is_free_of(rest, CharSet::One('\\')),
    ensures
        cleaned_path("game/"@ + rest) == rest,
        cleaned_path("game\\"@ + rest) == rest,
        !starts(rest, "game/"@) ==> cleaned_path(rest) == rest,
{
    reveal_strlit("game/");
    reveal_strlit("game\\");
    assert forall|i: int| 0 <= i < rest.len() implies #[trigger] rest[i] != '\\' by {
        assert(!CharSet::One('\\').has(rest[i]));
    }
    let a = "game/"@ + rest;
    let b = "game\\"@ + rest;
    assert(replace_char_spec(a, '\\', '/') =~= a);
    assert(replace_char_spec(b, '\\', '/') =~= a);
    assert(replace_char_spec(rest, '\\', '/') =~= rest);
    assert(a.subrange(0, 5) =~= "game/"@);
    assert(a.subrange(5, a.len() as int) =~= rest);
}

/// A field of a block is a rule for that key: with the body as its rules where it is a
/// block, with what its value stands for where it is not. `subtype[x]` holds the rules for
/// instances that have the subtype, `subtype[!x]` for those that have it not.
#[verifier::rlimit(50)]
pub proof fn law_rules_of_blocks(l: Leaf, comments: Seq<Seq<char>>, name: Seq<char>)
    ensures
        !starts(l.key@, "subtype["@) && l.value is Clause ==> leaf_rule(l, comments) == Some(
            (
                RuleTypeV::NodeRule {
                    left: field_of(l.key@),
                    rules: block_rules(l.value->Clause_0@),
                },
                options_of(comments, l.op == Operator::EqualEqual),
            ),
        ),
        !starts(l.key@, "subtype["@) && !(l.value is Clause) && bracket_inner(
            config_text(l.value),
            "colour["@,
        ) is None ==> leaf_rule(l, comments) == Some(
            (
                RuleTypeV::LeafRule {
                    left: field_of(l.key@),
                    right: field_of(config_text(l.value)),
                },
                options_of(comments, l.op == Operator::EqualEqual),
            ),
        ),
        l.key@ == "subtype["@ + name + "]"@ && l.value is Clause && (name.len() == 0 || name[0]
            != '!') ==> leaf_rule(l, comments) == Some(
            (
                RuleTypeV::SubtypeRule {
                    name,
                    positive: true,
                    rules: block_rules(l.value->Clause_0@),
                },
                options_of(comments, false),
            ),
        ),
        l.key@ == "subtype[!"@ + name + "]"@ && l.value is Clause ==> leaf_rule(l, comments)
            == Some(
            (
                RuleTypeV::SubtypeRule {
                    name,
                    positive: false,
                    rules: block_rules(l.value->Clause_0@),
                },
                options_of(comments, false),
            ),
        ),
{
    reveal_strlit("subtype[");
    reveal_strlit("subtype[!");
    reveal_strlit("subtype");
    reveal_strlit("[");
    assert("subtype"@ + "["@ =~= "subtype["@);
    if l.key@ == "subtype["@ + name + "]"@ {
        lemma_bracket_content("subtype"@, name);
        assert("subtype"@ + "["@ + name + "]"@ =~= "subtype["@ + name + "]"@);
    }
    let not = seq!['!'] + name;
    if l.key@ == "subtype[!"@ + name + "]"@ {
        lemma_bracket_content("subtype"@, not);
        assert("subtype"@ + "["@ + not + "]"@ =~= "subtype[!"@ + name + "]"@);
        assert(not.subrange(1, not.len() as int) =~= name);
    }
}

/// Every child of a block that is no comment stands for a rule, in order, with the
/// comments in front of it as its options.
pub proof fn law_one_rule_per_child(ch: Seq<Child>, n: int)
    requires
        0 < n <= ch.len(),
        ch[n - 1] is Leaf,
        !starts(ch[n - 1]->Leaf_0.key@, "subtype["@),
    ensures
        ({
            let before = rules_fold(ch, n - 1, false).0;
            let now = rules_fold(ch, n, false).0;
            &&& now.len() == before.len() + 1
            &&& now.take(before.len() as int) == before
            &&& Some(now.last()) == leaf_rule(ch[n - 1]->Leaf_0, comments_before(ch, n - 1))
        }),
{
    lemma_pending(ch, n - 1);
    let before = rules_fold(ch, n - 1, false).0;
    let now = rules_fold(ch, n, false).0;
    assert(now.take(before.len() as int) =~= before);
}

proof fn lemma_pending(ch: Seq<Child>, n: int)
    requires
        0 <= n <= ch.len(),
    ensures
        rules_fold(ch, n, false).1 == comments_before(ch, n),
    decreases n,
{
    if n > 0 {
        lemma_pending(ch, n - 1);
    }
}

/// A leaf at the top of a configuration is an alias under its category and name, a single
/// alias under its name, or the rule for the instances of a type.
#[verifier::rlimit(50)]
pub proof fn law_top_level_rules(
    rs: RuleSetV,
    l: Leaf,
    comments: Seq<Seq<char>>,
    category: Seq<char>,
    name: Seq<char>,
)
    requires
        is_free_of(category, CharSet::One(':')),
    ensures
        ({
            let after = with_root_leaf(rs, l, comments);
            let rule = (root_rule(l), options_of(comments, l.op == Operator::EqualEqual));
            &&& l.key@ == "alias["@ + category + ":"@ + name + "]"@ ==> after == (RuleSetV {
                aliases: rs.aliases.push((category + ":"@ + name, rule)),
                ..rs
            })
            &&& l.key@ == "single_alias["@ + name + "]"@ ==> after == (RuleSetV {
                single_aliases: rs.single_aliases.push((name, rule)),
                ..rs
            })
            &&& !starts(l.key@, "alias["@) && !starts(l.key@, "single_alias["@) ==> after == (
            RuleSetV {
                root_rules: rs.root_rules.push(RootRuleV::TypeRule(l.key@, rule)),
                ..rs
            })
        }),
{
    reveal_strlit("alias[");
    reveal_strlit("alias");
    reveal_strlit("single_alias[");
    reveal_strlit("single_alias");
    reveal_strlit("[");
    reveal_strlit(":");
    assert("alias"@ + "["@ =~= "alias["@);
    assert("single_alias"@ + "["@ =~= "single_alias["@);
    let full = category + seq![':'] + name;
    assert(category + ":"@ + name =~= full);
    law_split_first(category, ':', name);
    if l.key@ == "alias["@ + category + ":"@ + name + "]"@ {
        lemma_bracket_content("alias"@, full);
        assert("alias"@ + "["@ + full + "]"@ =~= l.key@);
    }
    if l.key@ == "single_alias["@ + name + "]"@ {
        lemma_bracket_content("single_alias"@, name);
        assert("single_alias"@ + "["@ + name + "]"@ =~= l.key@);
        if starts(l.key@, "alias["@) {
            assert(l.key@.subrange(0, 6)[0] == l.key@[0]);
        }
    }
}

// ---------------------------------------------------------------------------
// Sections of a configuration

/// Each section of a configuration is taken in as what its name says, and changes nothing
/// else.
pub proof fn law_sections(rs: RuleSetV, ch: Seq<Child>, i: int)
    requires
        0 <= i < ch.len(),
        ch[i] is Leaf,
        ch[i]->Leaf_0.value is Clause,
    ensures
        ({
            let l = ch[i]->Leaf_0;
            let c = l.value->Clause_0@;
            let n = c.len() as int;
            let out = with_root_child(rs, ch, i);
            &&& l.key@ == "types"@ ==> out == (RuleSetV { types: with_types(rs.types, c, n), ..rs })
            &&& l.key@ == "enums"@ ==> out == with_enums(rs, c, n)
            &&& l.key@ == "values"@ ==> out == (RuleSetV {
                values: with_values(rs.values, c, n),
                ..rs
            })
            &&& l.key@ == "modifiers"@ ==> out == (RuleSetV {
                modifiers: with_modifiers(rs.modifiers, c, n),
                ..rs
            })
            &&& l.key@ == "links"@ ==> out == with_links(rs, c, n)
            &&& l.key@ == "scopes"@ ==> out == (RuleSetV {
                scope_inputs: with_scopes(rs.scope_inputs, c, n),
                ..rs
            })
        }),
{
    reveal_strlit("types");
    reveal_strlit("enums");
    reveal_strlit("values");
    reveal_strlit("modifiers");
    reveal_strlit("links");
    reveal_strlit("scopes");
    assert("types"@[0] == 't' && "enums"@[0] == 'e' && "links"@[0] == 'l' && "values"@[0] == 'v'
        && "scopes"@[0] == 's');
}

/// Every enum that a section declares is taken in behind those that are there.
pub proof fn law_enums_are_taken_in(rs: RuleSetV, ch: Seq<Child>, i: int, name: Seq<char>)
    requires
        0 <= i < ch.len(),
        ch[i] is Leaf,
        ch[i]->Leaf_0.key@ == "enum["@ + name + "]"@,
    ensures
        ({
            let out = with_enum_child(rs, ch, i);
            &&& out.enums.len() == rs.enums.len() + 1
            &&& out.enums.take(rs.enums.len() as int) == rs.enums
            &&& out.enums.last().key == name
            &&& out.enums.last().values == clause_members(ch[i]->Leaf_0.value)
            &&& out.complex_enums == rs.complex_enums
        }),
{
    lemma_bracket_content("enum"@, name);
    reveal_strlit("enum[");
    reveal_strlit("enum");
    reveal_strlit("[");
    assert("enum"@ + "["@ =~= "enum["@);
    assert("enum"@ + "["@ + name + "]"@ =~= "enum["@ + name + "]"@);
    let out = with_enum_child(rs, ch, i);
    assert(out.enums.take(rs.enums.len() as int) =~= rs.enums);
}

/// A complex enum has the paths and the start that its block gives.
#[verifier::rlimit(50)]
pub proof fn law_declared_complex_enum(e: ComplexEnumV, ch: Seq<Child>, n: int)
    requires
        0 <= n <= ch.len(),
        e.path_options.paths.len() == 0,
        !e.start_from_root && !e.path_options.path_strict,
        e.path_options.path_file is None && e.path_options.path_extension is None,
    ensures
        ({
            let out = complex_enum_fold(e, ch, n);
            &&& out.name == e.name
            &&& out.path_options.paths =~= paths_named(ch, n)
            &&& out.start_from_root <==> some_field(ch, "start_from_root"@, "yes"@, n)
            &&& out.path_options.path_strict <==> some_field(ch, "path_strict"@, "yes"@, n)
            &&& out.path_options.path_file == last_field(ch, "path_file"@, n)
            &&& out.path_options.path_extension == last_field(ch, "path_extension"@, n)
        }),
    decreases n,
{
    if n > 0 {
        law_declared_complex_enum(e, ch, n - 1);
        lemma_words_differ();
        reveal_strlit("name");
        reveal_strlit("start_from_root");
        reveal_strlit("path");
        assert("name"@[0] == 'n' && "path"@[0] == 'p');
        assert("start_from_root"@.len() == 15);
        lemma_some_field(ch, "start_from_root"@, "yes"@, n);
        lemma_some_field(ch, "path_strict"@, "yes"@, n);
    }
}

/// Where the name of a member stands in a file: a block is a level further in; a field whose
/// value says so, and a bare word that says so, are the place of the name.
pub proof fn law_name_trees(c: Child)
    ensures
        match c {
            Child::Leaf(l) => match l.value {
                Value::Clause(sub) => name_entry(c) == Some(
                    NameEntryV::Node { key: l.key@, children: name_tree_of(sub@) },
                ),
                v => name_entry(c) == Some(
                    NameEntryV::Leaf {
                        key: l.key@,
                        is_name: config_text(v) == "enum_name"@ || config_text(v) == "this"@,
                    },
                ),
            },
            Child::LeafValue(lv) => name_entry(c) is Some <==> config_text(lv.value)
                == "enum_name"@,
            Child::Comment(_) => name_entry(c) is None,
        },
{
}

proof fn lemma_subtypes(d: TypeDefV, ch: Seq<Child>, n: int, i: int, name: Seq<char>)
    requires
        0 <= i < n <= ch.len(),
        ch[i] is Leaf,
        ch[i]->Leaf_0.key@ == "subtype["@ + name + "]"@,
    ensures
        type_fold(d, ch, n).subtypes.contains(
            subtype_of(name, ch[i]->Leaf_0, comments_before(ch, i)),
        ),
    decreases n,
{
    let st = subtype_of(name, ch[i]->Leaf_0, comments_before(ch, i));
    let before = type_fold(d, ch, n - 1).subtypes;
    let now = type_fold(d, ch, n).subtypes;
    if i < n - 1 {
        lemma_subtypes(d, ch, n - 1, i, name);
        let k = choose|k: int| 0 <= k < before.len() && before[k] == st;
        assert(now[k] == st);
    } else {
        lemma_bracket_content("subtype"@, name);
        reveal_strlit("subtype[");
        reveal_strlit("subtype");
        reveal_strlit("[");
        assert("subtype"@ + "["@ =~= "subtype["@);
        assert("subtype"@ + "["@ + name + "]"@ =~= "subtype["@ + name + "]"@);
        assert(now[before.len() as int] == st);
    }
}

/// Every subtype that the block of a type declares is a subtype of the type, with its name
/// and rules.
pub proof fn law_subtypes_are_taken_in(
    of_type: Seq<char>,
    l: Leaf,
    comments: Seq<Seq<char>>,
    i: int,
    name: Seq<char>,
)
    requires
        l.value is Clause,
        0 <= i < l.value->Clause_0@.len(),
        l.value->Clause_0@[i] is Leaf,
        l.value->Clause_0@[i]->Leaf_0.key@ == "subtype["@ + name + "]"@,
        last_clause(l.value->Clause_0@, "localisation"@, l.value->Clause_0@.len() as int) is None,
        last_clause(l.value->Clause_0@, "modifiers"@, l.value->Clause_0@.len() as int) is None,
    ensures
        type_of(of_type, l, comments).subtypes.contains(
            subtype_of(
                name,
                l.value->Clause_0@[i]->Leaf_0,
                comments_before(l.value->Clause_0@, i),
            ),
        ),
{
    let ch = l.value->Clause_0@;
    lemma_subtypes(bare_type(of_type, comments), ch, ch.len() as int, i, name);
}

/// A wrapper block names one level for each of its values, in order; `any` is a level for
/// every key.
pub proof fn law_levels_of_a_block(s: Seq<SkipRootKeyV>, ch: Seq<Child>, n: int)
    requires
        0 < n <= ch.len(),
    ensures
        ({
            let before = skip_levels(s, ch, n - 1);
            let now = skip_levels(s, ch, n);
            match ch[n - 1] {
                Child::LeafValue(lv) => {
                    let v = config_text(lv.value);
                    &&& v.len() == 0 ==> now == before
                    &&& v.len() > 0 && v == "any"@ ==> now == before.push(SkipRootKeyV::AnyKey)
                    &&& v.len() > 0 && v != "any"@ ==> now == before.push(
                        SkipRootKeyV::SpecificKey(v),
                    )
                },
                _ => now == before,
            }
        }),
{
}

/// A link is taken in under its name, with what its block declares, and its name and its
/// prefix are known in lower case.
pub proof fn law_links_are_taken_in(rs: RuleSetV, c: Child, name: Seq<char>)
    requires
        c is Leaf,
        c->Leaf_0.value is Clause,
        c->Leaf_0.key@ == name,
        has_bare_ends(name, CharSet::One('"')),
    ensures
        ({
            let out = with_link_child(rs, c);
            let li = link_of(name, c->Leaf_0.value->Clause_0@);
            &&& out.link_inputs == rs.link_inputs.push(li)
            &&& out.scope_links.contains(ascii_lower(name))
            &&& li.prefix matches Some(p) ==> out.scope_links.contains(ascii_lower(p))
            &&& forall|k: Seq<char>| #[trigger]
                rs.scope_links.contains(k) ==> out.scope_links.contains(k)
        }),
{
    lemma_trim_bare(name, CharSet::One('"'));
}

/// A scope is taken in under its name, with the aliases and the scopes that it is a
/// subscope of, each from the list of that name.
pub proof fn law_scopes_are_taken_in(s: Seq<ScopeInputV>, c: Child, name: Seq<char>, i: int, j: int)
    requires
        c is Leaf,
        c->Leaf_0.value is Clause,
        c->Leaf_0.key@ == name,
        has_bare_ends(name, CharSet::One('"')),
    ensures
        ({
            let out = with_scope_child(s, c);
            let body = c->Leaf_0.value->Clause_0@;
            let is_first = |key: Seq<char>, k: int|
                0 <= k < body.len() && body[k] is Leaf && body[k]->Leaf_0.key@ == key && forall|
                    m: int,
                |
                    0 <= m < k ==> !((#[trigger] body[m]) is Leaf) || body[m]->Leaf_0.key@ != key;
            &&& out.len() == s.len() + 1 && out.last().name == name
            &&& is_first("aliases"@, i) ==> out.last().aliases == clause_members(
                body[i]->Leaf_0.value,
            )
            &&& is_first("is_subscope_of"@, j) ==> out.last().is_subscope_of == clause_members(
                body[j]->Leaf_0.value,
            )
        }),
{
    lemma_trim_bare(name, CharSet::One('"'));
    let body = c->Leaf_0.value->Clause_0@;
    if 0 <= i < body.len() && body[i] is Leaf && body[i]->Leaf_0.key@ == "aliases"@ && (forall|
        m: int,
    |
        0 <= m < i ==> !((#[trigger] body[m]) is Leaf) || body[m]->Leaf_0.key@ != "aliases"@) {
        lemma_clause_values(body, "aliases"@, 0, i);
    }
    if 0 <= j < body.len() && body[j] is Leaf && body[j]->Leaf_0.key@ == "is_subscope_of"@ && (
    forall|m: int|
        0 <= m < j ==> !((#[trigger] body[m]) is Leaf) || body[m]->Leaf_0.key@
            != "is_subscope_of"@) {
        lemma_clause_values(body, "is_subscope_of"@, 0, j);
    }
}

proof fn lemma_clause_values(ch: Seq<Child>, key: Seq<char>, k: int, i: int)
    requires
        0 <= k <= i < ch.len(),
        ch[i] is Leaf && ch[i]->Leaf_0.key@ == key,
        forall|j: int| k <= j < i ==> !((#[trigger] ch[j]) is Leaf) || ch[j]->Leaf_0.key@ != key,
    ensures
        clause_values(ch, key, k) == clause_members(ch[i]->Leaf_0.value),
    decreases i - k,
{
    if k < i {
        assert(!(ch[k] is Leaf) || ch[k]->Leaf_0.key@ != key);
        lemma_clause_values(ch, key, k + 1, i);
    }
}

/// The comments directly in front of a child, and no others, are its own.
pub proof fn law_comments_before(ch: Seq<Child>, i: int)
    requires
        0 < i <= ch.len(),
    ensures
        match ch[i - 1] {
            Child::Comment(c) => comments_before(ch, i) == comments_before(ch, i - 1).push(
                trim_of(c.text@, CharSet::White),
            ),
            _ => comments_before(ch, i).len() == 0,
        },
        comments_before(ch, 0).len() == 0,
{
}

// ---------------------------------------------------------------------------
// Operators, localisation of subtypes

/// Whether wrappers are named or excluded is what the first of them says: `=` and `==` name
/// them, any other operator excludes them.
pub proof fn law_first_operator(ch: Seq<Child>, i: int)
    requires
        0 <= i < ch.len(),
        ch[i] is Leaf,
        ch[i]->Leaf_0.key@ == "skip_root_key"@,
        forall|j: int|
            0 <= j < i ==> !((#[trigger] ch[j]) is Leaf) || ch[j]->Leaf_0.key@ != "skip_root_key"@,
    ensures
        first_skip_equals(ch, 0) <==> ch[i]->Leaf_0.op == Operator::Equals || ch[i]->Leaf_0.op
            == Operator::EqualEqual,
{
    lemma_first_skip(ch, 0, i);
}

proof fn lemma_first_skip(ch: Seq<Child>, k: int, i: int)
    requires
        0 <= k <= i < ch.len(),
        ch[i] is Leaf,
        ch[i]->Leaf_0.key@ == "skip_root_key"@,
        forall|j: int|
            k <= j < i ==> !((#[trigger] ch[j]) is Leaf) || ch[j]->Leaf_0.key@ != "skip_root_key"@,
    ensures
        first_skip_equals(ch, k) == is_equality(ch[i]->Leaf_0.op),
    decreases i - k,
{
    if k < i {
        assert(!(ch[k] is Leaf) || ch[k]->Leaf_0.key@ != "skip_root_key"@);
        lemma_first_skip(ch, k + 1, i);
    }
}

/// Every field of a block of localisation, and of one of modifiers, declares one, in order;
/// what a block for a subtype declares is the subtype's.
pub proof fn law_declarations_in_blocks(ch: Seq<Child>, n: int)
    requires
        0 < n <= ch.len(),
    ensures
        ({
            let own = ch[n - 1] is Leaf && !starts(ch[n - 1]->Leaf_0.key@, "subtype["@);
            let before = comments_before(ch, n - 1);
            &&& own ==> localisations(ch, n) == localisations(ch, n - 1).push(
                localisation_of(ch[n - 1]->Leaf_0, before),
            ) && modifiers_in(ch, n) == modifiers_in(ch, n - 1).push(
                modifier_of(ch[n - 1]->Leaf_0, before),
            )
            &&& !own ==> localisations(ch, n) == localisations(ch, n - 1) && modifiers_in(ch, n)
                == modifiers_in(ch, n - 1)
        }),
{
}

proof fn lemma_first_subtype(s: Seq<SubTypeV>, name: Seq<char>, k: int, i: int)
    requires
        0 <= k <= i < s.len(),
        s[i].name == name,
        forall|j: int| k <= j < i ==> (#[trigger] s[j]).name != name,
    ensures
        first_subtype(s, name, k) == Some(i),
    decreases i - k,
{
    if k < i {
        lemma_first_subtype(s, name, k + 1, i);
    }
}

/// What is declared for a subtype is added to the first subtype of that name, and to no
/// other.
pub proof fn law_declarations_of_subtypes(
    s: Seq<SubTypeV>,
    i: int,
    j: int,
    locs: Seq<TypeLocalisationV>,
    mods: Seq<TypeModifierV>,
)
    requires
        0 <= i < s.len(),
        0 <= j < s.len(),
        forall|k: int| 0 <= k < i ==> (#[trigger] s[k]).name != s[i].name,
    ensures
        add_localisation(s, s[i].name, locs)[i].localisation == s[i].localisation + locs,
        add_modifiers(s, s[i].name, mods)[i].modifiers == s[i].modifiers + mods,
        j != i ==> add_localisation(s, s[i].name, locs)[j] == s[j] && add_modifiers(
            s,
            s[i].name,
            mods,
        )[j] == s[j],
        add_localisation(s, s[i].name, locs)[i].name == s[i].name,
{
    lemma_first_subtype(s, s[i].name, 0, i);
}

/// A value without a key is a rule for such values, and a block without a key one for such
/// blocks; at the top of a configuration, a block is a rule for its key and its body.
pub proof fn law_other_rules(lv: LeafValue, l: Leaf, comments: Seq<Seq<char>>)
    ensures
        ({
            let r = leaf_value_rule(lv, comments);
            match lv.value {
                Value::Clause(c) => r == (
                    RuleTypeV::ValueClauseRule { rules: block_rules(c@) },
                    options_of(comments, false),
                ),
                v => r.0 == (RuleTypeV::LeafValueRule { right: field_of(config_text(v)) })
                    && r.1.leafvalue && r.1.min == options_of(comments, false).min && r.1.max
                    == options_of(comments, false).max,
            }
        }),
        match l.value {
            Value::Clause(c) => root_rule(l) == (RuleTypeV::NodeRule {
                left: FieldV::SpecificField(l.key@),
                rules: block_rules(c@),
            }),
            v => root_rule(l) == (RuleTypeV::LeafRule {
                left: field_of(l.key@),
                right: field_of(config_text(v)),
            }),
        },
{
}

/// A comment is no rule, a bare value is one; the field that marks a subtype is none where
/// it is set aside.
pub proof fn law_children_that_are_rules(ch: Seq<Child>, n: int, aside: bool)
    requires
        0 < n <= ch.len(),
    ensures
        ({
            let before = rules_fold(ch, n - 1, aside);
            let now = rules_fold(ch, n, aside);
            &&& ch[n - 1] is Comment ==> now.0 == before.0
            &&& ch[n - 1] matches Child::LeafValue(lv) ==> now.0 == before.0.push(
                leaf_value_rule(lv, before.1),
            )
            &&& aside && ch[n - 1] is Leaf && ch[n - 1]->Leaf_0.key@ == "type_key_field"@ ==> now.0
                == before.0
        }),
{
}

} // verus!
