//! What holds of rule sets as a whole.

use vstd::prelude::*;

use crate::ast::{Child, Comment, Leaf, LeafValue, SourcePos, Value};
use crate::comment_directives::{description_of, doc_lines, mentions, options_of};
use crate::config_validation::{
    ConfigFile, RefKind, child_problems, children_problems, defines, field_problem, files_problems,
    reference, value_problems,
};
use crate::field_parser::{bracket_field, field_of, type_field, word_field};
use crate::resolve::type_named;
use crate::rule_converter::config_text;
use crate::rules_types::{LinkInputV, RuleV, TypeDefV};
use crate::ruleset::{
    RuleSetV, alias_index, empty_ruleset, entry, indexed_paths, indexed_types, reindexed,
    types_index, with_exact, with_names_of,
};
use crate::ruleset_loader::merged;
use crate::text::{
    CharSet, ascii_lower, find_in, lemma_find_in, split_once_spec, starts, trim_end_of,
    trim_start_of,
};

verus! {

// ---------------------------------------------------------------------------
// Indexes

proof fn lemma_types_index(types: Seq<TypeDefV>, n: int)
    requires
        0 <= n <= types.len(),
    ensures
        types_index(indexed_types(types), n) == types_index(types, n),
    decreases n,
{
    if n > 0 {
        lemma_types_index(types, n - 1);
    }
}

/// To index a rule set twice is to index it once.
pub proof fn law_reindex_idempotent(rs: RuleSetV)
    ensures
        reindexed(reindexed(rs)) == reindexed(rs),
{
    let once = reindexed(rs);
    let twice = reindexed(once);
    lemma_types_index(rs.types, rs.types.len() as int);
    assert forall|i: int| 0 <= i < rs.types.len() implies twice.types[i] == once.types[i] by {
        assert(indexed_paths(once.types[i].path_options) =~= once.types[i].path_options);
    }
    assert(twice.types =~= once.types);
    assert forall|i: int| 0 <= i < rs.complex_enums.len() implies twice.complex_enums[i]
        == once.complex_enums[i] by {
        assert(indexed_paths(once.complex_enums[i].path_options)
            =~= once.complex_enums[i].path_options);
    }
    assert(twice.complex_enums =~= once.complex_enums);
    lemma_link_names_held(rs.scope_links, rs.link_inputs, rs.link_inputs.len() as int);
    lemma_held_link_names(once.scope_links, rs.link_inputs, rs.link_inputs.len() as int);
    assert(twice =~= once);
}

/// The names hold the name of the link and its prefix, in lower case.
pub open spec fn holds_link(names: Set<Seq<char>>, link: LinkInputV) -> bool {
    names.contains(ascii_lower(link.name)) && (link.prefix matches Some(p) ==> names.contains(
        ascii_lower(p),
    ))
}

proof fn lemma_link_names_held(s: Set<Seq<char>>, links: Seq<LinkInputV>, n: int)
    requires
        0 <= n <= links.len(),
    ensures
        forall|i: int|
            0 <= i < n ==> holds_link(with_names_of(s, links, n), #[trigger] links[i]),
        forall|k: Seq<char>| s.contains(k) ==> #[trigger] with_names_of(s, links, n).contains(k),
    decreases n,
{
    if n > 0 {
        lemma_link_names_held(s, links, n - 1);
        assert forall|i: int| 0 <= i < n implies holds_link(
            with_names_of(s, links, n),
            #[trigger] links[i],
        ) by {
            if i < n - 1 {
                assert(holds_link(with_names_of(s, links, n - 1), links[i]));
            }
        }
        assert forall|k: Seq<char>| s.contains(k) implies #[trigger] with_names_of(
            s,
            links,
            n,
        ).contains(k) by {
            assert(with_names_of(s, links, n - 1).contains(k));
        }
    }
}

proof fn lemma_held_link_names(s: Set<Seq<char>>, links: Seq<LinkInputV>, n: int)
    requires
        0 <= n <= links.len(),
        forall|i: int| 0 <= i < links.len() ==> holds_link(s, #[trigger] links[i]),
    ensures
        with_names_of(s, links, n) == s,
    decreases n,
{
    if n > 0 {
        lemma_held_link_names(s, links, n - 1);
        assert(holds_link(s, links[n - 1]));
        assert(with_names_of(s, links, n) =~= s);
    }
}

/// Once a rule set is indexed, each of its links is known by its name and, where it has
/// one, by its prefix; and what was known by name before still is.
pub proof fn law_links_are_known(rs: RuleSetV)
    ensures
        forall|i: int|
            0 <= i < rs.link_inputs.len() ==> holds_link(
                reindexed(rs).scope_links,
                #[trigger] rs.link_inputs[i],
            ),
        rs.scope_links.subset_of(reindexed(rs).scope_links),
{
    lemma_link_names_held(rs.scope_links, rs.link_inputs, rs.link_inputs.len() as int);
}

proof fn lemma_type_lookup(types: Seq<TypeDefV>, name: Seq<char>, n: int)
    requires
        0 <= n <= types.len() <= usize::MAX,
    ensures
        types_index(types, n).contains_key(name) <==> exists|i: int|
            0 <= i < n && (#[trigger] types[i]).name == name,
        types_index(types, n).contains_key(name) ==> {
            let at = types_index(types, n)[name] as int;
            &&& 0 <= at < n
            &&& types[at].name == name
            &&& forall|i: int| at < i < n ==> (#[trigger] types[i]).name != name
        },
    decreases n,
{
    if n > 0 {
        lemma_type_lookup(types, name, n - 1);
        if types[n - 1].name != name && types_index(types, n).contains_key(name) {
            let i = choose|i: int| 0 <= i < n - 1 && (#[trigger] types[i]).name == name;
            assert(types[i].name == name);
        }
    }
}

/// A type is found by its name in an indexed rule set if there is one of that name;
/// it is the last of them.
pub proof fn law_type_lookup(rs: RuleSetV, name: Seq<char>)
    requires
        rs.types.len() <= usize::MAX,
    ensures
        match type_named(reindexed(rs), name) {
            Some(t) => t.name == name && reindexed(rs).types.contains(t),
            None => forall|i: int| 0 <= i < rs.types.len() ==> (#[trigger] rs.types[i]).name
                != name,
        },
{
    let out = reindexed(rs);
    lemma_type_lookup(rs.types, name, rs.types.len() as int);
    if out.type_by_name.contains_key(name) {
        let at = out.type_by_name[name] as int;
        assert(out.types[at].name == rs.types[at].name);
        assert(out.types.contains(out.types[at]));
    }
}

/// The place is listed under the category and the key.
pub open spec fn is_listed(
    m: Map<Seq<char>, Map<Seq<char>, Seq<usize>>>,
    cat: Seq<char>,
    key: Seq<char>,
    i: usize,
) -> bool {
    m.contains_key(cat) && m[cat].contains_key(key) && m[cat][key].contains(i)
}

proof fn lemma_with_exact(
    m: Map<Seq<char>, Map<Seq<char>, Seq<usize>>>,
    cat: Seq<char>,
    key: Seq<char>,
    j: usize,
    c: Seq<char>,
    k: Seq<char>,
    i: usize,
)
    ensures
        is_listed(with_exact(m, cat, key, j), c, k, i) <==> is_listed(m, c, k, i) || (c == cat
            && k == key && i == j),
{
    let inner = entry(m, cat, Map::empty());
    let old_list = entry(inner, key, Seq::empty());
    let list = old_list.push(j);
    if c == cat && k == key {
        assert(list[old_list.len() as int] == j);
        if old_list.contains(i) {
            let x = choose|x: int| 0 <= x < old_list.len() && old_list[x] == i;
            assert(list[x] == i);
        }
        if list.contains(i) {
            let x = choose|x: int| 0 <= x < list.len() && list[x] == i;
            if x < old_list.len() {
                assert(old_list[x] == i);
            }
        }
    }
}

/// Alias `i` is listed under the category and the key: they are its own, or those in
/// lower case.
pub open spec fn goes_by(name: Seq<char>, cat: Seq<char>, key: Seq<char>) -> bool {
    match split_once_spec(name, ':') {
        Some((c, k)) => (c == cat && k == key) || (ascii_lower(c) == cat && ascii_lower(k) == key),
        None => false,
    }
}

proof fn lemma_alias_lookup(
    aliases: Seq<(Seq<char>, RuleV)>,
    cat: Seq<char>,
    key: Seq<char>,
    i: usize,
    n: int,
)
    requires
        0 <= n <= aliases.len() <= usize::MAX,
    ensures
        is_listed(alias_index(aliases, n).exact, cat, key, i) <==> i < n && goes_by(
            aliases[i as int].0,
            cat,
            key,
        ),
    decreases n,
{
    if n > 0 {
        lemma_alias_lookup(aliases, cat, key, i, n - 1);
        let before = alias_index(aliases, n - 1).exact;
        let j = (n - 1) as usize;
        match split_once_spec(aliases[n - 1].0, ':') {
            Some((c, k)) => {
                lemma_with_exact(before, c, k, j, cat, key, i);
                lemma_with_exact(
                    with_exact(before, c, k, j),
                    ascii_lower(c),
                    ascii_lower(k),
                    j,
                    cat,
                    key,
                    i,
                );
            },
            None => {},
        }
    }
}

/// An alias is listed in an indexed rule set under its own category and key and under
/// those in lower case, and nothing else is.
pub proof fn law_alias_lookup(rs: RuleSetV, cat: Seq<char>, key: Seq<char>, i: usize)
    requires
        rs.aliases.len() <= usize::MAX,
    ensures
        is_listed(reindexed(rs).alias_exact, cat, key, i) <==> i < rs.aliases.len() && goes_by(
            rs.aliases[i as int].0,
            cat,
            key,
        ),
{
    lemma_alias_lookup(rs.aliases, cat, key, i, rs.aliases.len() as int);
}

// ---------------------------------------------------------------------------
// Merging

/// In which order rule sets are merged in pairs does not matter.
pub proof fn law_merge_associative(a: RuleSetV, b: RuleSetV, c: RuleSetV)
    ensures
        merged(merged(a, b), c) == merged(a, merged(b, c)),
{
    let x = merged(merged(a, b), c);
    let y = merged(a, merged(b, c));
    assert forall|k: Seq<char>| x.values.contains_key(k) implies x.values[k] == y.values[k] by {
        assert(x.values[k] =~= y.values[k]);
    }
    assert(x.values =~= y.values);
    assert(x.types =~= y.types);
    assert(x.enums =~= y.enums);
    assert(x.aliases =~= y.aliases);
    assert(x.single_aliases =~= y.single_aliases);
    assert(x.complex_enums =~= y.complex_enums);
    assert(x.root_rules =~= y.root_rules);
    assert(x.modifiers =~= y.modifiers);
    assert(x.scope_links =~= y.scope_links);
    assert(x.scope_inputs =~= y.scope_inputs);
    assert(x.link_inputs =~= y.link_inputs);
    assert(x.folders =~= y.folders);
    assert(x =~= y);
}

/// To merge nothing into a rule set changes nothing.
pub proof fn law_merge_nothing(a: RuleSetV)
    ensures
        merged(a, empty_ruleset()) == a,
{
    let x = merged(a, empty_ruleset());
    assert forall|k: Seq<char>| x.values.contains_key(k) implies x.values[k] == a.values[k] by {
        assert(x.values[k] =~= a.values[k]);
    }
    assert(x.values =~= a.values);
    assert(x.types =~= a.types);
    assert(x.enums =~= a.enums);
    assert(x.aliases =~= a.aliases);
    assert(x.single_aliases =~= a.single_aliases);
    assert(x.complex_enums =~= a.complex_enums);
    assert(x.root_rules =~= a.root_rules);
    assert(x.modifiers =~= a.modifiers);
    assert(x.scope_links =~= a.scope_links);
    assert(x.scope_inputs =~= a.scope_inputs);
    assert(x.link_inputs =~= a.link_inputs);
    assert(x.folders =~= a.folders);
    assert(x =~= a);
}

/// Merging loses no link between scopes, and makes none up.
pub proof fn law_merge_keeps_links(a: RuleSetV, b: RuleSetV, name: Seq<char>)
    ensures
        merged(a, b).scope_links.contains(name) <==> a.scope_links.contains(name)
            || b.scope_links.contains(name),
{
}

// ---------------------------------------------------------------------------
// Comments

/// A rule without a cardinality must appear exactly once.
pub proof fn law_default_cardinality(comments: Seq<Seq<char>>, is_comparison: bool)
    requires
        !mentions(comments, "cardinality"@),
    ensures
        ({
            let o = options_of(comments, is_comparison);
            o.min == 1 && o.max == 1 && o.strict_min
        }),
{
}

proof fn lemma_doc_lines(comments: Seq<Seq<char>>, n: int)
    requires
        0 <= n <= comments.len(),
    ensures
        doc_lines(comments, n).len() > 0 <==> exists|i: int|
            0 <= i < n && starts(#[trigger] comments[i], "###"@),
    decreases n,
{
    if n > 0 {
        lemma_doc_lines(comments, n - 1);
        if doc_lines(comments, n).len() > 0 && !starts(comments[n - 1], "###"@) {
            let i = choose|i: int| 0 <= i < n - 1 && starts(#[trigger] comments[i], "###"@);
            assert(starts(comments[i], "###"@));
        }
    }
}

/// A rule is documented if a comment in front of it starts with three `#`; comments
/// with fewer are directives, and never documentation.
pub proof fn law_only_doc_comments_describe(comments: Seq<Seq<char>>)
    ensures
        description_of(comments) is Some <==> exists|i: int|
            0 <= i < comments.len() && starts(#[trigger] comments[i], "###"@),
{
    lemma_doc_lines(comments, comments.len() as int);
}

// ---------------------------------------------------------------------------
// References

proof fn lemma_fewer_problems(ch: Seq<Child>, n: int, a: RuleSetV, b: RuleSetV, path: Seq<char>)
    requires
        0 <= n <= ch.len(),
        forall|kind: RefKind, name: Seq<char>|
            defines(a, kind, name) ==> #[trigger] defines(b, kind, name),
        children_problems(ch, n, a, path).len() == 0,
    ensures
        children_problems(ch, n, b, path).len() == 0,
    decreases ch, n,
{
    if n > 0 {
        lemma_fewer_problems(ch, n - 1, a, b, path);
        lemma_fewer_child_problems(ch[n - 1], a, b, path);
    }
}

proof fn lemma_fewer_field_problems(
    s: Seq<char>,
    pos: SourcePos,
    a: RuleSetV,
    b: RuleSetV,
    path: Seq<char>,
)
    requires
        forall|kind: RefKind, name: Seq<char>|
            defines(a, kind, name) ==> #[trigger] defines(b, kind, name),
        field_problem(s, pos, a, path).len() == 0,
    ensures
        field_problem(s, pos, b, path).len() == 0,
{
    match reference(field_of(s)) {
        Some((kind, name)) => {
            assert(defines(a, kind, name));
            assert(defines(b, kind, name));
        },
        None => {},
    }
}

proof fn lemma_fewer_value_problems(
    v: Value,
    pos: SourcePos,
    a: RuleSetV,
    b: RuleSetV,
    path: Seq<char>,
)
    requires
        forall|kind: RefKind, name: Seq<char>|
            defines(a, kind, name) ==> #[trigger] defines(b, kind, name),
        value_problems(v, pos, a, path).len() == 0,
    ensures
        value_problems(v, pos, b, path).len() == 0,
    decreases v, 0int,
{
    match v {
        Value::Clause(c) => lemma_fewer_problems(c@, c@.len() as int, a, b, path),
        _ => lemma_fewer_field_problems(config_text(v), pos, a, b, path),
    }
}

proof fn lemma_fewer_child_problems(c: Child, a: RuleSetV, b: RuleSetV, path: Seq<char>)
    requires
        forall|kind: RefKind, name: Seq<char>|
            defines(a, kind, name) ==> #[trigger] defines(b, kind, name),
        child_problems(c, a, path).len() == 0,
    ensures
        child_problems(c, b, path).len() == 0,
    decreases c, 0int,
{
    match c {
        Child::Leaf(l) => {
            lemma_fewer_field_problems(l.key@, l.pos.start, a, b, path);
            lemma_fewer_value_problems(l.value, l.pos.start, a, b, path);
        },
        Child::LeafValue(lv) => lemma_fewer_value_problems(lv.value, lv.pos.start, a, b, path),
        Child::Comment(_) => {},
    }
}

/// Files without an undefined reference stay so when more is defined.
pub proof fn law_more_definitions(files: Seq<ConfigFile>, n: int, a: RuleSetV, b: RuleSetV)
    requires
        0 <= n <= files.len(),
        forall|kind: RefKind, name: Seq<char>|
            defines(a, kind, name) ==> #[trigger] defines(b, kind, name),
        files_problems(files, n, a).len() == 0,
    ensures
        files_problems(files, n, b).len() == 0,
    decreases n,
{
    if n > 0 {
        law_more_definitions(files, n - 1, a, b);
        let ch = files[n - 1].ast.root_children@;
        lemma_fewer_problems(ch, ch.len() as int, a, b, files[n - 1].path@);
    }
}

/// A text that starts with `t` and has no angle bracket is no reference.
proof fn lemma_no_reference(t: Seq<char>)
    requires
        t.len() > 0,
        t[0] == 't',
        !t.contains('<'),
    ensures
        word_field(t) is None,
        bracket_field(t) is None,
        type_field(t) is None,
{
    reveal_strlit("bool");
    reveal_strlit("ck2_dna_field");
    reveal_strlit("ck2_dna_property_field");
    reveal_strlit("color_field");
    reveal_strlit("colour_field");
    reveal_strlit("date_field");
    reveal_strlit("datetime_field");
    reveal_strlit("filepath");
    reveal_strlit("float");
    reveal_strlit("ignore_field");
    reveal_strlit("int");
    reveal_strlit("int_value_field");
    reveal_strlit("int_variable_field");
    reveal_strlit("int_variable_field_32");
    reveal_strlit("ir_country_tag_field");
    reveal_strlit("ir_family_name_field");
    reveal_strlit("localisation");
    reveal_strlit("localisation_inline");
    reveal_strlit("localisation_synced");
    reveal_strlit("percent_field");
    reveal_strlit("percentage_field");
    reveal_strlit("math_expr");
    reveal_strlit("portrait_dna_field");
    reveal_strlit("portrait_properties_field");
    reveal_strlit("scalar");
    reveal_strlit("scope_field");
    reveal_strlit("stellaris_name_format");
    reveal_strlit("value_field");
    reveal_strlit("variable_field");
    reveal_strlit("variable_field_32");
    reveal_strlit("alias_keys_field[");
    reveal_strlit("alias_match_left[");
    reveal_strlit("alias_name[");
    reveal_strlit("colour[");
    reveal_strlit("complex_enum[");
    reveal_strlit("enum[");
    reveal_strlit("event_target[");
    reveal_strlit("filepath[");
    reveal_strlit("float[");
    reveal_strlit("icon[");
    reveal_strlit("int[");
    reveal_strlit("int_value_field[");
    reveal_strlit("int_variable_field[");
    reveal_strlit("int_variable_field_32[");
    reveal_strlit("scope[");
    reveal_strlit("scope_group[");
    reveal_strlit("single_alias_right[");
    reveal_strlit("stellaris_name_format[");
    reveal_strlit("value[");
    reveal_strlit("value_field[");
    reveal_strlit("value_set[");
    reveal_strlit("variable_field[");
    reveal_strlit("variable_field_32[");
    assert forall|p: Seq<char>| #[trigger] starts(t, p) && p.len() > 0 implies p[0] == 't' by {
        assert(t.subrange(0, p.len() as int)[0] == t[0]);
    }
    lemma_find_in(t, CharSet::One('<'), 0);
    let open = find_in(t, CharSet::One('<'), 0);
    if open < t.len() {
        assert(t[open] == '<');
    }
}

/// The definition of a type is no reference: it names what it defines.
pub proof fn law_type_key_is_no_reference(name: Seq<char>)
    requires
        !name.contains('<'),
    ensures
        reference(field_of("type["@ + name + "]"@)) is None,
{
    reveal_strlit("type[");
    reveal_strlit("]");
    let s = "type["@ + name + "]"@;
    assert(s[0] == 't' && s.last() == ']');
    assert(trim_start_of(s, CharSet::White) =~= s);
    assert(trim_end_of(s, CharSet::White) =~= s);
    assert(trim_start_of(s, CharSet::One('"')) =~= s);
    assert(trim_end_of(s, CharSet::One('"')) =~= s);
    assert forall|i: int| 0 <= i < s.len() implies s[i] != '<' by {
        if 5 <= i < 5 + name.len() {
            assert(s[i] == name[i - 5]);
        }
    }
    lemma_no_reference(s);
}

} // verus!
