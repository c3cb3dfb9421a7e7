//! How the files of a configuration come together.

use vstd::prelude::*;

use crate::ast::{Child, Leaf, Value};
use crate::common::enum_named;
use crate::config_laws::is_name;
use crate::link_converter::{link_of, scalar_value};
use crate::post_process::ExpansionErrorV;
use crate::resolve::{type_named, type_rule};
use crate::rule_converter::config_text;
use crate::rules_converter::raw_ruleset_of;
use crate::rules_types::{
    EnumV, FieldV, LinkInputV, PathOptionsV, PatternKind, PatternV, RootRuleV, RuleTypeV, RuleV,
    ScopeInputV, TypeDefV, parse_pattern,
};
use crate::ruleset::{
    RuleSetV, alias_index, bindings, bindings_in, entry, enums_index, first_namespace,
    indexed_paths, no_category, reindexed, type_rules_index, types_index,
};
use crate::ruleset_loader::{
    CwtDefKind, DefPositionV, LoadedFile, bytes_taken, files_ruleset, find_position, folder_lines,
    folders_of, merged, names_folders_file, placed_error, read_errors,
};
use crate::scope::{
    command_of, declared, declared_id, ids_of, under_names, with_link_inputs, with_parents,
    with_words,
};
use crate::scope_engine::{RegistryV, ScopeDefV, ScopeId, ScopeLinkV};
use crate::text::{
    CharSet, ascii_lower, contains_ci, ends, find_in, find_text_from, is_word_char, lowercase,
    occurs_at, replace_char_spec, split_once_spec, trim_of,
};
use crate::text_laws::{
    has_bare_ends, is_free_of, law_split_first, law_trim, lemma_find_is, lemma_rfind_is,
    lemma_trim_bare,
};
use crate::validate::enum_map;

verus! {

// ---------------------------------------------------------------------------
// Merging

/// The list is the one behind the other.
pub open spec fn is_behind<T>(all: Seq<T>, first: Seq<T>, second: Seq<T>) -> bool {
    &&& all.len() == first.len() + second.len()
    &&& forall|i: int| 0 <= i < first.len() ==> #[trigger] all[i] == first[i]
    &&& forall|i: int| 0 <= i < second.len() ==> all[first.len() + i] == #[trigger] second[i]
}

/// A rule set that is merged into another is behind it in everything that it declares, and
/// nothing of either is lost.
pub proof fn law_merged_rule_sets(a: RuleSetV, b: RuleSetV, name: Seq<char>)
    ensures
        ({
            let out = merged(a, b);
            &&& is_behind(out.types, a.types, b.types)
            &&& is_behind(out.enums, a.enums, b.enums)
            &&& is_behind(out.aliases, a.aliases, b.aliases)
            &&& is_behind(out.single_aliases, a.single_aliases, b.single_aliases)
            &&& is_behind(out.complex_enums, a.complex_enums, b.complex_enums)
            &&& is_behind(out.root_rules, a.root_rules, b.root_rules)
            &&& is_behind(out.modifiers, a.modifiers, b.modifiers)
            &&& is_behind(out.scope_inputs, a.scope_inputs, b.scope_inputs)
            &&& is_behind(out.link_inputs, a.link_inputs, b.link_inputs)
            &&& is_behind(out.folders, a.folders, b.folders)
            &&& out.scope_links.contains(name) <==> a.scope_links.contains(name)
                || b.scope_links.contains(name)
            &&& out.values.contains_key(name) <==> a.values.contains_key(name)
                || b.values.contains_key(name)
            &&& a.values.contains_key(name) && b.values.contains_key(name) ==> is_behind(
                out.values[name],
                a.values[name],
                b.values[name],
            )
            &&& a.values.contains_key(name) && !b.values.contains_key(name) ==> out.values[name]
                =~= a.values[name]
            &&& !a.values.contains_key(name) && b.values.contains_key(name) ==> out.values[name]
                =~= b.values[name]
        }),
{
}

// ---------------------------------------------------------------------------
// Indexes

proof fn lemma_last_type(types: Seq<TypeDefV>, n: int, i: int)
    requires
        0 <= i < n <= types.len() <= usize::MAX,
        forall|j: int| i < j < n ==> (#[trigger] types[j]).name != types[i].name,
    ensures
        types_index(types, n).contains_key(types[i].name),
        types_index(types, n)[types[i].name] == i,
    decreases n,
{
    if i < n - 1 {
        assert(types[n - 1].name != types[i].name);
        lemma_last_type(types, n - 1, i);
    }
}

proof fn lemma_last_enum(enums: Seq<EnumV>, n: int, i: int)
    requires
        0 <= i < n <= enums.len() <= usize::MAX,
        forall|j: int| i < j < n ==> (#[trigger] enums[j]).key != enums[i].key,
    ensures
        enums_index(enums, n).contains_key(enums[i].key),
        enums_index(enums, n)[enums[i].key] == i,
    decreases n,
{
    if i < n - 1 {
        assert(enums[n - 1].key != enums[i].key);
        lemma_last_enum(enums, n - 1, i);
    }
}

proof fn lemma_no_type_rule(rules: Seq<RootRuleV>, n: int, name: Seq<char>)
    requires
        0 <= n <= rules.len(),
        forall|j: int|
            0 <= j < n ==> !((#[trigger] rules[j]) is TypeRule) || rules[j]->TypeRule_0 != name,
    ensures
        !type_rules_index(rules, n).contains_key(name),
    decreases n,
{
    if n > 0 {
        assert(!(rules[n - 1] is TypeRule) || rules[n - 1]->TypeRule_0 != name);
        lemma_no_type_rule(rules, n - 1, name);
    }
}

proof fn lemma_first_type_rule(rules: Seq<RootRuleV>, n: int, i: int)
    requires
        0 <= i < n <= rules.len() <= usize::MAX,
        rules[i] is TypeRule,
        forall|j: int|
            0 <= j < i ==> !((#[trigger] rules[j]) is TypeRule) || rules[j]->TypeRule_0
                != rules[i]->TypeRule_0,
    ensures
        type_rules_index(rules, n).contains_key(rules[i]->TypeRule_0),
        type_rules_index(rules, n)[rules[i]->TypeRule_0] == i,
    decreases n,
{
    if i < n - 1 {
        lemma_first_type_rule(rules, n - 1, i);
    } else {
        lemma_no_type_rule(rules, i, rules[i]->TypeRule_0);
    }
}

/// Of several types or enums of one name the last counts, and of several rules for one
/// type the first.
pub proof fn law_which_definition_counts(rs: RuleSetV, i: int, name: Seq<char>)
    requires
        rs.types.len() <= usize::MAX,
        rs.enums.len() <= usize::MAX,
        rs.root_rules.len() <= usize::MAX,
    ensures
        ({
            let out = reindexed(rs);
            &&& 0 <= i < rs.types.len() && rs.types[i].name == name && (forall|j: int|
                i < j < rs.types.len() ==> (#[trigger] rs.types[j]).name != name) ==> (
            type_named(out, name) matches Some(t) && t == out.types[i] && t.name == name)
            &&& 0 <= i < rs.enums.len() && rs.enums[i].key == name && rs.enums[i].values.len() > 0
                && (forall|j: int| i < j < rs.enums.len() ==> (#[trigger] rs.enums[j]).key != name)
                ==> enum_named(out, name) == Some(rs.enums[i])
            &&& 0 <= i < rs.root_rules.len() && rs.root_rules[i] is TypeRule
                && rs.root_rules[i]->TypeRule_0 == name && (forall|j: int|
                0 <= j < i ==> !((#[trigger] rs.root_rules[j]) is TypeRule)
                    || rs.root_rules[j]->TypeRule_0 != name) ==> type_rule(out, name) == Some(
                rs.root_rules[i]->TypeRule_1,
            )
        }),
{
    let out = reindexed(rs);
    if 0 <= i < rs.types.len() && rs.types[i].name == name && (forall|j: int|
        i < j < rs.types.len() ==> (#[trigger] rs.types[j]).name != name) {
        lemma_last_type(rs.types, rs.types.len() as int, i);
    }
    if 0 <= i < rs.enums.len() && rs.enums[i].key == name && rs.enums[i].values.len() > 0 && (
    forall|j: int| i < j < rs.enums.len() ==> (#[trigger] rs.enums[j]).key != name) {
        lemma_last_enum(rs.enums, rs.enums.len() as int, i);
    }
    if 0 <= i < rs.root_rules.len() && rs.root_rules[i] is TypeRule && rs.root_rules[i]->TypeRule_0
        == name && (forall|j: int|
        0 <= j < i ==> !((#[trigger] rs.root_rules[j]) is TypeRule)
            || rs.root_rules[j]->TypeRule_0 != name) {
        lemma_first_type_rule(rs.root_rules, rs.root_rules.len() as int, i);
    }
}

/// A path, a file name and an extension are compared in lower case; slashes around a path
/// and a dot in front of an extension do not count.
pub proof fn law_compared_paths(
    p: PathOptionsV,
    i: int,
    path: Seq<char>,
    ext: Seq<char>,
)
    requires
        0 <= i < p.paths.len(),
    ensures
        ({
            let out = indexed_paths(p);
            &&& out.paths_lower.len() == p.paths.len()
            &&& has_bare_ends(path, CharSet::One('/')) && is_free_of(path, CharSet::One('\\'))
                && (p.paths[i] == path || p.paths[i] == seq!['/'] + path || p.paths[i] == path
                + seq!['/']) ==> out.paths_lower[i] == lowercase(path)
            &&& p.path_file matches Some(f) ==> out.path_file_lower == Some(lowercase(f))
            &&& p.path_file is None ==> out.path_file_lower is None
            &&& p.path_extension is None ==> out.path_ext_lower is None
            &&& p.path_extension is Some && lowercase(p.path_extension->0) == seq!['.'] + ext
                ==> out.path_ext_lower == Some(ext)
            &&& p.path_extension is Some && lowercase(p.path_extension->0) == ext && (ext.len() == 0
                || ext[0] != '.') ==> out.path_ext_lower == Some(ext)
            &&& out.path_strict == p.path_strict
        }),
{
    let none = Seq::<char>::empty();
    let slash = CharSet::One('/');
    if has_bare_ends(path, slash) && is_free_of(path, CharSet::One('\\')) {
        assert forall|k: int| 0 <= k < path.len() implies #[trigger] path[k] != '\\' by {
            assert(!CharSet::One('\\').has(path[k]));
        }
        let a = seq!['/'] + path;
        let b = path + seq!['/'];
        assert(replace_char_spec(path, '\\', '/') =~= path);
        assert(replace_char_spec(a, '\\', '/') =~= a);
        assert(replace_char_spec(b, '\\', '/') =~= b);
        lemma_trim_bare(path, slash);
        law_trim(seq!['/'], path, none, slash);
        assert(seq!['/'] + path + none =~= a);
        law_trim(none, path, seq!['/'], slash);
        assert(none + path + seq!['/'] =~= b);
    }
    let dotted = seq!['.'] + ext;
    assert(dotted.subrange(1, dotted.len() as int) =~= ext);
}

/// An alias whose name has a type in angle brackets is for what stands before the
/// brackets, an instance of the type, and what stands behind them.
pub proof fn law_alias_with_a_type(
    before: Seq<char>,
    type_: Seq<char>,
    after: Seq<char>,
    i: usize,
)
    requires
        is_free_of(before, CharSet::One('<')),
        is_free_of(type_, CharSet::One('>')),
    ensures
        parse_pattern(before + seq!['<'] + type_ + seq!['>'] + after, i) == Some(
            PatternV {
                alias_idx: i,
                prefix: before,
                suffix: after,
                kind: PatternKind::Type,
                placeholder_name: type_,
            },
        ),
{
    let s = before + seq!['<'] + type_ + seq!['>'] + after;
    let open = before.len() as int;
    let close = open + 1 + type_.len();
    let lt = CharSet::One('<');
    let gt = CharSet::One('>');
    assert forall|k: int| 0 <= k < open implies !lt.has(#[trigger] s[k]) by {
        assert(s[k] == before[k]);
        assert(!lt.has(before[k]));
    }
    assert(s[open] == '<');
    lemma_find_is(s, lt, 0, open);
    assert forall|k: int| open <= k < close implies !gt.has(#[trigger] s[k]) by {
        if k > open {
            assert(s[k] == type_[k - open - 1]);
            assert(!gt.has(type_[k - open - 1]));
        }
    }
    assert(s[close] == '>');
    lemma_find_is(s, gt, open, close);
    assert(s.subrange(0, open) =~= before);
    assert(s.subrange(open + 1, close) =~= type_);
    assert(s.subrange(close + 1, s.len() as int) =~= after);
}

#[verifier::rlimit(50)]
proof fn lemma_category(aliases: Seq<(Seq<char>, RuleV)>, n: int, i: int)
    requires
        0 <= i < n <= aliases.len() <= usize::MAX,
    ensures
        split_once_spec(aliases[i].0, ':') matches Some((cat, key)) ==> {
            let ix = alias_index(aliases, n);
            &&& ix.categories.contains_key(cat)
            &&& key != "scope_field"@ && parse_pattern(key, i as usize) is Some
                ==> ix.categories[cat].parsed_patterns.contains(parse_pattern(key, i as usize)->0)
            &&& key == "scope_field"@ ==> ix.categories[cat].scope_field_idx is Some
            &&& ends(cat, "_pre_trigger"@) ==> ix.pretriggers.contains(ascii_lower(key))
        },
    decreases n,
{
    let before = alias_index(aliases, n - 1);
    let now = alias_index(aliases, n);
    match split_once_spec(aliases[i].0, ':') {
        None => {},
        Some((cat, key)) => {
            let p = parse_pattern(key, i as usize);
            if i < n - 1 {
                lemma_category(aliases, n - 1, i);
                match split_once_spec(aliases[n - 1].0, ':') {
                    None => {},
                    Some((c, k)) => {
                        if c == cat && p is Some && key != "scope_field"@ {
                            let old = before.categories[cat].parsed_patterns;
                            let x = choose|x: int| 0 <= x < old.len() && old[x] == p->0;
                            assert(now.categories[cat].parsed_patterns[x] == p->0);
                        }
                    },
                }
            } else if p is Some && key != "scope_field"@ {
                let old = entry(before.categories, cat, no_category()).parsed_patterns;
                assert(now.categories[cat].parsed_patterns[old.len() as int] == p->0);
            }
        },
    }
}

/// Every alias with a placeholder is a pattern of its category; one named `scope_field` is
/// for the keys that open a scope; one of a category of pre-triggers is a pre-trigger, in
/// lower case.
#[verifier::rlimit(50)]
pub proof fn law_categories_of_aliases(rs: RuleSetV, i: int, cat: Seq<char>, key: Seq<char>)
    requires
        0 <= i < rs.aliases.len() <= usize::MAX,
        rs.aliases[i].0 == cat + seq![':'] + key,
        is_free_of(cat, CharSet::One(':')),
    ensures
        ({
            let out = reindexed(rs);
            &&& out.alias_categories.contains_key(cat)
            &&& key != "scope_field"@ && parse_pattern(key, i as usize) is Some
                ==> out.alias_categories[cat].parsed_patterns.contains(
                parse_pattern(key, i as usize)->0,
            )
            &&& key == "scope_field"@ ==> out.alias_categories[cat].scope_field_idx is Some
            &&& ends(cat, "_pre_trigger"@) ==> out.pretriggers.contains(ascii_lower(key))
        }),
{
    law_split_first(cat, ':', key);
    lemma_category(rs.aliases, rs.aliases.len() as int, i);
}

// ---------------------------------------------------------------------------
// Files

proof fn lemma_bytes(files: Seq<LoadedFile>, n: int, max: u64)
    requires
        0 <= n <= files.len(),
    ensures
        0 <= bytes_taken(files, n, max) <= max,
    decreases n,
{
    if n > 0 {
        lemma_bytes(files, n - 1, max);
    }
}

/// No more is taken than there is room for. A file for which there is room is taken in
/// behind what is there; one for which there is none, or that cannot be read, changes
/// nothing and is reported under its own name.
pub proof fn law_files_are_taken_in(files: Seq<LoadedFile>, n: int, max: u64)
    requires
        0 < n <= files.len(),
    ensures
        ({
            let before = files_ruleset(files, n - 1, max);
            let now = files_ruleset(files, n, max);
            let old_errors = read_errors(files, n - 1, max);
            let errors = read_errors(files, n, max);
            let room = max - bytes_taken(files, n - 1, max);
            &&& 0 <= room
            &&& match files[n - 1] {
                LoadedFile::Rules { path, ast, size } => if size <= room {
                    now == merged(before, raw_ruleset_of(ast)) && errors == old_errors
                } else {
                    &&& now == before
                    &&& is_behind(errors, old_errors, seq![errors.last()])
                    &&& errors.last().file == path@
                },
                LoadedFile::Folders { path, text, size } => if size <= room {
                    is_behind(now.folders, before.folders, folders_of(text@)) && errors
                        == old_errors
                } else {
                    &&& now == before
                    &&& is_behind(errors, old_errors, seq![errors.last()])
                    &&& errors.last().file == path@
                },
                LoadedFile::Unreadable { path, message } => {
                    &&& now == before
                    &&& is_behind(errors, old_errors, seq![errors.last()])
                    &&& errors.last().file == path@
                    &&& errors.last().message == "read error: "@ + message@
                },
            }
        }),
{
    lemma_bytes(files, n - 1, max);
}

proof fn lemma_find_position(s: Seq<DefPositionV>, name: Seq<char>, k: int, i: int)
    requires
        0 <= k <= i < s.len(),
        s[i].kind == CwtDefKind::SingleAlias && s[i].name == name,
        forall|j: int|
            k <= j < i ==> (#[trigger] s[j]).kind != CwtDefKind::SingleAlias || s[j].name != name,
    ensures
        find_position(s, name, k) == Some(s[i]),
    decreases i - k,
{
    if k < i {
        lemma_find_position(s, name, k + 1, i);
    }
}

/// What is wrong with a single alias is reported at its first definition.
pub proof fn law_errors_stand_at_definitions(
    dir: Seq<char>,
    s: Seq<DefPositionV>,
    e: ExpansionErrorV,
    i: int,
)
    requires
        0 <= i < s.len(),
        s[i].kind == CwtDefKind::SingleAlias && s[i].name == e.name,
        forall|j: int|
            0 <= j < i ==> (#[trigger] s[j]).kind != CwtDefKind::SingleAlias || s[j].name
                != e.name,
    ensures
        placed_error(dir, s, e).file == s[i].file,
        placed_error(dir, s, e).line == s[i].line,
        placed_error(dir, s, e).col == s[i].col,
        placed_error(dir, s, e).message == e.message,
{
    lemma_find_position(s, e.name, 0, i);
}

/// A list of folders names one in each line, but for empty lines and comments.
pub proof fn law_folders(lines: Seq<Seq<char>>, n: int, name: Seq<char>)
    requires
        0 < n <= lines.len(),
    ensures
        ({
            let before = folder_lines(lines, n - 1);
            let now = folder_lines(lines, n);
            let line = trim_of(lines[n - 1], CharSet::White);
            &&& line.len() == 0 || line[0] == '#' ==> now == before
            &&& line.len() > 0 && line[0] != '#' ==> is_behind(now, before, seq![line])
        }),
{
}

// ---------------------------------------------------------------------------
// Scopes and links

proof fn lemma_scalar_value(ch: Seq<Child>, key: Seq<char>, k: int, i: int)
    requires
        0 <= k <= i < ch.len(),
        ch[i] is Leaf && ch[i]->Leaf_0.key@ == key && !(ch[i]->Leaf_0.value is Clause),
        forall|j: int| k <= j < i ==> !((#[trigger] ch[j]) is Leaf) || ch[j]->Leaf_0.key@ != key,
    ensures
        scalar_value(ch, key, k) == Some(config_text(ch[i]->Leaf_0.value)),
    decreases i - k,
{
    if k < i {
        assert(!(ch[k] is Leaf) || ch[k]->Leaf_0.key@ != key);
        lemma_scalar_value(ch, key, k + 1, i);
    }
}

/// The first field of that name in the block, if it is no block itself.
pub open spec fn is_first_field(ch: Seq<Child>, key: Seq<char>, i: int) -> bool {
    &&& 0 <= i < ch.len()
    &&& ch[i] is Leaf && ch[i]->Leaf_0.key@ == key && !(ch[i]->Leaf_0.value is Clause)
    &&& forall|j: int| 0 <= j < i ==> !((#[trigger] ch[j]) is Leaf) || ch[j]->Leaf_0.key@ != key
}

/// A link has what its block says, each under its own name.
pub proof fn law_declared_links(name: Seq<char>, body: Seq<Child>, i: int)
    ensures
        ({
            let li = link_of(name, body);
            let text = config_text(body[i]->Leaf_0.value);
            &&& li.name == name
            &&& is_first_field(body, "output_scope"@, i) ==> li.output_scope == Some(text)
            &&& is_first_field(body, "prefix"@, i) ==> li.prefix == Some(text)
            &&& is_first_field(body, "from_data"@, i) ==> (li.from_data <==> ascii_lower(text)
                == "yes"@)
        }),
{
    reveal_strlit("yes");
    assert(ascii_lower("yes"@) =~= "yes"@);
    if is_first_field(body, "output_scope"@, i) {
        lemma_scalar_value(body, "output_scope"@, 0, i);
    }
    if is_first_field(body, "prefix"@, i) {
        lemma_scalar_value(body, "prefix"@, 0, i);
    }
    if is_first_field(body, "from_data"@, i) {
        lemma_scalar_value(body, "from_data"@, 0, i);
    }
}

proof fn lemma_ids_of(reg: RegistryV, names: Seq<Seq<char>>, n: int, id: ScopeId)
    requires
        0 <= n <= names.len(),
    ensures
        ids_of(reg, names, n).contains(id) <==> exists|i: int|
            0 <= i < n && reg.by_name.contains_key(ascii_lower(#[trigger] names[i]))
                && reg.by_name[ascii_lower(names[i])] == id,
    decreases n,
{
    let now = ids_of(reg, names, n);
    if n > 0 {
        lemma_ids_of(reg, names, n - 1, id);
        let before = ids_of(reg, names, n - 1);
        if before.contains(id) {
            let k = choose|k: int| 0 <= k < before.len() && before[k] == id;
            assert(now[k] == id);
        }
        match reg.id_of(names[n - 1]) {
            Some(x) => {
                if x == id {
                    assert(now[before.len() as int] == id);
                    assert(reg.by_name.contains_key(ascii_lower(names[n - 1])));
                }
                if now.contains(id) && x != id {
                    let k = choose|k: int| 0 <= k < now.len() && now[k] == id;
                    assert(before[k] == id);
                }
            },
            None => {},
        }
    } else {
        assert(now =~= Seq::<ScopeId>::empty());
    }
}

/// A command that a link declares leads to the scope that the link names, and may be used
/// in exactly the scopes that it names.
pub proof fn law_commands_of_links(reg: RegistryV, li: LinkInputV, id: ScopeId)
    ensures
        ({
            let c = command_of(reg, li);
            &&& li.output_scope is None ==> c.target is None
            &&& li.output_scope matches Some(n) ==> c.target == (if reg.by_name.contains_key(
                ascii_lower(n),
            ) {
                Some(reg.by_name[ascii_lower(n)])
            } else {
                None
            })
            &&& c.valid_scopes.contains(id) <==> exists|i: int|
                0 <= i < li.input_scopes.len() && reg.by_name.contains_key(
                    ascii_lower(#[trigger] li.input_scopes[i]),
                ) && reg.by_name[ascii_lower(li.input_scopes[i])] == id
        }),
{
    lemma_ids_of(reg, li.input_scopes, li.input_scopes.len() as int, id);
}

/// A link is a command under its name, or, where it has a prefix, under that prefix; the
/// last of several of one name counts.
pub proof fn law_links_are_commands(reg: RegistryV, links: Seq<LinkInputV>, n: int)
    requires
        0 < n <= links.len(),
    ensures
        ({
            let before = with_link_inputs(reg, links, n - 1);
            let now = with_link_inputs(reg, links, n);
            let li = links[n - 1];
            &&& li.prefix is None ==> now.links.contains_key(ascii_lower(li.name))
                && now.links[ascii_lower(li.name)] == command_of(reg, li) && now.prefix_links
                == before.prefix_links
            &&& li.prefix matches Some(p) ==> is_behind(
                now.prefix_links,
                before.prefix_links,
                seq![(ascii_lower(p), command_of(reg, li))],
            ) && now.links == before.links
            &&& now.by_name == before.by_name && now.scopes == before.scopes
        }),
{
}

/// The commands that run over the scopes of a kind lead to that scope from anywhere, where
/// no link has their name.
#[verifier::rlimit(50)]
pub proof fn law_iterators(m: Map<Seq<char>, ScopeLinkV>, alias: Seq<char>, id: ScopeId)
    ensures
        ({
            let out = with_words(m, alias, id, 4);
            let a = ascii_lower(alias);
            let leads = |name: Seq<char>|
                out.contains_key(name) && (m.contains_key(name) ==> out[name] == m[name]) && (
                !m.contains_key(name) ==> out[name].target == Some(id)
                    && out[name].valid_scopes.len() == 0);
            &&& leads("every_"@ + a)
            &&& leads("random_"@ + a)
            &&& leads("any_"@ + a)
            &&& leads("all_"@ + a)
        }),
{
    let a = ascii_lower(alias);
    reveal_with_fuel(with_words, 5);
    reveal_strlit("every_");
    reveal_strlit("random_");
    reveal_strlit("any_");
    reveal_strlit("all_");
    assert(("every_"@ + a)[0] == 'e' && ("random_"@ + a)[0] == 'r' && ("any_"@ + a)[0] == 'a' && (
    "all_"@ + a)[0] == 'a');
    assert(("any_"@ + a)[1] == 'n' && ("all_"@ + a)[1] == 'l');
}

/// A scope that is declared is known by its name and by each of its aliases, in whatever
/// case, right behind its declaration; `any` and `all` are the scope of which nothing is
/// known.
pub proof fn law_names_of_scopes(inputs: Seq<ScopeInputV>, n: int, k: int)
    requires
        0 < n <= inputs.len(),
        0 <= k < inputs[n - 1].aliases.len(),
    ensures
        ({
            let si = inputs[n - 1];
            let d = declared(inputs, n);
            let a = ascii_lower(si.aliases[k]);
            let own = ascii_lower(si.name);
            &&& d.by_name.contains_key(a)
            &&& d.by_name.contains_key(own)
            &&& d.by_name[a] == d.by_name[own]
            &&& own == "any"@ || own == "all"@ ==> own != "invalid"@
            &&& (own == "any"@ || own == "all"@) && !contains_ci(si.aliases, "invalid"@)
                ==> d.by_name[own] == ScopeId::Any
        }),
{
    let si = inputs[n - 1];
    let d = declared(inputs, n - 1);
    let id = declared_id(si, d.next);
    let start = d.by_name.insert(ascii_lower(si.name), id);
    lemma_all_names(start, si.aliases, si.aliases.len() as int, id, k, ascii_lower(si.name));
    reveal_strlit("any");
    reveal_strlit("all");
    reveal_strlit("invalid");
    assert(ascii_lower("any"@) =~= "any"@);
    assert(ascii_lower("all"@) =~= "all"@);
    assert(ascii_lower("invalid"@) =~= "invalid"@);
}

proof fn lemma_all_names(
    m: Map<Seq<char>, ScopeId>,
    names: Seq<Seq<char>>,
    n: int,
    id: ScopeId,
    k: int,
    own: Seq<char>,
)
    requires
        0 <= n <= names.len(),
        m.contains_key(own),
        m[own] == id,
    ensures
        under_names(m, names, n, id).contains_key(own),
        under_names(m, names, n, id)[own] == id,
        0 <= k < n ==> under_names(m, names, n, id).contains_key(ascii_lower(names[k]))
            && under_names(m, names, n, id)[ascii_lower(names[k])] == id,
    decreases n,
{
    if n > 0 {
        lemma_all_names(m, names, n - 1, id, k, own);
    }
}

/// A scope counts as those that its declaration says it is a subscope of.
pub proof fn law_subscopes(s: Seq<ScopeDefV>, id: ScopeId, parents: Seq<ScopeId>, k: int)
    requires
        0 <= k < s.len(),
    ensures
        s[k].id == id ==> with_parents(s, id, parents)[k].subscope_of == parents,
        s[k].id != id ==> with_parents(s, id, parents)[k] == s[k],
        with_parents(s, id, parents)[k].id == s[k].id,
        with_parents(s, id, parents)[k].name == s[k].name,
{
}

// ---------------------------------------------------------------------------
// What effects add to value sets

/// The alias is an effect or trigger of that name, in whatever case, that adds to a value
/// set.
pub open spec fn adds_values(a: (Seq<char>, RuleV), key: Seq<char>) -> bool {
    match split_once_spec(a.0, ':') {
        Some((cat, k)) => (cat == "effect"@ || cat == "trigger"@) && ascii_lower(k) == ascii_lower(
            key,
        ) && first_namespace(a.1.0) is Some,
        None => false,
    }
}

proof fn lemma_no_effect(aliases: Seq<(Seq<char>, RuleV)>, n: int, key: Seq<char>)
    requires
        0 <= n <= aliases.len(),
        forall|j: int| 0 <= j < n ==> !adds_values(#[trigger] aliases[j], key),
    ensures
        !alias_index(aliases, n).effects.contains_key(ascii_lower(key)),
    decreases n,
{
    if n > 0 {
        assert(!adds_values(aliases[n - 1], key));
        lemma_no_effect(aliases, n - 1, key);
    }
}

proof fn lemma_effects(aliases: Seq<(Seq<char>, RuleV)>, n: int, i: int, key: Seq<char>)
    requires
        0 <= i < n <= aliases.len(),
        adds_values(aliases[i], key),
        forall|j: int| 0 <= j < i ==> !adds_values(#[trigger] aliases[j], key),
    ensures
        alias_index(aliases, n).effects.contains_key(ascii_lower(key)),
        alias_index(aliases, n).effects[ascii_lower(key)] == first_namespace(aliases[i].1.0)->0,
    decreases n,
{
    if i < n - 1 {
        lemma_effects(aliases, n - 1, i, key);
    } else {
        lemma_no_effect(aliases, i, key);
    }
}

/// An effect or trigger that adds to a value set is known under its name in lower case, with
/// that set; of several of one name the first counts, and no other alias is known so.
pub proof fn law_effects_add_values(rs: RuleSetV, i: int, key: Seq<char>)
    ensures
        0 <= i < rs.aliases.len() && adds_values(rs.aliases[i], key) && (forall|j: int|
            0 <= j < i ==> !adds_values(#[trigger] rs.aliases[j], key)) ==> reindexed(
            rs,
        ).value_set_effects.contains_key(ascii_lower(key)) && reindexed(
            rs,
        ).value_set_effects[ascii_lower(key)] == first_namespace(rs.aliases[i].1.0)->0,
        (forall|j: int| 0 <= j < rs.aliases.len() ==> !adds_values(#[trigger] rs.aliases[j], key))
            ==> !reindexed(rs).value_set_effects.contains_key(ascii_lower(key)),
{
    let n = rs.aliases.len() as int;
    if 0 <= i < n && adds_values(rs.aliases[i], key) && (forall|j: int|
        0 <= j < i ==> !adds_values(#[trigger] rs.aliases[j], key)) {
        lemma_effects(rs.aliases, n, i, key);
    }
    if forall|j: int| 0 <= j < n ==> !adds_values(#[trigger] rs.aliases[j], key) {
        lemma_no_effect(rs.aliases, n, key);
    }
}

/// The first value set that a rule adds to is that of its key, else that of its value, else
/// that of the first rule in its body that adds to one.
pub proof fn law_first_value_set(left: FieldV, right: FieldV, rules: Seq<RuleV>, set: Seq<char>)
    ensures
        left == FieldV::VariableSetField(set) ==> first_namespace(
            RuleTypeV::LeafRule { left, right },
        ) == Some(set) && first_namespace(RuleTypeV::NodeRule { left, rules }) == Some(set),
        !(left is VariableSetField) && right == FieldV::VariableSetField(set) ==> first_namespace(
            RuleTypeV::LeafRule { left, right },
        ) == Some(set),
        !(left is VariableSetField) && rules.len() > 0 && first_namespace(rules[0].0) == Some(set)
            ==> first_namespace(RuleTypeV::NodeRule { left, rules }) == Some(set),
        !(left is VariableSetField) && !(right is VariableSetField) ==> first_namespace(
            RuleTypeV::LeafRule { left, right },
        ) is None,
{
}

/// A list of folders is the file `folders.cwt`, in whatever case, in any directory.
pub proof fn law_folder_lists(dir: Seq<char>, name: Seq<char>)
    requires
        is_free_of(name, CharSet::Either('/', '\\')),
    ensures
        names_folders_file(dir + seq!['/'] + name) <==> ascii_lower(name) == "folders.cwt"@,
        names_folders_file(name) <==> ascii_lower(name) == "folders.cwt"@,
{
    reveal_strlit("folders.cwt");
    assert(ascii_lower("folders.cwt"@) =~= "folders.cwt"@);
    let set = CharSet::Either('/', '\\');
    let p = dir + seq!['/'] + name;
    let n = dir.len() as int + 1;
    assert forall|k: int| n <= k < p.len() implies !set.has(#[trigger] p[k]) by {
        assert(p[k] == name[k - n]);
        assert(!set.has(name[k - n]));
    }
    assert(p[n - 1] == '/');
    lemma_rfind_is(p, set, p.len() as int, n);
    assert(p.subrange(n, p.len() as int) =~= name);
    lemma_rfind_is(name, set, name.len() as int, 0);
    assert(name.subrange(0, name.len() as int) =~= name);
}

/// The fields of an effect that name members of value sets are known with those sets, under
/// their names in lower case, at any depth.
pub proof fn law_fields_that_name_members(key: Seq<char>, set: Seq<char>, rules: Seq<RuleV>, n: int)
    requires
        0 < n <= rules.len(),
    ensures
        bindings(
            RuleTypeV::LeafRule {
                left: FieldV::SpecificField(key),
                right: FieldV::VariableSetField(set),
            },
        ) == seq![(ascii_lower(key), set)],
        bindings_in(rules, n) == bindings_in(rules, n - 1) + bindings(rules[n - 1].0),
        bindings(RuleTypeV::ValueClauseRule { rules }) == bindings_in(rules, rules.len() as int),
{
}

proof fn lemma_enum_map(e: Seq<EnumV>, n: int, i: int)
    requires
        0 <= i < n <= e.len(),
        forall|j: int| i < j < n ==> (#[trigger] e[j]).key != e[i].key,
    ensures
        enum_map(e, n).contains_key(e[i].key),
        enum_map(e, n)[e[i].key] == e[i],
    decreases n,
{
    if i < n - 1 {
        assert(e[n - 1].key != e[i].key);
        lemma_enum_map(e, n - 1, i);
    }
}

/// Of several enums of one name the last is the one that is mapped.
pub proof fn law_mapped_enums(e: Seq<EnumV>, i: int)
    requires
        0 <= i < e.len(),
        forall|j: int| i < j < e.len() ==> (#[trigger] e[j]).key != e[i].key,
    ensures
        enum_map(e, e.len() as int).contains_key(e[i].key),
        enum_map(e, e.len() as int)[e[i].key] == e[i],
{
    lemma_enum_map(e, e.len() as int, i);
}

// ---------------------------------------------------------------------------
// Aliases with a member of an enum or of a value set in their names

proof fn lemma_text_found(s: Seq<char>, p: Seq<char>, i: int, n: int)
    requires
        0 <= i <= n,
        occurs_at(s, p, n),
        forall|k: int| i <= k < n ==> !occurs_at(s, p, k),
    ensures
        find_text_from(s, p, i) == Some(n),
    decreases n - i,
{
    if i < n {
        assert(!occurs_at(s, p, i));
        lemma_text_found(s, p, i + 1, n);
    }
}

proof fn lemma_text_not_found(s: Seq<char>, p: Seq<char>, i: int)
    requires
        0 <= i,
        forall|k: int| !occurs_at(s, p, k),
    ensures
        find_text_from(s, p, i) is None,
    decreases s.len() + 1 - i,
{
    if i <= s.len() {
        assert(!occurs_at(s, p, i));
        lemma_text_not_found(s, p, i + 1);
    }
}

/// A marker, which ends in `[`, stands in a text with one `[` only where that ends it.
proof fn lemma_marker_at(s: Seq<char>, m: Seq<char>, bracket: int, k: int)
    requires
        m.len() >= 2,
        m.last() == '[',
        0 <= bracket < s.len(),
        forall|j: int| 0 <= j < s.len() && j != bracket ==> (#[trigger] s[j]) != '[',
        occurs_at(s, m, k),
    ensures
        k + m.len() - 1 == bracket,
        s[bracket - 1] == m[m.len() - 2],
{
    let t = s.subrange(k, k + m.len());
    assert(t[m.len() - 1] == s[k + m.len() - 1]);
    assert(t[m.len() - 2] == s[k + m.len() - 2]);
}

/// An alias whose name has an enum, or a value set, in brackets is for what stands before
/// it, a member, and what stands behind it.
pub proof fn law_alias_with_members(
    before: Seq<char>,
    name: Seq<char>,
    after: Seq<char>,
    i: usize,
)
    requires
        before.len() == 0 || is_name(before),
        is_name(name),
        after.len() == 0 || is_name(after),
        !ends(before, "complex_"@),
    ensures
        parse_pattern(before + "enum["@ + name + seq![']'] + after, i) == Some(
            PatternV {
                alias_idx: i,
                prefix: before,
                suffix: after,
                kind: PatternKind::Enum,
                placeholder_name: name,
            },
        ),
        parse_pattern(before + "value["@ + name + seq![']'] + after, i) == Some(
            PatternV {
                alias_idx: i,
                prefix: before,
                suffix: after,
                kind: PatternKind::Value,
                placeholder_name: name,
            },
        ),
{
    lemma_alias_with_enum(before, name, after, i);
    lemma_alias_with_value(before, name, after, i);
}

#[verifier::rlimit(40)]
proof fn lemma_alias_with_enum(before: Seq<char>, name: Seq<char>, after: Seq<char>, i: usize)
    requires
        before.len() == 0 || is_name(before),
        is_name(name),
        after.len() == 0 || is_name(after),
        !ends(before, "complex_"@),
    ensures
        parse_pattern(before + "enum["@ + name + seq![']'] + after, i) == Some(
            PatternV {
                alias_idx: i,
                prefix: before,
                suffix: after,
                kind: PatternKind::Enum,
                placeholder_name: name,
            },
        ),
{
    reveal_strlit("value_set[");
    reveal_strlit("complex_enum[");
    reveal_strlit("value[");
    reveal_strlit("enum[");
    reveal_strlit("complex_");
    let e = before + "enum["@ + name + seq![']'] + after;
    let be = before.len() as int + 4;
    lemma_one_bracket(before, "enum["@, name, after);
    assert(e[be] == '[' && e[be - 1] == 'm');
    assert forall|k: int| !occurs_at(e, "value_set["@, k) by {
        if occurs_at(e, "value_set["@, k) {
            lemma_marker_at(e, "value_set["@, be, k);
        }
    }
    lemma_text_not_found(e, "value_set["@, 0);
    assert forall|k: int| !occurs_at(e, "value["@, k) by {
        if occurs_at(e, "value["@, k) {
            lemma_marker_at(e, "value["@, be, k);
        }
    }
    lemma_text_not_found(e, "value["@, 0);
    assert forall|k: int| !occurs_at(e, "complex_enum["@, k) by {
        if occurs_at(e, "complex_enum["@, k) {
            lemma_marker_at(e, "complex_enum["@, be, k);
            let t = e.subrange(k, k + 13);
            assert(t == "complex_enum["@);
            assert(before.subrange(before.len() - 8, before.len() as int) =~= t.subrange(0, 8));
            assert(t.subrange(0, 8) =~= "complex_"@);
        }
    }
    lemma_text_not_found(e, "complex_enum["@, 0);
    assert(e.subrange(be - 4, be + 1) =~= "enum["@);
    assert forall|k: int| 0 <= k < be - 4 implies !occurs_at(e, "enum["@, k) by {
        if occurs_at(e, "enum["@, k) {
            lemma_marker_at(e, "enum["@, be, k);
        }
    }
    lemma_text_found(e, "enum["@, 0, be - 4);
    let ce = be + 1 + name.len();
    assert(e[ce] == ']');
    lemma_find_is(e, CharSet::One(']'), be + 1, ce);
    assert(e.subrange(0, be - 4) =~= before);
    assert(e.subrange(be + 1, ce) =~= name);
    assert(e.subrange(ce + 1, e.len() as int) =~= after);
}

#[verifier::rlimit(40)]
proof fn lemma_alias_with_value(before: Seq<char>, name: Seq<char>, after: Seq<char>, i: usize)
    requires
        before.len() == 0 || is_name(before),
        is_name(name),
        after.len() == 0 || is_name(after),
        !ends(before, "complex_"@),
    ensures
        parse_pattern(before + "value["@ + name + seq![']'] + after, i) == Some(
            PatternV {
                alias_idx: i,
                prefix: before,
                suffix: after,
                kind: PatternKind::Value,
                placeholder_name: name,
            },
        ),
{
    reveal_strlit("value_set[");
    reveal_strlit("complex_enum[");
    reveal_strlit("value[");
    reveal_strlit("enum[");
    reveal_strlit("complex_");
    let v = before + "value["@ + name + seq![']'] + after;
    let bv = before.len() as int + 5;
    lemma_one_bracket(before, "value["@, name, after);
    assert(v[bv] == '[' && v[bv - 1] == 'e');
    assert forall|k: int| !occurs_at(v, "value_set["@, k) by {
        if occurs_at(v, "value_set["@, k) {
            lemma_marker_at(v, "value_set["@, bv, k);
        }
    }
    lemma_text_not_found(v, "value_set["@, 0);
    assert forall|k: int| !occurs_at(v, "complex_enum["@, k) by {
        if occurs_at(v, "complex_enum["@, k) {
            lemma_marker_at(v, "complex_enum["@, bv, k);
        }
    }
    lemma_text_not_found(v, "complex_enum["@, 0);
    assert forall|k: int| !occurs_at(v, "enum["@, k) by {
        if occurs_at(v, "enum["@, k) {
            lemma_marker_at(v, "enum["@, bv, k);
        }
    }
    lemma_text_not_found(v, "enum["@, 0);
    assert(v.subrange(bv - 5, bv + 1) =~= "value["@);
    assert forall|k: int| 0 <= k < bv - 5 implies !occurs_at(v, "value["@, k) by {
        if occurs_at(v, "value["@, k) {
            lemma_marker_at(v, "value["@, bv, k);
        }
    }
    lemma_text_found(v, "value["@, 0, bv - 5);
    let cv = bv + 1 + name.len();
    assert(v[cv] == ']');
    lemma_find_is(v, CharSet::One(']'), bv + 1, cv);
    assert(v.subrange(0, bv - 5) =~= before);
    assert(v.subrange(bv + 1, cv) =~= name);
    assert(v.subrange(cv + 1, v.len() as int) =~= after);
}

proof fn lemma_one_bracket(before: Seq<char>, m: Seq<char>, name: Seq<char>, after: Seq<char>)
    requires
        before.len() == 0 || is_name(before),
        is_name(name),
        after.len() == 0 || is_name(after),
        m.len() > 0,
        m.last() == '[',
        forall|j: int| 0 <= j < m.len() - 1 ==> is_word_char(#[trigger] m[j]),
    ensures
        ({
            let s = before + m + name + seq![']'] + after;
            let b = before.len() + m.len() - 1;
            &&& find_in(s, CharSet::One('<'), 0) == s.len()
            &&& forall|j: int| 0 <= j < s.len() && j != b ==> (#[trigger] s[j]) != '['
            &&& forall|j: int|
                b < j < b + 1 + name.len() ==> !CharSet::One(']').has(#[trigger] s[j])
        }),
{
    let s = before + m + name + seq![']'] + after;
    let b = before.len() + m.len() - 1;
    let c = b + 1 + name.len();
    assert forall|j: int| 0 <= j < s.len() implies is_word_char(#[trigger] s[j]) || (j == b && s[j]
        == '[') || (j == c && s[j] == ']') by {
        if j < before.len() {
            assert(s[j] == before[j]);
            assert(is_word_char(before[j]));
        } else if j < b {
            assert(s[j] == m[j - before.len()]);
            assert(is_word_char(m[j - before.len()]));
        } else if b < j && j < c {
            assert(s[j] == name[j - b - 1]);
            assert(is_word_char(name[j - b - 1]));
        } else if j > c {
            assert(s[j] == after[j - c - 1]);
            assert(is_word_char(after[j - c - 1]));
        }
    }
    assert forall|j: int| 0 <= j < s.len() implies !CharSet::One('<').has(#[trigger] s[j]) by {
        assert(is_word_char(s[j]) || s[j] == '[' || s[j] == ']');
    }
    lemma_find_is(s, CharSet::One('<'), 0, s.len() as int);
    assert forall|j: int| 0 <= j < s.len() && j != b implies (#[trigger] s[j]) != '[' by {
        assert(is_word_char(s[j]) || s[j] == ']');
    }
    assert forall|j: int| b < j < c implies !CharSet::One(']').has(#[trigger] s[j]) by {
        assert(is_word_char(s[j]));
    }
}

} // verus!
