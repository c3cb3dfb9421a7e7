//! Reading enums and value sets from a configuration.

use vstd::prelude::*;
use vstd::string::*;

use crate::ast::{Child, Comment, Leaf, LeafValue, Value};
use crate::comment_directives::{description_of, extract_description_from_comments};
use crate::name_map::NameMap;
use crate::rule_converter::{
    bracket_content, clean_path, cleaned_path, comments_before, config_text,
    extract_bracket_content, precompute_comments, value_to_string,
};
use crate::rules_types::{
    ComplexEnumDef, ComplexEnumNameTree, ComplexEnumNameTreeEntry, ComplexEnumV, EnumDefinition,
    EnumV, NameEntryV, NameTreeV, PathOptions, PathOptionsV, lemma_views_push, name_entries_view,
    no_paths,
};
use crate::ruleset::{RuleSet, RuleSetV, entry};
use crate::text::{same, starts, starts_with, texts};

verus! {

// ---------------------------------------------------------------------------
// Members

/// The text that a child adds to a list: a value, or the key of a leaf.
pub open spec fn member_text(c: Child) -> Seq<char> {
    match c {
        Child::LeafValue(lv) => config_text(lv.value),
        Child::Leaf(l) => l.key@,
        Child::Comment(_) => Seq::empty(),
    }
}

/// The texts, if they are not empty, that the first `n` children add to a list.
pub open spec fn member_texts(ch: Seq<Child>, n: int) -> Seq<Seq<char>>
    decreases n,
{
    if n <= 0 {
        Seq::empty()
    } else {
        let head = member_texts(ch, n - 1);
        let t = member_text(ch[n - 1]);
        if t.len() > 0 {
            head.push(t)
        } else {
            head
        }
    }
}

/// The members of a list in braces; a value that is no block has none.
pub open spec fn clause_members(v: Value) -> Seq<Seq<char>> {
    match v {
        Value::Clause(c) => member_texts(c@, c@.len() as int),
        _ => Seq::empty(),
    }
}

/// The texts that the children of a block add to a list.
pub fn collect_leaf_values_from_children(children: &Vec<Child>) -> (r: Vec<String>)
    ensures
        texts(r@) == member_texts(children@, children@.len() as int),
{
    let mut out: Vec<String> = Vec::new();
    let mut i: usize = 0;
    assert(texts(out@) =~= Seq::empty());
    while i < children.len()
        invariant
            i <= children@.len(),
            texts(out@) == member_texts(children@, i as int),
        decreases children@.len() - i,
    {
        let ghost before = texts(out@);
        let t = match &children[i] {
            Child::LeafValue(lv) => value_to_string(&lv.value),
            Child::Leaf(l) => l.key.clone(),
            Child::Comment(_) => String::new(),
        };
        if !t.as_str().is_empty() {
            out.push(t);
            assert(texts(out@) =~= before.push(t@));
        }
        i += 1;
    }
    out
}

/// The members of a list in braces.
pub fn collect_leaf_values_from_clause(value: &Value) -> (r: Vec<String>)
    ensures
        texts(r@) == clause_members(*value),
{
    match value {
        Value::Clause(c) => collect_leaf_values_from_children(c),
        _ => {
            let v: Vec<String> = Vec::new();
            assert(texts(v@) =~= Seq::empty());
            v
        },
    }
}

// ---------------------------------------------------------------------------
// Enums

pub open spec fn description_or(comments: Seq<Seq<char>>, name: Seq<char>) -> Seq<char> {
    match description_of(comments) {
        Some(d) => d,
        None => name,
    }
}

fn describe_or(comments: &Vec<String>, name: &str) -> (r: String)
    ensures
        r@ == description_or(texts(comments@), name@),
{
    match extract_description_from_comments(comments) {
        Some(d) => d,
        None => name.to_owned(),
    }
}

/// The enum that `enum[name] = { ... }` declares.
pub open spec fn enum_of(name: Seq<char>, value: Value, comments: Seq<Seq<char>>) -> EnumV {
    EnumV {
        key: name,
        description: description_or(comments, name),
        values: clause_members(value),
    }
}

/// The enum that `enum[name] = { ... }` declares.
pub fn process_enum_node(name: String, leaf: &Leaf, comments: &Vec<String>) -> (r: EnumDefinition)
    ensures
        r@ == enum_of(name@, leaf.value, texts(comments@)),
{
    let values = collect_leaf_values_from_clause(&leaf.value);
    let description = describe_or(comments, name.as_str());
    EnumDefinition { key: name, description, values }
}

// ---------------------------------------------------------------------------
// Complex enums

/// The entry of a name tree that a child stands for: a block, a key whose value
/// may be the place of the name, or a bare `enum_name`.
pub open spec fn name_entry(c: Child) -> Option<NameEntryV>
    decreases c,
{
    match c {
        Child::Leaf(l) => match l.value {
            Value::Clause(sub) => Some(
                NameEntryV::Node { key: l.key@, children: name_tree_of(sub@) },
            ),
            _ => Some(
                NameEntryV::Leaf {
                    key: l.key@,
                    is_name: config_text(l.value) == "enum_name"@ || config_text(l.value)
                        == "this"@,
                },
            ),
        },
        Child::LeafValue(lv) => if config_text(lv.value) == "enum_name"@ {
            Some(NameEntryV::BareName)
        } else {
            None
        },
        Child::Comment(_) => None,
    }
}

/// The entries that the first `n` children stand for.
pub open spec fn name_entries(ch: Seq<Child>, n: int) -> Seq<NameEntryV>
    decreases ch, n,
{
    if n <= 0 || n > ch.len() {
        Seq::empty()
    } else {
        match name_entry(ch[n - 1]) {
            Some(e) => name_entries(ch, n - 1).push(e),
            None => name_entries(ch, n - 1),
        }
    }
}

/// The name tree of a `name = { ... }` block.
pub open spec fn name_tree_of(ch: Seq<Child>) -> NameTreeV
    decreases ch, ch.len() + 1,
{
    NameTreeV::Entries(name_entries(ch, ch.len() as int))
}

/// The name tree of a `name = { ... }` block.
pub fn build_name_tree(children: &Vec<Child>) -> (r: ComplexEnumNameTree)
    ensures
        r@ == name_tree_of(children@),
    decreases children,
{
    let mut entries: Vec<ComplexEnumNameTreeEntry> = Vec::new();
    let mut i: usize = 0;
    assert(name_entries_view(entries@) =~= Seq::empty());
    while i < children.len()
        invariant
            i <= children@.len(),
            name_entries_view(entries@) == name_entries(children@, i as int),
        decreases children@.len() - i,
    {
        let ghost before = entries@;
        let e = match &children[i] {
            Child::Leaf(l) => match &l.value {
                Value::Clause(sub) => {
                    let tree = build_name_tree(sub);
                    Some(ComplexEnumNameTreeEntry::Node { key: l.key.clone(), children: tree })
                },
                _ => {
                    let v = value_to_string(&l.value);
                    let is_name = same(v.as_str(), "enum_name") || same(v.as_str(), "this");
                    Some(ComplexEnumNameTreeEntry::Leaf { key: l.key.clone(), is_name })
                },
            },
            Child::LeafValue(lv) => {
                let v = value_to_string(&lv.value);
                if same(v.as_str(), "enum_name") {
                    Some(ComplexEnumNameTreeEntry::BareName)
                } else {
                    None
                }
            },
            Child::Comment(_) => None,
        };
        match e {
            Some(x) => {
                entries.push(x);
                assert(name_entry(children@[i as int]) is Some);
                assert(name_entries_view(entries@) =~= name_entries_view(before).push(
                    name_entry(children@[i as int])->0,
                ));
            },
            None => {},
        }
        i += 1;
    }
    ComplexEnumNameTree::Entries(entries)
}

/// A complex enum with one more entry of its block taken in.
pub open spec fn with_complex_entry(e: ComplexEnumV, c: Child) -> ComplexEnumV {
    match c {
        Child::Leaf(l) => {
            let k = l.key@;
            let v = config_text(l.value);
            if k == "name"@ && l.value is Clause {
                ComplexEnumV { name_tree: name_tree_of(l.value->Clause_0@), ..e }
            } else if k == "path"@ {
                ComplexEnumV {
                    path_options: PathOptionsV {
                        paths: e.path_options.paths.push(cleaned_path(v)),
                        ..e.path_options
                    },
                    ..e
                }
            } else if k == "path_strict"@ {
                if v == "yes"@ {
                    ComplexEnumV {
                        path_options: PathOptionsV { path_strict: true, ..e.path_options },
                        ..e
                    }
                } else {
                    e
                }
            } else if k == "path_file"@ {
                ComplexEnumV {
                    path_options: PathOptionsV { path_file: Some(v), ..e.path_options },
                    ..e
                }
            } else if k == "path_extension"@ {
                ComplexEnumV {
                    path_options: PathOptionsV { path_extension: Some(v), ..e.path_options },
                    ..e
                }
            } else if k == "start_from_root"@ && v == "yes"@ {
                ComplexEnumV { start_from_root: true, ..e }
            } else {
                e
            }
        },
        _ => e,
    }
}

/// The complex enum that the first `n` entries of its block declare.
pub open spec fn complex_enum_fold(e: ComplexEnumV, ch: Seq<Child>, n: int) -> ComplexEnumV
    decreases n,
{
    if n <= 0 {
        e
    } else {
        with_complex_entry(complex_enum_fold(e, ch, n - 1), ch[n - 1])
    }
}

/// The complex enum that `complex_enum[name] = { ... }` declares.
pub open spec fn complex_enum_of(
    name: Seq<char>,
    ch: Seq<Child>,
    comments: Seq<Seq<char>>,
) -> ComplexEnumV {
    complex_enum_fold(
        ComplexEnumV {
            name,
            description: description_or(comments, name),
            path_options: no_paths(),
            name_tree: NameTreeV::Empty,
            start_from_root: false,
        },
        ch,
        ch.len() as int,
    )
}

fn take_complex_entry(e: &mut ComplexEnumDef, l: &Leaf)
    ensures
        final(e)@ == with_complex_entry(old(e)@, Child::Leaf(*l)),
{
    let k = l.key.as_str();
    if same(k, "name") {
        if let Value::Clause(c) = &l.value {
            e.name_tree = build_name_tree(c);
            return ;
        }
    }
    let v = value_to_string(&l.value);
    if same(k, "path") {
        let ghost before = texts(e.path_options.paths@);
        let p = clean_path(v.as_str());
        e.path_options.paths.push(p);
        assert(texts(e.path_options.paths@) =~= before.push(p@));
    } else if same(k, "path_strict") {
        if same(v.as_str(), "yes") {
            e.path_options.path_strict = true;
        }
    } else if same(k, "path_file") {
        e.path_options.path_file = Some(v);
    } else if same(k, "path_extension") {
        e.path_options.path_extension = Some(v);
    } else if same(k, "start_from_root") && same(v.as_str(), "yes") {
        e.start_from_root = true;
    }
}

/// The complex enum that `complex_enum[name] = { ... }` declares.
pub fn process_complex_enum_from_children(
    name: String,
    children: &Vec<Child>,
    comments: &Vec<String>,
) -> (r: ComplexEnumDef)
    ensures
        r@ == complex_enum_of(name@, children@, texts(comments@)),
{
    let description = describe_or(comments, name.as_str());
    let mut e = ComplexEnumDef {
        name,
        description,
        path_options: PathOptions::default(),
        name_tree: ComplexEnumNameTree::Empty,
        start_from_root: false,
    };
    let ghost start = e@;
    let mut i: usize = 0;
    while i < children.len()
        invariant
            i <= children@.len(),
            e@ == complex_enum_fold(start, children@, i as int),
        decreases children@.len() - i,
    {
        if let Child::Leaf(l) = &children[i] {
            take_complex_entry(&mut e, l);
        }
        i += 1;
    }
    e
}

// ---------------------------------------------------------------------------
// The `enums` and `values` blocks

/// The rule set with child `i` of an `enums` block taken in.
pub open spec fn with_enum_child(rs: RuleSetV, ch: Seq<Child>, i: int) -> RuleSetV {
    match ch[i] {
        Child::Leaf(l) => {
            let comments = comments_before(ch, i);
            if starts(l.key@, "enum["@) {
                match bracket_content(l.key@, "enum"@) {
                    Some(name) => RuleSetV {
                        enums: rs.enums.push(enum_of(name, l.value, comments)),
                        ..rs
                    },
                    None => rs,
                }
            } else if starts(l.key@, "complex_enum["@) {
                match (bracket_content(l.key@, "complex_enum"@), l.value) {
                    (Some(name), Value::Clause(c)) => RuleSetV {
                        complex_enums: rs.complex_enums.push(complex_enum_of(name, c@, comments)),
                        ..rs
                    },
                    _ => rs,
                }
            } else {
                rs
            }
        },
        _ => rs,
    }
}

/// The rule set with the first `n` children of an `enums` block taken in.
pub open spec fn with_enums(rs: RuleSetV, ch: Seq<Child>, n: int) -> RuleSetV
    decreases n,
{
    if n <= 0 {
        rs
    } else {
        with_enum_child(with_enums(rs, ch, n - 1), ch, n - 1)
    }
}

/// Takes in the children of an `enums` block.
pub fn extract_enums_from_children(children: &Vec<Child>, ruleset: &mut RuleSet)
    ensures
        final(ruleset)@ == with_enums(old(ruleset)@, children@, children@.len() as int),
{
    let precomputed = precompute_comments(children);
    let mut i: usize = 0;
    while i < children.len()
        invariant
            i <= children@.len(),
            precomputed@.len() == children@.len(),
            forall|j: int|
                0 <= j < children@.len() ==> texts((#[trigger] precomputed@[j])@) == (
                if children@[j] is Comment {
                    Seq::empty()
                } else {
                    comments_before(children@, j)
                }),
            ruleset@ == with_enums(old(ruleset)@, children@, i as int),
        decreases children@.len() - i,
    {
        let ghost before = ruleset@;
        if let Child::Leaf(l) = &children[i] {
            let comments = &precomputed[i];
            if starts_with(l.key.as_str(), "enum[") {
                if let Some(name) = extract_bracket_content(l.key.as_str(), "enum") {
                    let ghost held = ruleset.enums@;
                    let def = process_enum_node(name, l, comments);
                    ruleset.enums.push(def);
                    proof {
                        lemma_views_push(held, def);
                    }
                }
            } else if starts_with(l.key.as_str(), "complex_enum[") {
                if let Some(name) = extract_bracket_content(l.key.as_str(), "complex_enum") {
                    if let Value::Clause(c) = &l.value {
                        let ghost held = ruleset.complex_enums@;
                        let def = process_complex_enum_from_children(name, c, comments);
                        ruleset.complex_enums.push(def);
                        proof {
                            lemma_views_push(held, def);
                        }
                    }
                }
            }
        }
        assert(ruleset@ =~= with_enum_child(before, children@, i as int));
        i += 1;
    }
}

/// The value sets with child `c` of a `values` block taken in.
pub open spec fn with_value_child(
    m: Map<Seq<char>, Seq<Seq<char>>>,
    c: Child,
) -> Map<Seq<char>, Seq<Seq<char>>> {
    match c {
        Child::Leaf(l) => match bracket_content(l.key@, "value"@) {
            Some(name) => m.insert(name, entry(m, name, Seq::empty()) + clause_members(l.value)),
            None => m,
        },
        _ => m,
    }
}

/// The value sets with the first `n` children of a `values` block taken in.
pub open spec fn with_values(
    m: Map<Seq<char>, Seq<Seq<char>>>,
    ch: Seq<Child>,
    n: int,
) -> Map<Seq<char>, Seq<Seq<char>>>
    decreases n,
{
    if n <= 0 {
        m
    } else {
        with_value_child(with_values(m, ch, n - 1), ch[n - 1])
    }
}

/// Adds `items` to the value set `name`.
pub fn extend_values(m: &mut NameMap<Vec<String>>, name: String, items: Vec<String>)
    ensures
        final(m)@ == old(m)@.insert(name@, entry(old(m)@, name@, Seq::empty()) + texts(items@)),
{
    let mut list = match m.take(name.as_str()) {
        Some(list) => list,
        None => Vec::new(),
    };
    let ghost held = list.deep_view();
    assert(held =~= entry(old(m)@, name@, Seq::empty()));
    let mut items = items;
    let ghost added = items@;
    list.append(&mut items);
    assert(list.deep_view() =~= held + texts(added));
    let ghost key = name@;
    m.insert(name, list);
    assert(m@ =~= old(m)@.insert(key, held + texts(added)));
}

/// Takes in the children of a `values` block.
pub fn extract_values_from_children(children: &Vec<Child>, ruleset: &mut RuleSet)
    ensures
        final(ruleset)@ == (RuleSetV {
            values: with_values(old(ruleset)@.values, children@, children@.len() as int),
            ..old(ruleset)@
        }),
{
    let mut i: usize = 0;
    while i < children.len()
        invariant
            i <= children@.len(),
            ruleset@ == (RuleSetV {
                values: with_values(old(ruleset)@.values, children@, i as int),
                ..old(ruleset)@
            }),
        decreases children@.len() - i,
    {
        if let Child::Leaf(l) = &children[i] {
            if let Some(name) = extract_bracket_content(l.key.as_str(), "value") {
                let vals = collect_leaf_values_from_clause(&l.value);
                extend_values(&mut ruleset.values, name, vals);
            }
        }
        i += 1;
    }
}

} // verus!
