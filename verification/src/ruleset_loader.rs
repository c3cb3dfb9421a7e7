//! Assembling a rule set from the files of a configuration.

use vstd::prelude::*;
use vstd::string::*;

use crate::ast::{Child, Leaf, ParsedFile};
use crate::config_validation::{ParseErrorV, RuleParseError, check_children, children_problems};
use crate::enum_converter::extend_values;
use crate::name_map::NameMap;
use crate::post_process::{
    AliasExpansionError, ExpansionErrorV, expansion_refusals, post_process, post_processed,
};
use crate::rule_converter::{bracket_content, get_setting_from_string};
use crate::rules_converter::{ast_to_ruleset_raw, raw_ruleset_of};
use crate::rules_types::{lemma_views_push, views};
use crate::ruleset::{RuleSet, RuleSetV, empty_ruleset, entry, reindexed};
use crate::text::{
    CharSet, after_last, eq_ci, same, same_ci, split, split_spec, starts_char, starts_with_char,
    tail_after, texts, trim, trimmed,
};

verus! {

// ---------------------------------------------------------------------------
// Merging

/// Two maps of lists, with the lists under a common name appended.
pub open spec fn merged_values(
    a: Map<Seq<char>, Seq<Seq<char>>>,
    b: Map<Seq<char>, Seq<Seq<char>>>,
) -> Map<Seq<char>, Seq<Seq<char>>> {
    Map::new(
        |k: Seq<char>| a.contains_key(k) || b.contains_key(k),
        |k: Seq<char>| entry(a, k, Seq::empty()) + entry(b, k, Seq::empty()),
    )
}

/// `dst` with everything that `src` holds added to it; the indexes stay those of
/// `dst`.
pub open spec fn merged(dst: RuleSetV, src: RuleSetV) -> RuleSetV {
    RuleSetV {
        types: dst.types + src.types,
        enums: dst.enums + src.enums,
        aliases: dst.aliases + src.aliases,
        single_aliases: dst.single_aliases + src.single_aliases,
        complex_enums: dst.complex_enums + src.complex_enums,
        root_rules: dst.root_rules + src.root_rules,
        values: merged_values(dst.values, src.values),
        modifiers: dst.modifiers + src.modifiers,
        scope_links: dst.scope_links.union(src.scope_links),
        scope_inputs: dst.scope_inputs + src.scope_inputs,
        link_inputs: dst.link_inputs + src.link_inputs,
        folders: dst.folders + src.folders,
        ..dst
    }
}

proof fn lemma_move_value(
    a: Map<Seq<char>, Seq<Seq<char>>>,
    b: Map<Seq<char>, Seq<Seq<char>>>,
    k: Seq<char>,
)
    requires
        b.contains_key(k),
    ensures
        merged_values(a.insert(k, entry(a, k, Seq::empty()) + b[k]), b.remove(k)) == merged_values(
            a,
            b,
        ),
{
    let x = merged_values(a.insert(k, entry(a, k, Seq::empty()) + b[k]), b.remove(k));
    let y = merged_values(a, b);
    assert forall|j: Seq<char>| x.contains_key(j) == y.contains_key(j) by {}
    assert forall|j: Seq<char>| x.contains_key(j) implies x[j] == y[j] by {
        if j == k {
            assert(x[j] =~= y[j]);
        }
    }
    assert(x =~= y);
}

fn merge_values(dst: &mut NameMap<Vec<String>>, src: NameMap<Vec<String>>)
    ensures
        final(dst)@ == merged_values(old(dst)@, src@),
{
    let mut rest = src;
    loop
        invariant
            merged_values(dst@, rest@) == merged_values(old(dst)@, src@),
        decreases rest.size(),
    {
        let ghost from = rest@;
        let ghost into = dst@;
        match rest.pop() {
            Some((name, vals)) => {
                let ghost k = name@;
                assert(texts(vals@) =~= vals.deep_view());
                extend_values(dst, name, vals);
                proof {
                    lemma_move_value(into, from, k);
                }
            },
            None => {
                proof {
                    assert forall|j: Seq<char>|
                        merged_values(into, from).contains_key(j) implies #[trigger] merged_values(
                        into,
                        from,
                    )[j] == into[j] by {
                        assert(into[j] + Seq::<Seq<char>>::empty() =~= into[j]);
                    }
                    assert(merged_values(into, from) =~= into);
                }
                return ;
            },
        }
    }
}

proof fn lemma_views_append<T: View>(a: Seq<T>, b: Seq<T>)
    ensures
        views(a + b) == views(a) + views(b),
{
    assert(views(a + b) =~= views(a) + views(b));
}

fn append_all<T: View>(dst: &mut Vec<T>, src: Vec<T>)
    ensures
        views(final(dst)@) == views(old(dst)@) + views(src@),
{
    let mut src = src;
    proof {
        lemma_views_append(dst@, src@);
    }
    dst.append(&mut src);
}

fn append_texts(dst: &mut Vec<String>, src: Vec<String>)
    ensures
        texts(final(dst)@) == texts(old(dst)@) + texts(src@),
{
    let mut src = src;
    let ghost a = dst@;
    let ghost b = src@;
    dst.append(&mut src);
    assert(texts(dst@) =~= texts(a) + texts(b));
}

/// Adds everything that `src` holds to `dst`.
pub fn merge_ruleset(dst: &mut RuleSet, src: RuleSet)
    ensures
        final(dst)@ == merged(old(dst)@, src@),
{
    append_all(&mut dst.types, src.types);
    append_all(&mut dst.enums, src.enums);
    append_all(&mut dst.aliases, src.aliases);
    append_all(&mut dst.single_aliases, src.single_aliases);
    append_all(&mut dst.complex_enums, src.complex_enums);
    append_all(&mut dst.root_rules, src.root_rules);
    merge_values(&mut dst.values, src.values);
    append_texts(&mut dst.modifiers, src.modifiers);
    dst.scope_links.extend(src.scope_links);
    append_all(&mut dst.scope_inputs, src.scope_inputs);
    append_all(&mut dst.link_inputs, src.link_inputs);
    append_texts(&mut dst.folders, src.folders);
}

// ---------------------------------------------------------------------------
// Folders

/// The folders that the first `n` lines name, one each; an empty line and one that
/// starts with `#` names none.
pub open spec fn folder_lines(lines: Seq<Seq<char>>, n: int) -> Seq<Seq<char>>
    decreases n,
{
    if n <= 0 {
        Seq::empty()
    } else {
        let head = folder_lines(lines, n - 1);
        let line = trimmed(lines[n - 1]);
        if line.len() > 0 && !starts_char(line, '#') {
            head.push(line)
        } else {
            head
        }
    }
}

/// The folders that a list of folders names.
pub open spec fn folders_of(content: Seq<char>) -> Seq<Seq<char>> {
    let lines = split_spec(content, CharSet::One('\n'));
    folder_lines(lines, lines.len() as int)
}

/// The folders that a list of folders names.
pub fn parse_folders_list(content: &str) -> (r: Vec<String>)
    ensures
        texts(r@) == folders_of(content@),
{
    let lines = split(content, CharSet::One('\n'));
    let mut out: Vec<String> = Vec::new();
    let mut i: usize = 0;
    assert(texts(out@) =~= Seq::empty());
    while i < lines.len()
        invariant
            i <= lines@.len(),
            texts(out@) == folder_lines(texts(lines@), i as int),
        decreases lines@.len() - i,
    {
        let line = trim(lines[i].as_str());
        if !line.is_empty() && !starts_with_char(line, '#') {
            let ghost before = texts(out@);
            out.push(line.to_owned());
            assert(texts(out@) =~= before.push(line@));
        }
        i += 1;
    }
    assert(texts(lines@).len() == lines@.len());
    out
}

/// The path names a list of folders.
pub open spec fn names_folders_file(path: Seq<char>) -> bool {
    eq_ci(after_last(path, CharSet::Either('/', '\\')), "folders.cwt"@)
}

/// Whether the path names a list of folders, which is no script.
pub fn is_folders_file(path: &str) -> (r: bool)
    ensures
        r == names_folders_file(path@),
{
    same_ci(tail_after(path, CharSet::Either('/', '\\')), "folders.cwt")
}

// ---------------------------------------------------------------------------
// Errors with a place

/// What a definition defines.
#[derive(Clone, Copy, Debug, PartialEq, Eq, Structural)]
pub enum CwtDefKind {
    Type,
    Enum,
    Alias,
    SingleAlias,
}

/// Where something is defined.
#[derive(Debug, PartialEq)]
pub struct DefPosition {
    pub kind: CwtDefKind,
    pub name: String,
    pub file: String,
    pub line: u32,
    pub col: u16,
}

/// The model of a [`DefPosition`].
#[verifier::ext_equal]
pub struct DefPositionV {
    pub kind: CwtDefKind,
    pub name: Seq<char>,
    pub file: Seq<char>,
    pub line: u32,
    pub col: u16,
}

impl View for DefPosition {
    type V = DefPositionV;

    open spec fn view(&self) -> DefPositionV {
        DefPositionV {
            kind: self.kind,
            name: self.name@,
            file: self.file@,
            line: self.line,
            col: self.col,
        }
    }
}

/// Where the first `n` children of a file define a single alias.
pub open spec fn single_alias_positions(path: Seq<char>, ch: Seq<Child>, n: int) -> Seq<
    DefPositionV,
>
    decreases n,
{
    if n <= 0 {
        Seq::empty()
    } else {
        let head = single_alias_positions(path, ch, n - 1);
        match ch[n - 1] {
            Child::Leaf(l) => match bracket_content(l.key@, "single_alias"@) {
                Some(name) => head.push(
                    DefPositionV {
                        kind: CwtDefKind::SingleAlias,
                        name,
                        file: path,
                        line: l.pos.start.line,
                        col: l.pos.start.col,
                    },
                ),
                None => head,
            },
            _ => head,
        }
    }
}

/// Adds where a file defines single aliases.
pub fn collect_definition_positions(path: &str, ast: &ParsedFile, out: &mut Vec<DefPosition>)
    ensures
        views(final(out)@) == views(old(out)@) + single_alias_positions(
            path@,
            ast.root_children@,
            ast.root_children@.len() as int,
        ),
{
    let ch = &ast.root_children;
    let ghost start = views(out@);
    let mut i: usize = 0;
    assert(views(out@) =~= start + single_alias_positions(path@, ch@, 0));
    while i < ch.len()
        invariant
            i <= ch@.len(),
            views(out@) == start + single_alias_positions(path@, ch@, i as int),
        decreases ch@.len() - i,
    {
        let ghost before = out@;
        if let Child::Leaf(l) = &ch[i] {
            if let Some(name) = get_setting_from_string(l.key.as_str(), "single_alias") {
                let p = DefPosition {
                    kind: CwtDefKind::SingleAlias,
                    name,
                    file: path.to_owned(),
                    line: l.pos.start.line,
                    col: l.pos.start.col,
                };
                out.push(p);
                proof {
                    lemma_views_push(before, p);
                }
            }
        }
        assert(views(out@) =~= start + single_alias_positions(path@, ch@, i + 1));
        i += 1;
    }
}

/// The first of `s[i..]` that defines the single alias `name`.
pub open spec fn find_position(s: Seq<DefPositionV>, name: Seq<char>, i: int) -> Option<
    DefPositionV,
>
    decreases s.len() - i,
{
    if i < 0 || i >= s.len() {
        None
    } else if s[i].kind == CwtDefKind::SingleAlias && s[i].name == name {
        Some(s[i])
    } else {
        find_position(s, name, i + 1)
    }
}

/// An alias that was not expanded, reported where it is defined, or else on the
/// directory.
pub open spec fn placed_error(
    dir: Seq<char>,
    positions: Seq<DefPositionV>,
    e: ExpansionErrorV,
) -> ParseErrorV {
    match find_position(positions, e.name, 0) {
        Some(p) => ParseErrorV { file: p.file, line: p.line, col: p.col, message: e.message },
        None => ParseErrorV { file: dir, line: 1, col: 0, message: e.message },
    }
}

/// An alias that was not expanded, reported where it is defined.
pub fn alias_expansion_error(
    dir: &str,
    positions: &Vec<DefPosition>,
    error: &AliasExpansionError,
) -> (r: RuleParseError)
    ensures
        r@ == placed_error(dir@, views(positions@), error@),
{
    let mut i: usize = 0;
    while i < positions.len()
        invariant
            i <= positions@.len(),
            find_position(views(positions@), error@.name, 0) == find_position(
                views(positions@),
                error@.name,
                i as int,
            ),
        decreases positions@.len() - i,
    {
        assert(views(positions@)[i as int] == positions@[i as int]@);
        if positions[i].kind == CwtDefKind::SingleAlias && same(
            positions[i].name.as_str(),
            error.name.as_str(),
        ) {
            return RuleParseError {
                file: positions[i].file.clone(),
                line: positions[i].line,
                col: positions[i].col,
                message: error.message.clone(),
            };
        }
        i += 1;
    }
    RuleParseError { file: dir.to_owned(), line: 1, col: 0, message: error.message.clone() }
}

/// The error for a directory that cannot be read.
pub fn directory_read_error(dir: &str, error: &str) -> (r: RuleParseError)
    ensures
        r@ == (ParseErrorV {
            file: dir@,
            line: 1,
            col: 0,
            message: "read directory error: "@ + error@,
        }),
{
    let mut message = "read directory error: ".to_owned();
    message.append(error);
    RuleParseError { file: dir.to_owned(), line: 1, col: 0, message }
}

// ---------------------------------------------------------------------------
// Loading

/// A file of a configuration, as it was read.
pub enum LoadedFile {
    /// A parsed script, and its size in bytes.
    Rules { path: String, size: u64, ast: ParsedFile },
    /// A list of folders, and its size in bytes.
    Folders { path: String, size: u64, text: String },
    /// A file that could not be read, and why.
    Unreadable { path: String, message: String },
}

impl LoadedFile {
    pub open spec fn bytes(self) -> u64 {
        match self {
            LoadedFile::Rules { size, .. } => size,
            LoadedFile::Folders { size, .. } => size,
            LoadedFile::Unreadable { .. } => 0,
        }
    }

    pub open spec fn name(self) -> Seq<char> {
        match self {
            LoadedFile::Rules { path, .. } => path@,
            LoadedFile::Folders { path, .. } => path@,
            LoadedFile::Unreadable { path, .. } => path@,
        }
    }
}

/// The bytes of the first `n` files that were taken: a file that does not fit in
/// what is left of `max` is not.
pub open spec fn bytes_taken(files: Seq<LoadedFile>, n: int, max: u64) -> int
    decreases n,
{
    if n <= 0 {
        0
    } else {
        let used = bytes_taken(files, n - 1, max);
        if used + files[n - 1].bytes() <= max {
            used + files[n - 1].bytes()
        } else {
            used
        }
    }
}

/// File `i` fits in what the files before it leave of `max` bytes.
pub open spec fn fits(files: Seq<LoadedFile>, i: int, max: u64) -> bool {
    bytes_taken(files, i, max) + files[i].bytes() <= max
}

/// The rule set that the first `n` files hold together.
pub open spec fn files_ruleset(files: Seq<LoadedFile>, n: int, max: u64) -> RuleSetV
    decreases n,
{
    if n <= 0 {
        empty_ruleset()
    } else {
        let rs = files_ruleset(files, n - 1, max);
        if !fits(files, n - 1, max) {
            rs
        } else {
            match files[n - 1] {
                LoadedFile::Rules { ast, .. } => merged(rs, raw_ruleset_of(ast)),
                LoadedFile::Folders { text, .. } => RuleSetV {
                    folders: rs.folders + folders_of(text@),
                    ..rs
                },
                LoadedFile::Unreadable { .. } => rs,
            }
        }
    }
}

/// The errors of reading the first `n` files.
pub open spec fn read_errors(files: Seq<LoadedFile>, n: int, max: u64) -> Seq<ParseErrorV>
    decreases n,
{
    if n <= 0 {
        Seq::empty()
    } else {
        let head = read_errors(files, n - 1, max);
        match files[n - 1] {
            LoadedFile::Unreadable { path, message } => head.push(
                ParseErrorV { file: path@, line: 1, col: 0, message: "read error: "@ + message@ },
            ),
            f => if fits(files, n - 1, max) {
                head
            } else {
                head.push(
                    ParseErrorV {
                        file: f.name(),
                        line: 1,
                        col: 0,
                        message: "scan byte budget exceeded"@,
                    },
                )
            },
        }
    }
}

/// Where the first `n` files define single aliases.
pub open spec fn files_positions(files: Seq<LoadedFile>, n: int, max: u64) -> Seq<DefPositionV>
    decreases n,
{
    if n <= 0 {
        Seq::empty()
    } else {
        let head = files_positions(files, n - 1, max);
        match files[n - 1] {
            LoadedFile::Rules { path, ast, .. } => if fits(files, n - 1, max) {
                head + single_alias_positions(
                    path@,
                    ast.root_children@,
                    ast.root_children@.len() as int,
                )
            } else {
                head
            },
            _ => head,
        }
    }
}

/// The references in the first `n` files to something that `rs` does not define.
pub open spec fn dangling_references(
    files: Seq<LoadedFile>,
    n: int,
    max: u64,
    rs: RuleSetV,
) -> Seq<ParseErrorV>
    decreases n,
{
    if n <= 0 {
        Seq::empty()
    } else {
        let head = dangling_references(files, n - 1, max, rs);
        match files[n - 1] {
            LoadedFile::Rules { path, ast, .. } => if fits(files, n - 1, max) {
                head + children_problems(
                    ast.root_children@,
                    ast.root_children@.len() as int,
                    rs,
                    path@,
                )
            } else {
                head
            },
            _ => head,
        }
    }
}

/// The first `n` of the aliases that were not expanded, each reported in its place.
pub open spec fn placed_errors(
    dir: Seq<char>,
    positions: Seq<DefPositionV>,
    refused: Seq<ExpansionErrorV>,
    n: int,
) -> Seq<ParseErrorV>
    decreases n,
{
    if n <= 0 {
        Seq::empty()
    } else {
        placed_errors(dir, positions, refused, n - 1).push(
            placed_error(dir, positions, refused[n - 1]),
        )
    }
}

/// The rule set of a configuration: that of its files, post-processed and indexed.
pub open spec fn loaded_ruleset(files: Seq<LoadedFile>, max: u64) -> RuleSetV {
    reindexed(post_processed(files_ruleset(files, files.len() as int, max)))
}

/// The errors of loading a configuration: of reading its files, of expanding its
/// single aliases, and its dangling references.
pub open spec fn loading_errors(files: Seq<LoadedFile>, dir: Seq<char>, max: u64) -> Seq<
    ParseErrorV,
> {
    let n = files.len() as int;
    let raw = files_ruleset(files, n, max);
    let processed = post_processed(raw);
    let refused = expansion_refusals(raw);
    read_errors(files, n, max) + placed_errors(
        dir,
        files_positions(files, n, max),
        refused,
        refused.len() as int,
    ) + dangling_references(files, n, max, reindexed(processed))
}

/// Loads a configuration from its files, of which it takes at most `max_bytes`.
/// No error stops the loading.
pub fn load_ruleset(files: &Vec<LoadedFile>, dir: &str, max_bytes: u64) -> (r: (
    RuleSet,
    Vec<RuleParseError>,
))
    ensures
        r.0@ == loaded_ruleset(files@, max_bytes),
        views(r.1@) == loading_errors(files@, dir@, max_bytes),
{
    let mut combined = RuleSet::new();
    let mut errors: Vec<RuleParseError> = Vec::new();
    let mut positions: Vec<DefPosition> = Vec::new();
    let mut taken: Vec<bool> = Vec::new();
    let mut used: u64 = 0;
    let mut i: usize = 0;
    assert(views(errors@) =~= Seq::empty());
    assert(views(positions@) =~= Seq::empty());
    while i < files.len()
        invariant
            i <= files@.len(),
            used == bytes_taken(files@, i as int, max_bytes),
            used <= max_bytes,
            taken@.len() == i,
            forall|j: int| 0 <= j < i ==> #[trigger] taken@[j] == fits(files@, j, max_bytes),
            combined@ == files_ruleset(files@, i as int, max_bytes),
            views(errors@) == read_errors(files@, i as int, max_bytes),
            views(positions@) == files_positions(files@, i as int, max_bytes),
        decreases files@.len() - i,
    {
        let ghost before = errors@;
        let ghost rs = combined@;
        let size: u64 = match &files[i] {
            LoadedFile::Rules { size, .. } => *size,
            LoadedFile::Folders { size, .. } => *size,
            LoadedFile::Unreadable { .. } => 0,
        };
        let ok = size <= max_bytes - used;
        taken.push(ok);
        if ok {
            used = used + size;
        }
        match &files[i] {
            LoadedFile::Unreadable { path, message } => {
                let mut m = "read error: ".to_owned();
                m.append(message.as_str());
                let e = RuleParseError { file: path.clone(), line: 1, col: 0, message: m };
                errors.push(e);
                proof {
                    lemma_views_push(before, e);
                }
            },
            LoadedFile::Rules { path, ast, .. } => {
                if ok {
                    merge_ruleset(&mut combined, ast_to_ruleset_raw(ast));
                    collect_definition_positions(path.as_str(), ast, &mut positions);
                } else {
                    let e = RuleParseError {
                        file: path.clone(),
                        line: 1,
                        col: 0,
                        message: "scan byte budget exceeded".to_owned(),
                    };
                    errors.push(e);
                    proof {
                        lemma_views_push(before, e);
                    }
                }
            },
            LoadedFile::Folders { path, text, .. } => {
                if ok {
                    append_texts(&mut combined.folders, parse_folders_list(text.as_str()));
                    assert(combined@ =~= (RuleSetV {
                        folders: rs.folders + folders_of(text@),
                        ..rs
                    }));
                } else {
                    let e = RuleParseError {
                        file: path.clone(),
                        line: 1,
                        col: 0,
                        message: "scan byte budget exceeded".to_owned(),
                    };
                    errors.push(e);
                    proof {
                        lemma_views_push(before, e);
                    }
                }
            },
        }
        i += 1;
    }
    let refused = post_process(&mut combined);
    let ghost reads = views(errors@);
    let ghost places = views(positions@);
    i = 0;
    assert(views(errors@) =~= reads + placed_errors(dir@, places, views(refused@), 0));
    while i < refused.len()
        invariant
            i <= refused@.len(),
            places == views(positions@),
            views(errors@) == reads + placed_errors(dir@, places, views(refused@), i as int),
        decreases refused@.len() - i,
    {
        let ghost before = errors@;
        assert(views(refused@)[i as int] == refused@[i as int]@);
        let e = alias_expansion_error(dir, &positions, &refused[i]);
        errors.push(e);
        proof {
            lemma_views_push(before, e);
            assert(views(errors@) =~= reads + placed_errors(
                dir@,
                places,
                views(refused@),
                i + 1,
            ));
        }
        i += 1;
    }
    combined.reindex();
    let ghost so_far = views(errors@);
    i = 0;
    assert(views(errors@) =~= so_far + dangling_references(files@, 0, max_bytes, combined@));
    while i < files.len()
        invariant
            i <= files@.len() == taken@.len(),
            forall|j: int|
                0 <= j < files@.len() ==> #[trigger] taken@[j] == fits(files@, j, max_bytes),
            views(errors@) == so_far + dangling_references(
                files@,
                i as int,
                max_bytes,
                combined@,
            ),
        decreases files@.len() - i,
    {
        if let LoadedFile::Rules { path, ast, .. } = &files[i] {
            if taken[i] {
                check_children(&ast.root_children, &combined, path.as_str(), &mut errors);
            }
        }
        assert(views(errors@) =~= so_far + dangling_references(
            files@,
            i + 1,
            max_bytes,
            combined@,
        ));
        i += 1;
    }
    (combined, errors)
}

} // verus!
