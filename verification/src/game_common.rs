//! Blocks, and the checks that every game shares.

use vstd::prelude::*;

use crate::ast::{Child, Leaf, ParsedFile, SourceRange, Value};
use crate::diagnostic::{
    ErrorV, ValidationError, add_one, coded, ending, key_range, key_token_range, report2,
};
use crate::error_codes::{cw261, cw261_duplicate_type_def};
use crate::name_counts::{NameCounts, count_in};
use crate::resolve::{find_type, type_named};
use crate::rules_types::views;
use crate::ruleset::{RuleSet, RuleSetV};
use crate::text::{
    CharSet, ascii_lower, contains_ci, eq_ci, lemma_skip_back, list_contains_ci, lowercase,
    replace_char, replace_char_spec, rfind_in, same_ci, split, split_spec, tail_after,
    to_lowercase,
};

verus! {

/// A `key = { ... }` block.
pub struct Block<'a> {
    pub key: &'a str,
    pub children: &'a Vec<Child>,
    pub range: SourceRange,
}

impl<'a> Block<'a> {
    /// The key in lower case: keys match whatever their case.
    pub fn key_string_lower(&self) -> (r: String)
        ensures
            r@ == lowercase(self.key@),
            vstd::utf8::is_ascii_chars(self.key@) ==> r@ == ascii_lower(self.key@),
    {
        to_lowercase(self.key)
    }
}

/// The block that a child is.
pub open spec fn block_of(c: Child) -> Option<(Leaf, Seq<Child>)> {
    match c {
        Child::Leaf(l) => match l.value {
            Value::Clause(inner) => Some((l, inner@)),
            _ => None,
        },
        _ => None,
    }
}

/// The block that a child is; none for a comment and for a child whose value is no
/// block.
pub fn as_block<'a>(child: &'a Child) -> (r: Option<Block<'a>>)
    ensures
        match r {
            Some(b) => block_of(*child) matches Some((l, inner)) && b.key@ == l.key@
                && b.children@ == inner && b.range == l.pos && decreases_to!(child => b.children),
            None => block_of(*child) is None,
        },
{
    match child {
        Child::Leaf(l) => match &l.value {
            Value::Clause(inner) => Some(
                Block { key: l.key.as_str(), children: inner, range: l.pos },
            ),
            _ => None,
        },
        _ => None,
    }
}

/// The child is a leaf of that key, whatever its case.
pub open spec fn is_key(c: Child, key: Seq<char>) -> bool {
    match c {
        Child::Leaf(l) => eq_ci(l.key@, key),
        _ => false,
    }
}

/// Whether the child is a leaf of that key, whatever its case.
pub fn child_key_eq(child: &Child, expected: &str) -> (r: bool)
    ensures
        r == is_key(*child, expected@),
{
    match child {
        Child::Leaf(l) => same_ci(l.key.as_str(), expected),
        _ => false,
    }
}

/// One of the children is a leaf of that key, whatever its case.
pub open spec fn any_key(ch: Seq<Child>, key: Seq<char>) -> bool {
    exists|i: int| 0 <= i < ch.len() && is_key(#[trigger] ch[i], key)
}

/// Whether one of the children is a leaf of that key, whatever its case.
#[verifier::loop_isolation(false)]
pub fn has_child(children: &Vec<Child>, key: &str) -> (r: bool)
    ensures
        r == any_key(children@, key@),
{
    let mut i: usize = 0;
    while i < children.len()
        invariant
            i <= children@.len(),
            forall|j: int| 0 <= j < i ==> !is_key(#[trigger] children@[j], key@),
        decreases children@.len() - i,
    {
        if child_key_eq(&children[i], key) {
            return true;
        }
        i += 1;
    }
    false
}

/// The child is a leaf that says no.
pub open spec fn says_no(c: Child) -> bool {
    match c {
        Child::Leaf(l) => match l.value {
            Value::Bool(b) => !b,
            Value::String(s) => eq_ci(s@, "no"@),
            Value::QString(s) => eq_ci(s@, "no"@),
            _ => false,
        },
        _ => false,
    }
}

/// One of the children is `always = no`.
pub open spec fn any_always_no(ch: Seq<Child>) -> bool {
    exists|i: int| 0 <= i < ch.len() && is_key(#[trigger] ch[i], "always"@) && says_no(ch[i])
}

/// The child is a block with `always = no` in it.
pub open spec fn is_always_no(c: Child) -> bool {
    match block_of(c) {
        Some((_, inner)) => any_always_no(inner),
        None => false,
    }
}

fn child_says_no(child: &Child) -> (r: bool)
    ensures
        r == says_no(*child),
{
    match child {
        Child::Leaf(l) => match &l.value {
            Value::Bool(b) => !*b,
            Value::String(s) => same_ci(s.as_str(), "no"),
            Value::QString(s) => same_ci(s.as_str(), "no"),
            _ => false,
        },
        _ => false,
    }
}

/// Whether the child is a block with `always = no` in it.
#[verifier::loop_isolation(false)]
pub fn child_is_always_no(child: &Child) -> (r: bool)
    ensures
        r == is_always_no(*child),
{
    match as_block(child) {
        Some(b) => {
            let mut i: usize = 0;
            while i < b.children.len()
                invariant
                    i <= b.children@.len(),
                    forall|j: int|
                        0 <= j < i ==> !(is_key(#[trigger] b.children@[j], "always"@) && says_no(
                            b.children@[j],
                        )),
                decreases b.children@.len() - i,
            {
                if child_key_eq(&b.children[i], "always") && child_says_no(&b.children[i]) {
                    return true;
                }
                i += 1;
            }
            false
        },
        None => false,
    }
}

/// Some directory in the path has that name, whatever its case.
pub open spec fn in_directory(path: Seq<char>, segment: Seq<char>) -> bool {
    let p = replace_char_spec(path, '\\', '/');
    let n = rfind_in(p, CharSet::One('/'), p.len() as int);
    n > 0 && contains_ci(split_spec(p.subrange(0, n - 1), CharSet::One('/')), segment)
}

/// Whether some directory in the path has that name, whatever its case.
pub fn under_dir_segment(file_path: &str, segment: &str) -> (r: bool)
    ensures
        r == in_directory(file_path@, segment@),
{
    let p = replace_char(file_path, '\\', '/');
    let tail = tail_after(p.as_str(), CharSet::One('/'));
    let len: usize = p.as_str().unicode_len();
    proof {
        lemma_skip_back(p@, CharSet::One('/'), p@.len() as int);
    }
    let n: usize = len - tail.unicode_len();
    if n == 0 {
        return false;
    }
    let dirs = split(p.as_str().substring_char(0, n - 1), CharSet::One('/'));
    list_contains_ci(&dirs, segment)
}

// ---------------------------------------------------------------------------
// Unique types

/// The number of those of the first `n` children that are leaves of exactly that key.
pub open spec fn exact_count(ch: Seq<Child>, key: Seq<char>, n: int) -> int
    decreases n,
{
    if n <= 0 || n > ch.len() {
        0
    } else {
        exact_count(ch, key, n - 1) + match ch[n - 1] {
            Child::Leaf(l) => if l.key@ == key {
                1int
            } else {
                0int
            },
            _ => 0int,
        }
    }
}

/// The type of that name may appear once.
pub open spec fn is_unique(rs: RuleSetV, key: Seq<char>) -> bool {
    match type_named(rs, key) {
        Some(t) => t.unique,
        None => false,
    }
}

/// A type that appears more than once although it may not: reported at the second
/// place alone.
pub open spec fn common_problems(rs: RuleSetV, file: Seq<char>, ch: Seq<Child>, n: int) -> Seq<
    ErrorV,
>
    decreases n,
{
    if n <= 0 || n > ch.len() {
        Seq::empty()
    } else {
        let before = common_problems(rs, file, ch, n - 1);
        match ch[n - 1] {
            Child::Leaf(l) => if is_unique(rs, l.key@) && exact_count(ch, l.key@, n) == 2 {
                before.push(
                    ending(
                        coded(
                            cw261(),
                            file,
                            l.pos.start.line,
                            l.pos.start.col,
                            seq![l.key@, l.key@],
                        ),
                        key_range(l.pos.start, l.key@.len() as int).end,
                    ),
                )
            } else {
                before
            },
            _ => before,
        }
    }
}

proof fn lemma_exact_count(ch: Seq<Child>, key: Seq<char>, n: int)
    requires
        0 <= n <= ch.len(),
    ensures
        0 <= exact_count(ch, key, n) <= n,
    decreases n,
{
    if n > 0 {
        lemma_exact_count(ch, key, n - 1);
    }
}

/// Reports the unique types that appear more than once in a file.
pub fn validate_common(
    ast: &ParsedFile,
    ruleset: &RuleSet,
    file_path: &str,
    errors: &mut Vec<ValidationError>,
)
    ensures
        views(final(errors)@) == views(old(errors)@) + common_problems(
            ruleset@,
            file_path@,
            ast.root_children@,
            ast.root_children@.len() as int,
        ),
{
    let ghost start = views(errors@);
    let ghost ch = ast.root_children@;
    let mut counts = NameCounts::new();
    let mut i: usize = 0;
    assert(views(errors@) =~= start + common_problems(ruleset@, file_path@, ch, 0));
    while i < ast.root_children.len()
        invariant
            i <= ch.len(),
            ch == ast.root_children@,
            views(errors@) == start + common_problems(ruleset@, file_path@, ch, i as int),
            forall|key: Seq<char>|
                #[trigger] count_in(counts@, key) == exact_count(ch, key, i as int),
        decreases ch.len() - i,
    {
        let ghost before = counts@;
        match &ast.root_children[i] {
            Child::Leaf(l) => {
                let key = l.key.as_str();
                let n: usize = counts.count(key);
                proof {
                    lemma_exact_count(ch, key@, i as int);
                    assert(count_in(counts@, key@) == exact_count(ch, key@, i as int));
                }
                counts.set(key.to_owned(), n + 1);
                let unique = match find_type(key, ruleset) {
                    Some(t) => t.unique,
                    None => false,
                };
                if unique && n + 1 == 2 {
                    let range = key_token_range(l.pos.start, key.unicode_len());
                    let e = report2(
                        &cw261_duplicate_type_def(),
                        file_path,
                        l.pos.start.line,
                        l.pos.start.col,
                        key,
                        key,
                    ).with_end(range.end);
                    add_one(errors, e);
                }
            },
            _ => {},
        }
        assert forall|k: Seq<char>| #[trigger] count_in(counts@, k) == exact_count(
            ch,
            k,
            i + 1,
        ) by {
            assert(count_in(before, k) == exact_count(ch, k, i as int));
        }
        assert(views(errors@) =~= start + common_problems(ruleset@, file_path@, ch, i + 1));
        i += 1;
    }
}

} // verus!
