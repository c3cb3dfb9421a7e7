//! Reading the comments in front of a rule: its options, its documentation, and
//! the other directives that they hold.

use vstd::prelude::*;
use vstd::string::*;

use crate::rules_types::{
    Options, OptionsV, ReferenceDetail, ReferenceDetailV, ReplaceScopes, ReplaceScopesV, Severity,
    filter_view, opt_view,
};
use crate::text::{
    CharSet, contains, contains_char, contains_text, ends_char, ends_with_char, find_char, find_in,
    find_text, find_text_spec, join, join_spec, lemma_find_in, opt_text, parse_i32,
    parse_int_within, same, split_once, split_once_spec, split_once_text, split_once_text_spec,
    split_whitespace, starts, starts_char, starts_with, starts_with_char, strip_prefix,
    strip_start, texts, trim, trim_matches, trim_of, trim_start, trim_start_of, trimmed, words,
};

verus! {

// ---------------------------------------------------------------------------
// Lines and values

/// The first of `comments[i..]` that contains `word`.
pub open spec fn first_with(comments: Seq<Seq<char>>, word: Seq<char>, i: int) -> Option<Seq<char>>
    decreases comments.len() - i,
{
    if i < 0 || i >= comments.len() {
        None
    } else if contains_text(comments[i], word) {
        Some(comments[i])
    } else {
        first_with(comments, word, i + 1)
    }
}

/// The text behind the first `=` of a line, without white space around it.
pub open spec fn after_equals(line: Seq<char>) -> Option<Seq<char>> {
    match split_once_spec(line, '=') {
        Some((_, b)) => Some(trimmed(b)),
        None => None,
    }
}

/// The value that the first line with `word` in it gives.
pub open spec fn directive(comments: Seq<Seq<char>>, word: Seq<char>) -> Option<Seq<char>> {
    match first_with(comments, word, 0) {
        Some(line) => after_equals(line),
        None => None,
    }
}

pub open spec fn non_empty(o: Option<Seq<char>>) -> Option<Seq<char>> {
    match o {
        Some(s) => if s.len() > 0 {
            Some(s)
        } else {
            None
        },
        None => None,
    }
}

/// Some comment contains `word`.
pub open spec fn mentions(comments: Seq<Seq<char>>, word: Seq<char>) -> bool {
    first_with(comments, word, 0) is Some
}

fn line_with<'a>(comments: &'a Vec<String>, word: &str) -> (r: Option<&'a str>)
    ensures
        match r {
            Some(s) => first_with(texts(comments@), word@, 0) == Some(s@),
            None => first_with(texts(comments@), word@, 0) is None,
        },
{
    let mut i: usize = 0;
    while i < comments.len()
        invariant
            i <= comments@.len(),
            first_with(texts(comments@), word@, 0) == first_with(
                texts(comments@),
                word@,
                i as int,
            ),
        decreases comments@.len() - i,
    {
        if contains(comments[i].as_str(), word) {
            return Some(comments[i].as_str());
        }
        i += 1;
    }
    None
}

fn value_of<'a>(line: &'a str) -> (r: Option<&'a str>)
    ensures
        match r {
            Some(s) => after_equals(line@) == Some(s@),
            None => after_equals(line@) is None,
        },
{
    match split_once(line, '=') {
        Some((_, b)) => Some(trim(b)),
        None => None,
    }
}

fn directive_value<'a>(comments: &'a Vec<String>, word: &str) -> (r: Option<&'a str>)
    ensures
        match r {
            Some(s) => directive(texts(comments@), word@) == Some(s@),
            None => directive(texts(comments@), word@) is None,
        },
{
    match line_with(comments, word) {
        Some(line) => value_of(line),
        None => None,
    }
}

fn keep_non_empty(o: Option<&str>) -> (r: Option<String>)
    ensures
        opt_text(r) == (match o {
            Some(s) => non_empty(Some(s@)),
            None => None,
        }),
{
    match o {
        Some(s) => if s.is_empty() {
            None
        } else {
            Some(s.to_owned())
        },
        None => None,
    }
}

/// Whether some comment contains `word`.
pub fn has_directive(comments: &Vec<String>, word: &str) -> (r: bool)
    ensures
        r == mentions(texts(comments@), word@),
{
    line_with(comments, word).is_some()
}

/// A text that may be a list in braces: the words in it, or the text alone.
pub open spec fn braced_list(rhs: Seq<char>) -> Seq<Seq<char>> {
    if starts_char(rhs, '{') && ends_char(rhs, '}') {
        words(trim_of(rhs, CharSet::Either('{', '}')))
    } else {
        seq![rhs]
    }
}

fn list_of_braces(rhs: &str) -> (r: Vec<String>)
    ensures
        texts(r@) == braced_list(rhs@),
{
    if starts_with_char(rhs, '{') && ends_with_char(rhs, '}') {
        split_whitespace(trim_matches(rhs, CharSet::Either('{', '}')))
    } else {
        let mut v: Vec<String> = Vec::new();
        v.push(rhs.to_owned());
        assert(texts(v@) =~= seq![rhs@]);
        v
    }
}

// ---------------------------------------------------------------------------
// Documentation

/// The documentation in the first `n` comments: the `###` lines, without their
/// `#`s and the white space around them. `##` lines are options and do not count.
pub open spec fn doc_lines(comments: Seq<Seq<char>>, n: int) -> Seq<Seq<char>>
    decreases n,
{
    if n <= 0 {
        Seq::empty()
    } else {
        let head = doc_lines(comments, n - 1);
        let c = comments[n - 1];
        if starts(c, "###"@) {
            head.push(trimmed(trim_of(c, CharSet::One('#'))))
        } else {
            head
        }
    }
}

/// The documentation in front of a rule, its lines joined.
pub open spec fn description_of(comments: Seq<Seq<char>>) -> Option<Seq<char>> {
    let lines = doc_lines(comments, comments.len() as int);
    if lines.len() == 0 {
        None
    } else {
        Some(join_spec(lines, "\n"@))
    }
}

/// The documentation in front of a rule.
pub fn extract_description_from_comments(comments: &Vec<String>) -> (r: Option<String>)
    ensures
        opt_text(r) == description_of(texts(comments@)),
{
    let mut lines: Vec<String> = Vec::new();
    let mut i: usize = 0;
    while i < comments.len()
        invariant
            i <= comments@.len(),
            texts(lines@) == doc_lines(texts(comments@), i as int),
        decreases comments@.len() - i,
    {
        let c = comments[i].as_str();
        if starts_with(c, "###") {
            let ghost before = texts(lines@);
            let line = trim(trim_matches(c, CharSet::One('#'))).to_owned();
            lines.push(line);
            assert(texts(lines@) =~= before.push(line@));
        }
        i += 1;
    }
    if lines.len() == 0 {
        None
    } else {
        Some(join(&lines, "\n"))
    }
}

// ---------------------------------------------------------------------------
// Replaced scopes

/// `list` with `v` at place `k`, padded with empty texts where it is too short.
pub open spec fn with_nth(list: Seq<Seq<char>>, k: int, v: Seq<char>) -> Seq<Seq<char>> {
    let n = if list.len() > k {
        list.len() as int
    } else {
        k + 1
    };
    Seq::new(
        n as nat,
        |i: int|
            if i == k {
                v
            } else if i < list.len() {
                list[i]
            } else {
                Seq::empty()
            },
    )
}

fn set_nth(list: &mut Vec<String>, k: usize, v: String)
    requires
        k < 4,
    ensures
        texts(final(list)@) == with_nth(texts(old(list)@), k as int, v@),
{
    let ghost start = texts(list@);
    while list.len() <= k
        invariant
            start.len() <= list@.len(),
            list@.len() <= k + 1 || list@.len() == start.len(),
            forall|i: int| 0 <= i < start.len() ==> list@[i]@ == #[trigger] start[i],
            forall|i: int| start.len() <= i < list@.len() ==> (#[trigger] list@[i])@ == Seq::<char>::empty(),
        decreases k + 1 - list@.len(),
    {
        list.push(String::new());
    }
    list.set(k, v);
    assert(texts(list@) =~= with_nth(start, k as int, v@));
}

/// The scopes with `value` put in where `key` says.
pub open spec fn with_scope(r: ReplaceScopesV, key: Seq<char>, value: Seq<char>) -> ReplaceScopesV {
    if key == "this"@ {
        ReplaceScopesV { this: Some(value), ..r }
    } else if key == "root"@ {
        ReplaceScopesV { root: Some(value), ..r }
    } else if key == "from"@ {
        ReplaceScopesV { froms: with_nth(r.froms, 0, value), ..r }
    } else if key == "fromfrom"@ {
        ReplaceScopesV { froms: with_nth(r.froms, 1, value), ..r }
    } else if key == "fromfromfrom"@ {
        ReplaceScopesV { froms: with_nth(r.froms, 2, value), ..r }
    } else if key == "fromfromfromfrom"@ {
        ReplaceScopesV { froms: with_nth(r.froms, 3, value), ..r }
    } else if key == "prev"@ {
        ReplaceScopesV { prevs: with_nth(r.prevs, 0, value), ..r }
    } else if key == "prevprev"@ {
        ReplaceScopesV { prevs: with_nth(r.prevs, 1, value), ..r }
    } else if key == "prevprevprev"@ {
        ReplaceScopesV { prevs: with_nth(r.prevs, 2, value), ..r }
    } else if key == "prevprevprevprev"@ {
        ReplaceScopesV { prevs: with_nth(r.prevs, 3, value), ..r }
    } else {
        r
    }
}

/// The scopes that `key = value` triples in `tokens[i..]` put in; a token that
/// starts no such triple is passed over.
pub open spec fn scope_pairs(tokens: Seq<Seq<char>>, i: int, r: ReplaceScopesV) -> ReplaceScopesV
    decreases tokens.len() - i,
{
    if i < 0 || i + 2 >= tokens.len() {
        r
    } else if tokens[i + 1] == "="@ {
        scope_pairs(tokens, i + 3, with_scope(r, tokens[i], tokens[i + 2]))
    } else {
        scope_pairs(tokens, i + 1, r)
    }
}

pub open spec fn no_scopes() -> ReplaceScopesV {
    ReplaceScopesV { root: None, this: None, froms: Seq::empty(), prevs: Seq::empty() }
}

/// The text of the pairs that a `replace_scope` line gives: what stands in its
/// braces, or all that stands behind its `=`.
pub open spec fn scope_pairs_text(line: Seq<char>) -> Option<Seq<char>> {
    let content = trimmed(trim_start_of(line, CharSet::One('#')));
    let start = match find_text_spec(content, "replace_scope"@) {
        Some(i) => i,
        None => 0,
    };
    match after_equals(content.subrange(start, content.len() as int)) {
        None => None,
        Some(rhs) => if starts_char(rhs, '{') {
            let close = find_in(rhs, CharSet::One('}'), 0);
            if close < rhs.len() {
                Some(rhs.subrange(1, close))
            } else {
                None
            }
        } else {
            Some(rhs)
        },
    }
}

/// The scopes that the first `replace_scope` line gives; none where it gives
/// none.
pub open spec fn replace_scopes_of(comments: Seq<Seq<char>>) -> Option<ReplaceScopesV> {
    match first_with(comments, "replace_scope"@, 0) {
        None => None,
        Some(line) => match scope_pairs_text(line) {
            None => None,
            Some(pairs) => {
                let r = scope_pairs(words(pairs), 0, no_scopes());
                if r.root is None && r.this is None && r.froms.len() == 0 && r.prevs.len() == 0 {
                    None
                } else {
                    Some(r)
                }
            },
        },
    }
}

fn pairs_text<'a>(line: &'a str) -> (r: Option<&'a str>)
    ensures
        match r {
            Some(s) => scope_pairs_text(line@) == Some(s@),
            None => scope_pairs_text(line@) is None,
        },
{
    let content = trim(trim_start(line, CharSet::One('#')));
    let n: usize = content.unicode_len();
    let start: usize = match find_text(content, "replace_scope") {
        Some(i) => i,
        None => 0,
    };
    match value_of(content.substring_char(start, n)) {
        None => None,
        Some(rhs) => if starts_with_char(rhs, '{') {
            match find_char(rhs, '}') {
                Some(close) => {
                    proof {
                        lemma_find_in(rhs@, CharSet::One('}'), 0);
                        assert(rhs@[0] == '{');
                    }
                    Some(rhs.substring_char(1, close))
                },
                None => None,
            }
        } else {
            Some(rhs)
        },
    }
}

fn put_scope(r: &mut ReplaceScopes, key: &str, value: String)
    ensures
        final(r)@ == with_scope(old(r)@, key@, value@),
{
    if same(key, "this") {
        r.this = Some(value);
    } else if same(key, "root") {
        r.root = Some(value);
    } else if same(key, "from") {
        set_nth(&mut r.froms, 0, value);
    } else if same(key, "fromfrom") {
        set_nth(&mut r.froms, 1, value);
    } else if same(key, "fromfromfrom") {
        set_nth(&mut r.froms, 2, value);
    } else if same(key, "fromfromfromfrom") {
        set_nth(&mut r.froms, 3, value);
    } else if same(key, "prev") {
        set_nth(&mut r.prevs, 0, value);
    } else if same(key, "prevprev") {
        set_nth(&mut r.prevs, 1, value);
    } else if same(key, "prevprevprev") {
        set_nth(&mut r.prevs, 2, value);
    } else if same(key, "prevprevprevprev") {
        set_nth(&mut r.prevs, 3, value);
    }
}

/// The scopes that the first `replace_scope` line gives.
pub fn parse_replace_scopes_from_comments(comments: &Vec<String>) -> (r: Option<ReplaceScopes>)
    ensures
        opt_view(r) == replace_scopes_of(texts(comments@)),
{
    let line = match line_with(comments, "replace_scope") {
        Some(l) => l,
        None => {
            return None;
        },
    };
    let pairs = match pairs_text(line) {
        Some(p) => p,
        None => {
            return None;
        },
    };
    let tokens = split_whitespace(pairs);
    let mut r = ReplaceScopes { root: None, this: None, froms: Vec::new(), prevs: Vec::new() };
    assert(r@ =~= no_scopes());
    let mut i: usize = 0;
    let n: usize = tokens.len();
    while i < n && n - i > 2
        invariant
            i <= n == tokens@.len(),
            scope_pairs(texts(tokens@), i as int, r@) == scope_pairs(
                texts(tokens@),
                0,
                no_scopes(),
            ),
        decreases n - i,
    {
        if same(tokens[i + 1].as_str(), "=") {
            put_scope(&mut r, tokens[i].as_str(), tokens[i + 2].clone());
            i += 3;
        } else {
            i += 1;
        }
    }
    if r.root.is_none() && r.this.is_none() && r.froms.len() == 0 && r.prevs.len() == 0 {
        None
    } else {
        Some(r)
    }
}

// ---------------------------------------------------------------------------
// Required scopes

/// The scopes that a `scope = ...` line gives.
pub open spec fn scope_line(c: Seq<char>) -> Option<Seq<Seq<char>>> {
    match strip_start(trimmed(trim_start_of(c, CharSet::One('#'))), "scope"@) {
        None => None,
        Some(rest) => match strip_start(trim_start_of(rest, CharSet::White), "="@) {
            None => None,
            Some(r) => {
                let rhs = trimmed(r);
                if starts_char(rhs, '{') && ends_char(rhs, '}') {
                    Some(words(rhs.subrange(1, rhs.len() - 1)))
                } else if rhs.len() > 0 {
                    Some(seq![rhs])
                } else {
                    None
                }
            },
        },
    }
}

/// The scopes that the last `scope` line of the first `n` comments gives: the
/// line closest to the rule counts.
pub open spec fn required_scopes_of(comments: Seq<Seq<char>>, n: int) -> Seq<Seq<char>>
    decreases n,
{
    if n <= 0 {
        Seq::empty()
    } else {
        match scope_line(comments[n - 1]) {
            Some(list) => list,
            None => required_scopes_of(comments, n - 1),
        }
    }
}

fn scopes_of_line(c: &str) -> (r: Option<Vec<String>>)
    ensures
        match r {
            Some(v) => scope_line(c@) == Some(texts(v@)),
            None => scope_line(c@) is None,
        },
{
    match strip_prefix(trim(trim_start(c, CharSet::One('#'))), "scope") {
        None => None,
        Some(rest) => match strip_prefix(trim_start(rest, CharSet::White), "=") {
            None => None,
            Some(r) => {
                let rhs = trim(r);
                let n: usize = rhs.unicode_len();
                if starts_with_char(rhs, '{') && ends_with_char(rhs, '}') {
                    Some(split_whitespace(rhs.substring_char(1, n - 1)))
                } else if n > 0 {
                    let mut v: Vec<String> = Vec::new();
                    v.push(rhs.to_owned());
                    assert(texts(v@) =~= seq![rhs@]);
                    Some(v)
                } else {
                    None
                }
            },
        },
    }
}

/// The scopes that the comments ask for.
pub fn parse_required_scopes(comments: &Vec<String>) -> (r: Vec<String>)
    ensures
        texts(r@) == required_scopes_of(texts(comments@), comments@.len() as int),
{
    let mut i: usize = comments.len();
    while i > 0
        invariant
            i <= comments@.len(),
            required_scopes_of(texts(comments@), comments@.len() as int) == required_scopes_of(
                texts(comments@),
                i as int,
            ),
        decreases i,
    {
        match scopes_of_line(comments[i - 1].as_str()) {
            Some(v) => {
                return v;
            },
            None => {},
        }
        i -= 1;
    }
    let v: Vec<String> = Vec::new();
    assert(texts(v@) =~= Seq::empty());
    v
}

// ---------------------------------------------------------------------------
// Options

pub open spec fn int_or_one(s: Seq<char>) -> i32 {
    match parse_int_within(s, true, i32::MIN as int, i32::MAX as int) {
        Some(v) => v as i32,
        None => 1,
    }
}

/// The cardinality that `min..max` gives: a `~` in front makes the minimum soft,
/// `inf` stands for the largest maximum, and a number that cannot be read is 1.
pub open spec fn cardinality_of_range(spec: Seq<char>) -> (i32, i32, bool) {
    match split_once_text_spec(spec, ".."@) {
        None => (1, 1, true),
        Some((a, b)) => {
            let lo = trimmed(a);
            let hi = trimmed(b);
            let soft = starts_char(lo, '~');
            let min = if soft {
                int_or_one(lo.subrange(1, lo.len() as int))
            } else {
                int_or_one(lo)
            };
            let max = if hi == "inf"@ {
                i32::MAX
            } else {
                int_or_one(hi)
            };
            (min, max, !soft)
        },
    }
}

/// The cardinality that the comments give; exactly one where they give none.
pub open spec fn cardinality_of(comments: Seq<Seq<char>>) -> (i32, i32, bool) {
    match directive(comments, "cardinality"@) {
        Some(spec) => cardinality_of_range(spec),
        None => (1, 1, true),
    }
}

pub open spec fn severity_of(comments: Seq<Seq<char>>) -> Option<Severity> {
    match directive(comments, "severity"@) {
        Some(s) => if s == "error"@ {
            Some(Severity::Error)
        } else if s == "warning"@ {
            Some(Severity::Warning)
        } else if s == "info"@ || s == "information"@ {
            Some(Severity::Information)
        } else if s == "hint"@ {
            Some(Severity::Hint)
        } else {
            None
        },
        None => None,
    }
}

pub open spec fn reference_of(comments: Seq<Seq<char>>) -> Option<ReferenceDetailV> {
    if mentions(comments, "outgoingReferenceLabel"@) {
        match directive(comments, "outgoingReferenceLabel"@) {
            Some(s) => Some(ReferenceDetailV::Outgoing(s)),
            None => None,
        }
    } else {
        match directive(comments, "incomingReferenceLabel"@) {
            Some(s) => Some(ReferenceDetailV::Incoming(s)),
            None => None,
        }
    }
}

pub open spec fn default_bool_of(comments: Seq<Seq<char>>) -> Option<bool> {
    match directive(comments, "default_bool"@) {
        Some(s) => if s == "yes"@ {
            Some(true)
        } else if s == "no"@ {
            Some(false)
        } else {
            None
        },
        None => None,
    }
}

/// The options that the comments in front of a rule give.
pub open spec fn options_of(comments: Seq<Seq<char>>, is_comparison: bool) -> OptionsV {
    let card = cardinality_of(comments);
    OptionsV {
        min: card.0,
        max: card.1,
        strict_min: card.2,
        leafvalue: false,
        description: description_of(comments),
        push_scope: non_empty(directive(comments, "push_scope"@)),
        replace_scopes: replace_scopes_of(comments),
        severity: severity_of(comments),
        required_scopes: required_scopes_of(comments, comments.len() as int),
        comparison: is_comparison,
        reference_details: reference_of(comments),
        error_if_only_match: non_empty(directive(comments, "error_if_only_match"@)),
        default_bool: default_bool_of(comments),
    }
}

fn read_int_or_one(s: &str) -> (r: i32)
    ensures
        r == int_or_one(s@),
{
    match parse_i32(s) {
        Some(v) => v,
        None => 1,
    }
}

fn parse_cardinality(comments: &Vec<String>) -> (r: (i32, i32, bool))
    ensures
        r == cardinality_of(texts(comments@)),
{
    match directive_value(comments, "cardinality") {
        None => (1, 1, true),
        Some(spec) => match split_once_text(spec, "..") {
            None => (1, 1, true),
            Some((a, b)) => {
                let lo = trim(a);
                let hi = trim(b);
                let n: usize = lo.unicode_len();
                let soft = starts_with_char(lo, '~');
                let min: i32 = if soft {
                    read_int_or_one(lo.substring_char(1, n))
                } else {
                    read_int_or_one(lo)
                };
                let max: i32 = if same(hi, "inf") {
                    i32::MAX
                } else {
                    read_int_or_one(hi)
                };
                (min, max, !soft)
            },
        },
    }
}

fn parse_severity(comments: &Vec<String>) -> (r: Option<Severity>)
    ensures
        r == severity_of(texts(comments@)),
{
    match directive_value(comments, "severity") {
        Some(s) => if same(s, "error") {
            Some(Severity::Error)
        } else if same(s, "warning") {
            Some(Severity::Warning)
        } else if same(s, "info") || same(s, "information") {
            Some(Severity::Information)
        } else if same(s, "hint") {
            Some(Severity::Hint)
        } else {
            None
        },
        None => None,
    }
}

fn parse_reference(comments: &Vec<String>) -> (r: Option<ReferenceDetail>)
    ensures
        opt_view(r) == reference_of(texts(comments@)),
{
    if has_directive(comments, "outgoingReferenceLabel") {
        match directive_value(comments, "outgoingReferenceLabel") {
            Some(s) => Some(ReferenceDetail::Outgoing(s.to_owned())),
            None => None,
        }
    } else {
        match directive_value(comments, "incomingReferenceLabel") {
            Some(s) => Some(ReferenceDetail::Incoming(s.to_owned())),
            None => None,
        }
    }
}

fn parse_default_bool(comments: &Vec<String>) -> (r: Option<bool>)
    ensures
        r == default_bool_of(texts(comments@)),
{
    match directive_value(comments, "default_bool") {
        Some(s) => if same(s, "yes") {
            Some(true)
        } else if same(s, "no") {
            Some(false)
        } else {
            None
        },
        None => None,
    }
}

/// The options that the comments in front of a rule give.
pub fn options_from_comments(comments: &Vec<String>, is_comparison: bool) -> (r: Options)
    ensures
        r@ == options_of(texts(comments@), is_comparison),
{
    let card = parse_cardinality(comments);
    Options {
        min: card.0,
        max: card.1,
        strict_min: card.2,
        leafvalue: false,
        description: extract_description_from_comments(comments),
        push_scope: keep_non_empty(directive_value(comments, "push_scope")),
        replace_scopes: parse_replace_scopes_from_comments(comments),
        severity: parse_severity(comments),
        required_scopes: parse_required_scopes(comments),
        comparison: is_comparison,
        reference_details: parse_reference(comments),
        error_if_only_match: keep_non_empty(directive_value(comments, "error_if_only_match")),
        default_bool: parse_default_bool(comments),
    }
}

// ---------------------------------------------------------------------------
// Directives of types and subtypes

/// The first of `comments[i..]` that contains `key` and a `=`.
pub open spec fn first_assignment(comments: Seq<Seq<char>>, key: Seq<char>, i: int) -> Option<
    Seq<char>,
>
    decreases comments.len() - i,
{
    if i < 0 || i >= comments.len() {
        None
    } else if contains_text(comments[i], key) && comments[i].contains('=') {
        Some(comments[i])
    } else {
        first_assignment(comments, key, i + 1)
    }
}

/// The value, if it is not empty, that the first line with `key` and a `=` gives.
pub open spec fn comment_value(comments: Seq<Seq<char>>, key: Seq<char>) -> Option<Seq<char>> {
    match first_assignment(comments, key, 0) {
        Some(line) => non_empty(after_equals(line)),
        None => None,
    }
}

/// The value that the first line with `key` and a `=` gives.
pub fn extract_comment_value(comments: &Vec<String>, key: &str) -> (r: Option<String>)
    ensures
        opt_text(r) == comment_value(texts(comments@), key@),
{
    let mut i: usize = 0;
    while i < comments.len()
        invariant
            i <= comments@.len(),
            first_assignment(texts(comments@), key@, 0) == first_assignment(
                texts(comments@),
                key@,
                i as int,
            ),
        decreases comments@.len() - i,
    {
        if contains(comments[i].as_str(), key) && contains_char(comments[i].as_str(), '=') {
            return keep_non_empty(value_of(comments[i].as_str()));
        }
        i += 1;
    }
    None
}

/// The subtypes that must not hold beside this one.
pub open spec fn only_if_not_of(comments: Seq<Seq<char>>) -> Seq<Seq<char>> {
    match directive(comments, "only_if_not"@) {
        Some(rhs) => braced_list(rhs),
        None => Seq::empty(),
    }
}

/// The subtypes that must not hold beside this one.
pub fn parse_only_if_not_from_comments(comments: &Vec<String>) -> (r: Vec<String>)
    ensures
        texts(r@) == only_if_not_of(texts(comments@)),
{
    match directive_value(comments, "only_if_not") {
        Some(rhs) => list_of_braces(rhs),
        None => {
            let v: Vec<String> = Vec::new();
            assert(texts(v@) =~= Seq::empty());
            v
        },
    }
}

/// The types that the comments relate this one to.
pub open spec fn graph_related_of(comments: Seq<Seq<char>>) -> Seq<Seq<char>> {
    match directive(comments, "graph_related_types"@) {
        Some(rhs) => if rhs.len() > 0 {
            braced_list(rhs)
        } else {
            Seq::empty()
        },
        None => Seq::empty(),
    }
}

/// The types that the comments relate this one to.
pub fn parse_graph_related_types_from_comments(comments: &Vec<String>) -> (r: Vec<String>)
    ensures
        texts(r@) == graph_related_of(texts(comments@)),
{
    let v: Vec<String> = Vec::new();
    assert(texts(v@) =~= Seq::empty());
    match directive_value(comments, "graph_related_types") {
        Some(rhs) => if rhs.is_empty() {
            v
        } else {
            list_of_braces(rhs)
        },
        None => v,
    }
}

/// The filter that a line of exactly two `#`s gives: keys, and whether an
/// instance must not have one of them.
pub open spec fn key_filter_line(c: Seq<char>) -> Option<(Seq<Seq<char>>, bool)> {
    match strip_start(c, "##"@) {
        None => None,
        Some(rest) => if starts_char(rest, '#') {
            None
        } else {
            match strip_start(trim_start_of(rest, CharSet::White), "type_key_filter"@) {
                None => None,
                Some(tail) => {
                    let after = trim_start_of(tail, CharSet::White);
                    match strip_start(after, "<>"@) {
                        Some(r) => Some((braced_list(trimmed(r)), true)),
                        None => match strip_start(after, "="@) {
                            Some(r) => Some((braced_list(trimmed(r)), false)),
                            None => None,
                        },
                    }
                },
            }
        },
    }
}

/// The filter that the last such line of the first `n` comments gives.
pub open spec fn key_filter_of(comments: Seq<Seq<char>>, n: int) -> Option<(Seq<Seq<char>>, bool)>
    decreases n,
{
    if n <= 0 {
        None
    } else {
        match key_filter_line(comments[n - 1]) {
            Some(f) => Some(f),
            None => key_filter_of(comments, n - 1),
        }
    }
}

fn filter_of_line(c: &str) -> (r: Option<(Vec<String>, bool)>)
    ensures
        filter_view(r) == key_filter_line(c@),
{
    match strip_prefix(c, "##") {
        None => None,
        Some(rest) => if starts_with_char(rest, '#') {
            None
        } else {
            match strip_prefix(trim_start(rest, CharSet::White), "type_key_filter") {
                None => None,
                Some(tail) => {
                    let after = trim_start(tail, CharSet::White);
                    match strip_prefix(after, "<>") {
                        Some(r) => Some((list_of_braces(trim(r)), true)),
                        None => match strip_prefix(after, "=") {
                            Some(r) => Some((list_of_braces(trim(r)), false)),
                            None => None,
                        },
                    }
                },
            }
        },
    }
}

/// The filter on the keys of instances that the comments give.
pub fn parse_type_key_filter_from_comments(comments: &Vec<String>) -> (r: Option<
    (Vec<String>, bool),
>)
    ensures
        filter_view(r) == key_filter_of(texts(comments@), comments@.len() as int),
{
    let mut i: usize = comments.len();
    while i > 0
        invariant
            i <= comments@.len(),
            key_filter_of(texts(comments@), comments@.len() as int) == key_filter_of(
                texts(comments@),
                i as int,
            ),
        decreases i,
    {
        match filter_of_line(comments[i - 1].as_str()) {
            Some(f) => {
                return Some(f);
            },
            None => {},
        }
        i -= 1;
    }
    None
}

} // verus!
