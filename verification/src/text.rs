//! Text primitives: the character-level operations that the rule reader and the
//! validator are written with, each stated over the sequence of characters of a
//! string.

use vstd::prelude::*;
use vstd::string::*;

verus! {

// ---------------------------------------------------------------------------
// Characters

/// `c` with `A` to `Z` mapped to `a` to `z`.
pub open spec fn lower_char_spec(c: char) -> char {
    if 'A' <= c <= 'Z' {
        ((c as u32) + 32) as char
    } else {
        c
    }
}

/// ASCII lower case of one character.
pub fn lower_char(c: char) -> (r: char)
    ensures
        r == lower_char_spec(c),
{
    if 'A' <= c && c <= 'Z' {
        ((c as u8) + 32u8) as char
    } else {
        c
    }
}

/// The characters with the Unicode `White_Space` property.
pub open spec fn is_white(c: char) -> bool {
    let n: u32 = c as u32;
    ||| 0x9 <= n <= 0xd
    ||| n == 0x20
    ||| n == 0x85
    ||| n == 0xa0
    ||| n == 0x1680
    ||| 0x2000 <= n <= 0x200a
    ||| n == 0x2028
    ||| n == 0x2029
    ||| n == 0x202f
    ||| n == 0x205f
    ||| n == 0x3000
}

/// Whether `c` has the Unicode `White_Space` property.
pub fn char_is_white(c: char) -> (r: bool)
    ensures
        r == is_white(c),
{
    let n: u32 = c as u32;
    (0x9 <= n && n <= 0xd) || n == 0x20 || n == 0x85 || n == 0xa0 || n == 0x1680 || (0x2000 <= n
        && n <= 0x200a) || n == 0x2028 || n == 0x2029 || n == 0x202f || n == 0x205f || n == 0x3000
}

pub open spec fn is_digit(c: char) -> bool {
    '0' <= c <= '9'
}

pub open spec fn is_upper(c: char) -> bool {
    'A' <= c <= 'Z'
}

pub open spec fn is_hex_digit(c: char) -> bool {
    is_digit(c) || 'a' <= c <= 'f' || 'A' <= c <= 'F'
}

/// ASCII letters, digits and `_`.
pub open spec fn is_word_char(c: char) -> bool {
    is_digit(c) || 'a' <= c <= 'z' || is_upper(c) || c == '_'
}

/// A set of characters that a trimming or splitting operation works on.
#[derive(Clone, Copy)]
pub enum CharSet {
    /// White space.
    White,
    /// A single character.
    One(char),
    /// Either of two characters.
    Either(char, char),
    /// `{`, `}` and white space.
    BraceOrWhite,
    /// The digits `0` to `9`.
    Digit,
}

impl CharSet {
    pub open spec fn has(self, c: char) -> bool {
        match self {
            CharSet::White => is_white(c),
            CharSet::One(x) => c == x,
            CharSet::Either(x, y) => c == x || c == y,
            CharSet::BraceOrWhite => c == '{' || c == '}' || is_white(c),
            CharSet::Digit => is_digit(c),
        }
    }

    /// Whether `c` belongs to the set.
    pub fn contains(self, c: char) -> (r: bool)
        ensures
            r == self.has(c),
    {
        match self {
            CharSet::White => char_is_white(c),
            CharSet::One(x) => c == x,
            CharSet::Either(x, y) => c == x || c == y,
            CharSet::BraceOrWhite => c == '{' || c == '}' || char_is_white(c),
            CharSet::Digit => '0' <= c && c <= '9',
        }
    }
}

// ---------------------------------------------------------------------------
// Strings as character vectors

/// Appends a character to a string: `String::push`, which adds exactly that
/// character at the end.
#[verifier::external_body]
pub(crate) fn push_char(s: &mut String, c: char)
    ensures
        final(s)@ == old(s)@.push(c),
{
    s.push(c)
}

/// The characters of `s` in order.
pub fn to_chars(s: &str) -> (r: Vec<char>)
    ensures
        r@ == s@,
{
    let mut v: Vec<char> = Vec::new();
    for c in it: s.chars()
        invariant
            v@ == it.seq().take(it.index() as int),
            it.seq() == s@,
    {
        v.push(c);
    }
    v
}

/// The string made of `cs[from..to]`.
pub fn string_of(cs: &Vec<char>, from: usize, to: usize) -> (r: String)
    requires
        from <= to <= cs@.len(),
    ensures
        r@ == cs@.subrange(from as int, to as int),
{
    let mut s = String::new();
    let mut i: usize = from;
    while i < to
        invariant
            from <= i <= to <= cs@.len(),
            s@ == cs@.subrange(from as int, i as int),
        decreases to - i,
    {
        push_char(&mut s, cs[i]);
        assert(cs@.subrange(from as int, i + 1) =~= cs@.subrange(from as int, i as int).push(
            cs@[i as int],
        ));
        i += 1;
    }
    s
}

/// Whether two strings hold the same characters.
pub fn same(a: &str, b: &str) -> (r: bool)
    ensures
        r == (a@ == b@),
{
    let x = to_chars(a);
    let y = to_chars(b);
    if x.len() != y.len() {
        return false;
    }
    let mut i: usize = 0;
    while i < x.len()
        invariant
            i <= x@.len() == y@.len(),
            x@.subrange(0, i as int) == y@.subrange(0, i as int),
            x@ == a@,
            y@ == b@,
        decreases x@.len() - i,
    {
        if x[i] != y[i] {
            return false;
        }
        assert(x@.subrange(0, i + 1) =~= x@.subrange(0, i as int).push(x@[i as int]));
        assert(y@.subrange(0, i + 1) =~= y@.subrange(0, i as int).push(y@[i as int]));
        i += 1;
    }
    assert(x@ =~= x@.subrange(0, i as int));
    assert(y@ =~= y@.subrange(0, i as int));
    true
}

// ---------------------------------------------------------------------------
// Case

/// `s` with `A` to `Z` mapped to `a` to `z`.
pub open spec fn ascii_lower(s: Seq<char>) -> Seq<char> {
    Seq::new(s.len(), |i: int| lower_char_spec(s[i]))
}

/// Equality up to the case of ASCII letters.
pub open spec fn eq_ci(a: Seq<char>, b: Seq<char>) -> bool {
    ascii_lower(a) == ascii_lower(b)
}

/// ASCII lower case of a string.
pub fn to_ascii_lower(s: &str) -> (r: String)
    ensures
        r@ == ascii_lower(s@),
{
    let cs = to_chars(s);
    let mut out = String::new();
    let mut i: usize = 0;
    while i < cs.len()
        invariant
            i <= cs@.len(),
            cs@ == s@,
            out@ == ascii_lower(s@).subrange(0, i as int),
        decreases cs@.len() - i,
    {
        push_char(&mut out, lower_char(cs[i]));
        assert(ascii_lower(s@).subrange(0, i + 1) =~= ascii_lower(s@).subrange(0, i as int).push(
            ascii_lower(s@)[i as int],
        ));
        i += 1;
    }
    assert(ascii_lower(s@).subrange(0, i as int) =~= ascii_lower(s@));
    out
}

/// Whether two strings are equal up to the case of ASCII letters.
pub fn same_ci(a: &str, b: &str) -> (r: bool)
    ensures
        r == eq_ci(a@, b@),
{
    let x = to_ascii_lower(a);
    let y = to_ascii_lower(b);
    same(x.as_str(), y.as_str())
}

/// The Unicode lower case of a text, as `str::to_lowercase` gives it.
pub uninterp spec fn lowercase(s: Seq<char>) -> Seq<char>;

/// `str::to_lowercase`: the lower case of `s` under Unicode's rules, a function
/// of the characters of `s` alone. On ASCII text it only maps `A` to `Z` to `a`
/// to `z`. The lower case of a character is one or more characters, so that of a text
/// is empty only where the text is. What it gives on other characters is not stated
/// beyond that.
#[verifier::external_body]
pub(crate) fn to_lowercase(s: &str) -> (r: String)
    ensures
        r@ == lowercase(s@),
        vstd::utf8::is_ascii_chars(s@) ==> r@ == ascii_lower(s@),
        s@.len() > 0 ==> r@.len() > 0,
{
    s.to_lowercase()
}

// ---------------------------------------------------------------------------
// Prefixes, suffixes, occurrences

/// `p` stands in `s` at position `i`.
pub open spec fn occurs_at(s: Seq<char>, p: Seq<char>, i: int) -> bool {
    0 <= i && i + p.len() <= s.len() && s.subrange(i, i + p.len()) == p
}

pub open spec fn starts(s: Seq<char>, p: Seq<char>) -> bool {
    occurs_at(s, p, 0)
}

pub open spec fn ends(s: Seq<char>, p: Seq<char>) -> bool {
    occurs_at(s, p, s.len() - p.len())
}

pub open spec fn starts_char(s: Seq<char>, c: char) -> bool {
    s.len() > 0 && s[0] == c
}

pub open spec fn ends_char(s: Seq<char>, c: char) -> bool {
    s.len() > 0 && s.last() == c
}

/// `p` stands in `s` somewhere.
pub open spec fn contains_text(s: Seq<char>, p: Seq<char>) -> bool {
    exists|i: int| occurs_at(s, p, i)
}

/// What is left of `s` behind the prefix `p`.
pub open spec fn strip_start(s: Seq<char>, p: Seq<char>) -> Option<Seq<char>> {
    if starts(s, p) {
        Some(s.subrange(p.len() as int, s.len() as int))
    } else {
        None
    }
}

/// What is left of `s` before the suffix `p`.
pub open spec fn strip_end(s: Seq<char>, p: Seq<char>) -> Option<Seq<char>> {
    if ends(s, p) {
        Some(s.subrange(0, s.len() - p.len()))
    } else {
        None
    }
}

/// Whether `p` stands in `cs` at position `at`.
pub fn chars_occur_at(cs: &Vec<char>, p: &Vec<char>, at: usize) -> (r: bool)
    ensures
        r == occurs_at(cs@, p@, at as int),
{
    if at > cs.len() || p.len() > cs.len() - at {
        return false;
    }
    let mut i: usize = 0;
    while i < p.len()
        invariant
            i <= p@.len(),
            at + p@.len() <= cs.len(),
            forall|j: int| 0 <= j < i ==> cs@[at + j] == p@[j],
        decreases p@.len() - i,
    {
        if cs[at + i] != p[i] {
            assert(cs@.subrange(at as int, at + p@.len())[i as int] != p@[i as int]);
            return false;
        }
        i += 1;
    }
    assert(cs@.subrange(at as int, at + p@.len()) =~= p@);
    true
}

/// Whether `s` starts with `p`.
pub fn starts_with(s: &str, p: &str) -> (r: bool)
    ensures
        r == starts(s@, p@),
{
    let cs = to_chars(s);
    let ps = to_chars(p);
    chars_occur_at(&cs, &ps, 0)
}

/// Whether `s` ends with `p`.
pub fn ends_with(s: &str, p: &str) -> (r: bool)
    ensures
        r == ends(s@, p@),
{
    let cs = to_chars(s);
    let ps = to_chars(p);
    if ps.len() > cs.len() {
        return false;
    }
    chars_occur_at(&cs, &ps, cs.len() - ps.len())
}

/// Whether the first character of `s` is `c`.
pub fn starts_with_char(s: &str, c: char) -> (r: bool)
    ensures
        r == starts_char(s@, c),
{
    s.unicode_len() > 0 && s.get_char(0) == c
}

/// Whether the last character of `s` is `c`.
pub fn ends_with_char(s: &str, c: char) -> (r: bool)
    ensures
        r == ends_char(s@, c),
{
    let n: usize = s.unicode_len();
    n > 0 && s.get_char(n - 1) == c
}

/// Whether `p` stands in `s` somewhere.
pub fn contains(s: &str, p: &str) -> (r: bool)
    ensures
        r == contains_text(s@, p@),
{
    let cs = to_chars(s);
    let ps = to_chars(p);
    let mut i: usize = 0;
    while i <= cs.len()
        invariant
            i <= cs@.len() + 1,
            cs@ == s@,
            ps@ == p@,
            cs@.len() <= usize::MAX - 1 || i <= cs@.len(),
            forall|j: int| 0 <= j < i ==> !occurs_at(s@, p@, j),
        decreases cs@.len() + 1 - i,
    {
        if chars_occur_at(&cs, &ps, i) {
            return true;
        }
        if i == cs.len() {
            assert(forall|j: int| occurs_at(s@, p@, j) ==> 0 <= j <= s@.len());
            return false;
        }
        i += 1;
    }
    false
}

/// Whether `c` stands in `s`.
pub fn contains_char(s: &str, c: char) -> (r: bool)
    ensures
        r == s@.contains(c),
{
    let cs = to_chars(s);
    let mut i: usize = 0;
    while i < cs.len()
        invariant
            i <= cs@.len(),
            cs@ == s@,
            forall|j: int| 0 <= j < i ==> cs@[j] != c,
        decreases cs@.len() - i,
    {
        if cs[i] == c {
            assert(s@[i as int] == c);
            return true;
        }
        i += 1;
    }
    false
}

/// What is left of `s` behind the prefix `p`.
pub fn strip_prefix<'a>(s: &'a str, p: &str) -> (r: Option<&'a str>)
    ensures
        match r {
            Some(t) => strip_start(s@, p@) == Some(t@),
            None => strip_start(s@, p@) is None,
        },
{
    if starts_with(s, p) {
        Some(s.substring_char(p.unicode_len(), s.unicode_len()))
    } else {
        None
    }
}

/// What is left of `s` before the suffix `p`.
pub fn strip_suffix<'a>(s: &'a str, p: &str) -> (r: Option<&'a str>)
    ensures
        match r {
            Some(t) => strip_end(s@, p@) == Some(t@),
            None => strip_end(s@, p@) is None,
        },
{
    if ends_with(s, p) {
        Some(s.substring_char(0, s.unicode_len() - p.unicode_len()))
    } else {
        None
    }
}

// ---------------------------------------------------------------------------
// Searching and trimming by character sets

/// The first position at or behind `i` that holds a character of `set`, or the
/// length of `s`.
pub open spec fn find_in(s: Seq<char>, set: CharSet, i: int) -> int
    decreases s.len() - i,
{
    if i >= s.len() || set.has(s[i]) {
        i
    } else {
        find_in(s, set, i + 1)
    }
}

/// The first position at or behind `i` that holds no character of `set`, or the
/// length of `s`.
pub open spec fn skip_in(s: Seq<char>, set: CharSet, i: int) -> int
    decreases s.len() - i,
{
    if i >= s.len() || !set.has(s[i]) {
        i
    } else {
        skip_in(s, set, i + 1)
    }
}

/// The end of what is left of `s[..n]` when the characters of `set` at its end
/// are dropped.
pub open spec fn skip_back(s: Seq<char>, set: CharSet, n: int) -> int
    decreases n,
{
    if n <= 0 || !set.has(s[n - 1]) {
        n
    } else {
        skip_back(s, set, n - 1)
    }
}

/// The end of the shortest prefix of `s[..n]` that holds every character of
/// `set` in it: one behind the last such character, or 0.
pub open spec fn rfind_in(s: Seq<char>, set: CharSet, n: int) -> int
    decreases n,
{
    if n <= 0 || set.has(s[n - 1]) {
        n
    } else {
        rfind_in(s, set, n - 1)
    }
}

/// `s` without the characters of `set` at its start.
pub open spec fn trim_start_of(s: Seq<char>, set: CharSet) -> Seq<char> {
    s.subrange(skip_in(s, set, 0), s.len() as int)
}

/// `s` without the characters of `set` at its end.
pub open spec fn trim_end_of(s: Seq<char>, set: CharSet) -> Seq<char> {
    s.subrange(0, skip_back(s, set, s.len() as int))
}

/// `s` without the characters of `set` at both ends.
pub open spec fn trim_of(s: Seq<char>, set: CharSet) -> Seq<char> {
    trim_end_of(trim_start_of(s, set), set)
}

/// `s` without white space at both ends.
pub open spec fn trimmed(s: Seq<char>) -> Seq<char> {
    trim_of(s, CharSet::White)
}

pub proof fn lemma_find_in(s: Seq<char>, set: CharSet, i: int)
    requires
        0 <= i <= s.len(),
    ensures
        i <= find_in(s, set, i) <= s.len(),
        forall|j: int| i <= j < find_in(s, set, i) ==> !set.has(#[trigger] s[j]),
        find_in(s, set, i) < s.len() ==> set.has(s[find_in(s, set, i)]),
    decreases s.len() - i,
{
    if i < s.len() && !set.has(s[i]) {
        lemma_find_in(s, set, i + 1);
    }
}

pub proof fn lemma_skip_in(s: Seq<char>, set: CharSet, i: int)
    requires
        0 <= i <= s.len(),
    ensures
        i <= skip_in(s, set, i) <= s.len(),
        forall|j: int| i <= j < skip_in(s, set, i) ==> set.has(#[trigger] s[j]),
        skip_in(s, set, i) < s.len() ==> !set.has(s[skip_in(s, set, i)]),
    decreases s.len() - i,
{
    if i < s.len() && set.has(s[i]) {
        lemma_skip_in(s, set, i + 1);
    }
}

pub proof fn lemma_skip_back(s: Seq<char>, set: CharSet, n: int)
    requires
        0 <= n <= s.len(),
    ensures
        0 <= skip_back(s, set, n) <= n,
        0 <= rfind_in(s, set, n) <= n,
        rfind_in(s, set, n) > 0 ==> set.has(s[rfind_in(s, set, n) - 1]),
    decreases n,
{
    if n > 0 {
        lemma_skip_back(s, set, n - 1);
    }
}

/// The first position at or behind `from` that holds a character of `set`, or
/// the number of characters.
pub fn find_set(cs: &Vec<char>, set: CharSet, from: usize) -> (r: usize)
    requires
        from <= cs@.len(),
    ensures
        r == find_in(cs@, set, from as int),
        from <= r <= cs@.len(),
{
    let mut i: usize = from;
    while i < cs.len()
        invariant
            from <= i <= cs@.len(),
            find_in(cs@, set, from as int) == find_in(cs@, set, i as int),
        decreases cs@.len() - i,
    {
        if set.contains(cs[i]) {
            return i;
        }
        i += 1;
    }
    i
}

/// The first position at or behind `from` that holds no character of `set`, or
/// the number of characters.
pub fn skip_set(cs: &Vec<char>, set: CharSet, from: usize) -> (r: usize)
    requires
        from <= cs@.len(),
    ensures
        r == skip_in(cs@, set, from as int),
        from <= r <= cs@.len(),
{
    let mut i: usize = from;
    while i < cs.len()
        invariant
            from <= i <= cs@.len(),
            skip_in(cs@, set, from as int) == skip_in(cs@, set, i as int),
        decreases cs@.len() - i,
    {
        if !set.contains(cs[i]) {
            return i;
        }
        i += 1;
    }
    i
}

/// `s` without the characters of `set` at its start.
pub fn trim_start<'a>(s: &'a str, set: CharSet) -> (r: &'a str)
    ensures
        r@ == trim_start_of(s@, set),
{
    let cs = to_chars(s);
    let from: usize = skip_set(&cs, set, 0);
    s.substring_char(from, cs.len())
}

/// `s` without the characters of `set` at its end.
pub fn trim_end<'a>(s: &'a str, set: CharSet) -> (r: &'a str)
    ensures
        r@ == trim_end_of(s@, set),
{
    let cs = to_chars(s);
    let mut n: usize = cs.len();
    while n > 0 && set.contains(cs[n - 1])
        invariant
            n <= cs@.len(),
            cs@ == s@,
            skip_back(s@, set, s@.len() as int) == skip_back(s@, set, n as int),
        decreases n,
    {
        n -= 1;
    }
    s.substring_char(0, n)
}

/// `s` without the characters of `set` at both ends.
pub fn trim_matches<'a>(s: &'a str, set: CharSet) -> (r: &'a str)
    ensures
        r@ == trim_of(s@, set),
{
    trim_end(trim_start(s, set), set)
}

/// `s` without white space at both ends.
pub fn trim<'a>(s: &'a str) -> (r: &'a str)
    ensures
        r@ == trimmed(s@),
{
    trim_matches(s, CharSet::White)
}

/// The position of the first `c` in `s`.
pub open spec fn find_char_spec(s: Seq<char>, c: char) -> Option<int> {
    let i = find_in(s, CharSet::One(c), 0);
    if i < s.len() {
        Some(i)
    } else {
        None
    }
}

/// The character position of the first `c` in `s`.
pub fn find_char(s: &str, c: char) -> (r: Option<usize>)
    ensures
        match r {
            Some(i) => find_char_spec(s@, c) == Some(i as int) && i < s@.len(),
            None => find_char_spec(s@, c) is None,
        },
{
    let cs = to_chars(s);
    let i: usize = find_set(&cs, CharSet::One(c), 0);
    if i < cs.len() {
        Some(i)
    } else {
        None
    }
}

/// What stands in `s` before the first character of `set`; all of it if there is
/// none.
pub open spec fn before_first(s: Seq<char>, set: CharSet) -> Seq<char> {
    s.subrange(0, find_in(s, set, 0))
}

/// What stands in `s` behind the last character of `set`; all of it if there is
/// none.
pub open spec fn after_last(s: Seq<char>, set: CharSet) -> Seq<char> {
    s.subrange(rfind_in(s, set, s.len() as int), s.len() as int)
}

/// What stands in `s` before the first character of `set`.
pub fn head_before<'a>(s: &'a str, set: CharSet) -> (r: &'a str)
    ensures
        r@ == before_first(s@, set),
{
    let cs = to_chars(s);
    let i: usize = find_set(&cs, set, 0);
    s.substring_char(0, i)
}

/// What stands in `s` behind the last character of `set`.
pub fn tail_after<'a>(s: &'a str, set: CharSet) -> (r: &'a str)
    ensures
        r@ == after_last(s@, set),
{
    let cs = to_chars(s);
    let mut n: usize = cs.len();
    while n > 0 && !set.contains(cs[n - 1])
        invariant
            n <= cs@.len(),
            cs@ == s@,
            rfind_in(s@, set, s@.len() as int) == rfind_in(s@, set, n as int),
        decreases n,
    {
        n -= 1;
    }
    s.substring_char(n, cs.len())
}

// ---------------------------------------------------------------------------
// Lists of strings

/// The texts of a list of strings.
pub open spec fn texts(v: Seq<String>) -> Seq<Seq<char>> {
    Seq::new(v.len(), |i: int| v[i]@)
}

/// The text of an optional string.
pub open spec fn opt_text(o: Option<String>) -> Option<Seq<char>> {
    match o {
        Some(s) => Some(s@),
        None => None,
    }
}

/// Some entry of `v` equals `s` up to the case of ASCII letters.
pub open spec fn contains_ci(v: Seq<Seq<char>>, s: Seq<char>) -> bool {
    exists|i: int| 0 <= i < v.len() && eq_ci(#[trigger] v[i], s)
}

/// Whether `s` is an entry of `v`.
pub fn list_contains(v: &Vec<String>, s: &str) -> (r: bool)
    ensures
        r == texts(v@).contains(s@),
{
    let mut i: usize = 0;
    while i < v.len()
        invariant
            i <= v@.len(),
            forall|j: int| 0 <= j < i ==> texts(v@)[j] != s@,
        decreases v@.len() - i,
    {
        if same(v[i].as_str(), s) {
            assert(texts(v@)[i as int] == s@);
            return true;
        }
        i += 1;
    }
    false
}

/// Whether an entry of `v` equals `s` up to the case of ASCII letters.
pub fn list_contains_ci(v: &Vec<String>, s: &str) -> (r: bool)
    ensures
        r == contains_ci(texts(v@), s@),
{
    let mut i: usize = 0;
    while i < v.len()
        invariant
            i <= v@.len(),
            forall|j: int| 0 <= j < i ==> !eq_ci(#[trigger] texts(v@)[j], s@),
        decreases v@.len() - i,
    {
        if same_ci(v[i].as_str(), s) {
            assert(eq_ci(texts(v@)[i as int], s@));
            return true;
        }
        i += 1;
    }
    false
}

/// A copy of a list of strings.
pub fn clone_list(v: &Vec<String>) -> (r: Vec<String>)
    ensures
        texts(r@) == texts(v@),
{
    let mut out: Vec<String> = Vec::new();
    let mut i: usize = 0;
    while i < v.len()
        invariant
            i <= v@.len(),
            texts(out@) == texts(v@).subrange(0, i as int),
        decreases v@.len() - i,
    {
        let ghost before = texts(out@);
        out.push(v[i].clone());
        assert(texts(out@) =~= before.push(v@[i as int]@));
        assert(before.push(v@[i as int]@) =~= texts(v@).subrange(0, i + 1));
        i += 1;
    }
    assert(texts(out@) =~= texts(v@));
    out
}

/// A copy of an optional string.
pub fn clone_opt(o: &Option<String>) -> (r: Option<String>)
    ensures
        opt_text(r) == opt_text(*o),
{
    match o {
        Some(s) => Some(s.clone()),
        None => None,
    }
}

/// The first `n` entries of `v` with `sep` between them.
pub open spec fn joined(v: Seq<Seq<char>>, sep: Seq<char>, n: int) -> Seq<char>
    decreases n,
{
    if n <= 0 {
        Seq::empty()
    } else if n == 1 {
        v[0]
    } else {
        joined(v, sep, n - 1) + sep + v[n - 1]
    }
}

/// All entries of `v` with `sep` between them.
pub open spec fn join_spec(v: Seq<Seq<char>>, sep: Seq<char>) -> Seq<char> {
    joined(v, sep, v.len() as int)
}

/// The entries of `v` with `sep` between them.
pub fn join(v: &Vec<String>, sep: &str) -> (r: String)
    ensures
        r@ == join_spec(texts(v@), sep@),
{
    let mut out = String::new();
    let mut i: usize = 0;
    while i < v.len()
        invariant
            i <= v@.len(),
            out@ == joined(texts(v@), sep@, i as int),
        decreases v@.len() - i,
    {
        if i > 0 {
            out.append(sep);
        }
        out.append(v[i].as_str());
        proof {
            if i == 0 {
                assert(Seq::<char>::empty() + v@[0]@ =~= texts(v@)[0]);
            }
        }
        i += 1;
    }
    out
}

// ---------------------------------------------------------------------------
// Splitting

/// The parts of `s[i..]` between the characters of `set`.
pub open spec fn split_from(s: Seq<char>, set: CharSet, i: int) -> Seq<Seq<char>>
    decreases s.len() - i,
    when 0 <= i <= s.len()
    via split_from_decreases
{
    let j = find_in(s, set, i);
    if j >= s.len() {
        seq![s.subrange(i, s.len() as int)]
    } else {
        seq![s.subrange(i, j)] + split_from(s, set, j + 1)
    }
}

#[via_fn]
proof fn split_from_decreases(s: Seq<char>, set: CharSet, i: int) {
    if 0 <= i <= s.len() {
        lemma_find_in(s, set, i);
    }
}

/// The parts of `s` between the characters of `set`; one part if there is none.
pub open spec fn split_spec(s: Seq<char>, set: CharSet) -> Seq<Seq<char>> {
    split_from(s, set, 0)
}

/// The parts of `s` between the characters of `set`.
pub fn split(s: &str, set: CharSet) -> (r: Vec<String>)
    ensures
        texts(r@) == split_spec(s@, set),
{
    let cs = to_chars(s);
    let mut out: Vec<String> = Vec::new();
    let mut start: usize = 0;
    loop
        invariant
            start <= cs@.len(),
            cs@ == s@,
            texts(out@) + split_from(s@, set, start as int) == split_spec(s@, set),
        decreases cs@.len() - start,
    {
        let end: usize = find_set(&cs, set, start);
        let ghost before = texts(out@);
        out.push(string_of(&cs, start, end));
        assert(texts(out@) =~= before.push(s@.subrange(start as int, end as int)));
        if end >= cs.len() {
            assert(texts(out@) =~= before + split_from(s@, set, start as int));
            return out;
        }
        assert(texts(out@) + split_from(s@, set, end + 1) =~= before + split_from(
            s@,
            set,
            start as int,
        ));
        start = end + 1;
    }
}

/// The maximal runs of characters other than white space in `s[i..]`.
pub open spec fn words_from(s: Seq<char>, i: int) -> Seq<Seq<char>>
    decreases s.len() - i,
    when 0 <= i <= s.len()
    via words_from_decreases
{
    let a = skip_in(s, CharSet::White, i);
    if a >= s.len() {
        Seq::empty()
    } else {
        let b = find_in(s, CharSet::White, a);
        seq![s.subrange(a, b)] + words_from(s, b)
    }
}

#[via_fn]
proof fn words_from_decreases(s: Seq<char>, i: int) {
    if 0 <= i <= s.len() {
        lemma_skip_in(s, CharSet::White, i);
        let a = skip_in(s, CharSet::White, i);
        if a < s.len() {
            lemma_find_in(s, CharSet::White, a);
        }
    }
}

/// The words of `s`: its maximal runs of characters other than white space.
pub open spec fn words(s: Seq<char>) -> Seq<Seq<char>> {
    words_from(s, 0)
}

/// The words of `s`.
pub fn split_whitespace(s: &str) -> (r: Vec<String>)
    ensures
        texts(r@) == words(s@),
{
    let cs = to_chars(s);
    let mut out: Vec<String> = Vec::new();
    let mut start: usize = 0;
    loop
        invariant
            start <= cs@.len(),
            cs@ == s@,
            texts(out@) + words_from(s@, start as int) == words(s@),
        decreases cs@.len() - start,
    {
        let a: usize = skip_set(&cs, CharSet::White, start);
        if a >= cs.len() {
            assert(texts(out@) =~= texts(out@) + words_from(s@, start as int));
            return out;
        }
        let b: usize = find_set(&cs, CharSet::White, a);
        proof {
            lemma_skip_in(s@, CharSet::White, start as int);
            lemma_find_in(s@, CharSet::White, a as int);
        }
        let ghost before = texts(out@);
        out.push(string_of(&cs, a, b));
        assert(texts(out@) =~= before.push(s@.subrange(a as int, b as int)));
        assert(texts(out@) + words_from(s@, b as int) =~= before + words_from(s@, start as int));
        start = b;
    }
}

// ---------------------------------------------------------------------------
// Replacing

/// `s` with every `from` turned into `to`.
pub open spec fn replace_char_spec(s: Seq<char>, from: char, to: char) -> Seq<char> {
    Seq::new(s.len(), |i: int| if s[i] == from { to } else { s[i] })
}

/// `s` with every `from` turned into `to`.
pub fn replace_char(s: &str, from: char, to: char) -> (r: String)
    ensures
        r@ == replace_char_spec(s@, from, to),
{
    let cs = to_chars(s);
    let mut out = String::new();
    let mut i: usize = 0;
    let ghost target = replace_char_spec(s@, from, to);
    while i < cs.len()
        invariant
            i <= cs@.len(),
            cs@ == s@,
            target == replace_char_spec(s@, from, to),
            out@ == target.subrange(0, i as int),
        decreases cs@.len() - i,
    {
        if cs[i] == from {
            push_char(&mut out, to);
        } else {
            push_char(&mut out, cs[i]);
        }
        assert(target.subrange(0, i + 1) =~= target.subrange(0, i as int).push(target[i as int]));
        i += 1;
    }
    assert(target.subrange(0, i as int) =~= target);
    out
}

/// `s[i..]` with each occurrence of `p`, taken from the left, turned into `with`.
pub open spec fn replace_from(s: Seq<char>, p: Seq<char>, with: Seq<char>, i: int) -> Seq<char>
    decreases s.len() - i,
{
    if i >= s.len() || p.len() == 0 {
        Seq::empty()
    } else if occurs_at(s, p, i) {
        with + replace_from(s, p, with, i + p.len())
    } else {
        seq![s[i]] + replace_from(s, p, with, i + 1)
    }
}

/// `s` with each occurrence of the non-empty `p` turned into `with`.
pub fn replace(s: &str, p: &str, with: &str) -> (r: String)
    requires
        p@.len() > 0,
    ensures
        r@ == replace_from(s@, p@, with@, 0),
{
    let cs = to_chars(s);
    let ps = to_chars(p);
    let mut out = String::new();
    let mut i: usize = 0;
    assert(out@ + replace_from(s@, p@, with@, 0) =~= replace_from(s@, p@, with@, 0));
    while i < cs.len()
        invariant
            i <= cs@.len(),
            cs@ == s@,
            ps@ == p@,
            p@.len() > 0,
            out@ + replace_from(s@, p@, with@, i as int) == replace_from(s@, p@, with@, 0),
        decreases cs@.len() - i,
    {
        let ghost before = out@;
        if chars_occur_at(&cs, &ps, i) {
            out.append(with);
            assert((before + with@) + replace_from(s@, p@, with@, i + p@.len()) =~= before + (with@
                + replace_from(s@, p@, with@, i + p@.len())));
            i += ps.len();
        } else {
            push_char(&mut out, cs[i]);
            assert(before.push(s@[i as int]) + replace_from(s@, p@, with@, i + 1) =~= before + (seq![
                s@[i as int],
            ] + replace_from(s@, p@, with@, i + 1)));
            i += 1;
        }
    }
    assert(out@ + replace_from(s@, p@, with@, i as int) =~= out@);
    out
}

// ---------------------------------------------------------------------------
// Integers

/// The number that the first `n` characters of `s`, all digits, write down.
pub open spec fn digits_value(s: Seq<char>, n: int) -> int
    decreases n,
{
    if n <= 0 {
        0
    } else {
        digits_value(s, n - 1) * 10 + (s[n - 1] as int - '0' as int)
    }
}

pub open spec fn all_digits(s: Seq<char>) -> bool {
    forall|i: int| 0 <= i < s.len() ==> is_digit(#[trigger] s[i])
}

/// The integer that `s` writes down: a sign, where `signed` allows `-`, and one
/// or more digits.
pub open spec fn parse_int(s: Seq<char>, signed: bool) -> Option<int> {
    let has_sign = s.len() > 0 && (s[0] == '+' || (signed && s[0] == '-'));
    let d = if has_sign {
        s.subrange(1, s.len() as int)
    } else {
        s
    };
    if d.len() == 0 || !all_digits(d) {
        None
    } else if has_sign && s[0] == '-' {
        Some(-digits_value(d, d.len() as int))
    } else {
        Some(digits_value(d, d.len() as int))
    }
}

/// `parse_int`, but only within a range.
pub open spec fn parse_int_within(s: Seq<char>, signed: bool, lo: int, hi: int) -> Option<int> {
    match parse_int(s, signed) {
        Some(v) => if lo <= v <= hi {
            Some(v)
        } else {
            None
        },
        None => None,
    }
}

pub proof fn lemma_digits_monotone(s: Seq<char>, m: int, n: int)
    requires
        0 <= m <= n <= s.len(),
        all_digits(s),
    ensures
        0 <= digits_value(s, m) <= digits_value(s, n),
    decreases n,
{
    if m < n {
        lemma_digits_monotone(s, m, n - 1);
        assert(is_digit(s[n - 1]));
    } else if n > 0 {
        lemma_digits_monotone(s, m - 1, n - 1);
        assert(is_digit(s[n - 1]));
    }
}

/// The integer that `s` writes down, if it lies in `lo..=hi`.
#[verifier::loop_isolation(false)]
fn parse_within(s: &str, signed: bool, lo: i64, hi: i64) -> (r: Option<i64>)
    requires
        lo <= 0 <= hi,
    ensures
        match r {
            Some(v) => parse_int_within(s@, signed, lo as int, hi as int) == Some(v as int),
            None => parse_int_within(s@, signed, lo as int, hi as int) is None,
        },
{
    let cs = to_chars(s);
    let has_sign = cs.len() > 0 && (cs[0] == '+' || (signed && cs[0] == '-'));
    let negative = has_sign && cs[0] == '-';
    let start: usize = if has_sign {
        1
    } else {
        0
    };
    let ghost d = cs@.subrange(start as int, cs@.len() as int);
    assert(!has_sign ==> d =~= s@);
    let n: usize = cs.len() - start;
    if n == 0 {
        return None;
    }
    let mut i: usize = 0;
    while i < n
        invariant
            i <= n,
            forall|j: int| 0 <= j < i ==> is_digit(#[trigger] d[j]),
        decreases n - i,
    {
        let c = cs[start + i];
        assert(d[i as int] == c);
        if !('0' <= c && c <= '9') {
            assert(!is_digit(d[i as int]));
            return None;
        }
        i += 1;
    }
    assert(all_digits(d));
    let mut v: i128 = 0;
    i = 0;
    while i < n
        invariant
            i <= n,
            v == digits_value(d, i as int),
            0 <= v <= 0xffff_ffff_ffff_ffff,
        decreases n - i,
    {
        let c = cs[start + i];
        assert(d[i as int] == c);
        assert(is_digit(d[i as int]));
        v = v * 10 + ((c as u32) - ('0' as u32)) as i128;
        if v > 0xffff_ffff_ffff_ffff {
            proof {
                lemma_digits_monotone(d, i + 1, n as int);
            }
            return None;
        }
        i += 1;
    }
    let w: i128 = if negative {
        -v
    } else {
        v
    };
    if (lo as i128) <= w && w <= (hi as i128) {
        Some(w as i64)
    } else {
        None
    }
}

/// The `i64` that `s` writes down.
pub fn parse_i64(s: &str) -> (r: Option<i64>)
    ensures
        match r {
            Some(v) => parse_int_within(s@, true, i64::MIN as int, i64::MAX as int) == Some(
                v as int,
            ),
            None => parse_int_within(s@, true, i64::MIN as int, i64::MAX as int) is None,
        },
{
    parse_within(s, true, i64::MIN, i64::MAX)
}

/// The `i32` that `s` writes down.
pub fn parse_i32(s: &str) -> (r: Option<i32>)
    ensures
        match r {
            Some(v) => parse_int_within(s@, true, i32::MIN as int, i32::MAX as int) == Some(
                v as int,
            ),
            None => parse_int_within(s@, true, i32::MIN as int, i32::MAX as int) is None,
        },
{
    match parse_within(s, true, -0x8000_0000, 0x7fff_ffff) {
        Some(v) => Some(v as i32),
        None => None,
    }
}

/// The `u32` that `s` writes down.
pub fn parse_u32(s: &str) -> (r: Option<u32>)
    ensures
        match r {
            Some(v) => parse_int_within(s@, false, 0, u32::MAX as int) == Some(v as int),
            None => parse_int_within(s@, false, 0, u32::MAX as int) is None,
        },
{
    match parse_within(s, false, 0, 0xffff_ffff) {
        Some(v) => Some(v as u32),
        None => None,
    }
}

pub open spec fn digit_char(n: int) -> char {
    (('0' as u32) + n) as char
}

/// `n` in decimal, without leading zeros.
pub open spec fn decimal_nat(n: int) -> Seq<char>
    decreases n,
{
    if n < 10 {
        seq![digit_char(n)]
    } else {
        decimal_nat(n / 10).push(digit_char(n % 10))
    }
}

/// `n` in decimal, with a `-` where it is negative.
pub open spec fn decimal(n: int) -> Seq<char> {
    if n < 0 {
        seq!['-'] + decimal_nat(-n)
    } else {
        decimal_nat(n)
    }
}

fn push_decimal(out: &mut String, n: u64)
    ensures
        final(out)@ == old(out)@ + decimal_nat(n as int),
    decreases n,
{
    if n >= 10 {
        push_decimal(out, n / 10);
    }
    push_char(out, (48u8 + (n % 10) as u8) as char);
    assert(out@ =~= old(out)@ + decimal_nat(n as int));
}

/// `n` in decimal.
pub fn print_i64(n: i64) -> (r: String)
    ensures
        r@ == decimal(n as int),
{
    let mut out = String::new();
    if n < 0 {
        push_char(&mut out, '-');
        push_decimal(&mut out, (-(n as i128)) as u64);
    } else {
        push_decimal(&mut out, n as u64);
    }
    assert(out@ =~= decimal(n as int));
    out
}

// ---------------------------------------------------------------------------
// First occurrence of a text

/// The first position at or behind `i` at which `p` stands in `s`.
pub open spec fn find_text_from(s: Seq<char>, p: Seq<char>, i: int) -> Option<int>
    decreases s.len() + 1 - i,
{
    if i > s.len() {
        None
    } else if occurs_at(s, p, i) {
        Some(i)
    } else {
        find_text_from(s, p, i + 1)
    }
}

/// The first position at which `p` stands in `s`.
pub open spec fn find_text_spec(s: Seq<char>, p: Seq<char>) -> Option<int> {
    find_text_from(s, p, 0)
}

/// The first position, in characters, at which `p` stands in `s`.
#[verifier::loop_isolation(false)]
pub fn find_text(s: &str, p: &str) -> (r: Option<usize>)
    ensures
        match r {
            Some(i) => find_text_spec(s@, p@) == Some(i as int) && i + p@.len() <= s@.len(),
            None => find_text_spec(s@, p@) is None,
        },
{
    let cs = to_chars(s);
    let ps = to_chars(p);
    let mut i: usize = 0;
    while i < cs.len()
        invariant
            i <= cs@.len(),
            find_text_spec(s@, p@) == find_text_from(s@, p@, i as int),
        decreases cs@.len() - i,
    {
        if chars_occur_at(&cs, &ps, i) {
            return Some(i);
        }
        i += 1;
    }
    if chars_occur_at(&cs, &ps, i) {
        return Some(i);
    }
    assert(find_text_from(s@, p@, i + 1) is None);
    None
}

/// What stands before and behind the first `c` in `s`.
pub open spec fn split_once_spec(s: Seq<char>, c: char) -> Option<(Seq<char>, Seq<char>)> {
    match find_char_spec(s, c) {
        Some(i) => Some((s.subrange(0, i), s.subrange(i + 1, s.len() as int))),
        None => None,
    }
}

/// What stands before and behind the first `c` in `s`.
pub fn split_once<'a>(s: &'a str, c: char) -> (r: Option<(&'a str, &'a str)>)
    ensures
        match r {
            Some(p) => split_once_spec(s@, c) == Some((p.0@, p.1@)),
            None => split_once_spec(s@, c) is None,
        },
{
    let n: usize = s.unicode_len();
    match find_char(s, c) {
        Some(i) => Some((s.substring_char(0, i), s.substring_char(i + 1, n))),
        None => None,
    }
}

/// What stands before and behind the first `p` in `s`.
pub open spec fn split_once_text_spec(s: Seq<char>, p: Seq<char>) -> Option<
    (Seq<char>, Seq<char>),
> {
    match find_text_spec(s, p) {
        Some(i) => Some((s.subrange(0, i), s.subrange(i + p.len(), s.len() as int))),
        None => None,
    }
}

/// What stands before and behind the first `p` in `s`.
pub fn split_once_text<'a>(s: &'a str, p: &str) -> (r: Option<(&'a str, &'a str)>)
    ensures
        match r {
            Some(q) => split_once_text_spec(s@, p@) == Some((q.0@, q.1@)),
            None => split_once_text_spec(s@, p@) is None,
        },
{
    match find_text(s, p) {
        Some(i) => {
            let n: usize = s.unicode_len();
            let k: usize = p.unicode_len();
            Some((s.substring_char(0, i), s.substring_char(i + k, n)))
        },
        None => None,
    }
}

/// The text between `p` at the start of `s` and a `]` at its end.
pub open spec fn bracket_inner(s: Seq<char>, p: Seq<char>) -> Option<Seq<char>> {
    if starts(s, p) && ends_char(s, ']') && s.len() > p.len() {
        Some(s.subrange(p.len() as int, s.len() - 1))
    } else {
        None
    }
}

/// The text between `p` at the start of `s` and a `]` at its end.
pub fn in_brackets<'a>(s: &'a str, p: &str) -> (r: Option<&'a str>)
    ensures
        match r {
            Some(t) => bracket_inner(s@, p@) == Some(t@),
            None => bracket_inner(s@, p@) is None,
        },
{
    let n: usize = s.unicode_len();
    let k: usize = p.unicode_len();
    if n > k && starts_with(s, p) && ends_with_char(s, ']') {
        Some(s.substring_char(k, n - 1))
    } else {
        None
    }
}

// ---------------------------------------------------------------------------
// Sets of names

/// A set of names.
#[derive(Debug, PartialEq)]
pub struct NameSet {
    names: Vec<String>,
}

impl View for NameSet {
    type V = Set<Seq<char>>;

    closed spec fn view(&self) -> Set<Seq<char>> {
        Set::new(|k: Seq<char>| texts(self.names@).contains(k))
    }
}

impl NameSet {
    /// The empty set.
    pub fn new() -> (r: Self)
        ensures
            r@ == Set::<Seq<char>>::empty(),
    {
        let r = NameSet { names: Vec::new() };
        assert(r@ =~= Set::<Seq<char>>::empty());
        r
    }

    /// Whether `name` belongs to the set.
    pub fn contains(&self, name: &str) -> (r: bool)
        ensures
            r == self@.contains(name@),
    {
        list_contains(&self.names, name)
    }

    /// Whether the set has no member.
    pub fn is_empty(&self) -> (r: bool)
        ensures
            r == (self@ == Set::<Seq<char>>::empty()),
    {
        let r = self.names.len() == 0;
        proof {
            if r {
                assert(self@ =~= Set::<Seq<char>>::empty());
            } else {
                assert(texts(self.names@)[0] == self.names@[0]@);
                assert(self@.contains(self.names@[0]@));
            }
        }
        r
    }

    /// Adds `name` to the set.
    pub fn insert(&mut self, name: String)
        ensures
            final(self)@ == old(self)@.insert(name@),
    {
        if self.contains(name.as_str()) {
            assert(self@ =~= self@.insert(name@));
            return ;
        }
        let ghost before = texts(self.names@);
        self.names.push(name);
        proof {
            let after = texts(self.names@);
            assert(after =~= before.push(name@));
            assert forall|k: Seq<char>| after.contains(k) == (before.contains(k) || k == name@) by {
                if before.contains(k) {
                    let i = choose|i: int| 0 <= i < before.len() && before[i] == k;
                    assert(after[i] == k);
                }
                if k == name@ {
                    assert(after[before.len() as int] == k);
                }
                if after.contains(k) {
                    let i = choose|i: int| 0 <= i < after.len() && after[i] == k;
                    if i < before.len() {
                        assert(before[i] == k);
                    }
                }
            }
            assert(self@ =~= old(self)@.insert(name@));
        }
    }

    /// Adds the members of `other`.
    pub fn extend(&mut self, other: NameSet)
        ensures
            final(self)@ == old(self)@.union(other@),
    {
        let mut i: usize = 0;
        let ghost first = self@;
        while i < other.names.len()
            invariant
                i <= other.names@.len(),
                forall|k: Seq<char>|
                    self@.contains(k) <==> first.contains(k) || texts(other.names@).subrange(
                        0,
                        i as int,
                    ).contains(k),
            decreases other.names@.len() - i,
        {
            let ghost head = texts(other.names@).subrange(0, i as int);
            let name = other.names[i].clone();
            let ghost held = self@;
            self.insert(name);
            proof {
                let next = texts(other.names@).subrange(0, i + 1);
                assert(next =~= head.push(name@));
                assert forall|k: Seq<char>| next.contains(k) == (head.contains(k) || k == name@) by {
                    if head.contains(k) {
                        let j = choose|j: int| 0 <= j < head.len() && head[j] == k;
                        assert(next[j] == k);
                    }
                    if k == name@ {
                        assert(next[head.len() as int] == k);
                    }
                    if next.contains(k) {
                        let j = choose|j: int| 0 <= j < next.len() && next[j] == k;
                        if j < head.len() {
                            assert(head[j] == k);
                        }
                    }
                }
                assert forall|k: Seq<char>|
                    self@.contains(k) <==> first.contains(k) || next.contains(k) by {
                    assert(self@.contains(k) <==> held.contains(k) || k == name@);
                }
            }
            i += 1;
        }
        assert(texts(other.names@).subrange(0, other.names@.len() as int) =~= texts(other.names@));
        assert(self@ =~= first.union(other@));
    }
}

/// The number in decimal digits.
pub fn print_usize(n: usize) -> (r: String)
    ensures
        r@ == decimal(n as int),
{
    let mut out = String::new();
    push_decimal(&mut out, n as u64);
    assert(out@ =~= decimal(n as int));
    out
}

// ---------------------------------------------------------------------------
// Counts

/// A count as a machine integer holds it: what is too large counts as the
/// largest.
pub open spec fn capped(n: nat) -> usize {
    if n <= usize::MAX {
        n as usize
    } else {
        usize::MAX
    }
}

/// The sum of two counts.
pub fn add_capped(a: usize, b: usize) -> (r: usize)
    ensures
        r == capped((a + b) as nat),
{
    if a <= usize::MAX - b {
        a + b
    } else {
        usize::MAX
    }
}

/// The length of a text in bytes.
pub open spec fn byte_len(s: Seq<char>) -> int {
    vstd::utf8::encode_utf8(s).len() as usize as int
}

} // verus!
