//! How texts that are put together come apart again.

use vstd::prelude::*;

use crate::error_codes::{CodeV, filled, message_of, slot};
use crate::text::{
    CharSet, ascii_lower, before_first, decimal, eq_ci, find_in, is_upper, is_white, joined,
    lemma_find_in, lemma_skip_in, lower_char_spec, occurs_at, replace_from, rfind_in, skip_back,
    skip_in, split_from, split_once_spec, split_spec, trim_end_of, trim_of, trim_start_of, words,
    words_from,
};

verus! {

// ---------------------------------------------------------------------------
// Finding

pub proof fn lemma_find_is(s: Seq<char>, set: CharSet, i: int, j: int)
    requires
        0 <= i <= j <= s.len(),
        forall|k: int| i <= k < j ==> !set.has(#[trigger] s[k]),
        j < s.len() ==> set.has(s[j]),
    ensures
        find_in(s, set, i) == j,
    decreases j - i,
{
    if i < j {
        lemma_find_is(s, set, i + 1, j);
    }
}

pub proof fn lemma_skip_is(s: Seq<char>, set: CharSet, i: int, j: int)
    requires
        0 <= i <= j <= s.len(),
        forall|k: int| i <= k < j ==> set.has(#[trigger] s[k]),
        j < s.len() ==> !set.has(s[j]),
    ensures
        skip_in(s, set, i) == j,
    decreases j - i,
{
    if i < j {
        lemma_skip_is(s, set, i + 1, j);
    }
}

pub proof fn lemma_skip_back_is(s: Seq<char>, set: CharSet, n: int, j: int)
    requires
        0 <= j <= n <= s.len(),
        forall|k: int| j <= k < n ==> set.has(#[trigger] s[k]),
        j > 0 ==> !set.has(s[j - 1]),
    ensures
        skip_back(s, set, n) == j,
    decreases n - j,
{
    if j < n {
        lemma_skip_back_is(s, set, n - 1, j);
    }
}

pub proof fn lemma_rfind_is(s: Seq<char>, set: CharSet, n: int, j: int)
    requires
        0 <= j <= n <= s.len(),
        forall|k: int| j <= k < n ==> !set.has(#[trigger] s[k]),
        j > 0 ==> set.has(s[j - 1]),
    ensures
        rfind_in(s, set, n) == j,
    decreases n - j,
{
    if j < n {
        lemma_rfind_is(s, set, n - 1, j);
    }
}

/// The text holds no character of the set.
pub open spec fn is_free_of(s: Seq<char>, set: CharSet) -> bool {
    forall|i: int| 0 <= i < s.len() ==> !set.has(#[trigger] s[i])
}

/// The text starts and ends with characters outside the set.
pub open spec fn has_bare_ends(s: Seq<char>, set: CharSet) -> bool {
    s.len() > 0 && !set.has(s[0]) && !set.has(s.last())
}

/// To trim a text takes away what stands around it and nothing of the text.
pub proof fn law_trim(before: Seq<char>, s: Seq<char>, after: Seq<char>, set: CharSet)
    requires
        has_bare_ends(s, set),
        forall|i: int| 0 <= i < before.len() ==> set.has(#[trigger] before[i]),
        forall|i: int| 0 <= i < after.len() ==> set.has(#[trigger] after[i]),
    ensures
        trim_of(before + s + after, set) == s,
        trim_start_of(before + s + after, set) == s + after,
        trim_end_of(before + s + after, set) == before + s,
{
    let t = before + s + after;
    assert forall|k: int| 0 <= k < before.len() implies set.has(#[trigger] t[k]) by {
        assert(t[k] == before[k]);
    }
    assert(t[before.len() as int] == s[0]);
    lemma_skip_is(t, set, 0, before.len() as int);
    let u = s + after;
    assert(trim_start_of(t, set) =~= u);
    assert forall|k: int| s.len() <= k < u.len() implies set.has(#[trigger] u[k]) by {
        assert(u[k] == after[k - s.len()]);
    }
    assert(u[s.len() - 1] == s.last());
    lemma_skip_back_is(u, set, u.len() as int, s.len() as int);
    assert(trim_end_of(u, set) =~= s);
    let m = before.len() + s.len();
    assert forall|k: int| m <= k < t.len() implies set.has(#[trigger] t[k]) by {
        assert(t[k] == after[k - m]);
    }
    assert(t[m - 1] == s.last());
    lemma_skip_back_is(t, set, t.len() as int, m as int);
    assert(trim_end_of(t, set) =~= before + s);
}

/// A text that neither starts nor ends with a character of the set is trimmed already.
pub proof fn lemma_trim_bare(s: Seq<char>, set: CharSet)
    requires
        has_bare_ends(s, set) || s.len() == 0,
    ensures
        trim_of(s, set) == s,
        trim_start_of(s, set) == s,
        trim_end_of(s, set) == s,
{
    let none = Seq::<char>::empty();
    if s.len() > 0 {
        law_trim(none, s, none, set);
        assert(none + s + none =~= s);
        assert(s + none =~= s);
        assert(none + s =~= s);
    } else {
        assert(trim_start_of(s, set) =~= s);
        assert(trim_end_of(s, set) =~= s);
    }
}

// ---------------------------------------------------------------------------
// Splitting

proof fn lemma_split_shift(s: Seq<char>, set: CharSet, i: int)
    requires
        0 <= i <= s.len(),
    ensures
        split_from(s, set, i) == split_spec(s.subrange(i, s.len() as int), set),
    decreases s.len() - i,
{
    let t = s.subrange(i, s.len() as int);
    let j = find_in(s, set, i);
    lemma_find_in(s, set, i);
    assert forall|k: int| 0 <= k < j - i implies !set.has(#[trigger] t[k]) by {
        assert(t[k] == s[i + k]);
    }
    if j < s.len() {
        assert(t[j - i] == s[j]);
    }
    lemma_find_is(t, set, 0, j - i);
    if j >= s.len() {
        assert(t.subrange(0, t.len() as int) =~= s.subrange(i, s.len() as int));
    } else {
        assert(t.subrange(0, j - i) =~= s.subrange(i, j));
        lemma_split_shift(s, set, j + 1);
        lemma_split_shift(t, set, j - i + 1);
        assert(t.subrange(j - i + 1, t.len() as int) =~= s.subrange(j + 1, s.len() as int));
    }
}

/// A text without the separator is one part.
pub proof fn law_split_one(s: Seq<char>, set: CharSet)
    requires
        is_free_of(s, set),
    ensures
        split_spec(s, set) == seq![s],
{
    lemma_find_is(s, set, 0, s.len() as int);
    assert(s.subrange(0, s.len() as int) =~= s);
}

/// What stands before the first separator is the first part; the rest comes apart by
/// itself.
pub proof fn law_split_first(a: Seq<char>, c: char, rest: Seq<char>)
    requires
        is_free_of(a, CharSet::One(c)),
    ensures
        split_spec(a + seq![c] + rest, CharSet::One(c)) == seq![a] + split_spec(
            rest,
            CharSet::One(c),
        ),
        split_once_spec(a + seq![c] + rest, c) == Some((a, rest)),
        before_first(a + seq![c] + rest, CharSet::One(c)) == a,
{
    let s = a + seq![c] + rest;
    let set = CharSet::One(c);
    assert forall|k: int| 0 <= k < a.len() implies !set.has(#[trigger] s[k]) by {
        assert(s[k] == a[k]);
    }
    assert(s[a.len() as int] == c);
    lemma_find_is(s, set, 0, a.len() as int);
    assert(s.subrange(0, a.len() as int) =~= a);
    let n = a.len() as int;
    lemma_split_shift(s, set, n + 1);
    assert(s.subrange(n + 1, s.len() as int) =~= rest);
}

// ---------------------------------------------------------------------------
// Words

/// A text of characters other than white space.
pub open spec fn is_one_word(s: Seq<char>) -> bool {
    s.len() > 0 && is_free_of(s, CharSet::White)
}

proof fn lemma_words_shift(s: Seq<char>, i: int)
    requires
        0 <= i <= s.len(),
    ensures
        words_from(s, i) == words(s.subrange(i, s.len() as int)),
    decreases s.len() - i,
{
    let t = s.subrange(i, s.len() as int);
    let set = CharSet::White;
    let a = skip_in(s, set, i);
    lemma_skip_in(s, set, i);
    assert forall|k: int| 0 <= k < a - i implies set.has(#[trigger] t[k]) by {
        assert(t[k] == s[i + k]);
    }
    if a < s.len() {
        assert(t[a - i] == s[a]);
    }
    lemma_skip_is(t, set, 0, a - i);
    if a < s.len() {
        let b = find_in(s, set, a);
        lemma_find_in(s, set, a);
        assert forall|k: int| a - i <= k < b - i implies !set.has(#[trigger] t[k]) by {
            assert(t[k] == s[i + k]);
        }
        if b < s.len() {
            assert(t[b - i] == s[b]);
        }
        lemma_find_is(t, set, a - i, b - i);
        assert(!set.has(s[a]));
        assert(b > a);
        assert(t.subrange(a - i, b - i) =~= s.subrange(a, b));
        lemma_words_shift(s, b);
        lemma_words_shift(t, b - i);
        assert(t.subrange(b - i, t.len() as int) =~= s.subrange(b, s.len() as int));
    }
}

/// A word alone is the only word, with or without white space around it.
pub proof fn law_one_word_text(w: Seq<char>)
    requires
        is_one_word(w),
    ensures
        words(w) == seq![w],
        words(w + seq![' ']) == seq![w],
        words(seq![' '] + w + seq![' ']) == seq![w],
{
    let none = Seq::<char>::empty();
    assert(words(none) =~= Seq::<Seq<char>>::empty());
    let set = CharSet::White;
    lemma_find_is(w, set, 0, w.len() as int);
    assert(words_from(w, w.len() as int) =~= Seq::<Seq<char>>::empty());
    assert(w.subrange(0, w.len() as int) =~= w);
    assert(words(w) =~= seq![w]);
    law_first_word(w, none);
    assert(w + seq![' '] + none =~= w + seq![' ']);
    assert(words(w + seq![' ']) =~= seq![w]);
    law_space_before(w + seq![' ']);
    assert(seq![' '] + (w + seq![' ']) =~= seq![' '] + w + seq![' ']);
}

/// A word and a space are followed by the words of the rest.
pub proof fn law_first_word(w: Seq<char>, rest: Seq<char>)
    requires
        is_one_word(w),
    ensures
        words(w + seq![' '] + rest) == seq![w] + words(rest),
{
    let s = w + seq![' '] + rest;
    let set = CharSet::White;
    let n = w.len() as int;
    assert forall|k: int| 0 <= k < n implies !set.has(#[trigger] s[k]) by {
        assert(s[k] == w[k]);
    }
    assert(s[n] == ' ');
    assert(set.has(' '));
    lemma_skip_is(s, set, 0, 0);
    lemma_find_is(s, set, 0, n);
    assert(s.subrange(0, n) =~= w);
    lemma_words_shift(s, n);
    let t = s.subrange(n, s.len() as int);
    assert(t =~= seq![' '] + rest);
    law_space_before(rest);
}

/// A space in front of a text adds no word.
pub proof fn law_space_before(rest: Seq<char>)
    ensures
        words(seq![' '] + rest) == words(rest),
{
    let t = seq![' '] + rest;
    let set = CharSet::White;
    assert(set.has(t[0]));
    assert(skip_in(t, set, 0) == skip_in(t, set, 1));
    lemma_words_shift(t, 1);
    assert(t.subrange(1, t.len() as int) =~= rest);
    lemma_skip_in(t, set, 1);
    let a = skip_in(t, set, 1);
    assert(words_from(t, 0) == words_from(t, 1));
}

// ---------------------------------------------------------------------------
// Case

/// Lower case is its own lower case, and has the length of the text.
pub proof fn law_lower_twice(s: Seq<char>)
    ensures
        ascii_lower(ascii_lower(s)) == ascii_lower(s),
        ascii_lower(s).len() == s.len(),
{
    let t = ascii_lower(s);
    assert forall|i: int| 0 <= i < s.len() implies ascii_lower(t)[i] == t[i] by {
        let c = s[i];
        if 'A' <= c <= 'Z' {
            let d = lower_char_spec(c);
            assert(d as u32 == (c as u32) + 32);
            assert(d > 'Z');
        }
    }
    assert(ascii_lower(t) =~= t);
}

// ---------------------------------------------------------------------------
// Characters

/// Lower case turns each of the letters `A` to `Z` into the one that it is, and nothing
/// else into anything.
pub proof fn law_letters(c: char, k: int)
    requires
        0 <= k < 26,
    ensures
        lower_char_spec("ABCDEFGHIJKLMNOPQRSTUVWXYZ"@[k]) == "abcdefghijklmnopqrstuvwxyz"@[k],
        !("ABCDEFGHIJKLMNOPQRSTUVWXYZ"@.contains(c)) ==> lower_char_spec(c) == c,
        is_upper("ABCDEFGHIJKLMNOPQRSTUVWXYZ"@[k]),
        !is_upper("abcdefghijklmnopqrstuvwxyz"@[k]),
{
    reveal_strlit("ABCDEFGHIJKLMNOPQRSTUVWXYZ");
    reveal_strlit("abcdefghijklmnopqrstuvwxyz");
    let upper = "ABCDEFGHIJKLMNOPQRSTUVWXYZ"@;
    if 'A' <= c <= 'Z' {
        let i = c as int - 'A' as int;
        assert(upper[i] as int == 'A' as int + i);
        assert(upper[i] == c);
    }
}

/// Spaces, tabs and line ends are white space; letters, digits and the marks of a script
/// are not.
pub proof fn law_white_space(c: char)
    ensures
        is_white(' ') && is_white('\t') && is_white('\n') && is_white('\r') && is_white('\u{a0}'),
        '!' <= c <= '~' ==> !is_white(c),
{
}

/// Two texts are the same but for case exactly if their lower cases are the same.
pub proof fn law_same_but_for_case(a: Seq<char>, b: Seq<char>)
    ensures
        eq_ci(a, b) <==> a.len() == b.len() && forall|i: int|
            0 <= i < a.len() ==> lower_char_spec(#[trigger] a[i]) == lower_char_spec(b[i]),
{
    if eq_ci(a, b) {
        assert(ascii_lower(a).len() == ascii_lower(b).len());
        assert forall|i: int| 0 <= i < a.len() implies lower_char_spec(#[trigger] a[i])
            == lower_char_spec(b[i]) by {
            assert(ascii_lower(a)[i] == ascii_lower(b)[i]);
        }
    }
    if a.len() == b.len() && (forall|i: int|
        0 <= i < a.len() ==> lower_char_spec(#[trigger] a[i]) == lower_char_spec(b[i])) {
        assert(ascii_lower(a) =~= ascii_lower(b));
    }
}

// ---------------------------------------------------------------------------
// Joining

/// What is joined comes apart into the same parts.
pub proof fn law_join_and_split(parts: Seq<Seq<char>>, c: char, n: int, rest: Seq<char>)
    requires
        0 < n <= parts.len(),
        forall|i: int| 0 <= i < parts.len() ==> is_free_of(#[trigger] parts[i], CharSet::One(c)),
        is_free_of(rest, CharSet::One(c)),
    ensures
        split_spec(joined(parts, seq![c], n), CharSet::One(c)) == parts.take(n),
        split_spec(joined(parts, seq![c], n) + seq![c] + rest, CharSet::One(c)) == parts.take(
            n,
        ).push(rest),
    decreases n,
{
    let sep = seq![c];
    if n == 1 {
        assert(joined(parts, sep, 1) == parts[0]);
        law_split_one(parts[0], CharSet::One(c));
        law_split_first(parts[0], c, rest);
        law_split_one(rest, CharSet::One(c));
        assert(parts.take(1) =~= seq![parts[0]]);
        assert(seq![parts[0]] + seq![rest] =~= parts.take(1).push(rest));
    } else {
        let last = parts[n - 1];
        law_join_and_split(parts, c, n - 1, last);
        let head = joined(parts, sep, n - 1);
        assert(joined(parts, sep, n) == head + sep + last);
        assert(parts.take(n) =~= parts.take(n - 1).push(last));
        lemma_split_last(head + sep + last, c, rest);
        assert(head + sep + last + sep + rest =~= (head + sep + last) + sep + rest);
    }
}

proof fn lemma_split_last(s: Seq<char>, c: char, rest: Seq<char>)
    requires
        is_free_of(rest, CharSet::One(c)),
    ensures
        split_spec(s + seq![c] + rest, CharSet::One(c)) == split_spec(s, CharSet::One(c)).push(
            rest,
        ),
    decreases s.len(),
{
    let set = CharSet::One(c);
    lemma_find_in(s, set, 0);
    let j = find_in(s, set, 0);
    if j >= s.len() {
        law_split_one(s, set);
        law_split_first(s, c, rest);
        law_split_one(rest, set);
        assert(seq![s] + seq![rest] =~= seq![s].push(rest));
    } else {
        let a = s.subrange(0, j);
        let b = s.subrange(j + 1, s.len() as int);
        assert(s =~= a + seq![c] + b);
        assert(is_free_of(a, set)) by {
            assert forall|k: int| 0 <= k < a.len() implies !set.has(#[trigger] a[k]) by {
                assert(a[k] == s[k]);
            }
        }
        law_split_first(a, c, b);
        lemma_split_last(b, c, rest);
        law_split_first(a, c, b + seq![c] + rest);
        assert(s + seq![c] + rest =~= a + seq![c] + (b + seq![c] + rest));
        assert(seq![a] + split_spec(b, set).push(rest) =~= (seq![a] + split_spec(b, set)).push(
            rest,
        ));
    }
}

// ---------------------------------------------------------------------------
// Messages

proof fn lemma_replace_none(s: Seq<char>, p: Seq<char>, with: Seq<char>, i: int)
    requires
        p.len() > 0,
        0 <= i <= s.len(),
        forall|k: int| i <= k < s.len() ==> (#[trigger] s[k]) != p[0],
    ensures
        replace_from(s, p, with, i) == s.subrange(i, s.len() as int),
    decreases s.len() - i,
{
    if i < s.len() {
        if occurs_at(s, p, i) {
            assert(s.subrange(i, i + p.len())[0] == s[i]);
        }
        lemma_replace_none(s, p, with, i + 1);
        assert(seq![s[i]] + s.subrange(i + 1, s.len() as int) =~= s.subrange(i, s.len() as int));
    } else {
        assert(s.subrange(i, s.len() as int) =~= Seq::<char>::empty());
    }
}

/// The only occurrence of a text is replaced, and what stands around it stays.
pub proof fn law_replace_one(a: Seq<char>, p: Seq<char>, b: Seq<char>, with: Seq<char>, i: int)
    requires
        p.len() > 0,
        0 <= i <= a.len(),
        forall|k: int| 0 <= k < a.len() ==> (#[trigger] a[k]) != p[0],
        forall|k: int| 0 <= k < b.len() ==> (#[trigger] b[k]) != p[0],
    ensures
        replace_from(a + p + b, p, with, i) == a.subrange(i, a.len() as int) + with + b,
    decreases a.len() - i,
{
    let s = a + p + b;
    if i < a.len() {
        assert(s[i] == a[i]);
        if occurs_at(s, p, i) {
            assert(s.subrange(i, i + p.len())[0] == s[i]);
        }
        law_replace_one(a, p, b, with, i + 1);
        assert(seq![s[i]] + (a.subrange(i + 1, a.len() as int) + with + b) =~= a.subrange(
            i,
            a.len() as int,
        ) + with + b);
    } else {
        let n = a.len() as int;
        assert(s.subrange(n, n + p.len()) =~= p);
        assert(occurs_at(s, p, n));
        assert forall|k: int| n + p.len() <= k < s.len() implies (#[trigger] s[k]) != p[0] by {
            assert(s[k] == b[k - n - p.len()]);
        }
        lemma_replace_none(s, p, with, n + p.len());
        assert(s.subrange(n + p.len(), s.len() as int) =~= b);
        assert(a.subrange(n, n) + with + b =~= with + b);
    }
}

/// A message is its template with the parameter in its place.
pub proof fn law_messages(code: CodeV, a: Seq<char>, b: Seq<char>, param: Seq<char>)
    requires
        code.template == a + "{0}"@ + b,
        is_free_of(a, CharSet::One('{')),
        is_free_of(b, CharSet::One('{')),
    ensures
        message_of(code, seq![param]) == a + param + b,
{
    reveal_strlit("{0}");
    reveal_strlit("{");
    reveal_strlit("}");
    assert(decimal(0) =~= seq!['0']);
    assert(slot(0) =~= "{0}"@);
    assert forall|k: int| 0 <= k < a.len() implies (#[trigger] a[k]) != '{' by {
        assert(!CharSet::One('{').has(a[k]));
    }
    assert forall|k: int| 0 <= k < b.len() implies (#[trigger] b[k]) != '{' by {
        assert(!CharSet::One('{').has(b[k]));
    }
    law_replace_one(a, "{0}"@, b, param, 0);
    assert(a.subrange(0, a.len() as int) =~= a);
    reveal_with_fuel(filled, 2);
}

} // verus!
