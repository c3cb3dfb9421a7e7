//! What the lines in front of a rule, and the words of a configuration, say.

use vstd::prelude::*;

use crate::comment_directives::{
    after_equals, braced_list, cardinality_of_range, comment_value, directive, doc_lines,
    first_assignment, first_with, graph_related_of, key_filter_line, key_filter_of, mentions,
    no_scopes, only_if_not_of, options_of, required_scopes_of, scope_line, scope_pairs,
    scope_pairs_text, with_scope,
};
use crate::rule_converter::unquoted;
use crate::rules_types::{ReferenceDetailV, ReplaceScopesV, Severity};
use crate::scope_laws::repeated;
use crate::text::{
    CharSet, contains_text, decimal, decimal_nat, find_text_from, find_text_spec, is_digit,
    is_white, is_word_char, lemma_skip_back, lemma_skip_in, occurs_at, skip_in,
    split_once_text_spec, starts, trim_start_of, trimmed, words,
};
use crate::text_laws::{
    has_bare_ends, is_free_of, is_one_word, law_first_word, law_space_before, law_split_first,
    law_trim, lemma_find_is, lemma_skip_is, lemma_trim_bare,
};
use crate::value_laws::{law_decimal_is_read, lemma_decimal_nat};

verus! {

// ---------------------------------------------------------------------------
// Lines that set something

/// A line that sets `word` to `value`.
pub open spec fn setting(word: Seq<char>, value: Seq<char>) -> Seq<char> {
    "## "@ + word + " = "@ + value
}

/// The line is the `i`th comment, and none before it has the word in it.
pub open spec fn is_first_with(
    comments: Seq<Seq<char>>,
    word: Seq<char>,
    i: int,
    line: Seq<char>,
) -> bool {
    &&& 0 <= i < comments.len()
    &&& comments[i] == line
    &&& forall|j: int| 0 <= j < i ==> !contains_text(#[trigger] comments[j], word)
}

proof fn lemma_first_with(comments: Seq<Seq<char>>, word: Seq<char>, k: int, i: int)
    requires
        0 <= k <= i < comments.len(),
        contains_text(comments[i], word),
        forall|j: int| k <= j < i ==> !contains_text(#[trigger] comments[j], word),
    ensures
        first_with(comments, word, k) == Some(comments[i]),
    decreases i - k,
{
    if k < i {
        lemma_first_with(comments, word, k + 1, i);
    }
}

/// A name that stands for itself: of letters, digits and underscores.
pub open spec fn is_name(s: Seq<char>) -> bool {
    s.len() > 0 && forall|i: int| 0 <= i < s.len() ==> is_word_char(#[trigger] s[i])
}

pub proof fn lemma_name(s: Seq<char>)
    requires
        is_name(s),
    ensures
        is_one_word(s),
        is_free_of(s, CharSet::One('=')),
        is_free_of(s, CharSet::One('}')),
        is_free_of(s, CharSet::One('.')),
        is_free_of(s, CharSet::One('/')),
        has_bare_ends(s, CharSet::White),
        has_bare_ends(s, CharSet::BraceOrWhite),
        has_bare_ends(s, CharSet::Either('{', '}')),
        has_bare_ends(s, CharSet::One('#')),
        has_bare_ends(s, CharSet::One('"')),
        unquoted(s) == s,
        s[0] != '{' && s[0] != '#' && s[0] != '<' && s[0] != '=' && s[0] != '@' && s[0] != '['
            && s[0] != '~',
        s.last() != '}',
{
    assert forall|i: int| 0 <= i < s.len() implies !is_white(#[trigger] s[i]) && s[i] != '='
        && s[i] != '}' && s[i] != '.' && s[i] != '/' && s[i] != '{' && s[i] != '#' && s[i] != '<'
        && s[i] != '@' && s[i] != '[' && s[i] != '"' && s[i] != '~' by {
        assert(is_word_char(s[i]));
    }
    assert(is_word_char(s[0]) && is_word_char(s.last()));
}

/// What a line sets is read back, if it is the first with that word.
pub proof fn law_settings_are_read(
    comments: Seq<Seq<char>>,
    i: int,
    word: Seq<char>,
    value: Seq<char>,
)
    requires
        is_name(word),
        has_bare_ends(value, CharSet::White),
        is_first_with(comments, word, i, setting(word, value)),
    ensures
        directive(comments, word) == Some(value),
        mentions(comments, word),
{
    let line = setting(word, value);
    reveal_strlit("## ");
    reveal_strlit(" = ");
    assert(line.subrange(3, 3 + word.len() as int) =~= word);
    assert(occurs_at(line, word, 3));
    lemma_first_with(comments, word, 0, i);
    let a = "## "@ + word + seq![' '];
    let b = seq![' '] + value;
    assert(line =~= a + seq!['='] + b);
    lemma_name(word);
    assert forall|k: int| 0 <= k < a.len() implies !CharSet::One('=').has(#[trigger] a[k]) by {
        if 3 <= k < 3 + word.len() {
            assert(a[k] == word[k - 3]);
            assert(!CharSet::One('=').has(word[k - 3]));
        }
    }
    law_split_first(a, '=', b);
    let none = Seq::<char>::empty();
    law_trim(seq![' '], value, none, CharSet::White);
    assert(seq![' '] + value + none =~= b);
}

// ---------------------------------------------------------------------------
// Scopes that a rule replaces

/// The pairs `key = value`, each with a space behind it.
pub open spec fn pairs_text(pairs: Seq<(Seq<char>, Seq<char>)>, n: int) -> Seq<char>
    decreases n,
{
    if n <= 0 || n > pairs.len() {
        Seq::empty()
    } else {
        pairs_text(pairs, n - 1) + pairs[n - 1].0 + " = "@ + pairs[n - 1].1 + " "@
    }
}

/// A line that replaces scopes.
pub open spec fn replacing(pairs: Seq<(Seq<char>, Seq<char>)>) -> Seq<char> {
    "## replace_scope = { "@ + pairs_text(pairs, pairs.len() as int) + "}"@
}

/// What the last of the first `n` pairs with that key gives.
pub open spec fn given(pairs: Seq<(Seq<char>, Seq<char>)>, key: Seq<char>, n: int) -> Option<
    Seq<char>,
>
    decreases n,
{
    if n <= 0 || n > pairs.len() {
        None
    } else if pairs[n - 1].0 == key {
        Some(pairs[n - 1].1)
    } else {
        given(pairs, key, n - 1)
    }
}

/// The list has the name at that place; where none is given, it is shorter or has an empty
/// name there.
pub open spec fn has_at(list: Seq<Seq<char>>, i: int, name: Option<Seq<char>>) -> bool {
    match name {
        Some(v) => i < list.len() && list[i] == v,
        None => i >= list.len() || list[i].len() == 0,
    }
}

/// Each scope is the one given under its own name.
pub open spec fn are_given(
    r: ReplaceScopesV,
    pairs: Seq<(Seq<char>, Seq<char>)>,
    n: int,
) -> bool {
    &&& r.this == given(pairs, "this"@, n)
    &&& r.root == given(pairs, "root"@, n)
    &&& has_at(r.froms, 0, given(pairs, repeated("from"@, 1), n))
    &&& has_at(r.froms, 1, given(pairs, repeated("from"@, 2), n))
    &&& has_at(r.froms, 2, given(pairs, repeated("from"@, 3), n))
    &&& has_at(r.froms, 3, given(pairs, repeated("from"@, 4), n))
    &&& has_at(r.prevs, 0, given(pairs, repeated("prev"@, 1), n))
    &&& has_at(r.prevs, 1, given(pairs, repeated("prev"@, 2), n))
    &&& has_at(r.prevs, 2, given(pairs, repeated("prev"@, 3), n))
    &&& has_at(r.prevs, 3, given(pairs, repeated("prev"@, 4), n))
}

spec fn folded_scopes(pairs: Seq<(Seq<char>, Seq<char>)>, n: int) -> ReplaceScopesV
    decreases n,
{
    if n <= 0 || n > pairs.len() {
        no_scopes()
    } else {
        with_scope(folded_scopes(pairs, n - 1), pairs[n - 1].0, pairs[n - 1].1)
    }
}

#[verifier::rlimit(50)]
proof fn lemma_folded(pairs: Seq<(Seq<char>, Seq<char>)>, n: int)
    requires
        0 <= n <= pairs.len(),
    ensures
        are_given(folded_scopes(pairs, n), pairs, n),
    decreases n,
{
    reveal_strlit("this");
    reveal_strlit("root");
    reveal_strlit("prev");
    reveal_strlit("prevprev");
    reveal_strlit("prevprevprev");
    reveal_strlit("prevprevprevprev");
    reveal_strlit("from");
    reveal_strlit("fromfrom");
    reveal_strlit("fromfromfrom");
    reveal_strlit("fromfromfromfrom");
    reveal_with_fuel(repeated, 5);
    assert(repeated("prev"@, 1) =~= "prev"@);
    assert(repeated("prev"@, 2) =~= "prevprev"@);
    assert(repeated("prev"@, 3) =~= "prevprevprev"@);
    assert(repeated("prev"@, 4) =~= "prevprevprevprev"@);
    assert(repeated("from"@, 1) =~= "from"@);
    assert(repeated("from"@, 2) =~= "fromfrom"@);
    assert(repeated("from"@, 3) =~= "fromfromfrom"@);
    assert(repeated("from"@, 4) =~= "fromfromfromfrom"@);
    assert("this"@[0] == 't' && "root"@[0] == 'r' && "prev"@[0] == 'p' && "from"@[0] == 'f');
    assert("prevprev"@[0] == 'p' && "fromfrom"@[0] == 'f');
    assert("prevprevprev"@[0] == 'p' && "fromfromfrom"@[0] == 'f');
    assert("prevprevprevprev"@[0] == 'p' && "fromfromfromfrom"@[0] == 'f');
    if n > 0 {
        lemma_folded(pairs, n - 1);
    }
}

spec fn tokens_of(pairs: Seq<(Seq<char>, Seq<char>)>, n: int) -> Seq<Seq<char>>
    decreases n,
{
    if n <= 0 || n > pairs.len() {
        Seq::empty()
    } else {
        tokens_of(pairs, n - 1) + seq![pairs[n - 1].0, "="@, pairs[n - 1].1]
    }
}

spec fn is_pair_at(
    pairs: Seq<(Seq<char>, Seq<char>)>,
    tokens: Seq<Seq<char>>,
    i: int,
) -> bool {
    tokens[3 * i] == pairs[i].0 && tokens[3 * i + 1] == "="@ && tokens[3 * i + 2] == pairs[i].1
}

proof fn lemma_tokens(pairs: Seq<(Seq<char>, Seq<char>)>, n: int)
    requires
        0 <= n <= pairs.len(),
    ensures
        tokens_of(pairs, n).len() == 3 * n,
        forall|i: int| 0 <= i < n ==> #[trigger] is_pair_at(pairs, tokens_of(pairs, n), i),
    decreases n,
{
    if n > 0 {
        lemma_tokens(pairs, n - 1);
        let now = tokens_of(pairs, n);
        let before = tokens_of(pairs, n - 1);
        assert forall|i: int| 0 <= i < n implies #[trigger] is_pair_at(pairs, now, i) by {
            if i < n - 1 {
                assert(is_pair_at(pairs, before, i));
                assert(now[3 * i] == before[3 * i]);
                assert(now[3 * i + 1] == before[3 * i + 1]);
                assert(now[3 * i + 2] == before[3 * i + 2]);
            }
        }
    }
}

proof fn lemma_pair_words(pairs: Seq<(Seq<char>, Seq<char>)>, n: int, rest: Seq<char>)
    requires
        0 <= n <= pairs.len(),
        forall|i: int| 0 <= i < n ==> is_name((#[trigger] pairs[i]).0) && is_name(pairs[i].1),
    ensures
        words(pairs_text(pairs, n) + rest) == tokens_of(pairs, n) + words(rest),
    decreases n,
{
    if n > 0 {
        let (k, v) = pairs[n - 1];
        reveal_strlit(" = ");
        reveal_strlit(" ");
        reveal_strlit("=");
        let tail = k + " = "@ + v + " "@ + rest;
        lemma_pair_words(pairs, n - 1, tail);
        assert(pairs_text(pairs, n) + rest =~= pairs_text(pairs, n - 1) + tail);
        lemma_name(k);
        lemma_name(v);
        assert(tail =~= k + seq![' '] + ("="@ + seq![' '] + (v + seq![' '] + rest)));
        law_first_word(k, "="@ + seq![' '] + (v + seq![' '] + rest));
        assert(is_one_word("="@));
        law_first_word("="@, v + seq![' '] + rest);
        law_first_word(v, rest);
        assert(words(tail) =~= seq![k, "="@, v] + words(rest));
        assert(tokens_of(pairs, n) + words(rest) =~= tokens_of(pairs, n - 1) + words(tail));
    } else {
        assert(pairs_text(pairs, 0) + rest =~= rest);
        assert(tokens_of(pairs, 0) + words(rest) =~= words(rest));
    }
}

proof fn lemma_scope_pairs(
    pairs: Seq<(Seq<char>, Seq<char>)>,
    tokens: Seq<Seq<char>>,
    i: int,
)
    requires
        0 <= i <= pairs.len(),
        tokens.len() == 3 * pairs.len(),
        forall|j: int| 0 <= j < pairs.len() ==> #[trigger] is_pair_at(pairs, tokens, j),
    ensures
        scope_pairs(tokens, 3 * i, folded_scopes(pairs, i)) == folded_scopes(
            pairs,
            pairs.len() as int,
        ),
    decreases pairs.len() - i,
{
    if i < pairs.len() {
        lemma_scope_pairs(pairs, tokens, i + 1);
        assert(is_pair_at(pairs, tokens, i));
    }
}

proof fn lemma_free_pairs(pairs: Seq<(Seq<char>, Seq<char>)>, n: int)
    requires
        0 <= n <= pairs.len(),
        forall|i: int| 0 <= i < n ==> is_name((#[trigger] pairs[i]).0) && is_name(pairs[i].1),
    ensures
        is_free_of(pairs_text(pairs, n), CharSet::One('}')),
    decreases n,
{
    if n > 0 {
        lemma_free_pairs(pairs, n - 1);
        reveal_strlit(" = ");
        reveal_strlit(" ");
        let head = pairs_text(pairs, n - 1);
        let (k, v) = pairs[n - 1];
        lemma_name(k);
        lemma_name(v);
        let t = pairs_text(pairs, n);
        let c = CharSet::One('}');
        assert forall|i: int| 0 <= i < t.len() implies !c.has(#[trigger] t[i]) by {
            let a = head.len() as int;
            let b = a + k.len();
            if i < a {
                assert(t[i] == head[i]);
                assert(!c.has(head[i]));
            } else if i < b {
                assert(t[i] == k[i - a]);
                assert(!c.has(k[i - a]));
            } else if b + 3 <= i < b + 3 + v.len() {
                assert(t[i] == v[i - b - 3]);
                assert(!c.has(v[i - b - 3]));
            }
        }
    }
}

/// A line that replaces scopes gives each scope under its own name: `this` the current
/// one, `root` the root, `from` and `prev`, written once or more, the callers and the
/// scopes further out at that depth.
pub proof fn law_replace_scope_lines(
    comments: Seq<Seq<char>>,
    i: int,
    pairs: Seq<(Seq<char>, Seq<char>)>,
    comparison: bool,
)
    requires
        pairs.len() > 0,
        forall|j: int|
            0 <= j < pairs.len() ==> is_name((#[trigger] pairs[j]).0) && is_name(pairs[j].1),
        is_first_with(comments, "replace_scope"@, i, replacing(pairs)),
    ensures
        are_given(
            match options_of(comments, comparison).replace_scopes {
                Some(r) => r,
                None => ReplaceScopesV {
                    root: None,
                    this: None,
                    froms: Seq::empty(),
                    prevs: Seq::empty(),
                },
            },
            pairs,
            pairs.len() as int,
        ),
{
    let n = pairs.len() as int;
    let none = Seq::<char>::empty();
    let inside = pairs_text(pairs, n);
    let line = replacing(pairs);
    lemma_replacing(pairs);
    lemma_first_with(comments, "replace_scope"@, 0, i);
    law_space_before(inside);
    lemma_pair_words(pairs, n, none);
    assert(inside + none =~= inside);
    assert(words(none) =~= Seq::<Seq<char>>::empty());
    lemma_tokens(pairs, n);
    assert(words(seq![' '] + inside) =~= tokens_of(pairs, n));
    lemma_scope_pairs(pairs, tokens_of(pairs, n), 0);
    lemma_folded(pairs, n);
}

/// What stands in the braces of such a line.
#[verifier::rlimit(50)]
proof fn lemma_replacing(pairs: Seq<(Seq<char>, Seq<char>)>)
    requires
        forall|j: int|
            0 <= j < pairs.len() ==> is_name((#[trigger] pairs[j]).0) && is_name(pairs[j].1),
    ensures
        contains_text(replacing(pairs), "replace_scope"@),
        scope_pairs_text(replacing(pairs)) == Some(
            seq![' '] + pairs_text(pairs, pairs.len() as int),
        ),
{
    let n = pairs.len() as int;
    let none = Seq::<char>::empty();
    let inside = pairs_text(pairs, n);
    let line = replacing(pairs);
    let rhs = seq!['{', ' '] + inside + seq!['}'];
    let body = "replace_scope"@ + seq![' ', '=', ' '] + rhs;
    assert(line =~= seq!['#', '#', ' '] + body && contains_text(line, "replace_scope"@)
        && trimmed(trim_start_of(line, CharSet::One('#'))) == body) by {
        reveal_strlit("## replace_scope = { ");
        reveal_strlit("replace_scope");
        reveal_strlit("}");
        assert(line =~= seq!['#', '#', ' '] + body);
        assert(line.subrange(3, 16) =~= "replace_scope"@);
        assert(occurs_at(line, "replace_scope"@, 3));
        lemma_skip_is(line, CharSet::One('#'), 0, 2);
        let after_hash = trim_start_of(line, CharSet::One('#'));
        assert(after_hash =~= seq![' '] + body);
        assert(body[0] == 'r' && body.last() == '}');
        law_trim(seq![' '], body, none, CharSet::White);
        assert(seq![' '] + body + none =~= after_hash);
    }
    assert(find_text_spec(body, "replace_scope"@) == Some(0int)) by {
        assert(body.subrange(0, "replace_scope"@.len() as int) =~= "replace_scope"@);
        assert(occurs_at(body, "replace_scope"@, 0));
    }
    assert(body.subrange(0, body.len() as int) =~= body);
    assert(after_equals(body) == Some(rhs)) by {
        reveal_strlit("replace_scope");
        let a = "replace_scope"@ + seq![' '];
        let b = seq![' '] + rhs;
        assert(body =~= a + seq!['='] + b);
        assert(is_free_of(a, CharSet::One('=')));
        law_split_first(a, '=', b);
        assert(rhs.last() == '}' && rhs[0] == '{');
        law_trim(seq![' '], rhs, none, CharSet::White);
        assert(seq![' '] + rhs + none =~= b);
    }
    lemma_free_pairs(pairs, n);
    assert forall|k: int| 0 <= k < rhs.len() - 1 implies !CharSet::One('}').has(
        #[trigger] rhs[k],
    ) by {
        if k >= 2 {
            assert(rhs[k] == inside[k - 2]);
            assert(!CharSet::One('}').has(inside[k - 2]));
        }
    }
    assert(rhs[rhs.len() - 1] == '}');
    lemma_find_is(rhs, CharSet::One('}'), 0, rhs.len() - 1);
    assert(rhs.subrange(1, rhs.len() - 1) =~= seq![' '] + inside);
}

// ---------------------------------------------------------------------------
// Lists

/// The names, each with a space behind it.
pub open spec fn names_text(names: Seq<Seq<char>>, n: int) -> Seq<char>
    decreases n,
{
    if n <= 0 || n > names.len() {
        Seq::empty()
    } else {
        names_text(names, n - 1) + names[n - 1] + seq![' ']
    }
}

/// A list of names in braces.
pub open spec fn braced(names: Seq<Seq<char>>) -> Seq<char> {
    seq!['{', ' '] + names_text(names, names.len() as int) + seq!['}']
}

pub proof fn lemma_names_words(names: Seq<Seq<char>>, n: int, rest: Seq<char>)
    requires
        0 <= n <= names.len(),
        forall|i: int| 0 <= i < n ==> is_name(#[trigger] names[i]),
    ensures
        words(names_text(names, n) + rest) == names.take(n) + words(rest),
    decreases n,
{
    if n > 0 {
        let w = names[n - 1];
        let tail = w + seq![' '] + rest;
        lemma_names_words(names, n - 1, tail);
        assert(names_text(names, n) + rest =~= names_text(names, n - 1) + tail);
        lemma_name(w);
        law_first_word(w, rest);
        assert(names.take(n) + words(rest) =~= names.take(n - 1) + words(tail));
    } else {
        assert(names_text(names, 0) + rest =~= rest);
        assert(names.take(0) + words(rest) =~= words(rest));
    }
}

proof fn lemma_braced(names: Seq<Seq<char>>)
    requires
        names.len() > 0,
        forall|i: int| 0 <= i < names.len() ==> is_name(#[trigger] names[i]),
    ensures
        has_bare_ends(braced(names), CharSet::White),
        words(braced(names).subrange(1, braced(names).len() - 1)) == names,
        braced_list(braced(names)) == names,
{
    let n = names.len() as int;
    let t = names_text(names, n);
    let b = braced(names);
    let none = Seq::<char>::empty();
    lemma_names_words(names, n, none);
    assert(t + none =~= t);
    assert(words(none) =~= Seq::<Seq<char>>::empty());
    assert(names.take(n) + Seq::<Seq<char>>::empty() =~= names);
    law_space_before(t);
    let inside = seq![' '] + t;
    assert(b.subrange(1, b.len() - 1) =~= inside);
    let set = CharSet::Either('{', '}');
    assert(t == names_text(names, n - 1) + names[n - 1] + seq![' ']);
    assert(t.last() == ' ');
    assert(inside[0] == ' ' && inside.last() == ' ');
    law_trim(seq!['{'], inside, seq!['}'], set);
    assert(seq!['{'] + inside + seq!['}'] =~= b);
    assert(b[0] == '{' && b.last() == '}');
}

/// What a list in braces, or a name alone, is read as.
pub proof fn law_lists(names: Seq<Seq<char>>, name: Seq<char>)
    requires
        names.len() > 0,
        forall|i: int| 0 <= i < names.len() ==> is_name(#[trigger] names[i]),
        is_name(name),
    ensures
        braced_list(braced(names)) == names,
        braced_list(name) == seq![name],
{
    lemma_braced(names);
    lemma_name(name);
}

// ---------------------------------------------------------------------------
// The other lines in front of a rule

/// A line that says how grave a diagnostic is gives that severity.
pub proof fn law_severity_lines(
    comments: Seq<Seq<char>>,
    i: int,
    word: Seq<char>,
    comparison: bool,
)
    requires
        is_name(word),
        is_first_with(comments, "severity"@, i, setting("severity"@, word)),
    ensures
        ({
            let s = options_of(comments, comparison).severity;
            &&& word == "error"@ ==> s == Some(Severity::Error)
            &&& word == "warning"@ ==> s == Some(Severity::Warning)
            &&& word == "info"@ ==> s == Some(Severity::Information)
            &&& word == "information"@ ==> s == Some(Severity::Information)
            &&& word == "hint"@ ==> s == Some(Severity::Hint)
        }),
{
    reveal_strlit("severity");
    lemma_name(word);
    law_settings_are_read(comments, i, "severity"@, word);
    reveal_strlit("error");
    reveal_strlit("warning");
    reveal_strlit("info");
    reveal_strlit("information");
    reveal_strlit("hint");
    assert("hint"@[0] == 'h' && "info"@[0] == 'i');
}

/// A line that pushes a scope gives that scope; one that says what is reported where
/// nothing else matches gives that text.
pub proof fn law_push_lines(
    comments: Seq<Seq<char>>,
    i: int,
    value: Seq<char>,
    comparison: bool,
)
    requires
        has_bare_ends(value, CharSet::White),
    ensures
        is_first_with(comments, "push_scope"@, i, setting("push_scope"@, value)) ==> options_of(
            comments,
            comparison,
        ).push_scope == Some(value),
        is_first_with(
            comments,
            "error_if_only_match"@,
            i,
            setting("error_if_only_match"@, value),
        ) ==> options_of(comments, comparison).error_if_only_match == Some(value),
{
    reveal_strlit("push_scope");
    reveal_strlit("error_if_only_match");
    if is_first_with(comments, "push_scope"@, i, setting("push_scope"@, value)) {
        law_settings_are_read(comments, i, "push_scope"@, value);
    }
    if is_first_with(
        comments,
        "error_if_only_match"@,
        i,
        setting("error_if_only_match"@, value),
    ) {
        law_settings_are_read(comments, i, "error_if_only_match"@, value);
    }
}

/// A line that gives the default of a truth value.
pub proof fn law_default_lines(
    comments: Seq<Seq<char>>,
    i: int,
    word: Seq<char>,
    comparison: bool,
)
    requires
        is_name(word),
        is_first_with(comments, "default_bool"@, i, setting("default_bool"@, word)),
    ensures
        word == "yes"@ ==> options_of(comments, comparison).default_bool == Some(true),
        word == "no"@ ==> options_of(comments, comparison).default_bool == Some(false),
        word != "yes"@ && word != "no"@ ==> options_of(comments, comparison).default_bool is None,
{
    reveal_strlit("default_bool");
    lemma_name(word);
    law_settings_are_read(comments, i, "default_bool"@, word);
    reveal_strlit("yes");
    reveal_strlit("no");
}

/// What stands on both sides of the two dots of a range.
pub proof fn lemma_range(a: Seq<char>, b: Seq<char>)
    requires
        is_free_of(a, CharSet::One('.')),
    ensures
        split_once_text_spec(a + seq!['.', '.'] + b, ".."@) == Some((a, b)),
{
    reveal_strlit("..");
    let s = a + seq!['.', '.'] + b;
    let n = a.len() as int;
    assert(s.subrange(n, n + 2) =~= ".."@);
    lemma_find_text(s, ".."@, 0, n);
    assert(s.subrange(0, n) =~= a);
    assert(s.subrange(n + 2, s.len() as int) =~= b);
}

proof fn lemma_find_text(s: Seq<char>, p: Seq<char>, i: int, n: int)
    requires
        0 <= i <= n <= s.len(),
        occurs_at(s, p, n),
        p.len() > 0,
        p[0] == '.',
        forall|k: int| 0 <= k < n ==> (#[trigger] s[k]) != '.',
    ensures
        find_text_from(s, p, i) == Some(n),
    decreases n - i,
{
    if i < n {
        if occurs_at(s, p, i) {
            assert(s.subrange(i, i + p.len())[0] == s[i]);
            assert(false);
        }
        lemma_find_text(s, p, i + 1, n);
    }
}

pub proof fn lemma_decimal_text(n: int)
    ensures
        decimal(n).len() > 0,
        is_free_of(decimal(n), CharSet::One('.')),
        has_bare_ends(decimal(n), CharSet::White),
        decimal(n)[0] != '~' && decimal(n)[0] != 'i',
        decimal(n) != "inf"@,
        decimal(n) != "-inf"@,
{
    reveal_strlit("inf");
    reveal_strlit("-inf");
    let d = decimal(n);
    if n < 0 {
        lemma_decimal_nat(-n);
    } else {
        lemma_decimal_nat(n);
    }
    assert forall|i: int| 0 <= i < d.len() implies is_digit(#[trigger] d[i]) || (i == 0 && d[i]
        == '-') by {
        if n < 0 {
            if i > 0 {
                assert(d[i] == decimal_nat(-n)[i - 1]);
                assert(is_digit(decimal_nat(-n)[i - 1]));
            }
        } else {
            assert(is_digit(decimal_nat(n)[i]));
        }
    }
    assert(is_digit(d[0]) || d[0] == '-');
    assert(is_digit(d[d.len() - 1]) || d[d.len() - 1] == '-');
    if d == "-inf"@ {
        assert(is_digit(d[1]));
    }
}

/// A line that says how often a field may stand gives its least and its most number; a
/// `~` says that the least is not insisted on, and `inf` that there is no most.
pub proof fn law_cardinality_lines(
    comments: Seq<Seq<char>>,
    i: int,
    least: i32,
    most: i32,
    comparison: bool,
)
    ensures
        ({
            let o = options_of(comments, comparison);
            let lo = decimal(least as int);
            let hi = decimal(most as int);
            let word = "cardinality"@;
            let dots = seq!['.', '.'];
            &&& is_first_with(comments, word, i, setting(word, lo + dots + hi)) ==> o.min == least
                && o.max == most && o.strict_min
            &&& is_first_with(comments, word, i, setting(word, seq!['~'] + lo + dots + hi))
                ==> o.min == least && o.max == most && !o.strict_min
            &&& is_first_with(comments, word, i, setting(word, lo + dots + "inf"@)) ==> o.min
                == least && o.max == i32::MAX && o.strict_min
        }),
{
    lemma_cardinality_line(least, most);
    let lo = decimal(least as int);
    let hi = decimal(most as int);
    let word = "cardinality"@;
    let dots = seq!['.', '.'];
    reveal_strlit("cardinality");
    let a = lo + dots + hi;
    if is_first_with(comments, word, i, setting(word, a)) {
        law_settings_are_read(comments, i, word, a);
    }
    let b = seq!['~'] + lo + dots + hi;
    if is_first_with(comments, word, i, setting(word, b)) {
        law_settings_are_read(comments, i, word, b);
    }
    let c = lo + dots + "inf"@;
    if is_first_with(comments, word, i, setting(word, c)) {
        law_settings_are_read(comments, i, word, c);
    }
}

#[verifier::rlimit(50)]
proof fn lemma_cardinality_line(least: i32, most: i32)
    ensures
        ({
            let lo = decimal(least as int);
            let hi = decimal(most as int);
            let dots = seq!['.', '.'];
            let a = lo + dots + hi;
            let b = seq!['~'] + lo + dots + hi;
            let c = lo + dots + "inf"@;
            &&& has_bare_ends(a, CharSet::White)
            &&& has_bare_ends(b, CharSet::White)
            &&& has_bare_ends(c, CharSet::White)
            &&& cardinality_of_range(a) == (least, most, true)
            &&& cardinality_of_range(b) == (least, most, false)
            &&& cardinality_of_range(c) == (least, i32::MAX, true)
        }),
{
    let lo = decimal(least as int);
    let hi = decimal(most as int);
    let dots = seq!['.', '.'];
    let white = CharSet::White;
    lemma_decimal_text(least as int);
    lemma_decimal_text(most as int);
    law_decimal_is_read(least as int);
    law_decimal_is_read(most as int);
    lemma_trim_bare(lo, white);
    lemma_trim_bare(hi, white);
    let a = lo + dots + hi;
    assert(a[0] == lo[0] && a.last() == hi.last());
    lemma_range(lo, hi);
    let soft = seq!['~'] + lo;
    let b = soft + dots + hi;
    assert(b[0] == '~' && b.last() == hi.last());
    assert forall|k: int| 0 <= k < soft.len() implies !CharSet::One('.').has(#[trigger] soft[k]) by {
        if k > 0 {
            assert(soft[k] == lo[k - 1]);
            assert(!CharSet::One('.').has(lo[k - 1]));
        }
    }
    lemma_range(soft, hi);
    assert(soft[0] == '~' && soft.last() == lo.last());
    lemma_trim_bare(soft, white);
    assert(soft.subrange(1, soft.len() as int) =~= lo);
    reveal_strlit("inf");
    let c = lo + dots + "inf"@;
    assert(c[0] == lo[0] && c.last() == 'f');
    lemma_range(lo, "inf"@);
    assert("inf"@[0] == 'i' && "inf"@.last() == 'f');
    lemma_trim_bare("inf"@, white);
}

/// A field without such a line stands exactly once.
pub proof fn law_no_cardinality_line(comments: Seq<Seq<char>>, comparison: bool)
    requires
        forall|j: int|
            0 <= j < comments.len() ==> !contains_text(#[trigger] comments[j], "cardinality"@),
    ensures
        options_of(comments, comparison).min == 1,
        options_of(comments, comparison).max == 1,
        options_of(comments, comparison).strict_min,
{
    lemma_none_with(comments, "cardinality"@, 0);
}

proof fn lemma_none_with(comments: Seq<Seq<char>>, word: Seq<char>, k: int)
    requires
        0 <= k <= comments.len(),
        forall|j: int| k <= j < comments.len() ==> !contains_text(#[trigger] comments[j], word),
    ensures
        first_with(comments, word, k) is None,
    decreases comments.len() - k,
{
    if k < comments.len() {
        lemma_none_with(comments, word, k + 1);
    }
}

proof fn lemma_hashes(body: Seq<char>)
    requires
        has_bare_ends(body, CharSet::White),
        body[0] != '#',
    ensures
        trimmed(trim_start_of("## "@ + body, CharSet::One('#'))) == body,
{
    reveal_strlit("## ");
    let line = "## "@ + body;
    let none = Seq::<char>::empty();
    lemma_skip_is(line, CharSet::One('#'), 0, 2);
    let after_hash = trim_start_of(line, CharSet::One('#'));
    assert(after_hash =~= seq![' '] + body);
    law_trim(seq![' '], body, none, CharSet::White);
    assert(seq![' '] + body + none =~= after_hash);
}

/// The last line in front of a rule, where it says in which scopes the rule may be used,
/// gives those scopes.
pub proof fn law_scope_lines(
    comments: Seq<Seq<char>>,
    name: Seq<char>,
    names: Seq<Seq<char>>,
    comparison: bool,
)
    requires
        comments.len() > 0,
        is_name(name),
        names.len() > 0,
        forall|i: int| 0 <= i < names.len() ==> is_name(#[trigger] names[i]),
    ensures
        comments.last() == setting("scope"@, name) ==> options_of(
            comments,
            comparison,
        ).required_scopes == seq![name],
        comments.last() == setting("scope"@, braced(names)) ==> options_of(
            comments,
            comparison,
        ).required_scopes == names,
{
    lemma_name(name);
    lemma_braced(names);
    lemma_scope_line(name);
    lemma_scope_line(braced(names));
}

proof fn lemma_scope_line(value: Seq<char>)
    requires
        has_bare_ends(value, CharSet::White),
    ensures
        scope_line(setting("scope"@, value)) == (if value[0] == '{' && value.last() == '}' {
            Some(words(value.subrange(1, value.len() - 1)))
        } else {
            Some(seq![value])
        }),
{
    reveal_strlit("scope");
    reveal_strlit(" = ");
    reveal_strlit("=");
    let none = Seq::<char>::empty();
    let body = "scope"@ + " = "@ + value;
    assert(setting("scope"@, value) =~= "## "@ + body);
    assert(body[0] == 's' && body.last() == value.last());
    lemma_hashes(body);
    assert(body.subrange(0, 5) =~= "scope"@);
    let rest = " = "@ + value;
    assert(body.subrange(5, body.len() as int) =~= rest);
    let eq = seq!['=', ' '] + value;
    lemma_skip_is(rest, CharSet::White, 0, 1);
    assert(trim_start_of(rest, CharSet::White) =~= eq);
    assert(eq.subrange(0, 1) =~= "="@);
    let r = seq![' '] + value;
    assert(eq.subrange(1, eq.len() as int) =~= r);
    law_trim(seq![' '], value, none, CharSet::White);
    assert(seq![' '] + value + none =~= r);
}

/// The last line in front of a type, where it says for which keys the type is, or with
/// `<>` for which it is not, gives those keys.
pub proof fn law_filter_lines(
    comments: Seq<Seq<char>>,
    name: Seq<char>,
    names: Seq<Seq<char>>,
)
    requires
        comments.len() > 0,
        is_name(name),
        names.len() > 0,
        forall|i: int| 0 <= i < names.len() ==> is_name(#[trigger] names[i]),
    ensures
        ({
            let f = key_filter_of(comments, comments.len() as int);
            let word = "## type_key_filter"@;
            &&& comments.last() == word + " = "@ + name ==> f == Some((seq![name], false))
            &&& comments.last() == word + " <> "@ + name ==> f == Some((seq![name], true))
            &&& comments.last() == word + " = "@ + braced(names) ==> f == Some((names, false))
            &&& comments.last() == word + " <> "@ + braced(names) ==> f == Some((names, true))
        }),
{
    lemma_name(name);
    lemma_braced(names);
    lemma_filter_line(name);
    lemma_filter_line(braced(names));
}

#[verifier::rlimit(50)]
proof fn lemma_filter_line(value: Seq<char>)
    requires
        has_bare_ends(value, CharSet::White),
    ensures
        key_filter_line("## type_key_filter"@ + " = "@ + value) == Some(
            (braced_list(value), false),
        ),
        key_filter_line("## type_key_filter"@ + " <> "@ + value) == Some(
            (braced_list(value), true),
        ),
{
    reveal_strlit("## type_key_filter");
    reveal_strlit("type_key_filter");
    reveal_strlit("##");
    reveal_strlit(" = ");
    reveal_strlit(" <> ");
    reveal_strlit("<>");
    reveal_strlit("=");
    let none = Seq::<char>::empty();
    let white = CharSet::White;
    law_trim(seq![' '], value, none, white);
    assert(seq![' '] + value + none =~= seq![' '] + value);
    // With `=`.
    let a = "## type_key_filter"@ + " = "@ + value;
    let tail_a = " = "@ + value;
    assert(a.subrange(0, 2) =~= "##"@);
    let rest_a = a.subrange(2, a.len() as int);
    assert(rest_a[0] == ' ');
    let name_a = "type_key_filter"@ + tail_a;
    assert(rest_a =~= seq![' '] + name_a);
    lemma_skip_is(rest_a, white, 0, 1);
    assert(trim_start_of(rest_a, white) =~= name_a);
    assert(name_a.subrange(0, 15) =~= "type_key_filter"@);
    assert(name_a.subrange(15, name_a.len() as int) =~= tail_a);
    let eq = seq!['=', ' '] + value;
    lemma_skip_is(tail_a, white, 0, 1);
    assert(trim_start_of(tail_a, white) =~= eq);
    assert(!starts(eq, "<>"@)) by {
        if starts(eq, "<>"@) {
            assert(eq.subrange(0, 2)[0] == '=');
        }
    }
    assert(eq.subrange(0, 1) =~= "="@);
    assert(eq.subrange(1, eq.len() as int) =~= seq![' '] + value);
    // With `<>`.
    let b = "## type_key_filter"@ + " <> "@ + value;
    let tail_b = " <> "@ + value;
    assert(b.subrange(0, 2) =~= "##"@);
    let rest_b = b.subrange(2, b.len() as int);
    assert(rest_b[0] == ' ');
    let name_b = "type_key_filter"@ + tail_b;
    assert(rest_b =~= seq![' '] + name_b);
    lemma_skip_is(rest_b, white, 0, 1);
    assert(trim_start_of(rest_b, white) =~= name_b);
    assert(name_b.subrange(0, 15) =~= "type_key_filter"@);
    assert(name_b.subrange(15, name_b.len() as int) =~= tail_b);
    let ne = seq!['<', '>', ' '] + value;
    lemma_skip_is(tail_b, white, 0, 1);
    assert(trim_start_of(tail_b, white) =~= ne);
    assert(ne.subrange(0, 2) =~= "<>"@);
    assert(ne.subrange(2, ne.len() as int) =~= seq![' '] + value);
}

/// The lines that name the subtypes that a subtype does not go with, and the types that a
/// type is related to, give those names.
pub proof fn law_list_lines(
    comments: Seq<Seq<char>>,
    i: int,
    names: Seq<Seq<char>>,
)
    requires
        names.len() > 0,
        forall|k: int| 0 <= k < names.len() ==> is_name(#[trigger] names[k]),
    ensures
        is_first_with(comments, "only_if_not"@, i, setting("only_if_not"@, braced(names)))
            ==> only_if_not_of(comments) == names,
        is_first_with(
            comments,
            "graph_related_types"@,
            i,
            setting("graph_related_types"@, braced(names)),
        ) ==> graph_related_of(comments) == names,
{
    lemma_braced(names);
    reveal_strlit("only_if_not");
    reveal_strlit("graph_related_types");
    if is_first_with(comments, "only_if_not"@, i, setting("only_if_not"@, braced(names))) {
        law_settings_are_read(comments, i, "only_if_not"@, braced(names));
    }
    if is_first_with(
        comments,
        "graph_related_types"@,
        i,
        setting("graph_related_types"@, braced(names)),
    ) {
        law_settings_are_read(comments, i, "graph_related_types"@, braced(names));
    }
}

// ---------------------------------------------------------------------------
// Documentation and labels

/// A line of documentation in front of a rule is its description.
pub proof fn law_doc_lines(text: Seq<char>, comparison: bool)
    requires
        has_bare_ends(text, CharSet::White),
        has_bare_ends(text, CharSet::One('#')),
    ensures
        options_of(seq!["### "@ + text], comparison).description == Some(text),
        options_of(seq!["## "@ + text], comparison).description is None,
{
    reveal_strlit("### ");
    reveal_strlit("## ");
    reveal_strlit("###");
    let none = Seq::<char>::empty();
    let line = "### "@ + text;
    let other = "## "@ + text;
    assert(line.subrange(0, 3) =~= "###"@);
    if starts(other, "###"@) {
        assert(other.subrange(0, 3)[2] == ' ');
    }
    let hash = CharSet::One('#');
    let mid = seq![' '] + text;
    assert(mid[0] == ' ' && mid.last() == text.last());
    law_trim(seq!['#', '#', '#'], mid, none, hash);
    assert(seq!['#', '#', '#'] + mid + none =~= line);
    law_trim(seq![' '], text, none, CharSet::White);
    assert(seq![' '] + text + none =~= mid);
    reveal_with_fuel(doc_lines, 2);
    assert(doc_lines(seq![line], 1) =~= seq![text]);
    assert(doc_lines(seq![other], 1) =~= Seq::<Seq<char>>::empty());
}

/// A line that labels a reference gives the label, of the direction that it names.
pub proof fn law_label_lines(value: Seq<char>, comparison: bool)
    requires
        is_name(value),
        !contains_text(
            setting("incomingReferenceLabel"@, value),
            "outgoingReferenceLabel"@,
        ),
    ensures
        options_of(
            seq![setting("outgoingReferenceLabel"@, value)],
            comparison,
        ).reference_details == Some(ReferenceDetailV::Outgoing(value)),
        options_of(
            seq![setting("incomingReferenceLabel"@, value)],
            comparison,
        ).reference_details == Some(ReferenceDetailV::Incoming(value)),
{
    reveal_strlit("outgoingReferenceLabel");
    reveal_strlit("incomingReferenceLabel");
    lemma_name(value);
    let a = seq![setting("outgoingReferenceLabel"@, value)];
    let b = seq![setting("incomingReferenceLabel"@, value)];
    law_settings_are_read(a, 0, "outgoingReferenceLabel"@, value);
    law_settings_are_read(b, 0, "incomingReferenceLabel"@, value);
    lemma_none_with(b, "outgoingReferenceLabel"@, 0);
}

/// What a line in front of a subtype sets is read back, if it is the first with that word
/// and an equals sign.
pub proof fn law_values_in_comments(
    comments: Seq<Seq<char>>,
    i: int,
    word: Seq<char>,
    value: Seq<char>,
)
    requires
        is_name(word),
        has_bare_ends(value, CharSet::White),
        is_first_with(comments, word, i, setting(word, value)),
    ensures
        comment_value(comments, word) == Some(value),
{
    law_settings_are_read(comments, i, word, value);
    let line = setting(word, value);
    reveal_strlit("## ");
    reveal_strlit(" = ");
    assert(line[4 + word.len() as int] == '=');
    assert(line.contains('='));
    assert(line.subrange(3, 3 + word.len() as int) =~= word);
    assert(occurs_at(line, word, 3));
    lemma_first_with(comments, word, 0, i);
    lemma_first_assignment(comments, word, 0, i);
}

proof fn lemma_first_assignment(comments: Seq<Seq<char>>, word: Seq<char>, k: int, i: int)
    requires
        0 <= k <= i < comments.len(),
        contains_text(comments[i], word) && comments[i].contains('='),
        forall|j: int| k <= j < i ==> !contains_text(#[trigger] comments[j], word),
    ensures
        first_assignment(comments, word, k) == Some(comments[i]),
    decreases i - k,
{
    if k < i {
        lemma_first_assignment(comments, word, k + 1, i);
    }
}

/// A line that says nothing of scopes, or of keys, leaves what the lines before it say.
#[verifier::rlimit(50)]
pub proof fn law_closest_line_counts(comments: Seq<Seq<char>>, n: int)
    requires
        0 < n <= comments.len(),
    ensures
        !contains_text(comments[n - 1], "scope"@) ==> required_scopes_of(comments, n)
            == required_scopes_of(comments, n - 1),
        !contains_text(comments[n - 1], "type_key_filter"@) ==> key_filter_of(comments, n)
            == key_filter_of(comments, n - 1),
        required_scopes_of(comments, 0).len() == 0,
        key_filter_of(comments, 0) is None,
{
    let c = comments[n - 1];
    if !contains_text(c, "scope"@) {
        let hash = CharSet::One('#');
        let a = trim_start_of(c, hash);
        let b = trimmed(a);
        lemma_skip_in(c, hash, 0);
        let x = skip_in(c, hash, 0);
        lemma_skip_in(a, CharSet::White, 0);
        let y = skip_in(a, CharSet::White, 0);
        let t = trim_start_of(a, CharSet::White);
        lemma_skip_back(t, CharSet::White, t.len() as int);
        if starts(b, "scope"@) {
            let w = "scope"@.len() as int;
            assert(b.subrange(0, w) == "scope"@);
            assert(c.subrange(x + y, x + y + w) =~= b.subrange(0, w));
            assert(occurs_at(c, "scope"@, x + y));
        }
        assert(scope_line(c) is None);
    }
    if !contains_text(c, "type_key_filter"@) {
        if starts(c, "##"@) {
            reveal_strlit("##");
            let rest = c.subrange(2, c.len() as int);
            lemma_skip_in(rest, CharSet::White, 0);
            let y = skip_in(rest, CharSet::White, 0);
            let t = trim_start_of(rest, CharSet::White);
            if starts(t, "type_key_filter"@) {
                let w = "type_key_filter"@.len() as int;
                assert(t.subrange(0, w) == "type_key_filter"@);
                assert(c.subrange(2 + y, 2 + y + w) =~= t.subrange(0, w));
                assert(occurs_at(c, "type_key_filter"@, 2 + y));
            }
        }
        assert(key_filter_line(c) is None);
    }
}

} // verus!
