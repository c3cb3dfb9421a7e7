//! Interning: each text gets an id for itself and one for its lower case, so that
//! texts can be compared, with or without regard to case, by comparing ids.

use vstd::prelude::*;
use vstd::string::*;

use crate::name_counts::SeenNames;
use crate::name_map::NameMap;
use crate::text::{add_capped, capped, lowercase, opt_text, texts, to_lowercase};

verus! {

/// The id of an interned text.
#[derive(Clone, Copy, Debug, PartialEq, Eq, Hash, PartialOrd, Ord, Structural)]
pub struct StringId(pub u32);

impl StringId {
    /// An id that no text ever has.
    pub fn null() -> (r: StringId)
        ensures
            r.0 == u32::MAX,
    {
        StringId(u32::MAX)
    }
}

/// The ids of a text: `normal` for itself, `lower` for its lower case.
#[derive(Clone, Copy, Debug, PartialEq, Eq, Hash, Structural)]
pub struct StringTokens {
    pub lower: StringId,
    pub normal: StringId,
}

impl DeepView for StringTokens {
    type V = StringTokens;

    open spec fn deep_view(&self) -> StringTokens {
        *self
    }
}

/// The model of a [`StringTable`].
#[verifier::ext_equal]
pub struct TableV {
    /// The text of each id.
    pub strings: Seq<Seq<char>>,
    /// The ids of each text that was interned.
    pub exact: Map<Seq<char>, StringTokens>,
    /// The ids of each lower case; both are the same.
    pub lower: Map<Seq<char>, StringTokens>,
}

/// The ids of the empty text.
pub open spec fn empty_tokens() -> StringTokens {
    StringTokens { lower: StringId(0), normal: StringId(0) }
}

/// The ids that interning `s` gives: those it has, or new ones. A new text gets
/// the next id; its lower case keeps its id, or gets the one behind.
pub open spec fn tokens_for(t: TableV, s: Seq<char>) -> StringTokens {
    let n = t.strings.len();
    if t.exact.contains_key(s) {
        t.exact[s]
    } else if t.lower.contains_key(lowercase(s)) {
        StringTokens { lower: t.lower[lowercase(s)].lower, normal: StringId(n as u32) }
    } else {
        StringTokens { lower: StringId((n + 1) as u32), normal: StringId(n as u32) }
    }
}

/// The table after interning `s`.
pub open spec fn interned(t: TableV, s: Seq<char>) -> TableV {
    if t.exact.contains_key(s) {
        t
    } else if t.lower.contains_key(lowercase(s)) {
        TableV {
            strings: t.strings.push(s),
            exact: t.exact.insert(s, tokens_for(t, s)),
            lower: t.lower,
        }
    } else {
        let id = tokens_for(t, s).lower;
        TableV {
            strings: t.strings.push(s).push(lowercase(s)),
            exact: t.exact.insert(s, tokens_for(t, s)),
            lower: t.lower.insert(lowercase(s), StringTokens { lower: id, normal: id }),
        }
    }
}

/// The id is the one of a text that was interned.
pub open spec fn is_exact_id(t: TableV, i: int) -> bool {
    t.exact.contains_key(t.strings[i]) && t.exact[t.strings[i]].normal.0 == i
}

/// The id is the one of a lower case.
pub open spec fn is_lower_id(t: TableV, i: int) -> bool {
    t.lower.contains_key(t.strings[i]) && t.lower[t.strings[i]].lower.0 == i
}

/// The number of ids that can be given out; the one behind them is never.
pub const MAX_IDS: usize = 0xffff_ffff;

/// What every table keeps: id 0 is that of the empty text, which is its own lower
/// case; the ids of a text are its own and that of its lower case; every other id is
/// that of one text or of one lower case.
pub open spec fn table_wf(t: TableV) -> bool {
    &&& 0 < t.strings.len() <= MAX_IDS
    &&& lowercase(Seq::empty()) == Seq::<char>::empty()
    &&& t.exact.contains_key(Seq::empty()) && t.exact[Seq::empty()] == empty_tokens()
    &&& forall|k: Seq<char>| #[trigger]
        t.exact.contains_key(k) ==> {
            &&& t.exact[k].normal.0 < t.strings.len()
            &&& t.exact[k].lower.0 < t.strings.len()
            &&& t.strings[t.exact[k].normal.0 as int] == k
            &&& t.lower.contains_key(lowercase(k))
            &&& t.lower[lowercase(k)].lower == t.exact[k].lower
        }
    &&& forall|k: Seq<char>| #[trigger]
        t.lower.contains_key(k) ==> {
            &&& t.lower[k].lower == t.lower[k].normal
            &&& t.lower[k].lower.0 < t.strings.len()
            &&& t.strings[t.lower[k].lower.0 as int] == k
        }
    &&& forall|i: int|
        0 < i < t.strings.len() ==> #[trigger] is_exact_id(t, i) != is_lower_id(t, i)
}

/// No text that was interned, but the empty one, has an empty lower case.
pub open spec fn has_lower_cases(t: TableV) -> bool {
    forall|k: Seq<char>| #[trigger]
        t.exact.contains_key(k) && k.len() > 0 ==> lowercase(k).len() > 0
}

/// A table of interned texts.
pub struct StringTable {
    strings: Vec<String>,
    exact: NameMap<StringTokens>,
    lower: NameMap<StringTokens>,
}

impl View for StringTable {
    type V = TableV;

    closed spec fn view(&self) -> TableV {
        TableV { strings: texts(self.strings@), exact: self.exact@, lower: self.lower@ }
    }
}

/// There are ids left for the text and its lower case, as far as they are new.
pub open spec fn has_room(t: TableV, s: Seq<char>) -> bool {
    interned(t, s).strings.len() <= MAX_IDS
}

impl StringTable {
    /// The table is as [`table_wf`] and [`has_lower_cases`] say.
    pub open spec fn wf(self) -> bool {
        table_wf(self@) && has_lower_cases(self@)
    }
}

/// A new table: it holds the empty text alone.
pub open spec fn empty_table() -> TableV {
    TableV {
        strings: seq![Seq::empty()],
        exact: Map::empty().insert(Seq::empty(), empty_tokens()),
        lower: Map::empty().insert(Seq::empty(), empty_tokens()),
    }
}

/// Interning keeps what every table keeps, changes no id that was given out, and
/// gives a text ids under which it and its lower case are found.
pub proof fn law_intern(t: TableV, s: Seq<char>)
    requires
        table_wf(t),
        has_room(t, s),
    ensures
        table_wf(interned(t, s)),
        t.strings.len() <= interned(t, s).strings.len() <= t.strings.len() + 2,
        interned(t, s).strings.subrange(0, t.strings.len() as int) == t.strings,
        forall|k: Seq<char>| #[trigger]
            t.exact.contains_key(k) ==> interned(t, s).exact.contains_key(k) && interned(
                t,
                s,
            ).exact[k] == t.exact[k],
        interned(t, s).exact.contains_key(s),
        interned(t, s).exact[s] == tokens_for(t, s),
        interned(t, s).strings[tokens_for(t, s).normal.0 as int] == s,
        interned(t, s).strings[tokens_for(t, s).lower.0 as int] == lowercase(s),
        interned(interned(t, s), s) == interned(t, s),
        tokens_for(interned(t, s), s) == tokens_for(t, s),
{
    let u = interned(t, s);
    assert(u.strings.subrange(0, t.strings.len() as int) =~= t.strings);
    if !t.exact.contains_key(s) {
        assert(u.exact.contains_key(s));
        assert forall|k: Seq<char>| #[trigger] u.exact.contains_key(k) implies {
            &&& u.exact[k].normal.0 < u.strings.len()
            &&& u.exact[k].lower.0 < u.strings.len()
            &&& u.strings[u.exact[k].normal.0 as int] == k
            &&& u.lower.contains_key(lowercase(k))
            &&& u.lower[lowercase(k)].lower == u.exact[k].lower
        } by {
            if k != s {
                assert(t.exact.contains_key(k));
            }
        }
        assert forall|k: Seq<char>| #[trigger] u.lower.contains_key(k) implies {
            &&& u.lower[k].lower == u.lower[k].normal
            &&& u.lower[k].lower.0 < u.strings.len()
            &&& u.strings[u.lower[k].lower.0 as int] == k
        } by {
            if t.lower.contains_key(k) {
                assert(t.lower[k].lower.0 < t.strings.len());
            }
        }
        assert forall|i: int| 0 < i < u.strings.len() implies #[trigger] is_exact_id(u, i)
            != is_lower_id(u, i) by {
            if i < t.strings.len() {
                assert(is_exact_id(t, i) != is_lower_id(t, i));
                assert(u.strings[i] == t.strings[i]);
            } else if t.lower.contains_key(s) {
                assert(t.lower[s].lower.0 < t.strings.len());
            }
        }
    }
    assert(u.lower.contains_key(lowercase(s)));
    assert(u.strings[u.exact[s].normal.0 as int] == s);
}

/// The table after interning the first `n` texts in order.
pub open spec fn interned_all(t: TableV, items: Seq<Seq<char>>, n: int) -> TableV
    decreases n,
{
    if n <= 0 {
        t
    } else {
        interned(interned_all(t, items, n - 1), items[n - 1])
    }
}

proof fn lemma_interned_all(t: TableV, items: Seq<Seq<char>>, n: int)
    requires
        table_wf(t),
        0 <= n <= items.len(),
        interned_all(t, items, n).strings.len() <= MAX_IDS,
    ensures
        table_wf(interned_all(t, items, n)),
        forall|k: Seq<char>| #[trigger]
            t.exact.contains_key(k) ==> interned_all(t, items, n).exact.contains_key(k)
                && interned_all(t, items, n).exact[k] == t.exact[k],
    decreases n,
{
    if n > 0 {
        let before = interned_all(t, items, n - 1);
        assert(before.strings.len() <= interned(before, items[n - 1]).strings.len());
        lemma_interned_all(t, items, n - 1);
        law_intern(before, items[n - 1]);
    }
}

/// Of two texts that a table is given, whatever it is given in between, the `normal`
/// ids are the same exactly if the texts are, and the `lower` ids exactly if their
/// lower cases are.
pub proof fn law_ids_compare(
    t: TableV,
    a: Seq<char>,
    between: Seq<Seq<char>>,
    b: Seq<char>,
)
    requires
        table_wf(t),
        has_room(interned_all(interned(t, a), between, between.len() as int), b),
    ensures
        ({
            let later = interned_all(interned(t, a), between, between.len() as int);
            let ra = tokens_for(t, a);
            let rb = tokens_for(later, b);
            &&& ra.normal == rb.normal <==> a == b
            &&& ra.lower == rb.lower <==> lowercase(a) == lowercase(b)
        }),
{
    let first = interned(t, a);
    let later = interned_all(first, between, between.len() as int);
    let last = interned(later, b);
    lemma_growth(first, between, 0, between.len() as int);
    assert(later.strings.len() <= last.strings.len());
    assert(t.strings.len() <= first.strings.len());
    law_intern(t, a);
    lemma_interned_all(first, between, between.len() as int);
    law_intern(later, b);
    assert(first.exact.contains_key(a));
    assert(later.exact.contains_key(a));
    assert(last.exact.contains_key(a) && last.exact.contains_key(b));
    assert(last.lower.contains_key(lowercase(a)));
    assert(last.lower.contains_key(lowercase(b)));
}

proof fn lemma_growth(t: TableV, items: Seq<Seq<char>>, m: int, n: int)
    requires
        0 <= m <= n <= items.len(),
    ensures
        interned_all(t, items, m).strings.len() <= interned_all(t, items, n).strings.len()
            <= interned_all(t, items, m).strings.len() + 2 * (n - m),
    decreases n,
{
    if m < n {
        lemma_growth(t, items, m, n - 1);
    }
}

// ---------------------------------------------------------------------------
// Counts

/// The texts in a list, but the empty one.
pub open spec fn distinct_texts(items: Seq<Seq<char>>) -> Set<Seq<char>> {
    items.to_set().remove(Seq::empty())
}

/// The lower cases of texts.
pub open spec fn lower_cases(s: Set<Seq<char>>) -> Set<Seq<char>> {
    s.map(|x: Seq<char>| lowercase(x))
}

/// The number of lower cases that a table holds, the empty one left out.
pub open spec fn lower_count(t: TableV) -> nat {
    t.lower.dom().remove(Seq::empty()).len()
}

/// A table holds the empty text alone.
pub open spec fn holds_nothing(t: TableV) -> bool {
    forall|k: Seq<char>| #[trigger] t.lower.contains_key(k) ==> k.len() == 0
}

/// What a new table holds after `n` texts: those texts and their lower cases.
proof fn lemma_held(items: Seq<Seq<char>>, n: int)
    requires
        0 <= n <= items.len(),
    ensures
        ({
            let t = interned_all(empty_table(), items, n);
            let texts = distinct_texts(items.take(n));
            let lower = lower_cases(texts).remove(Seq::empty());
            &&& t.exact.dom() == texts.insert(Seq::empty())
            &&& t.lower.dom() == lower.insert(Seq::empty())
            &&& texts.finite() && lower.finite()
            &&& t.strings.len() == 1 + texts.len() + lower.len()
        }),
    decreases n,
{
    let none = Seq::<char>::empty();
    let now = distinct_texts(items.take(n));
    let now_lower = lower_cases(now).remove(none);
    let t = interned_all(empty_table(), items, n);
    if n == 0 {
        assert(now =~= Set::<Seq<char>>::empty());
        assert(now_lower =~= Set::<Seq<char>>::empty());
        assert(t.exact.dom() =~= now.insert(none));
        assert(t.lower.dom() =~= now_lower.insert(none));
    } else {
        lemma_held(items, n - 1);
        let x = items[n - 1];
        let u = interned_all(empty_table(), items, n - 1);
        let before = distinct_texts(items.take(n - 1));
        let before_lower = lower_cases(before).remove(none);
        let f = |s: Seq<char>| lowercase(s);
        assert(items.take(n) =~= items.take(n - 1).push(x));
        items.take(n - 1).lemma_push_to_set_commute(x);
        if x == none {
            assert(now =~= before);
        } else {
            assert(now =~= before.insert(x));
            before.lemma_set_map_insert_commute(x, f);
            assert(lower_cases(now) == lower_cases(before).insert(lowercase(x)));
        }
        if u.exact.contains_key(x) {
            assert(u.exact.dom().contains(x));
            assert(now =~= before);
            assert(t == u);
        } else {
            assert(!u.exact.dom().contains(x));
            assert(x != none && !before.contains(x));
            assert(t.exact.dom() =~= now.insert(none));
            if u.lower.contains_key(lowercase(x)) {
                assert(u.lower.dom().contains(lowercase(x)));
                assert(now_lower =~= before_lower);
            } else {
                assert(!u.lower.dom().contains(lowercase(x)));
                assert(now_lower =~= before_lower.insert(lowercase(x)));
                assert(t.lower.dom() =~= now_lower.insert(none));
            }
        }
    }
}

/// What a table that was given these texts counts: the distinct non-empty lower cases,
/// and the ids, which are one for the empty text and one for every distinct text and
/// every such lower case. It holds nothing exactly if none of the texts has such a lower
/// case. Only the empty text has an empty one, so that no lower case is left out, and
/// the table holds nothing exactly if no text but the empty one was given.
pub proof fn law_counts(items: Seq<Seq<char>>)
    ensures
        ({
            let t = interned_all(empty_table(), items, items.len() as int);
            let texts = distinct_texts(items);
            let lower = lower_cases(texts).remove(Seq::empty());
            &&& texts.finite() && lower.finite()
            &&& lower_count(t) == lower.len()
            &&& t.strings.len() == 1 + texts.len() + lower_count(t)
            &&& holds_nothing(t) <==> lower.len() == 0
            &&& has_lower_cases(t) ==> {
                &&& lower_count(t) == lower_cases(texts).len()
                &&& holds_nothing(t) <==> texts.len() == 0
            }
        }),
{
    let n = items.len() as int;
    let none = Seq::<char>::empty();
    let t = interned_all(empty_table(), items, n);
    let given = distinct_texts(items);
    let lower = lower_cases(given).remove(none);
    lemma_held(items, n);
    assert(items.take(n) =~= items);
    assert(t.lower.dom().remove(none) =~= lower);
    lemma_holds_nothing(t);
    if has_lower_cases(t) {
        assert forall|s: Seq<char>| #[trigger] given.contains(s) implies lowercase(s).len()
            > 0 by {
            assert(t.exact.dom().contains(s));
            assert(t.exact.contains_key(s));
            if s.len() == 0 {
                assert(s =~= none);
            }
        }
        assert(!lower_cases(given).contains(none));
        assert(lower =~= lower_cases(given));
        if given.len() > 0 {
            let s = given.choose();
            assert(given.contains(s));
            assert(lower.contains(lowercase(s)));
            assert(lower.len() > 0) by {
                if lower.len() == 0 {
                    lower.lemma_len0_is_empty();
                }
            }
        } else {
            given.lemma_len0_is_empty();
            assert(lower =~= Set::<Seq<char>>::empty());
        }
    }
}

proof fn lemma_holds_nothing(t: TableV)
    requires
        t.lower.dom().finite(),
    ensures
        holds_nothing(t) <==> lower_count(t) == 0,
{
    let rest = t.lower.dom().remove(Seq::empty());
    if rest.len() == 0 {
        rest.lemma_len0_is_empty();
        assert forall|k: Seq<char>| #[trigger] t.lower.contains_key(k) implies k.len() == 0 by {
            if k.len() > 0 {
                assert(rest.contains(k));
            }
        }
    } else {
        let k = rest.choose();
        assert(rest.contains(k));
        assert(t.lower.contains_key(k));
        if k.len() == 0 {
            assert(k =~= Seq::<char>::empty());
        }
    }
}

impl StringTable {
    /// A new table.
    pub fn new() -> (r: Self)
        ensures
            r@ == empty_table(),
            r.wf(),
    {
        let none = StringTokens { lower: StringId(0), normal: StringId(0) };
        let lower_case = to_lowercase("");
        let mut strings: Vec<String> = Vec::new();
        let mut exact: NameMap<StringTokens> = NameMap::new();
        let mut lower: NameMap<StringTokens> = NameMap::new();
        proof {
            reveal_strlit("");
            assert(""@ =~= Seq::<char>::empty());
            assert(lower_case@ =~= Seq::<char>::empty());
        }
        strings.push(String::new());
        exact.insert(String::new(), none);
        lower.insert(lower_case, none);
        let r = StringTable { strings, exact, lower };
        assert(r@ =~= empty_table());
        r
    }

    /// Interns a text: gives the ids that it has, or new ones. [`Self::try_intern`]
    /// asks for no room.
    pub fn intern(&mut self, s: &str) -> (r: StringTokens)
        requires
            old(self).wf(),
            has_room(old(self)@, s@),
        ensures
            r == tokens_for(old(self)@, s@),
            final(self)@ == interned(old(self)@, s@),
            final(self).wf(),
    {
        let ghost t = self@;
        proof {
            law_intern(self@, s@);
        }
        if let Some(existing) = self.exact.get(s) {
            return *existing;
        }
        let lower_key = to_lowercase(s);
        let known = match self.lower.get(lower_key.as_str()) {
            Some(l) => Some(l.lower),
            None => None,
        };
        let n: u32 = self.strings.len() as u32;
        self.strings.push(s.to_owned());
        assert(texts(self.strings@) =~= t.strings.push(s@));
        match known {
            Some(lower) => {
                let token = StringTokens { lower, normal: StringId(n) };
                self.exact.insert(s.to_owned(), token);
                assert(self@ =~= interned(t, s@));
                token
            },
            None => {
                let lower = StringId(n + 1);
                self.strings.push(lower_key.clone());
                assert(texts(self.strings@) =~= t.strings.push(s@).push(lowercase(s@)));
                self.lower.insert(lower_key, StringTokens { lower, normal: lower });
                let token = StringTokens { lower, normal: StringId(n) };
                self.exact.insert(s.to_owned(), token);
                assert(self@ =~= interned(t, s@));
                token
            },
        }
    }

    /// Interns a text if there are ids left for it; else the table stays as it is.
    pub fn try_intern(&mut self, s: &str) -> (r: Option<StringTokens>)
        requires
            old(self).wf(),
        ensures
            final(self).wf(),
            match r {
                Some(tokens) => has_room(old(self)@, s@) && tokens == tokens_for(
                    old(self)@,
                    s@,
                ) && final(self)@ == interned(old(self)@, s@),
                None => !has_room(old(self)@, s@) && final(self)@ == old(self)@,
            },
    {
        if !self.exact.contains(s) {
            let left: usize = MAX_IDS - self.strings.len();
            let known = self.lower.contains(to_lowercase(s).as_str());
            if left == 0 || (left == 1 && !known) {
                return None;
            }
        }
        Some(self.intern(s))
    }
}

/// There are ids left for the texts and their lower cases, as far as they are new.
pub open spec fn has_room_for_all(t: TableV, items: Seq<Seq<char>>) -> bool {
    interned_all(t, items, items.len() as int).strings.len() <= MAX_IDS
}

impl StringTable {
    /// Interns many texts, as if one after the other. [`Self::try_intern_batch`] asks for
    /// no room.
    pub fn intern_batch(&mut self, items: &Vec<String>) -> (r: Vec<StringTokens>)
        requires
            old(self).wf(),
            has_room_for_all(old(self)@, texts(items@)),
        ensures
            r@.len() == items@.len(),
            forall|i: int|
                0 <= i < items@.len() ==> #[trigger] r@[i] == tokens_for(
                    interned_all(old(self)@, texts(items@), i),
                    items@[i]@,
                ),
            final(self)@ == interned_all(old(self)@, texts(items@), items@.len() as int),
            final(self).wf(),
    {
        let mut out: Vec<StringTokens> = Vec::new();
        let ghost t = self@;
        let ghost all = texts(items@);
        let mut i: usize = 0;
        while i < items.len()
            invariant
                i <= items@.len(),
                all == texts(items@),
                out@.len() == i,
                self.wf(),
                self@ == interned_all(t, all, i as int),
                has_room_for_all(t, all),
                forall|j: int|
                    0 <= j < i ==> #[trigger] out@[j] == tokens_for(
                        interned_all(t, all, j),
                        items@[j]@,
                    ),
            decreases items@.len() - i,
        {
            proof {
                assert(all[i as int] == items@[i as int]@);
                lemma_growth(t, all, i + 1, all.len() as int);
            }
            let token = self.intern(items[i].as_str());
            out.push(token);
            i += 1;
        }
        out
    }

    /// Whether there are ids left for the texts and their lower cases.
    fn has_ids_for(&self, items: &Vec<String>) -> (r: bool)
        requires
            self.wf(),
        ensures
            r == has_room_for_all(self@, texts(items@)),
    {
        let left: usize = MAX_IDS - self.strings.len();
        let ghost t = self@;
        let ghost all = texts(items@);
        let ghost count = all.len() as int;
        if items.len() <= left / 2 {
            proof {
                lemma_growth(t, all, 0, count);
            }
            return true;
        }
        let mut seen = SeenNames::new();
        let mut seen_lower = SeenNames::new();
        let mut used: usize = 0;
        let mut i: usize = 0;
        while i < items.len()
            invariant
                i <= items@.len(),
                t == self@,
                all == texts(items@),
                count == all.len(),
                used <= left,
                left + t.strings.len() == MAX_IDS,
                ({
                    let now = interned_all(t, all, i as int);
                    &&& now.strings.len() == t.strings.len() + used
                    &&& forall|k: Seq<char>| #[trigger]
                        now.exact.contains_key(k) <==> t.exact.contains_key(k)
                            || seen@.contains(k)
                    &&& forall|k: Seq<char>| #[trigger]
                        now.lower.contains_key(k) <==> t.lower.contains_key(k)
                            || seen_lower@.contains(k)
                }),
            decreases items@.len() - i,
        {
            let s = items[i].as_str();
            assert(all[i as int] == s@);
            proof {
                lemma_growth(t, all, i + 1, count);
            }
            if !self.exact.contains(s) && seen.note(s.to_owned()) {
                let lower_key = to_lowercase(s);
                let mut more: usize = 1;
                if !self.lower.contains(lower_key.as_str()) && seen_lower.note(lower_key) {
                    more = 2;
                }
                if more > left - used {
                    return false;
                }
                used += more;
            }
            i += 1;
        }
        true
    }

    /// Interns many texts, as if one after the other, if there are ids left for all of
    /// them; else the table stays as it is.
    pub fn try_intern_batch(&mut self, items: &Vec<String>) -> (r: Option<Vec<StringTokens>>)
        requires
            old(self).wf(),
        ensures
            final(self).wf(),
            match r {
                Some(tokens) => {
                    &&& has_room_for_all(old(self)@, texts(items@))
                    &&& tokens@.len() == items@.len()
                    &&& forall|i: int|
                        0 <= i < items@.len() ==> #[trigger] tokens@[i] == tokens_for(
                            interned_all(old(self)@, texts(items@), i),
                            items@[i]@,
                        )
                    &&& final(self)@ == interned_all(
                        old(self)@,
                        texts(items@),
                        items@.len() as int,
                    )
                },
                None => !has_room_for_all(old(self)@, texts(items@)) && final(self)@ == old(
                    self,
                )@,
            },
    {
        if self.has_ids_for(items) {
            Some(self.intern_batch(items))
        } else {
            None
        }
    }

    /// The text of an id.
    pub fn get_string(&self, id: StringId) -> (r: Option<String>)
        ensures
            opt_text(r) == (if id.0 < self@.strings.len() {
                Some(self@.strings[id.0 as int])
            } else {
                None
            }),
    {
        if (id.0 as usize) < self.strings.len() {
            Some(self.strings[id.0 as usize].clone())
        } else {
            None
        }
    }

    /// What `f` makes of the text of an id; `None` for an id without a text.
    pub fn with_string<R, F: FnOnce(&str) -> R>(&self, id: StringId, f: F) -> (r: Option<R>)
        requires
            forall|s: &str|
                id.0 < self@.strings.len() && s@ == self@.strings[id.0 as int] ==> call_requires(
                    f,
                    (s,),
                ),
        ensures
            r is Some <==> id.0 < self@.strings.len(),
            r matches Some(x) ==> exists|s: &str|
                s@ == self@.strings[id.0 as int] && call_ensures(f, (s,), x),
    {
        if (id.0 as usize) < self.strings.len() {
            let s = self.strings[id.0 as usize].as_str();
            Some(f(s))
        } else {
            None
        }
    }

    /// What `f` makes of a resolver for the ids of this table.
    pub fn with_read<R, F: FnOnce(StringResolver<'_>) -> R>(&self, f: F) -> (r: R)
        requires
            forall|x: StringResolver| x@ == self@ ==> call_requires(f, (x,)),
        ensures
            exists|x: StringResolver| x@ == self@ && call_ensures(f, (x,), r),
    {
        let x = StringResolver { table: self };
        assert(x@ == self@);
        f(x)
    }

    /// The number of lower cases, the empty text left out.
    pub fn len(&self) -> (r: usize)
        ensures
            self@.lower.dom().finite(),
            r == lower_count(self@),
    {
        proof {
            reveal_strlit("");
            assert(""@ =~= Seq::<char>::empty());
        }
        let n: usize = self.lower.len();
        if self.lower.contains("") {
            n - 1
        } else {
            assert(self@.lower.dom().remove(Seq::empty()) =~= self@.lower.dom());
            n
        }
    }

    /// Whether no text but the empty one was interned.
    pub fn is_empty(&self) -> (r: bool)
        ensures
            r == holds_nothing(self@),
    {
        let n: usize = self.len();
        proof {
            lemma_holds_nothing(self@);
        }
        n == 0
    }
}

impl Default for StringTable {
    fn default() -> (r: Self)
        ensures
            r@ == empty_table(),
            r.wf(),
    {
        StringTable::new()
    }
}

/// Finds the texts of ids.
pub struct StringResolver<'a> {
    table: &'a StringTable,
}

impl<'a> View for StringResolver<'a> {
    type V = TableV;

    closed spec fn view(&self) -> TableV {
        self.table@
    }
}

impl<'a> StringResolver<'a> {
    /// The text of an id.
    pub fn get(&self, id: StringId) -> (r: Option<&str>)
        ensures
            match r {
                Some(s) => id.0 < self@.strings.len() && s@ == self@.strings[id.0 as int],
                None => id.0 >= self@.strings.len(),
            },
    {
        if (id.0 as usize) < self.table.strings.len() {
            Some(self.table.strings[id.0 as usize].as_str())
        } else {
            None
        }
    }
}

// ---------------------------------------------------------------------------
// Size

/// How much text a table holds.
#[derive(Clone, Copy, Debug)]
pub struct StringTableStats {
    /// The number of ids.
    pub entries: usize,
    /// The bytes of the texts of all ids.
    pub id_to_string_bytes: usize,
    /// The bytes of the names in the maps. Each id but 0, whose text is empty, is
    /// that of one name in one of them, so these are as many.
    pub map_key_bytes: usize,
}

impl Default for StringTableStats {
    fn default() -> (r: Self)
        ensures
            r.entries == 0,
            r.id_to_string_bytes == 0,
            r.map_key_bytes == 0,
    {
        StringTableStats { entries: 0, id_to_string_bytes: 0, map_key_bytes: 0 }
    }
}

impl StringTableStats {
    /// The bytes counted, together.
    pub fn total_bytes(&self) -> (r: usize)
        requires
            self.id_to_string_bytes + self.map_key_bytes <= usize::MAX,
        ensures
            r == self.id_to_string_bytes + self.map_key_bytes,
    {
        self.id_to_string_bytes + self.map_key_bytes
    }
}

/// The bytes of the first `n` texts.
pub open spec fn bytes_of(strings: Seq<Seq<char>>, n: int) -> nat
    decreases n,
{
    if n <= 0 {
        0
    } else {
        bytes_of(strings, n - 1) + vstd::utf8::encode_utf8(strings[n - 1]).len()
    }
}

impl StringTable {
    /// How much text the table holds.
    pub fn stats(&self) -> (r: StringTableStats)
        ensures
            r.entries == self@.strings.len(),
            r.id_to_string_bytes == capped(
                bytes_of(self@.strings, self@.strings.len() as int),
            ),
            r.map_key_bytes == r.id_to_string_bytes,
    {
        let mut total: usize = 0;
        let mut i: usize = 0;
        while i < self.strings.len()
            invariant
                i <= self.strings@.len(),
                total == capped(bytes_of(texts(self.strings@), i as int)),
            decreases self.strings@.len() - i,
        {
            let b: usize = self.strings[i].as_str().as_bytes().len();
            total = add_capped(total, b);
            i += 1;
        }
        assert(texts(self.strings@).len() == self.strings@.len());
        StringTableStats {
            entries: self.strings.len(),
            id_to_string_bytes: total,
            map_key_bytes: total,
        }
    }
}

} // verus!
