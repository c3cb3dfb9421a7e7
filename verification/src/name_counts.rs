//! How often names occur, and which of them occurred.

use rustc_hash::{FxHashMap, FxHashSet};
use vstd::prelude::*;

verus! {

/// `rustc_hash::FxBuildHasher`, the hasher of an `FxHashMap` and an `FxHashSet`. Nothing is claimed
/// of it.
#[verifier::external_type_specification]
#[verifier::external_body]
pub struct ExFxBuildHasher(rustc_hash::FxBuildHasher);

/// The entries of the map, by the text of their names.
pub uninterp spec fn fx_entries(m: FxHashMap<String, usize>) -> Map<Seq<char>, usize>;

/// A number for no name.
pub open spec fn no_counts() -> Map<Seq<char>, usize> {
    Map::empty()
}

/// `FxHashMap::default`: the new map has no entries.
#[verifier::external_body]
fn fx_empty() -> (m: FxHashMap<String, usize>)
    ensures
        fx_entries(m) == no_counts(),
{
    FxHashMap::default()
}

/// `HashMap::get` on an `FxHashMap`: the number under the name, if the map has
/// the name. Names are the same where their characters are.
#[verifier::external_body]
fn fx_get(m: &FxHashMap<String, usize>, name: &str) -> (n: Option<usize>)
    ensures
        n == (if fx_entries(*m).contains_key(name@) {
            Some(fx_entries(*m)[name@])
        } else {
            None
        }),
{
    m.get(name).copied()
}

/// `HashMap::insert` on an `FxHashMap`: the number now stands under the name, in
/// place of what stood there; nothing else changes.
#[verifier::external_body]
fn fx_insert(m: &mut FxHashMap<String, usize>, name: String, n: usize)
    ensures
        fx_entries(*final(m)) == fx_entries(*old(m)).insert(name@, n),
{
    m.insert(name, n);
}

/// A number for each of some names.
pub struct NameCounts {
    map: FxHashMap<String, usize>,
}

impl View for NameCounts {
    type V = Map<Seq<char>, usize>;

    closed spec fn view(&self) -> Map<Seq<char>, usize> {
        fx_entries(self.map)
    }
}

/// The number under a name; zero for a name that is not there.
pub open spec fn count_in(m: Map<Seq<char>, usize>, name: Seq<char>) -> usize {
    if m.contains_key(name) {
        m[name]
    } else {
        0
    }
}

impl NameCounts {
    /// No names.
    pub fn new() -> (r: Self)
        ensures
            r@ == no_counts(),
    {
        NameCounts { map: fx_empty() }
    }

    /// The number under a name, if it is there.
    pub fn get(&self, name: &str) -> (r: Option<usize>)
        ensures
            r == (if self@.contains_key(name@) {
                Some(self@[name@])
            } else {
                None
            }),
    {
        fx_get(&self.map, name)
    }

    /// The number under a name; zero for a name that is not there.
    pub fn count(&self, name: &str) -> (r: usize)
        ensures
            r == count_in(self@, name@),
    {
        match self.get(name) {
            Some(n) => n,
            None => 0,
        }
    }

    /// Puts a number under a name.
    pub fn set(&mut self, name: String, n: usize)
        ensures
            final(self)@ == old(self)@.insert(name@, n),
    {
        fx_insert(&mut self.map, name, n);
    }
}

/// The members of the set, by their text.
pub uninterp spec fn fx_members(s: FxHashSet<String>) -> Set<Seq<char>>;

/// No names.
pub open spec fn no_names() -> Set<Seq<char>> {
    Set::empty()
}

/// `FxHashSet::default`: the new set has no members.
#[verifier::external_body]
fn fx_none() -> (s: FxHashSet<String>)
    ensures
        fx_members(s) == no_names(),
{
    FxHashSet::default()
}

/// `HashSet::insert` on an `FxHashSet`: the name is now a member, as are all that
/// were; the answer is whether it was not one before.
#[verifier::external_body]
fn fx_add(s: &mut FxHashSet<String>, name: String) -> (r: bool)
    ensures
        fx_members(*final(s)) == fx_members(*old(s)).insert(name@),
        r == !fx_members(*old(s)).contains(name@),
{
    s.insert(name)
}

/// `HashSet::contains` on an `FxHashSet`: whether the name is a member. Names are the
/// same where their characters are.
#[verifier::external_body]
fn fx_has(s: &FxHashSet<String>, name: &str) -> (r: bool)
    ensures
        r == fx_members(*s).contains(name@),
{
    s.contains(name)
}

/// The names that have occurred.
pub struct SeenNames {
    set: FxHashSet<String>,
}

impl View for SeenNames {
    type V = Set<Seq<char>>;

    closed spec fn view(&self) -> Set<Seq<char>> {
        fx_members(self.set)
    }
}

impl SeenNames {
    /// No names.
    pub fn new() -> (r: Self)
        ensures
            r@ == no_names(),
    {
        SeenNames { set: fx_none() }
    }

    /// Notes a name; whether it is new.
    pub fn note(&mut self, name: String) -> (r: bool)
        ensures
            final(self)@ == old(self)@.insert(name@),
            r == !old(self)@.contains(name@),
    {
        fx_add(&mut self.set, name)
    }

    /// Whether the name has occurred.
    pub fn has(&self, name: &str) -> (r: bool)
        ensures
            r == self@.contains(name@),
    {
        fx_has(&self.set, name)
    }
}

} // verus!
