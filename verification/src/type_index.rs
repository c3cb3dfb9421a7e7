//! What a project defines: instances of types, members of value sets, variables
//! and files.

use vstd::prelude::*;

use crate::ast::SourcePos;
use crate::rules_types::{lemma_views_push, views};
use crate::text::{
    CharSet, NameSet, ascii_lower, contains, contains_char, eq_ci, lemma_skip_back, replace_char,
    replace_char_spec, rfind_in, same, same_ci, string_of, tail_after, to_ascii_lower, to_chars,
    trim, trimmed,
};

verus! {

/// The game whose files are read.
#[derive(Clone, Copy, Debug, PartialEq, Eq, Structural)]
pub enum Game {
    Stellaris,
    Hoi4,
    Eu4,
    Ck2,
    Ck3,
    Vic2,
    Vic3,
    Ir,
    Eu5,
    Custom,
}

/// An instance of a type: its name and where it is defined.
#[derive(Debug)]
pub struct TypeInstance {
    pub name: String,
    pub location: SourcePos,
}

/// The model of [`TypeInstance`].
#[verifier::ext_equal]
pub struct InstanceV {
    pub name: Seq<char>,
    pub location: SourcePos,
}

impl View for TypeInstance {
    type V = InstanceV;

    open spec fn view(&self) -> InstanceV {
        InstanceV { name: self.name@, location: self.location }
    }
}

/// Pairs of texts.
pub open spec fn pairs_view(s: Seq<(String, String)>) -> Seq<(Seq<char>, Seq<char>)> {
    Seq::new(s.len(), |i: int| (s[i].0@, s[i].1@))
}

/// Instances with the names of their types.
pub open spec fn instances_view(s: Seq<(String, TypeInstance)>) -> Seq<(Seq<char>, InstanceV)> {
    Seq::new(s.len(), |i: int| (s[i].0@, s[i].1@))
}

// ---------------------------------------------------------------------------
// Variables

/// The form of a variable name under which it is indexed.
pub open spec fn variable_name(name: Seq<char>) -> Seq<char> {
    ascii_lower(trimmed(name))
}

/// The variables that a project sets.
pub struct VarIndex {
    pub names: NameSet,
}

impl View for VarIndex {
    type V = Set<Seq<char>>;

    open spec fn view(&self) -> Set<Seq<char>> {
        self.names@
    }
}

impl VarIndex {
    pub fn new() -> (r: Self)
        ensures
            r@ == Set::<Seq<char>>::empty(),
    {
        VarIndex { names: NameSet::new() }
    }

    /// The form of a variable name under which it is indexed: without white space
    /// around it, in lower case.
    pub fn normalize(name: &str) -> (r: String)
        ensures
            r@ == variable_name(name@),
    {
        to_ascii_lower(trim(name))
    }

    pub fn is_empty(&self) -> (r: bool)
        ensures
            r == (self@ == Set::<Seq<char>>::empty()),
    {
        self.names.is_empty()
    }

    /// Whether the variable is set anywhere.
    pub fn contains(&self, name: &str) -> (r: bool)
        ensures
            r == self@.contains(variable_name(name@)),
    {
        let n = Self::normalize(name);
        self.names.contains(n.as_str())
    }

    /// Notes that a variable is set.
    pub fn insert(&mut self, name: &str)
        ensures
            final(self)@ == old(self)@.insert(variable_name(name@)),
    {
        let n = Self::normalize(name);
        self.names.insert(n);
    }
}

// ---------------------------------------------------------------------------
// Files

/// The form of a path under which a file is indexed.
pub open spec fn file_name(path: Seq<char>) -> Seq<char> {
    ascii_lower(replace_char_spec(path, '\\', '/'))
}

/// A path beside a file: in the directory that the file stands in.
pub open spec fn beside(file: Seq<char>, path: Seq<char>) -> Seq<char> {
    let f = file_name(file);
    f.subrange(0, rfind_in(f, CharSet::One('/'), f.len() as int)) + file_name(path)
}

/// The files that a project and its game ship.
pub struct FileIndex {
    pub paths: NameSet,
}

impl View for FileIndex {
    type V = Set<Seq<char>>;

    open spec fn view(&self) -> Set<Seq<char>> {
        self.paths@
    }
}

/// The form of a path under which a file is indexed: with forward slashes, in
/// lower case.
pub fn normal_file_name(path: &str) -> (r: String)
    ensures
        r@ == file_name(path@),
{
    let p = replace_char(path, '\\', '/');
    to_ascii_lower(p.as_str())
}

impl FileIndex {
    pub fn new() -> (r: Self)
        ensures
            r@ == Set::<Seq<char>>::empty(),
    {
        FileIndex { paths: NameSet::new() }
    }

    pub fn is_empty(&self) -> (r: bool)
        ensures
            r == (self@ == Set::<Seq<char>>::empty()),
    {
        self.paths.is_empty()
    }

    /// Whether the file is shipped.
    pub fn contains(&self, path: &str) -> (r: bool)
        ensures
            r == self@.contains(file_name(path@)),
    {
        let p = normal_file_name(path);
        self.paths.contains(p.as_str())
    }

    /// Whether `path` is shipped beside `file`.
    pub fn resolve_relative(&self, file: &str, path: &str) -> (r: bool)
        ensures
            r == self@.contains(beside(file@, path@)),
    {
        let f = normal_file_name(file);
        let cs = to_chars(f.as_str());
        let tail = tail_after(f.as_str(), CharSet::One('/'));
        let ghost at = rfind_in(f@, CharSet::One('/'), f@.len() as int);
        proof {
            lemma_skip_back(f@, CharSet::One('/'), f@.len() as int);
        }
        assert(tail@.len() == f@.len() - at);
        let n: usize = cs.len() - tail.unicode_len();
        let mut full = string_of(&cs, 0, n);
        let p = normal_file_name(path);
        full.append(p.as_str());
        assert(full@ =~= beside(file@, path@));
        self.paths.contains(full.as_str())
    }

    /// Notes that a file is shipped.
    pub fn insert(&mut self, path: &str)
        ensures
            final(self)@ == old(self)@.insert(file_name(path@)),
    {
        let p = normal_file_name(path);
        self.paths.insert(p);
    }
}

// ---------------------------------------------------------------------------
// Everything

/// What a project defines.
pub struct TypeIndex {
    /// Each instance behind the name of its type.
    pub entries: Vec<(String, TypeInstance)>,
    /// Whether the game's own files were read too. Only then does a missing
    /// instance mean anything.
    pub complete: bool,
    /// Each member behind the name of its value set.
    pub value_set_values: Vec<(String, String)>,
    pub var_index: VarIndex,
    pub file_index: FileIndex,
}

/// The model of [`TypeIndex`].
#[verifier::ext_equal]
pub struct IndexV {
    pub entries: Seq<(Seq<char>, InstanceV)>,
    pub complete: bool,
    pub value_set_values: Seq<(Seq<char>, Seq<char>)>,
    pub variables: Set<Seq<char>>,
    pub files: Set<Seq<char>>,
}

impl View for TypeIndex {
    type V = IndexV;

    open spec fn view(&self) -> IndexV {
        IndexV {
            entries: instances_view(self.entries@),
            complete: self.complete,
            value_set_values: pairs_view(self.value_set_values@),
            variables: self.var_index@,
            files: self.file_index@,
        }
    }
}

impl IndexV {
    /// The type has an instance of that name, whatever its case.
    pub open spec fn has(self, type_: Seq<char>, name: Seq<char>) -> bool {
        exists|i: int|
            0 <= i < self.entries.len() && (#[trigger] self.entries[i]).0 == type_ && eq_ci(
                self.entries[i].1.name,
                name,
            )
    }

    /// The type has an instance.
    pub open spec fn populated(self, type_: Seq<char>) -> bool {
        exists|i: int| 0 <= i < self.entries.len() && (#[trigger] self.entries[i]).0 == type_
    }

    /// Some type has an instance of that name, whatever its case.
    pub open spec fn names(self, name: Seq<char>) -> bool {
        exists|i: int|
            0 <= i < self.entries.len() && eq_ci((#[trigger] self.entries[i]).1.name, name)
    }

    /// The value set has that member.
    pub open spec fn in_set(self, set: Seq<char>, member: Seq<char>) -> bool {
        self.value_set_values.contains((set, member))
    }
}

/// The instances of the type among the first `n`.
pub open spec fn instances_of(
    e: Seq<(Seq<char>, InstanceV)>,
    type_: Seq<char>,
    n: int,
) -> Seq<InstanceV>
    decreases n,
{
    if n <= 0 || n > e.len() {
        Seq::empty()
    } else if e[n - 1].0 == type_ {
        instances_of(e, type_, n - 1).push(e[n - 1].1)
    } else {
        instances_of(e, type_, n - 1)
    }
}

impl TypeIndex {
    /// Nothing is defined.
    pub fn new() -> (r: Self)
        ensures
            r@ == (IndexV {
                entries: Seq::empty(),
                complete: false,
                value_set_values: Seq::empty(),
                variables: Set::empty(),
                files: Set::empty(),
            }),
    {
        let r = TypeIndex {
            entries: Vec::new(),
            complete: false,
            value_set_values: Vec::new(),
            var_index: VarIndex::new(),
            file_index: FileIndex::new(),
        };
        assert(r@.entries =~= Seq::empty());
        assert(r@.value_set_values =~= Seq::empty());
        r
    }

    /// Whether the type has an instance of that name, whatever its case.
    #[verifier::loop_isolation(false)]
    pub fn contains(&self, type_: &str, name: &str) -> (r: bool)
        ensures
            r == self@.has(type_@, name@),
    {
        let mut i: usize = 0;
        while i < self.entries.len()
            invariant
                i <= self.entries@.len(),
                forall|j: int|
                    0 <= j < i ==> !((#[trigger] self@.entries[j]).0 == type_@ && eq_ci(
                        self@.entries[j].1.name,
                        name@,
                    )),
            decreases self.entries@.len() - i,
        {
            assert(self@.entries[i as int] == (
                self.entries@[i as int].0@,
                self.entries@[i as int].1@,
            ));
            if same(self.entries[i].0.as_str(), type_) && same_ci(
                self.entries[i].1.name.as_str(),
                name,
            ) {
                return true;
            }
            i += 1;
        }
        false
    }

    /// Whether the type has an instance.
    #[verifier::loop_isolation(false)]
    pub fn has_instances(&self, type_: &str) -> (r: bool)
        ensures
            r == self@.populated(type_@),
    {
        let mut i: usize = 0;
        while i < self.entries.len()
            invariant
                i <= self.entries@.len(),
                forall|j: int| 0 <= j < i ==> (#[trigger] self@.entries[j]).0 != type_@,
            decreases self.entries@.len() - i,
        {
            assert(self@.entries[i as int].0 == self.entries@[i as int].0@);
            if same(self.entries[i].0.as_str(), type_) {
                return true;
            }
            i += 1;
        }
        false
    }

    /// The instances of a type, in the order in which they were noted.
    pub fn instances<'a>(&'a self, type_: &str) -> (r: Vec<&'a TypeInstance>)
        ensures
            views(r@) == instances_of(self@.entries, type_@, self@.entries.len() as int),
    {
        let mut out: Vec<&'a TypeInstance> = Vec::new();
        let mut i: usize = 0;
        assert(views(out@) =~= instances_of(self@.entries, type_@, 0));
        while i < self.entries.len()
            invariant
                i <= self.entries@.len(),
                views(out@) == instances_of(self@.entries, type_@, i as int),
            decreases self.entries@.len() - i,
        {
            assert(self@.entries[i as int] == (
                self.entries@[i as int].0@,
                self.entries@[i as int].1@,
            ));
            if same(self.entries[i].0.as_str(), type_) {
                let ghost before = out@;
                out.push(&self.entries[i].1);
                proof {
                    lemma_views_push(before, out@.last());
                }
            }
            i += 1;
        }
        out
    }

    /// Whether some type has an instance of that name, whatever its case.
    #[verifier::loop_isolation(false)]
    pub fn is_any_instance(&self, name: &str) -> (r: bool)
        ensures
            r == self@.names(name@),
    {
        let mut i: usize = 0;
        while i < self.entries.len()
            invariant
                i <= self.entries@.len(),
                forall|j: int| 0 <= j < i ==> !eq_ci((#[trigger] self@.entries[j]).1.name, name@),
            decreases self.entries@.len() - i,
        {
            assert(self@.entries[i as int].1 == self.entries@[i as int].1@);
            if same_ci(self.entries[i].1.name.as_str(), name) {
                return true;
            }
            i += 1;
        }
        false
    }

    /// Whether the value set has that member.
    #[verifier::loop_isolation(false)]
    pub fn set_contains(&self, set: &str, member: &str) -> (r: bool)
        ensures
            r == self@.in_set(set@, member@),
    {
        let mut i: usize = 0;
        while i < self.value_set_values.len()
            invariant
                i <= self.value_set_values@.len(),
                forall|j: int|
                    0 <= j < i ==> #[trigger] self@.value_set_values[j] != (set@, member@),
            decreases self.value_set_values@.len() - i,
        {
            assert(self@.value_set_values[i as int] == (
                self.value_set_values@[i as int].0@,
                self.value_set_values@[i as int].1@,
            ));
            if same(self.value_set_values[i].0.as_str(), set) && same(
                self.value_set_values[i].1.as_str(),
                member,
            ) {
                return true;
            }
            i += 1;
        }
        false
    }

    /// Notes an instance of a type.
    pub fn add(&mut self, type_: &str, name: &str, location: SourcePos)
        ensures
            final(self)@ == (IndexV {
                entries: old(self)@.entries.push((type_@, InstanceV { name: name@, location })),
                ..old(self)@
            }),
    {
        let ghost before = self.entries@;
        self.entries.push((type_.to_owned(), TypeInstance { name: name.to_owned(), location }));
        assert(instances_view(self.entries@) =~= instances_view(before).push(
            (type_@, InstanceV { name: name@, location }),
        ));
    }
}

/// Whether the name of a type is that of one of its subtypes: `type.subtype`.
pub fn is_subtype_key(name: &str) -> (r: bool)
    ensures
        r == name@.contains('.'),
{
    contains_char(name, '.')
}

} // verus!
