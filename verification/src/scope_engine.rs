//! Scopes: what a script block is about, and how commands move between them.

use vstd::prelude::*;

use crate::ast::Value;
use crate::name_map::NameMap;
use crate::rules_types::{ReplaceScopes, ReplaceScopesV, views};
use crate::text::{
    CharSet, ascii_lower, decimal, print_i64, same, split, split_spec, starts, starts_with, texts,
    to_ascii_lower,
};

verus! {

/// A kind of scope.
#[derive(Clone, Copy, Debug, PartialEq, Eq, Structural)]
pub enum ScopeId {
    /// Any scope: nothing is known of it, so nothing is checked.
    Any,
    Invalid,
    Id(u32),
}

impl DeepView for ScopeId {
    type V = ScopeId;

    open spec fn deep_view(&self) -> ScopeId {
        *self
    }
}

/// A declared kind of scope.
#[derive(Debug)]
pub struct ScopeDefOwned {
    pub id: ScopeId,
    pub name: String,
    pub aliases: Vec<String>,
    /// The kinds that this one counts as too.
    pub subscope_of: Vec<ScopeId>,
}

/// The model of [`ScopeDefOwned`].
#[verifier::ext_equal]
pub struct ScopeDefV {
    pub id: ScopeId,
    pub name: Seq<char>,
    pub aliases: Seq<Seq<char>>,
    pub subscope_of: Seq<ScopeId>,
}

impl View for ScopeDefOwned {
    type V = ScopeDefV;

    open spec fn view(&self) -> ScopeDefV {
        ScopeDefV {
            id: self.id,
            name: self.name@,
            aliases: texts(self.aliases@),
            subscope_of: self.subscope_of@,
        }
    }
}

/// A command that moves from one scope to another, or reads a value of one.
#[derive(Debug)]
pub struct ScopeLink {
    /// Where the command may be used; anywhere if there are none.
    pub valid_scopes: Vec<ScopeId>,
    /// Where the command leads.
    pub target: Option<ScopeId>,
    pub is_scope_change: bool,
}

/// The model of [`ScopeLink`].
#[verifier::ext_equal]
pub struct ScopeLinkV {
    pub valid_scopes: Seq<ScopeId>,
    pub target: Option<ScopeId>,
    pub is_scope_change: bool,
}

impl View for ScopeLink {
    type V = ScopeLinkV;

    open spec fn view(&self) -> ScopeLinkV {
        ScopeLinkV {
            valid_scopes: self.valid_scopes@,
            target: self.target,
            is_scope_change: self.is_scope_change,
        }
    }
}

impl DeepView for ScopeLink {
    type V = ScopeLinkV;

    open spec fn deep_view(&self) -> ScopeLinkV {
        self@
    }
}

/// The scopes of a game and the commands that move between them.
pub struct ScopeRegistry {
    /// The scope under each of its names, in lower case.
    pub by_name: NameMap<ScopeId>,
    /// The declared scopes.
    pub scopes: Vec<ScopeDefOwned>,
    /// The commands by name, in lower case.
    pub links: NameMap<ScopeLink>,
    /// The commands by the prefix that their name starts with, in lower case.
    pub prefix_links: Vec<(String, ScopeLink)>,
}

/// The model of [`ScopeRegistry`].
#[verifier::ext_equal]
pub struct RegistryV {
    pub by_name: Map<Seq<char>, ScopeId>,
    pub scopes: Seq<ScopeDefV>,
    pub links: Map<Seq<char>, ScopeLinkV>,
    pub prefix_links: Seq<(Seq<char>, ScopeLinkV)>,
}

pub open spec fn prefixes_view(s: Seq<(String, ScopeLink)>) -> Seq<(Seq<char>, ScopeLinkV)> {
    Seq::new(s.len(), |i: int| (s[i].0@, s[i].1@))
}

impl View for ScopeRegistry {
    type V = RegistryV;

    open spec fn view(&self) -> RegistryV {
        RegistryV {
            by_name: self.by_name@,
            scopes: views(self.scopes@),
            links: self.links@,
            prefix_links: prefixes_view(self.prefix_links@),
        }
    }
}

/// No scopes and no commands.
pub open spec fn empty_registry() -> RegistryV {
    RegistryV {
        by_name: Map::empty(),
        scopes: Seq::empty(),
        links: Map::empty(),
        prefix_links: Seq::empty(),
    }
}

/// The declaration of a scope, from the `i`th on.
pub open spec fn scope_def(s: Seq<ScopeDefV>, id: ScopeId, i: int) -> Option<ScopeDefV>
    decreases s.len() - i,
{
    if i < 0 || i >= s.len() {
        None
    } else if s[i].id == id {
        Some(s[i])
    } else {
        scope_def(s, id, i + 1)
    }
}

/// The command whose prefix the key starts with, from the `i`th on.
pub open spec fn prefix_link(
    s: Seq<(Seq<char>, ScopeLinkV)>,
    key: Seq<char>,
    i: int,
) -> Option<ScopeLinkV>
    decreases s.len() - i,
{
    if i < 0 || i >= s.len() {
        None
    } else if starts(key, s[i].0) {
        Some(s[i].1)
    } else {
        prefix_link(s, key, i + 1)
    }
}

impl RegistryV {
    /// The scope of that name, whatever its case.
    pub open spec fn id_of(self, name: Seq<char>) -> Option<ScopeId> {
        let k = ascii_lower(name);
        if self.by_name.contains_key(k) {
            Some(self.by_name[k])
        } else {
            None
        }
    }

    /// The name of a scope.
    pub open spec fn name_of(self, id: ScopeId) -> Seq<char> {
        match id {
            ScopeId::Any => "any"@,
            ScopeId::Invalid => "invalid"@,
            ScopeId::Id(n) => match scope_def(self.scopes, id, 0) {
                Some(d) => d.name,
                None => decimal(n as int),
            },
        }
    }

    /// The scope is `of`, or counts as it.
    pub open spec fn counts_as(self, scope: ScopeId, of: ScopeId) -> bool {
        scope == of || match scope_def(self.scopes, scope, 0) {
            Some(d) => d.subscope_of.contains(of),
            None => false,
        }
    }

    /// The scope counts as one of these.
    pub open spec fn counts_as_any(self, scope: ScopeId, of: Seq<ScopeId>) -> bool {
        exists|i: int| 0 <= i < of.len() && self.counts_as(scope, #[trigger] of[i])
    }

    /// The command may be used in the scope.
    pub open spec fn allows(self, link: ScopeLinkV, scope: ScopeId) -> bool {
        link.valid_scopes.len() == 0 || scope == ScopeId::Any || link.valid_scopes.contains(
            ScopeId::Any,
        ) || self.counts_as_any(scope, link.valid_scopes)
    }
}

/// Whether `s` has the scope.
pub fn scopes_contain(s: &Vec<ScopeId>, id: ScopeId) -> (r: bool)
    ensures
        r == s@.contains(id),
{
    let mut i: usize = 0;
    while i < s.len()
        invariant
            i <= s@.len(),
            forall|j: int| 0 <= j < i ==> #[trigger] s@[j] != id,
        decreases s@.len() - i,
    {
        if s[i] == id {
            return true;
        }
        i += 1;
    }
    false
}

impl ScopeRegistry {
    /// No scopes and no commands.
    pub fn new() -> (r: Self)
        ensures
            r@ == empty_registry(),
    {
        let r = ScopeRegistry {
            by_name: NameMap::new(),
            scopes: Vec::new(),
            links: NameMap::new(),
            prefix_links: Vec::new(),
        };
        assert(r@ =~= empty_registry());
        r
    }

    /// The scope of that name, whatever its case.
    pub fn id_of(&self, name: &str) -> (r: Option<ScopeId>)
        ensures
            r == self@.id_of(name@),
    {
        let k = to_ascii_lower(name);
        match self.by_name.get(k.as_str()) {
            Some(id) => Some(*id),
            None => None,
        }
    }

    /// The declaration of a scope.
    fn find_def(&self, id: ScopeId) -> (r: Option<&ScopeDefOwned>)
        ensures
            match r {
                Some(d) => scope_def(self@.scopes, id, 0) == Some(d@),
                None => scope_def(self@.scopes, id, 0) is None,
            },
    {
        let mut i: usize = 0;
        while i < self.scopes.len()
            invariant
                i <= self.scopes@.len(),
                scope_def(self@.scopes, id, 0) == scope_def(self@.scopes, id, i as int),
            decreases self.scopes@.len() - i,
        {
            assert(self@.scopes[i as int] == self.scopes@[i as int]@);
            if self.scopes[i].id == id {
                return Some(&self.scopes[i]);
            }
            i += 1;
        }
        None
    }

    /// The name of a scope.
    pub fn name_of(&self, id: ScopeId) -> (r: String)
        ensures
            r@ == self@.name_of(id),
    {
        match id {
            ScopeId::Any => "any".to_owned(),
            ScopeId::Invalid => "invalid".to_owned(),
            ScopeId::Id(n) => match self.find_def(id) {
                Some(d) => d.name.clone(),
                None => print_i64(n as i64),
            },
        }
    }

    /// Whether the scope is `of` or counts as it.
    pub fn is_subscope_or_eq(&self, scope: ScopeId, of: ScopeId) -> (r: bool)
        ensures
            r == self@.counts_as(scope, of),
    {
        scope == of || match self.find_def(scope) {
            Some(d) => scopes_contain(&d.subscope_of, of),
            None => false,
        }
    }

    /// Whether the command may be used in the scope.
    #[verifier::loop_isolation(false)]
    fn link_allows(&self, link: &ScopeLink, scope: ScopeId) -> (r: bool)
        ensures
            r == self@.allows(link@, scope),
    {
        if link.valid_scopes.len() == 0 || scope == ScopeId::Any || scopes_contain(
            &link.valid_scopes,
            ScopeId::Any,
        ) {
            return true;
        }
        let mut i: usize = 0;
        while i < link.valid_scopes.len()
            invariant
                i <= link.valid_scopes@.len(),
                forall|j: int|
                    0 <= j < i ==> !self@.counts_as(scope, #[trigger] link.valid_scopes@[j]),
            decreases link.valid_scopes@.len() - i,
        {
            if self.is_subscope_or_eq(scope, link.valid_scopes[i]) {
                return true;
            }
            i += 1;
        }
        false
    }

    /// The command whose prefix the key starts with.
    fn find_prefix(&self, key: &str) -> (r: Option<&ScopeLink>)
        ensures
            match r {
                Some(l) => prefix_link(self@.prefix_links, key@, 0) == Some(l@),
                None => prefix_link(self@.prefix_links, key@, 0) is None,
            },
    {
        let mut i: usize = 0;
        while i < self.prefix_links.len()
            invariant
                i <= self.prefix_links@.len(),
                prefix_link(self@.prefix_links, key@, 0) == prefix_link(
                    self@.prefix_links,
                    key@,
                    i as int,
                ),
            decreases self.prefix_links@.len() - i,
        {
            assert(self@.prefix_links[i as int] == (
                self.prefix_links@[i as int].0@,
                self.prefix_links@[i as int].1@,
            ));
            if starts_with(key, self.prefix_links[i].0.as_str()) {
                return Some(&self.prefix_links[i].1);
            }
            i += 1;
        }
        None
    }
}

// ---------------------------------------------------------------------------
// Where a script stands

/// Where a script stands: the scopes that it has entered, and those that it was
/// called from.
pub struct ScopeContext<'a> {
    pub registry: &'a ScopeRegistry,
    pub root: ScopeId,
    /// The scopes of the callers, the nearest first.
    pub from: Vec<ScopeId>,
    /// The scopes that were entered, the current one last.
    pub stack: Vec<ScopeId>,
}

/// The model of [`ScopeContext`].
#[verifier::ext_equal]
pub struct ScopeV {
    pub registry: RegistryV,
    pub root: ScopeId,
    pub from: Seq<ScopeId>,
    pub stack: Seq<ScopeId>,
}

impl<'a> View for ScopeContext<'a> {
    type V = ScopeV;

    open spec fn view(&self) -> ScopeV {
        ScopeV {
            registry: self.registry@,
            root: self.root,
            from: self.from@,
            stack: self.stack@,
        }
    }
}

/// A way back by one of the words for it.
#[derive(Clone, Copy, PartialEq, Eq, Structural)]
pub enum WayBack {
    This,
    Root,
    /// That many scopes out.
    Prev(usize),
    /// That many callers back.
    From(usize),
}

/// The way back that a word in lower case stands for.
pub open spec fn way_back(k: Seq<char>) -> Option<WayBack> {
    if k == "this"@ {
        Some(WayBack::This)
    } else if k == "root"@ {
        Some(WayBack::Root)
    } else if k == "prev"@ {
        Some(WayBack::Prev(1))
    } else if k == "prevprev"@ {
        Some(WayBack::Prev(2))
    } else if k == "prevprevprev"@ {
        Some(WayBack::Prev(3))
    } else if k == "from"@ {
        Some(WayBack::From(1))
    } else if k == "fromfrom"@ {
        Some(WayBack::From(2))
    } else if k == "fromfromfrom"@ {
        Some(WayBack::From(3))
    } else if k == "fromfromfromfrom"@ {
        Some(WayBack::From(4))
    } else {
        None
    }
}

/// Reads a word for a way back.
pub fn read_way_back(k: &str) -> (r: Option<WayBack>)
    ensures
        r == way_back(k@),
{
    if same(k, "this") {
        Some(WayBack::This)
    } else if same(k, "root") {
        Some(WayBack::Root)
    } else if same(k, "prev") {
        Some(WayBack::Prev(1))
    } else if same(k, "prevprev") {
        Some(WayBack::Prev(2))
    } else if same(k, "prevprevprev") {
        Some(WayBack::Prev(3))
    } else if same(k, "from") {
        Some(WayBack::From(1))
    } else if same(k, "fromfrom") {
        Some(WayBack::From(2))
    } else if same(k, "fromfromfrom") {
        Some(WayBack::From(3))
    } else if same(k, "fromfromfromfrom") {
        Some(WayBack::From(4))
    } else {
        None
    }
}

/// What a command does.
pub enum ScopeResult {
    /// It leads to a scope.
    NewScope { scope: ScopeId },
    /// It leads to a scope of which nothing is known.
    AnyScope,
    /// It reads a value.
    ValueFound,
    /// A part of it may not be used in the scope that the parts before it lead to.
    WrongScope { command: String, current: ScopeId, expected: Vec<ScopeId> },
    /// It holds a part that is no command.
    NotFound,
}

/// The model of [`ScopeResult`].
#[verifier::ext_equal]
pub enum ScopeResultV {
    NewScope { scope: ScopeId },
    AnyScope,
    ValueFound,
    WrongScope { command: Seq<char>, current: ScopeId, expected: Seq<ScopeId> },
    NotFound,
}

impl View for ScopeResult {
    type V = ScopeResultV;

    open spec fn view(&self) -> ScopeResultV {
        match self {
            ScopeResult::NewScope { scope } => ScopeResultV::NewScope { scope: *scope },
            ScopeResult::AnyScope => ScopeResultV::AnyScope,
            ScopeResult::ValueFound => ScopeResultV::ValueFound,
            ScopeResult::WrongScope { command, current, expected } => ScopeResultV::WrongScope {
                command: command@,
                current: *current,
                expected: expected@,
            },
            ScopeResult::NotFound => ScopeResultV::NotFound,
        }
    }
}

/// What one part of a command does.
#[verifier::ext_equal]
pub enum StepV {
    To(ScopeId),
    Value,
    Wrong(Seq<ScopeId>),
    Unknown,
}

enum Step<'a> {
    To(ScopeId),
    Value,
    Wrong(&'a Vec<ScopeId>),
    Unknown,
}

impl<'a> View for Step<'a> {
    type V = StepV;

    closed spec fn view(&self) -> StepV {
        match self {
            Step::To(s) => StepV::To(*s),
            Step::Value => StepV::Value,
            Step::Wrong(v) => StepV::Wrong(v@),
            Step::Unknown => StepV::Unknown,
        }
    }
}

/// The element `n` from the front; any scope where there is none.
pub open spec fn at_or_any(s: Seq<ScopeId>, n: int) -> ScopeId {
    if 0 <= n < s.len() {
        s[n]
    } else {
        ScopeId::Any
    }
}

impl ScopeV {
    /// The scope that the script is in.
    pub open spec fn current(self) -> ScopeId {
        if self.stack.len() > 0 {
            self.stack.last()
        } else {
            self.root
        }
    }

    /// The context one scope further in.
    pub open spec fn pushed(self, scope: ScopeId) -> ScopeV {
        ScopeV { stack: self.stack.push(scope), ..self }
    }

    /// Where a way back leads.
    pub open spec fn back(self, way: WayBack, at: ScopeId) -> ScopeId {
        match way {
            WayBack::This => at,
            WayBack::Root => self.root,
            WayBack::Prev(n) => at_or_any(self.stack, self.stack.len() - 1 - n),
            WayBack::From(n) => at_or_any(self.from, n - 1),
        }
    }

    /// What one part of a command does in the scope `at`.
    pub open spec fn step(self, at: ScopeId, part: Seq<char>) -> StepV {
        let k = ascii_lower(part);
        match way_back(k) {
            Some(way) => StepV::To(self.back(way, at)),
            None => match prefix_link(self.registry.prefix_links, k, 0) {
                Some(link) => if !self.registry.allows(link, at) {
                    StepV::Wrong(link.valid_scopes)
                } else {
                    match link.target {
                        Some(t) => StepV::To(t),
                        None => StepV::To(ScopeId::Any),
                    }
                },
                None => if !self.registry.links.contains_key(k) {
                    StepV::Unknown
                } else {
                    let link = self.registry.links[k];
                    if !self.registry.allows(link, at) {
                        StepV::Wrong(link.valid_scopes)
                    } else {
                        match link.target {
                            Some(t) => StepV::To(t),
                            None => StepV::Value,
                        }
                    }
                },
            },
        }
    }

    /// What the parts from the `i`th on do in the scope `at`. A value may only be
    /// read at the end.
    pub open spec fn resolve(self, at: ScopeId, parts: Seq<Seq<char>>, i: int) -> ScopeResultV
        decreases parts.len() - i,
    {
        if i < 0 || i >= parts.len() {
            if at == ScopeId::Any {
                ScopeResultV::AnyScope
            } else {
                ScopeResultV::NewScope { scope: at }
            }
        } else {
            match self.step(at, parts[i]) {
                StepV::To(s) => self.resolve(s, parts, i + 1),
                StepV::Value => if i + 1 == parts.len() {
                    ScopeResultV::ValueFound
                } else {
                    ScopeResultV::NotFound
                },
                StepV::Wrong(valid) => ScopeResultV::WrongScope {
                    command: parts[i],
                    current: at,
                    expected: valid,
                },
                StepV::Unknown => ScopeResultV::NotFound,
            }
        }
    }

    /// What a command does: its parts stand between dots.
    pub open spec fn command(self, key: Seq<char>) -> ScopeResultV {
        self.resolve(self.current(), split_spec(key, CharSet::One('.')), 0)
    }

    /// The context after a command.
    pub open spec fn after(self, key: Seq<char>) -> ScopeV {
        match self.command(key) {
            ScopeResultV::NewScope { scope } => self.pushed(scope),
            ScopeResultV::AnyScope => self.pushed(ScopeId::Any),
            _ => self,
        }
    }

    /// The scope of that name; any scope where there is none.
    pub open spec fn named(self, name: Seq<char>) -> ScopeId {
        match self.registry.id_of(name) {
            Some(id) => id,
            None => ScopeId::Any,
        }
    }

    /// The scopes of the first `n` names.
    pub open spec fn all_named(self, names: Seq<Seq<char>>, n: int) -> Seq<ScopeId>
        decreases n,
    {
        if n <= 0 || n > names.len() {
            Seq::empty()
        } else {
            self.all_named(names, n - 1).push(self.named(names[n - 1]))
        }
    }

    /// The scopes of the first `n` names, the last first.
    pub open spec fn all_named_back(self, names: Seq<Seq<char>>, n: int) -> Seq<ScopeId>
        decreases n,
    {
        if n <= 0 || n > names.len() {
            Seq::empty()
        } else {
            seq![self.named(names[n - 1])] + self.all_named_back(names, n - 1)
        }
    }

    /// The context with what the names put in place of it: the root, the current
    /// scope, the callers, and the scopes further out.
    pub open spec fn replaced(self, r: ReplaceScopesV) -> ScopeV {
        let root = match r.root {
            Some(n) => self.named(n),
            None => self.root,
        };
        let from = if r.froms.len() > 0 {
            self.all_named(r.froms, r.froms.len() as int)
        } else {
            self.from
        };
        let here = match r.this {
            Some(n) => self.named(n),
            None => self.current(),
        };
        let stack = if r.this is None && r.prevs.len() == 0 {
            self.stack
        } else {
            self.all_named_back(r.prevs, r.prevs.len() as int).push(here)
        };
        ScopeV { registry: self.registry, root, from, stack }
    }
}

fn scope_at(s: &Vec<ScopeId>, n: usize) -> (r: ScopeId)
    ensures
        r == at_or_any(s@, n as int),
{
    if n < s.len() {
        s[n]
    } else {
        ScopeId::Any
    }
}

/// A copy of a list of scopes.
pub fn copy_scopes(s: &Vec<ScopeId>) -> (r: Vec<ScopeId>)
    ensures
        r@ == s@,
{
    let mut out: Vec<ScopeId> = Vec::new();
    let mut i: usize = 0;
    while i < s.len()
        invariant
            i <= s@.len(),
            out@ == s@.subrange(0, i as int),
        decreases s@.len() - i,
    {
        out.push(s[i]);
        assert(s@.subrange(0, i as int).push(s@[i as int]) =~= s@.subrange(0, i + 1));
        i += 1;
    }
    assert(s@.subrange(0, i as int) =~= s@);
    out
}

impl<'a> Clone for ScopeContext<'a> {
    fn clone(&self) -> (r: Self)
        ensures
            r@ == self@,
    {
        ScopeContext {
            registry: self.registry,
            root: self.root,
            from: copy_scopes(&self.from),
            stack: copy_scopes(&self.stack),
        }
    }
}

impl<'a> ScopeContext<'a> {
    /// A script that starts in the scope `initial`.
    pub fn from_registry(registry: &'a ScopeRegistry, initial: ScopeId) -> (r: Self)
        ensures
            r@ == (ScopeV {
                registry: registry@,
                root: initial,
                from: Seq::empty(),
                stack: seq![initial],
            }),
    {
        let mut stack: Vec<ScopeId> = Vec::new();
        stack.push(initial);
        let r = ScopeContext { registry, root: initial, from: Vec::new(), stack };
        assert(r@.stack =~= seq![initial]);
        assert(r@.from =~= Seq::empty());
        r
    }

    /// The scope that the script is in.
    pub fn current(&self) -> (r: ScopeId)
        ensures
            r == self@.current(),
    {
        let n: usize = self.stack.len();
        if n > 0 {
            self.stack[n - 1]
        } else {
            self.root
        }
    }

    /// How many scopes were entered.
    pub fn scope_depth(&self) -> (r: usize)
        ensures
            r == self@.stack.len(),
    {
        self.stack.len()
    }

    /// Enters a scope.
    pub fn push_scope(&mut self, scope: ScopeId)
        ensures
            final(self)@ == old(self)@.pushed(scope),
    {
        self.stack.push(scope);
    }

    fn step_to(&self, at: ScopeId, part: &str) -> (r: Step<'a>)
        ensures
            r@ == self@.step(at, part@),
    {
        let k = to_ascii_lower(part);
        match read_way_back(k.as_str()) {
            Some(way) => {
                let to = match way {
                    WayBack::This => at,
                    WayBack::Root => self.root,
                    WayBack::Prev(n) => {
                        let len: usize = self.stack.len();
                        if n < len {
                            scope_at(&self.stack, len - 1 - n)
                        } else {
                            ScopeId::Any
                        }
                    },
                    WayBack::From(n) => {
                        if n > 0 {
                            scope_at(&self.from, n - 1)
                        } else {
                            ScopeId::Any
                        }
                    },
                };
                Step::To(to)
            },
            None => match self.registry.find_prefix(k.as_str()) {
                Some(link) => {
                    if !self.registry.link_allows(link, at) {
                        Step::Wrong(&link.valid_scopes)
                    } else {
                        match link.target {
                            Some(t) => Step::To(t),
                            None => Step::To(ScopeId::Any),
                        }
                    }
                },
                None => match self.registry.links.get(k.as_str()) {
                    None => Step::Unknown,
                    Some(link) => {
                        if !self.registry.link_allows(link, at) {
                            Step::Wrong(&link.valid_scopes)
                        } else {
                            match link.target {
                                Some(t) => Step::To(t),
                                None => Step::Value,
                            }
                        }
                    },
                },
            },
        }
    }

    /// What a command does in the scope that the script is in.
    #[verifier::loop_isolation(false)]
    pub fn probe(&self, key: &str) -> (r: ScopeResult)
        ensures
            r@ == self@.command(key@),
    {
        let parts = split(key, CharSet::One('.'));
        let ghost ps = texts(parts@);
        let mut at = self.current();
        let mut i: usize = 0;
        while i < parts.len()
            invariant
                i <= parts@.len(),
                self@.resolve(self@.current(), ps, 0) == self@.resolve(at, ps, i as int),
            decreases parts@.len() - i,
        {
            assert(ps[i as int] == parts@[i as int]@);
            match self.step_to(at, parts[i].as_str()) {
                Step::To(s) => {
                    at = s;
                },
                Step::Value => {
                    return if i + 1 == parts.len() {
                        ScopeResult::ValueFound
                    } else {
                        ScopeResult::NotFound
                    };
                },
                Step::Wrong(valid) => {
                    return ScopeResult::WrongScope {
                        command: parts[i].clone(),
                        current: at,
                        expected: copy_scopes(valid),
                    };
                },
                Step::Unknown => {
                    return ScopeResult::NotFound;
                },
            }
            i += 1;
        }
        if at == ScopeId::Any {
            ScopeResult::AnyScope
        } else {
            ScopeResult::NewScope { scope: at }
        }
    }

    /// Runs a command: enters the scope that it leads to, and leaves the context as
    /// it is where the command leads nowhere.
    pub fn change_scope(&mut self, key: &str) -> (r: ScopeResult)
        ensures
            r@ == old(self)@.command(key@),
            final(self)@ == old(self)@.after(key@),
    {
        let r = self.probe(key);
        match &r {
            ScopeResult::NewScope { scope } => {
                self.push_scope(*scope);
            },
            ScopeResult::AnyScope => {
                self.push_scope(ScopeId::Any);
            },
            _ => {},
        }
        r
    }

    fn named(&self, name: &str) -> (r: ScopeId)
        ensures
            r == self@.named(name@),
    {
        match self.registry.id_of(name) {
            Some(id) => id,
            None => ScopeId::Any,
        }
    }

    fn all_named(&self, names: &Vec<String>) -> (r: Vec<ScopeId>)
        ensures
            r@ == self@.all_named(texts(names@), names@.len() as int),
    {
        let mut out: Vec<ScopeId> = Vec::new();
        let mut i: usize = 0;
        while i < names.len()
            invariant
                i <= names@.len(),
                out@ == self@.all_named(texts(names@), i as int),
            decreases names@.len() - i,
        {
            assert(texts(names@)[i as int] == names@[i as int]@);
            out.push(self.named(names[i].as_str()));
            i += 1;
        }
        out
    }

    fn all_named_back(&self, names: &Vec<String>) -> (r: Vec<ScopeId>)
        ensures
            r@ == self@.all_named_back(texts(names@), names@.len() as int),
    {
        let mut out: Vec<ScopeId> = Vec::new();
        let mut i: usize = names.len();
        let ghost all = self@.all_named_back(texts(names@), names@.len() as int);
        assert(out@ + all =~= all);
        while i > 0
            invariant
                i <= names@.len(),
                all == out@ + self@.all_named_back(texts(names@), i as int),
            decreases i,
        {
            let ghost before = out@;
            i -= 1;
            assert(texts(names@)[i as int] == names@[i as int]@);
            out.push(self.named(names[i].as_str()));
            assert(out@ + self@.all_named_back(texts(names@), i as int) =~= before
                + self@.all_named_back(texts(names@), i + 1));
        }
        assert(out@ =~= all);
        out
    }

    /// Puts named scopes in place of the root, the current scope, the callers, and
    /// the scopes further out.
    pub fn apply_replace_scope(&mut self, r: &ReplaceScopes)
        ensures
            final(self)@ == old(self)@.replaced(r@),
    {
        let root = match &r.root {
            Some(n) => self.named(n.as_str()),
            None => self.root,
        };
        let here = match &r.this {
            Some(n) => self.named(n.as_str()),
            None => self.current(),
        };
        let new_stack = r.this.is_some() || r.prevs.len() > 0;
        let mut stack = self.all_named_back(&r.prevs);
        stack.push(here);
        let from = self.all_named(&r.froms);
        self.root = root;
        if r.froms.len() > 0 {
            self.from = from;
        }
        if new_stack {
            self.stack = stack;
        }
    }
}

} // verus!
