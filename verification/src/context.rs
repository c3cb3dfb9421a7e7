//! What the checks of one file share.

use vstd::prelude::*;

use crate::common::has_key;
use crate::field_match::opt_index;
use crate::rules_types::views;
use crate::ruleset::{RuleSet, RuleSetV};
use crate::scope_engine::{ScopeContext, ScopeId, ScopeV};
use crate::text::{NameSet, same, texts};
use crate::type_index::{Game, IndexV, TypeIndex};

verus! {

/// A language with the localisation keys that it provides, in lower case.
pub struct LocLanguage {
    pub name: String,
    pub keys: NameSet,
}

/// The model of [`LocLanguage`].
#[verifier::ext_equal]
pub struct LocLanguageV {
    pub name: Seq<char>,
    pub keys: Set<Seq<char>>,
}

impl View for LocLanguage {
    type V = LocLanguageV;

    open spec fn view(&self) -> LocLanguageV {
        LocLanguageV { name: self.name@, keys: self.keys@ }
    }
}

/// What is wrong with a command in a localised text.
pub enum LocCommandDiagnostic {
    WrongScope { command: String, current_scope: ScopeId, expected_scopes: Vec<ScopeId> },
    ChainEndsInScope { command: String },
    NotFound { command: String },
}

/// The model of [`LocCommandDiagnostic`].
#[verifier::ext_equal]
pub enum LocDiagnosticV {
    WrongScope { command: Seq<char>, current_scope: ScopeId, expected_scopes: Seq<ScopeId> },
    ChainEndsInScope { command: Seq<char> },
    NotFound { command: Seq<char> },
}

impl View for LocCommandDiagnostic {
    type V = LocDiagnosticV;

    open spec fn view(&self) -> LocDiagnosticV {
        match self {
            LocCommandDiagnostic::WrongScope { command, current_scope, expected_scopes } =>
                LocDiagnosticV::WrongScope {
                command: command@,
                current_scope: *current_scope,
                expected_scopes: expected_scopes@,
            },
            LocCommandDiagnostic::ChainEndsInScope { command } =>
                LocDiagnosticV::ChainEndsInScope { command: command@ },
            LocCommandDiagnostic::NotFound { command } => LocDiagnosticV::NotFound {
                command: command@,
            },
        }
    }
}

/// What is wrong with the commands in the text of a key, where it is shown in a
/// scope.
pub struct LocCommands {
    /// In lower case.
    pub key: String,
    pub scope: ScopeId,
    pub diagnostics: Vec<LocCommandDiagnostic>,
}

/// The model of [`LocCommands`].
#[verifier::ext_equal]
pub struct LocCommandsV {
    pub key: Seq<char>,
    pub scope: ScopeId,
    pub diagnostics: Seq<LocDiagnosticV>,
}

impl View for LocCommands {
    type V = LocCommandsV;

    open spec fn view(&self) -> LocCommandsV {
        LocCommandsV {
            key: self.key@,
            scope: self.scope,
            diagnostics: views(self.diagnostics@),
        }
    }
}

/// The localisation of a project.
pub struct LocIndex {
    pub languages: Vec<LocLanguage>,
    pub commands: Vec<LocCommands>,
}

/// The model of [`LocIndex`].
#[verifier::ext_equal]
pub struct LocIndexV {
    pub languages: Seq<LocLanguageV>,
    pub commands: Seq<LocCommandsV>,
}

impl View for LocIndex {
    type V = LocIndexV;

    open spec fn view(&self) -> LocIndexV {
        LocIndexV { languages: views(self.languages@), commands: views(self.commands@) }
    }
}

/// The names of those of the first `n` languages that lack the key.
pub open spec fn missing_languages(l: Seq<LocLanguageV>, key: Seq<char>, n: int) -> Seq<Seq<char>>
    decreases n,
{
    if n <= 0 || n > l.len() {
        Seq::empty()
    } else if l[n - 1].keys.contains(key) {
        missing_languages(l, key, n - 1)
    } else {
        missing_languages(l, key, n - 1).push(l[n - 1].name)
    }
}

/// What is wrong with the commands in the text of the key in that scope, from the
/// `i`th entry on.
pub open spec fn command_diagnostics(
    c: Seq<LocCommandsV>,
    key: Seq<char>,
    scope: ScopeId,
    i: int,
) -> Seq<LocDiagnosticV>
    decreases c.len() - i,
{
    if i < 0 || i >= c.len() {
        Seq::empty()
    } else if c[i].key == key && c[i].scope == scope {
        c[i].diagnostics
    } else {
        command_diagnostics(c, key, scope, i + 1)
    }
}

impl LocIndexV {
    /// Some language has the key.
    pub open spec fn has_key(self, key: Seq<char>) -> bool {
        exists|i: int|
            0 <= i < self.languages.len() && (#[trigger] self.languages[i]).keys.contains(key)
    }
}

impl LocIndex {
    /// Whether some language has the key, which is in lower case.
    #[verifier::loop_isolation(false)]
    pub fn exists_any(&self, key: &str) -> (r: bool)
        ensures
            r == self@.has_key(key@),
    {
        let mut i: usize = 0;
        while i < self.languages.len()
            invariant
                i <= self.languages@.len(),
                forall|j: int|
                    0 <= j < i ==> !(#[trigger] self@.languages[j]).keys.contains(key@),
            decreases self.languages@.len() - i,
        {
            assert(self@.languages[i as int] == self.languages@[i as int]@);
            if self.languages[i].keys.contains(key) {
                return true;
            }
            i += 1;
        }
        false
    }

    /// The languages that lack the key, which is in lower case.
    pub fn missing_synced_languages(&self, key: &str) -> (r: Vec<String>)
        ensures
            texts(r@) == missing_languages(
                self@.languages,
                key@,
                self@.languages.len() as int,
            ),
    {
        let mut out: Vec<String> = Vec::new();
        let mut i: usize = 0;
        assert(texts(out@) =~= missing_languages(self@.languages, key@, 0));
        while i < self.languages.len()
            invariant
                i <= self.languages@.len(),
                texts(out@) == missing_languages(self@.languages, key@, i as int),
            decreases self.languages@.len() - i,
        {
            assert(self@.languages[i as int] == self.languages@[i as int]@);
            if !self.languages[i].keys.contains(key) {
                let ghost before = texts(out@);
                out.push(self.languages[i].name.clone());
                assert(texts(out@) =~= before.push(self@.languages[i as int].name));
            }
            i += 1;
        }
        out
    }

    /// What is wrong with the commands in the text of the key in that scope, if it is
    /// known.
    pub fn diagnostics(&self, key: &str, scope: ScopeId) -> (r: Option<&Vec<LocCommandDiagnostic>>)
        ensures
            match r {
                Some(d) => views(d@) == command_diagnostics(self@.commands, key@, scope, 0),
                None => command_diagnostics(self@.commands, key@, scope, 0) == Seq::<
                    LocDiagnosticV,
                >::empty(),
            },
    {
        let mut i: usize = 0;
        while i < self.commands.len()
            invariant
                i <= self.commands@.len(),
                command_diagnostics(self@.commands, key@, scope, 0) == command_diagnostics(
                    self@.commands,
                    key@,
                    scope,
                    i as int,
                ),
            decreases self.commands@.len() - i,
        {
            assert(self@.commands[i as int] == self.commands@[i as int]@);
            if same(self.commands[i].key.as_str(), key) && self.commands[i].scope == scope {
                return Some(&self.commands[i].diagnostics);
            }
            i += 1;
        }
        None
    }
}

/// What the checks of one file share.
pub struct ValidationCtx<'a> {
    pub ruleset: &'a RuleSet,
    pub file_path: &'a str,
    pub game: Option<Game>,
    pub type_index: Option<&'a TypeIndex>,
    /// The names of the modifiers, in lower case.
    pub modifier_keys: Option<&'a NameSet>,
    pub loc_index: Option<&'a LocIndex>,
    /// Localisation keys, in lower case, that exist although no language has them
    /// yet: those just typed.
    pub extra_loc_keys: Option<&'a NameSet>,
    pub scope_checks: bool,
    pub var_checks: bool,
}

/// The model of [`ValidationCtx`].
#[verifier::ext_equal]
pub struct CtxV {
    pub rs: RuleSetV,
    pub file: Seq<char>,
    pub game: Option<Game>,
    pub idx: Option<IndexV>,
    pub modifier_keys: Option<Set<Seq<char>>>,
    pub loc: Option<LocIndexV>,
    pub extra_loc_keys: Option<Set<Seq<char>>>,
    pub scope_checks: bool,
    pub var_checks: bool,
}

pub open spec fn opt_names(o: Option<&NameSet>) -> Option<Set<Seq<char>>> {
    match o {
        Some(s) => Some(s@),
        None => None,
    }
}

pub open spec fn opt_loc(o: Option<&LocIndex>) -> Option<LocIndexV> {
    match o {
        Some(s) => Some(s@),
        None => None,
    }
}

impl<'a> View for ValidationCtx<'a> {
    type V = CtxV;

    open spec fn view(&self) -> CtxV {
        CtxV {
            rs: self.ruleset@,
            file: self.file_path@,
            game: self.game,
            idx: opt_index(self.type_index),
            modifier_keys: opt_names(self.modifier_keys),
            loc: opt_loc(self.loc_index),
            extra_loc_keys: opt_names(self.extra_loc_keys),
            scope_checks: self.scope_checks,
            var_checks: self.var_checks,
        }
    }
}

/// The name is in the set, if there is one.
pub open spec fn in_names(o: Option<Set<Seq<char>>>, name: Seq<char>) -> bool {
    match o {
        Some(s) => s.contains(name),
        None => false,
    }
}

/// Whether the name is in the set, if there is one.
pub fn names_contain(o: Option<&NameSet>, name: &str) -> (r: bool)
    ensures
        r == in_names(opt_names(o), name@),
{
    match o {
        Some(s) => s.contains(name),
        None => false,
    }
}

/// Where a script stands, if scopes are followed.
pub open spec fn opt_scope(o: Option<&ScopeContext>) -> Option<ScopeV> {
    match o {
        Some(s) => Some(s@),
        None => None,
    }
}

} // verus!
