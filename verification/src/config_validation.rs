//! Checking a configuration itself: references to types, enums and single aliases
//! that nothing defines.
//!
//! A definition never reads as a reference: `type[x]`, `enum[x]` under `enums` and
//! `single_alias[x]` are no field types. Alias categories are left out, since a
//! definition and a use of one look alike.

use vstd::prelude::*;
use vstd::string::*;

use crate::ast::{Child, Comment, Leaf, LeafValue, ParsedFile, SourcePos, Value};
use crate::field_parser::{field_from_string, field_of};
use crate::rule_converter::{config_text, value_to_string};
use crate::rules_types::{
    FieldV, NewField, TypeType, TypeTypeV, ValueType, ValueTypeV, lemma_views_push, views,
};
use crate::ruleset::{RuleSet, RuleSetV};
use crate::text::{CharSet, before_first, decimal, head_before, print_i64, same};

verus! {

/// A problem in a configuration file. `line` is 1 where there is no position.
#[derive(Debug, PartialEq)]
pub struct RuleParseError {
    pub file: String,
    pub line: u32,
    pub col: u16,
    pub message: String,
}

/// The model of a [`RuleParseError`].
#[verifier::ext_equal]
pub struct ParseErrorV {
    pub file: Seq<char>,
    pub line: u32,
    pub col: u16,
    pub message: Seq<char>,
}

impl View for RuleParseError {
    type V = ParseErrorV;

    open spec fn view(&self) -> ParseErrorV {
        ParseErrorV {
            file: self.file@,
            line: self.line,
            col: self.col,
            message: self.message@,
        }
    }
}

impl RuleParseError {
    /// The error as one line: `file:line:col: message`.
    pub fn to_text(&self) -> (r: String)
        ensures
            r@ == self@.file + ":"@ + decimal(self@.line as int) + ":"@ + decimal(
                self@.col as int,
            ) + ": "@ + self@.message,
    {
        let mut s = self.file.clone();
        s.append(":");
        s.append(print_i64(self.line as i64).as_str());
        s.append(":");
        s.append(print_i64(self.col as i64).as_str());
        s.append(": ");
        s.append(self.message.as_str());
        s
    }
}

/// What a field refers to.
#[derive(Clone, Copy, Debug, PartialEq, Eq, Structural)]
pub enum RefKind {
    Type,
    Enum,
    SingleAlias,
}

impl RefKind {
    pub open spec fn label_text(self) -> Seq<char> {
        match self {
            RefKind::Type => "type"@,
            RefKind::Enum => "enum"@,
            RefKind::SingleAlias => "single_alias"@,
        }
    }

    /// The word for this kind in a message.
    pub fn label(self) -> (r: &'static str)
        ensures
            r@ == self.label_text(),
    {
        match self {
            RefKind::Type => "type",
            RefKind::Enum => "enum",
            RefKind::SingleAlias => "single_alias",
        }
    }
}

/// The type in a reference `type.subtype`: what stands before the first `.`.
pub open spec fn base_of(name: Seq<char>) -> Seq<char> {
    before_first(name, CharSet::One('.'))
}

/// The type in a reference `type.subtype`.
pub fn base_type(name: &str) -> (r: &str)
    ensures
        r@ == base_of(name@),
{
    head_before(name, CharSet::One('.'))
}

/// The definition that a field refers to.
pub open spec fn reference(f: FieldV) -> Option<(RefKind, Seq<char>)> {
    match f {
        FieldV::TypeField(TypeTypeV::Simple(n)) => Some((RefKind::Type, base_of(n))),
        FieldV::TypeField(TypeTypeV::Complex { name, .. }) => Some((RefKind::Type, base_of(name))),
        FieldV::ValueField(ValueTypeV::Enum(n)) => Some((RefKind::Enum, n)),
        FieldV::SingleAliasField(n) => Some((RefKind::SingleAlias, n)),
        _ => None,
    }
}

/// The definition that a field refers to.
pub fn referenced_name(field: &NewField) -> (r: Option<(RefKind, String)>)
    ensures
        match r {
            Some(p) => reference(field@) == Some((p.0, p.1@)),
            None => reference(field@) is None,
        },
{
    match field {
        NewField::TypeField(TypeType::Simple(n)) => Some(
            (RefKind::Type, base_type(n.as_str()).to_owned()),
        ),
        NewField::TypeField(TypeType::Complex { name, .. }) => Some(
            (RefKind::Type, base_type(name.as_str()).to_owned()),
        ),
        NewField::ValueField(ValueType::Enum(n)) => Some((RefKind::Enum, n.clone())),
        NewField::SingleAliasField(n) => Some((RefKind::SingleAlias, n.clone())),
        _ => None,
    }
}

/// The rule set defines what is referred to.
pub open spec fn defines(rs: RuleSetV, kind: RefKind, name: Seq<char>) -> bool {
    match kind {
        RefKind::Type => rs.type_by_name.contains_key(name),
        RefKind::Enum => rs.enum_by_name.contains_key(name) || exists|i: int|
            0 <= i < rs.complex_enums.len() && (#[trigger] rs.complex_enums[i]).name == name,
        RefKind::SingleAlias => exists|i: int|
            0 <= i < rs.single_aliases.len() && (#[trigger] rs.single_aliases[i]).0 == name,
    }
}

/// Whether the rule set defines what is referred to.
#[verifier::loop_isolation(false)]
pub fn is_defined(ruleset: &RuleSet, kind: RefKind, name: &str) -> (r: bool)
    ensures
        r == defines(ruleset@, kind, name@),
{
    match kind {
        RefKind::Type => ruleset.type_by_name.contains(name),
        RefKind::Enum => {
            if ruleset.enum_by_name.contains(name) {
                return true;
            }
            let mut i: usize = 0;
            while i < ruleset.complex_enums.len()
                invariant
                    i <= ruleset.complex_enums@.len(),
                    forall|j: int|
                        0 <= j < i ==> (#[trigger] ruleset@.complex_enums[j]).name != name@,
                decreases ruleset.complex_enums@.len() - i,
            {
                assert(ruleset@.complex_enums[i as int].name
                    == ruleset.complex_enums@[i as int].name@);
                if same(ruleset.complex_enums[i].name.as_str(), name) {
                    return true;
                }
                i += 1;
            }
            false
        },
        RefKind::SingleAlias => {
            let mut i: usize = 0;
            while i < ruleset.single_aliases.len()
                invariant
                    i <= ruleset.single_aliases@.len(),
                    forall|j: int|
                        0 <= j < i ==> (#[trigger] ruleset@.single_aliases[j]).0 != name@,
                decreases ruleset.single_aliases@.len() - i,
            {
                assert(ruleset@.single_aliases[i as int].0
                    == ruleset.single_aliases@[i as int].0@);
                if same(ruleset.single_aliases[i].0.as_str(), name) {
                    return true;
                }
                i += 1;
            }
            false
        },
    }
}

/// The problem with a text that stands for a field: it refers to something that
/// is not defined.
pub open spec fn field_problem(
    s: Seq<char>,
    pos: SourcePos,
    rs: RuleSetV,
    path: Seq<char>,
) -> Seq<ParseErrorV> {
    match reference(field_of(s)) {
        Some((kind, name)) => if defines(rs, kind, name) {
            Seq::empty()
        } else {
            seq![
                ParseErrorV {
                    file: path,
                    line: pos.line,
                    col: pos.col,
                    message: "rule references undefined "@ + kind.label_text() + " `"@ + name
                        + "`"@,
                },
            ]
        },
        None => Seq::empty(),
    }
}

/// The problems in a value.
pub open spec fn value_problems(
    v: Value,
    pos: SourcePos,
    rs: RuleSetV,
    path: Seq<char>,
) -> Seq<ParseErrorV>
    decreases v,
{
    match v {
        Value::Clause(c) => children_problems(c@, c@.len() as int, rs, path),
        _ => field_problem(config_text(v), pos, rs, path),
    }
}

/// The problems in a child: in its key, and in its value.
pub open spec fn child_problems(c: Child, rs: RuleSetV, path: Seq<char>) -> Seq<ParseErrorV>
    decreases c,
{
    match c {
        Child::Leaf(l) => field_problem(l.key@, l.pos.start, rs, path) + value_problems(
            l.value,
            l.pos.start,
            rs,
            path,
        ),
        Child::LeafValue(lv) => value_problems(lv.value, lv.pos.start, rs, path),
        Child::Comment(_) => Seq::empty(),
    }
}

/// The problems in the first `n` children.
pub open spec fn children_problems(
    ch: Seq<Child>,
    n: int,
    rs: RuleSetV,
    path: Seq<char>,
) -> Seq<ParseErrorV>
    decreases ch, n,
{
    if n <= 0 || n > ch.len() {
        Seq::empty()
    } else {
        children_problems(ch, n - 1, rs, path) + child_problems(ch[n - 1], rs, path)
    }
}

fn check_field(
    s: &str,
    pos: SourcePos,
    ruleset: &RuleSet,
    path: &str,
    errors: &mut Vec<RuleParseError>,
)
    ensures
        views(final(errors)@) == views(old(errors)@) + field_problem(s@, pos, ruleset@, path@),
{
    let ghost start = errors@;
    match referenced_name(&field_from_string(s)) {
        Some((kind, name)) => {
            if !is_defined(ruleset, kind, name.as_str()) {
                let mut message = "rule references undefined ".to_owned();
                message.append(kind.label());
                message.append(" `");
                message.append(name.as_str());
                message.append("`");
                let e = RuleParseError {
                    file: path.to_owned(),
                    line: pos.line,
                    col: pos.col,
                    message,
                };
                errors.push(e);
                proof {
                    lemma_views_push(start, e);
                }
            }
        },
        None => {},
    }
    assert(views(errors@) =~= views(start) + field_problem(s@, pos, ruleset@, path@));
}

fn check_value(
    v: &Value,
    pos: SourcePos,
    ruleset: &RuleSet,
    path: &str,
    errors: &mut Vec<RuleParseError>,
)
    ensures
        views(final(errors)@) == views(old(errors)@) + value_problems(*v, pos, ruleset@, path@),
    decreases v,
{
    match v {
        Value::Clause(c) => {
            check_children(c, ruleset, path, errors);
        },
        _ => {
            let text = value_to_string(v);
            check_field(text.as_str(), pos, ruleset, path, errors);
        },
    }
}

/// Reports the problems in the children of a block.
pub fn check_children(
    c: &Vec<Child>,
    ruleset: &RuleSet,
    path: &str,
    errors: &mut Vec<RuleParseError>,
)
    ensures
        views(final(errors)@) == views(old(errors)@) + children_problems(
            c@,
            c@.len() as int,
            ruleset@,
            path@,
        ),
    decreases c,
{
    let ghost start = views(errors@);
    let mut i: usize = 0;
    assert(views(errors@) =~= start + children_problems(c@, 0, ruleset@, path@));
    while i < c.len()
        invariant
            i <= c@.len(),
            views(errors@) == start + children_problems(c@, i as int, ruleset@, path@),
        decreases c@.len() - i,
    {
        walk_child(&c[i], ruleset, path, errors);
        assert(views(errors@) =~= start + children_problems(c@, i + 1, ruleset@, path@));
        i += 1;
    }
}

/// Reports the problems in a child.
pub fn walk_child(child: &Child, ruleset: &RuleSet, path: &str, errors: &mut Vec<RuleParseError>)
    ensures
        views(final(errors)@) == views(old(errors)@) + child_problems(*child, ruleset@, path@),
    decreases child,
{
    let ghost start = views(errors@);
    match child {
        Child::Leaf(l) => {
            check_field(l.key.as_str(), l.pos.start, ruleset, path, errors);
            check_value(&l.value, l.pos.start, ruleset, path, errors);
        },
        Child::LeafValue(lv) => {
            check_value(&lv.value, lv.pos.start, ruleset, path, errors);
        },
        Child::Comment(_) => {},
    }
    assert(views(errors@) =~= start + child_problems(*child, ruleset@, path@));
}

/// A configuration file with the path it was read from.
pub struct ConfigFile {
    pub path: String,
    pub ast: ParsedFile,
}

/// The problems in the first `n` files.
pub open spec fn files_problems(files: Seq<ConfigFile>, n: int, rs: RuleSetV) -> Seq<ParseErrorV>
    decreases n,
{
    if n <= 0 || n > files.len() {
        Seq::empty()
    } else {
        let ch = files[n - 1].ast.root_children@;
        files_problems(files, n - 1, rs) + children_problems(
            ch,
            ch.len() as int,
            rs,
            files[n - 1].path@,
        )
    }
}

/// Reports every reference in the files to something that the rule set, into
/// which all of them are merged, does not define.
pub fn validate_ruleset_references(files: &Vec<ConfigFile>, ruleset: &RuleSet) -> (r: Vec<
    RuleParseError,
>)
    ensures
        views(r@) == files_problems(files@, files@.len() as int, ruleset@),
{
    let mut errors: Vec<RuleParseError> = Vec::new();
    let mut i: usize = 0;
    assert(views(errors@) =~= Seq::empty());
    while i < files.len()
        invariant
            i <= files@.len(),
            views(errors@) == files_problems(files@, i as int, ruleset@),
        decreases files@.len() - i,
    {
        check_children(
            &files[i].ast.root_children,
            ruleset,
            files[i].path.as_str(),
            &mut errors,
        );
        i += 1;
    }
    errors
}

} // verus!
