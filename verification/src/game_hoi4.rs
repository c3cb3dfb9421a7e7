//! Hints for Hearts of Iron IV: fields that repeat the default of the game.

use vstd::prelude::*;

use crate::ast::{Child, Comment, Leaf, LeafValue, ParsedFile, Value};
use crate::diagnostic::{ErrorV, ValidationError, add_one, coded, report1};
use crate::error_codes::{cw280, cw280_redundant_default_field};
use crate::rules_types::views;
use crate::ruleset::RuleSet;
use crate::text::{ascii_lower, eq_ci, same_ci, to_ascii_lower};

verus! {

/// What the one `always` among the children from the `i`th on says, where there is
/// nothing else but comments; `found` is what one before them says.
pub open spec fn sole_always(ch: Seq<Child>, i: int, found: Option<bool>) -> Option<bool>
    decreases ch.len() - i,
{
    if i < 0 || i >= ch.len() {
        found
    } else {
        match ch[i] {
            Child::Comment(_) => sole_always(ch, i + 1, found),
            Child::Leaf(l) => match l.value {
                Value::Bool(b) => if eq_ci(l.key@, "always"@) && found is None {
                    sole_always(ch, i + 1, Some(b))
                } else {
                    None
                },
                _ => None,
            },
            Child::LeafValue(_) => None,
        }
    }
}

/// What the `always` of a block says that holds nothing else but comments.
pub fn sole_always_value(children: &Vec<Child>) -> (r: Option<bool>)
    ensures
        r == sole_always(children@, 0, None),
{
    let mut found: Option<bool> = None;
    let mut i: usize = 0;
    while i < children.len()
        invariant
            i <= children@.len(),
            sole_always(children@, 0, None) == sole_always(children@, i as int, found),
        decreases children@.len() - i,
    {
        match &children[i] {
            Child::Comment(_) => {},
            Child::Leaf(l) => match &l.value {
                Value::Bool(b) => {
                    if same_ci(l.key.as_str(), "always") && found.is_none() {
                        found = Some(*b);
                    } else {
                        return None;
                    }
                },
                _ => {
                    return None;
                },
            },
            Child::LeafValue(_) => {
                return None;
            },
        }
        i += 1;
    }
    found
}

/// What an `always` that repeats the default of the field says.
pub open spec fn field_default(key: Seq<char>) -> Option<bool> {
    if eq_ci(key, "allowed_civil_war"@) {
        Some(false)
    } else {
        None
    }
}

/// What an `always` that repeats the default of the field says. The fields are
/// listed: in others the same is a guard, not a default.
pub fn default_of_field(key: &str) -> (r: Option<bool>)
    ensures
        r == field_default(key@),
{
    if same_ci(key, "allowed_civil_war") {
        Some(false)
    } else {
        None
    }
}

/// The field repeats its default.
pub open spec fn is_redundant(l: Leaf, inner: Seq<Child>) -> bool {
    field_default(l.key@) is Some && sole_always(inner, 0, None) == field_default(l.key@)
}

/// The hints on a child and all below it.
pub open spec fn default_hints_in(c: Child, file: Seq<char>) -> Seq<ErrorV>
    decreases c, 0int, 0int,
{
    match c {
        Child::Leaf(l) => match l.value {
            Value::Clause(inner) => (if is_redundant(l, inner@) {
                seq![
                    coded(
                        cw280(),
                        file,
                        l.pos.start.line,
                        l.pos.start.col,
                        seq![ascii_lower(l.key@)],
                    ),
                ]
            } else {
                Seq::empty()
            }) + default_hints(inner@, inner@.len() as int, file),
            _ => Seq::empty(),
        },
        _ => Seq::empty(),
    }
}

/// The hints on the first `n` children and all below them.
pub open spec fn default_hints(ch: Seq<Child>, n: int, file: Seq<char>) -> Seq<ErrorV>
    decreases ch, 0int, n,
{
    if n <= 0 || n > ch.len() {
        Seq::empty()
    } else {
        default_hints(ch, n - 1, file) + default_hints_in(ch[n - 1], file)
    }
}

fn walk_field(child: &Child, file: &str, errors: &mut Vec<ValidationError>)
    ensures
        views(final(errors)@) == views(old(errors)@) + default_hints_in(*child, file@),
    decreases child, 0int,
{
    let ghost start = views(errors@);
    match child {
        Child::Leaf(l) => match &l.value {
            Value::Clause(inner) => {
                let redundant = match default_of_field(l.key.as_str()) {
                    Some(d) => match sole_always_value(inner) {
                        Some(v) => v == d,
                        None => false,
                    },
                    None => false,
                };
                if redundant {
                    let key = to_ascii_lower(l.key.as_str());
                    add_one(
                        errors,
                        report1(
                            &cw280_redundant_default_field(),
                            file,
                            l.pos.start.line,
                            l.pos.start.col,
                            key.as_str(),
                        ),
                    );
                }
                walk_fields(inner, file, errors);
            },
            _ => {},
        },
        _ => {},
    }
    assert(views(errors@) =~= start + default_hints_in(*child, file@));
}

fn walk_fields(children: &Vec<Child>, file: &str, errors: &mut Vec<ValidationError>)
    ensures
        views(final(errors)@) == views(old(errors)@) + default_hints(
            children@,
            children@.len() as int,
            file@,
        ),
    decreases children, 0int,
{
    let ghost start = views(errors@);
    let mut i: usize = 0;
    assert(views(errors@) =~= start + default_hints(children@, 0, file@));
    while i < children.len()
        invariant
            i <= children@.len(),
            views(errors@) == start + default_hints(children@, i as int, file@),
        decreases children@.len() - i,
    {
        walk_field(&children[i], file, errors);
        assert(views(errors@) =~= start + default_hints(children@, i + 1, file@));
        i += 1;
    }
}

/// Adds the hints on a whole file.
pub fn validate_hoi4(
    ast: &ParsedFile,
    ruleset: &RuleSet,
    file_path: &str,
    errors: &mut Vec<ValidationError>,
)
    ensures
        views(final(errors)@) == views(old(errors)@) + default_hints(
            ast.root_children@,
            ast.root_children@.len() as int,
            file_path@,
        ),
{
    walk_fields(&ast.root_children, file_path, errors);
}

} // verus!
