//! The checks of each game.

use vstd::prelude::*;

use crate::ast::{Child, ParsedFile};
use crate::diagnostic::{ErrorV, ValidationError};
use crate::field_match::opt_index;
use crate::game_common::{common_problems, validate_common};
use crate::game_hoi4::{default_hints, validate_hoi4};
use crate::game_stellaris::{stellaris_problems, validate_stellaris};
use crate::game_structural::{BoolState, hints, not_advice_for, validate_structural};
use crate::rules_types::views;
use crate::ruleset::{RuleSet, RuleSetV};
use crate::type_index::{Game, IndexV, TypeIndex};

verus! {

/// Checks for Europa Universalis IV: there are none beyond those of every game.
pub fn validate_eu4(
    ast: &ParsedFile,
    ruleset: &RuleSet,
    file_path: &str,
    errors: &mut Vec<ValidationError>,
)
    ensures
        final(errors)@ == old(errors)@,
{
}

/// What the checks of a game find in a file.
pub open spec fn game_problems(
    rs: RuleSetV,
    file: Seq<char>,
    ch: Seq<Child>,
    idx: Option<IndexV>,
    game: Game,
) -> Seq<ErrorV> {
    let n = ch.len() as int;
    common_problems(rs, file, ch, n) + hints(ch, n, BoolState::And, not_advice_for(game), file) + (
    match game {
        Game::Stellaris => stellaris_problems(rs, file, ch, idx),
        Game::Hoi4 => default_hints(ch, n, file),
        _ => Seq::empty(),
    })
}

/// Runs the checks of a game on a file: those that all games share, and its own.
pub fn run_game_validators(
    ast: &ParsedFile,
    ruleset: &RuleSet,
    file_path: &str,
    type_index: Option<&TypeIndex>,
    game: Game,
) -> (r: Vec<ValidationError>)
    ensures
        views(r@) == game_problems(
            ruleset@,
            file_path@,
            ast.root_children@,
            opt_index(type_index),
            game,
        ),
{
    let mut errors: Vec<ValidationError> = Vec::new();
    assert(views(errors@) =~= Seq::empty());
    validate_common(ast, ruleset, file_path, &mut errors);
    validate_structural(ast, file_path, game, &mut errors);
    match game {
        Game::Stellaris => {
            validate_stellaris(ast, ruleset, file_path, type_index, &mut errors);
        },
        Game::Eu4 => {
            validate_eu4(ast, ruleset, file_path, &mut errors);
        },
        Game::Hoi4 => {
            validate_hoi4(ast, ruleset, file_path, &mut errors);
        },
        _ => {},
    }
    assert(views(errors@) =~= game_problems(
        ruleset@,
        file_path@,
        ast.root_children@,
        opt_index(type_index),
        game,
    ));
    errors
}

} // verus!
