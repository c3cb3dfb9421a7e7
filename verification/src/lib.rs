//! Checking Paradox script against `.cwt` rules.
//!
//! A configuration says which fields an entry of a game's script may have, which values
//! they take, how often they may stand there and in which scope. The library reads such
//! a configuration, puts its files together, and reports where script does not keep to
//! it. Reading text into trees of keys and values is left to a parser: the library
//! works on the trees of [`ast`].
//!
//! - [`string_table`] interns texts.
//! - [`rules_converter`] turns a parsed configuration file into a [`ruleset::RuleSet`];
//!   [`ruleset_loader`] puts many together, [`post_process`] replaces references and
//!   shorthands by what they stand for, and [`config_validation`] reports references to
//!   what nothing defines.
//! - [`resolve`] says which type a file or a block belongs to, [`subtype`] which of its
//!   subtypes apply, and [`field_match`] which rules are for a key.
//! - [`scope_engine`] follows the scope through a script, [`scope`] holds it against
//!   what rules ask for.
//! - [`validate`] checks files. The rules for a block are applied in [`rule_core`],
//!   for a value in [`leaf_check`] and [`loc_field`], for numbers of children in
//!   [`cardinality`].
//! - [`game_validators`] runs the checks that belong to a game and not to its rules.
//! - [`position`] gives the rules at a place in a file, for an editor.
//!
//! What a function does is stated over models: a text is the sequence of its
//! characters, a rule set a [`ruleset::RuleSetV`], a list of diagnostics a sequence of
//! [`diagnostic::ErrorV`]. What holds of the functions together, and what their results
//! are in terms of the inputs alone, is proved in modules of its own:
//!
//! - [`text_laws`], [`field_laws`], [`config_laws`] and [`converter_laws`] on what a
//!   configuration says, [`rules_laws`] and [`loading_laws`] on how its parts come
//!   together, [`post_process_laws`] and [`passes_laws`] on what is made of them;
//! - [`value_laws`], [`reference_laws`], [`scope_laws`], [`type_laws`], [`check_laws`] and
//!   [`file_laws`] on what is reported of a script, [`validation_laws`] on the check as a
//!   whole, and [`game_laws`] on the checks of a game.
//!
//! The laws of interning stand in [`string_table`].

pub mod ast;
pub mod cardinality;
pub mod check_laws;
pub mod comment_directives;
pub mod common;
pub mod config_laws;
pub mod config_validation;
pub mod context;
pub mod converter_laws;
pub mod describe;
pub mod diagnostic;
pub mod enum_converter;
pub mod error_codes;
pub mod field_laws;
pub mod field_match;
pub mod field_parser;
pub mod file_laws;
pub mod game_common;
pub mod game_hoi4;
pub mod game_laws;
pub mod game_stellaris;
pub mod game_structural;
pub mod game_validators;
pub mod key_buffer;
pub mod leaf_check;
pub mod link_converter;
pub mod loading_laws;
pub mod loc_field;
pub mod missing_loc;
pub mod name_counts;
pub mod name_map;
pub mod number;
pub mod passes_laws;
pub mod position;
pub mod post_process;
pub mod post_process_laws;
pub mod reference_laws;
pub mod resolve;
pub mod rule_converter;
pub mod rule_core;
pub mod rules_converter;
pub mod rules_laws;
pub mod rules_types;
pub mod ruleset;
pub mod ruleset_loader;
pub mod scope;
pub mod scope_engine;
pub mod scope_laws;
pub mod string_table;
pub mod subtype;
pub mod text;
pub mod text_laws;
pub mod type_converter;
pub mod type_index;
pub mod type_laws;
pub mod validate;
pub mod validation_laws;
pub mod value_laws;
