//! The catalogue of diagnostics.
//!
//! Each code has a fixed id, a severity and a message template, in which `{0}`,
//! `{1}`, … stand for the parameters of a message.

use vstd::prelude::*;

use crate::text::{decimal, print_i64, print_usize, replace, replace_from};

verus! {

/// How grave a diagnostic is.
#[derive(Clone, Copy, Debug, PartialEq, Eq, Structural)]
pub enum ErrorSeverity {
    Error,
    Warning,
    Information,
    Hint,
}

impl ErrorSeverity {
    pub open spec fn label_text(self) -> Seq<char> {
        match self {
            ErrorSeverity::Error => "error"@,
            ErrorSeverity::Warning => "warning"@,
            ErrorSeverity::Information => "information"@,
            ErrorSeverity::Hint => "hint"@,
        }
    }

    /// The word for the severity.
    pub fn label(self) -> (r: &'static str)
        ensures
            r@ == self.label_text(),
    {
        match self {
            ErrorSeverity::Error => "error",
            ErrorSeverity::Warning => "warning",
            ErrorSeverity::Information => "information",
            ErrorSeverity::Hint => "hint",
        }
    }
}

/// A kind of diagnostic.
#[derive(Clone, Copy, Debug, PartialEq)]
pub struct ErrorCode {
    /// `CW` and three digits.
    pub id: &'static str,
    pub severity: ErrorSeverity,
    pub message_template: &'static str,
}

/// The model of [`ErrorCode`].
#[verifier::ext_equal]
pub struct CodeV {
    pub id: Seq<char>,
    pub severity: ErrorSeverity,
    pub template: Seq<char>,
}

impl View for ErrorCode {
    type V = CodeV;

    open spec fn view(&self) -> CodeV {
        CodeV { id: self.id@, severity: self.severity, template: self.message_template@ }
    }
}

/// The texts of a list of parameters.
pub open spec fn strs(s: Seq<&str>) -> Seq<Seq<char>> {
    Seq::new(s.len(), |i: int| s[i]@)
}

/// The place of parameter `n` in a template.
pub open spec fn slot(n: int) -> Seq<char> {
    "{"@ + decimal(n) + "}"@
}

/// The template with the first `n` parameters in their places, each in turn.
pub open spec fn filled(template: Seq<char>, params: Seq<Seq<char>>, n: int) -> Seq<char>
    decreases n,
{
    if n <= 0 || n > params.len() {
        template
    } else {
        replace_from(filled(template, params, n - 1), slot(n - 1), params[n - 1], 0)
    }
}

/// The message of a code with its parameters.
pub open spec fn message_of(code: CodeV, params: Seq<Seq<char>>) -> Seq<char> {
    filled(code.template, params, params.len() as int)
}

impl ErrorCode {
    /// The message with its parameters in place.
    pub fn format(&self, params: &[&str]) -> (r: String)
        ensures
            r@ == message_of(self@, strs(params@)),
    {
        let mut msg = self.message_template.to_owned();
        let mut i: usize = 0;
        while i < params.len()
            invariant
                i <= params@.len(),
                msg@ == filled(self@.template, strs(params@), i as int),
            decreases params@.len() - i,
        {
            let mut place = "{".to_owned();
            let number = print_usize(i);
            place.append(number.as_str());
            place.append("}");
            proof {
                reveal_strlit("{");
            }
            msg = replace(msg.as_str(), place.as_str(), params[i]);
            assert(strs(params@)[i as int] == params@[i as int]@);
            i += 1;
        }
        msg
    }
}

/// Severity, file, line and message, with bars between them: equal for two
/// reports of one problem.
pub open spec fn hash_text(
    severity: ErrorSeverity,
    file: Seq<char>,
    line: u32,
    message: Seq<char>,
) -> Seq<char> {
    severity.label_text() + "|"@ + file + "|"@ + decimal(line as int) + "|"@ + message
}

/// Builds [`hash_text`].
pub fn hash_of(severity: ErrorSeverity, file: &str, line: u32, message: &str) -> (r: String)
    ensures
        r@ == hash_text(severity, file@, line, message@),
{
    let mut out = severity.label().to_owned();
    out.append("|");
    out.append(file);
    out.append("|");
    let number = print_i64(line as i64);
    out.append(number.as_str());
    out.append("|");
    out.append(message);
    out
}

/// The hash of a diagnostic that is given by its code, place and parameters.
pub fn error_code_hash(code: &ErrorCode, file: &str, line: u32, params: &[&str]) -> (r: String)
    ensures
        r@ == hash_text(code.severity, file@, line, message_of(code@, strs(params@))),
{
    let msg = code.format(params);
    hash_of(code.severity, file, line, msg.as_str())
}

// ---------------------------------------------------------------------------
// The codes

/// A block that mixes `key = value` entries with bare values.
pub open spec fn cw002() -> CodeV {
    CodeV {
        id: "CW002"@,
        severity: ErrorSeverity::Error,
        template: "This block has mixed key/values and values, it is probably a missing equals sign inside it."@,
    }
}

/// A block that mixes `key = value` entries with bare values.
pub fn cw002_mixed_block() -> (c: ErrorCode)
    ensures
        c@ == cw002(),
{
    ErrorCode {
        id: "CW002",
        severity: ErrorSeverity::Error,
        message_template: "This block has mixed key/values and values, it is probably a missing equals sign inside it.",
    }
}

/// A localisation key that no localisation file provides.
pub open spec fn cw100() -> CodeV {
    CodeV {
        id: "CW100"@,
        severity: ErrorSeverity::Warning,
        template: "Localisation key {0} is not defined for {1}"@,
    }
}

/// A localisation key that no localisation file provides.
pub fn cw100_missing_localisation() -> (c: ErrorCode)
    ensures
        c@ == cw100(),
{
    ErrorCode {
        id: "CW100",
        severity: ErrorSeverity::Warning,
        message_template: "Localisation key {0} is not defined for {1}",
    }
}

/// A read-time variable that is not defined.
pub open spec fn cw101() -> CodeV {
    CodeV {
        id: "CW101"@,
        severity: ErrorSeverity::Error,
        template: "{0} is not defined"@,
    }
}

/// A read-time variable that is not defined.
pub fn cw101_undefined_variable() -> (c: ErrorCode)
    ensures
        c@ == cw101(),
{
    ErrorCode {
        id: "CW101",
        severity: ErrorSeverity::Error,
        message_template: "{0} is not defined",
    }
}

/// A trigger that no rule knows.
pub open spec fn cw102() -> CodeV {
    CodeV {
        id: "CW102"@,
        severity: ErrorSeverity::Error,
        template: "unknown trigger {0} used."@,
    }
}

/// A trigger that no rule knows.
pub fn cw102_undefined_trigger() -> (c: ErrorCode)
    ensures
        c@ == cw102(),
{
    ErrorCode {
        id: "CW102",
        severity: ErrorSeverity::Error,
        message_template: "unknown trigger {0} used.",
    }
}

/// An effect that no rule knows.
pub open spec fn cw103() -> CodeV {
    CodeV {
        id: "CW103"@,
        severity: ErrorSeverity::Error,
        template: "unknown effect {0} used."@,
    }
}

/// An effect that no rule knows.
pub fn cw103_undefined_effect() -> (c: ErrorCode)
    ensures
        c@ == cw103(),
{
    ErrorCode {
        id: "CW103",
        severity: ErrorSeverity::Error,
        message_template: "unknown effect {0} used.",
    }
}

/// A trigger in a scope that it does not support.
pub open spec fn cw104() -> CodeV {
    CodeV {
        id: "CW104"@,
        severity: ErrorSeverity::Error,
        template: "Trigger {0} is used in wrong scope ({1} instead of {2})"@,
    }
}

/// A trigger in a scope that it does not support.
pub fn cw104_incorrect_trigger_scope() -> (c: ErrorCode)
    ensures
        c@ == cw104(),
{
    ErrorCode {
        id: "CW104",
        severity: ErrorSeverity::Error,
        message_template: "Trigger {0} is used in wrong scope ({1} instead of {2})",
    }
}

/// An effect in a scope that it does not support.
pub open spec fn cw105() -> CodeV {
    CodeV {
        id: "CW105"@,
        severity: ErrorSeverity::Error,
        template: "Effect {0} is used in wrong scope ({1} instead of {2})"@,
    }
}

/// An effect in a scope that it does not support.
pub fn cw105_incorrect_effect_scope() -> (c: ErrorCode)
    ensures
        c@ == cw105(),
{
    ErrorCode {
        id: "CW105",
        severity: ErrorSeverity::Error,
        message_template: "Effect {0} is used in wrong scope ({1} instead of {2})",
    }
}

/// Another command in a scope that it does not support.
pub open spec fn cw106() -> CodeV {
    CodeV {
        id: "CW106"@,
        severity: ErrorSeverity::Error,
        template: "Scope command {0} is used in wrong scope ({1} instead of {2})"@,
    }
}

/// Another command in a scope that it does not support.
pub fn cw106_incorrect_scope_scope() -> (c: ErrorCode)
    ensures
        c@ == cw106(),
{
    ErrorCode {
        id: "CW106",
        severity: ErrorSeverity::Error,
        message_template: "Scope command {0} is used in wrong scope ({1} instead of {2})",
    }
}

/// An event that is tested every tick.
pub open spec fn cw107() -> CodeV {
    CodeV {
        id: "CW107"@,
        severity: ErrorSeverity::Information,
        template: "Event is missing mean_time_to_happen, is_triggered_only, fire_only_once, or trigger={always=no}. Performance concern: event may fire every tick."@,
    }
}

/// An event that is tested every tick.
pub fn cw107_event_every_tick() -> (c: ErrorCode)
    ensures
        c@ == cw107(),
{
    ErrorCode {
        id: "CW107",
        severity: ErrorSeverity::Information,
        message_template: "Event is missing mean_time_to_happen, is_triggered_only, fire_only_once, or trigger={always=no}. Performance concern: event may fire every tick.",
    }
}

/// A research leader without an area.
pub open spec fn cw108() -> CodeV {
    CodeV {
        id: "CW108"@,
        severity: ErrorSeverity::Error,
        template: "This research_leader is missing required \"area\""@,
    }
}

/// A research leader without an area.
pub fn cw108_research_leader_area() -> (c: ErrorCode)
    ensures
        c@ == cw108(),
{
    ErrorCode {
        id: "CW108",
        severity: ErrorSeverity::Error,
        message_template: "This research_leader is missing required \"area\"",
    }
}

/// A technology without a category.
pub open spec fn cw110() -> CodeV {
    CodeV {
        id: "CW110"@,
        severity: ErrorSeverity::Error,
        template: "No category found for this technology"@,
    }
}

/// A technology without a category.
pub fn cw110_tech_cat_missing() -> (c: ErrorCode)
    ensures
        c@ == cw110(),
{
    ErrorCode {
        id: "CW110",
        severity: ErrorSeverity::Error,
        message_template: "No category found for this technology",
    }
}

/// A path to a file that does not exist.
pub open spec fn cw113() -> CodeV {
    CodeV {
        id: "CW113"@,
        severity: ErrorSeverity::Error,
        template: "File {0} is not found. The path might be wrong, or the file might be missing."@,
    }
}

/// A path to a file that does not exist.
pub fn cw113_missing_file() -> (c: ErrorCode)
    ensures
        c@ == cw113(),
{
    ErrorCode {
        id: "CW113",
        severity: ErrorSeverity::Error,
        message_template: "File {0} is not found. The path might be wrong, or the file might be missing.",
    }
}

/// A trigger that could be a pre-trigger.
pub open spec fn cw120() -> CodeV {
    CodeV {
        id: "CW120"@,
        severity: ErrorSeverity::Information,
        template: "Trigger '{0}' can be moved out of the trigger block to be a pre-trigger"@,
    }
}

/// A trigger that could be a pre-trigger.
pub fn cw120_possible_pretrigger() -> (c: ErrorCode)
    ensures
        c@ == cw120(),
{
    ErrorCode {
        id: "CW120",
        severity: ErrorSeverity::Information,
        message_template: "Trigger '{0}' can be moved out of the trigger block to be a pre-trigger",
    }
}

/// An `if` or `else_if` that does nothing.
pub open spec fn cw121() -> CodeV {
    CodeV {
        id: "CW121"@,
        severity: ErrorSeverity::Warning,
        template: "This if/else_if has no effects"@,
    }
}

/// An `if` or `else_if` that does nothing.
pub fn cw121_empty_if() -> (c: ErrorCode)
    ensures
        c@ == cw121(),
{
    ErrorCode {
        id: "CW121",
        severity: ErrorSeverity::Warning,
        message_template: "This if/else_if has no effects",
    }
}

/// A quoted text that is a localisation key.
pub open spec fn cw122() -> CodeV {
    CodeV {
        id: "CW122"@,
        severity: ErrorSeverity::Information,
        template: "Localisation key {0} is quoted, it will be used as literal text"@,
    }
}

/// A quoted text that is a localisation key.
pub fn cw122_loc_key_in_inline() -> (c: ErrorCode)
    ensures
        c@ == cw122(),
{
    ErrorCode {
        id: "CW122",
        severity: ErrorSeverity::Information,
        message_template: "Localisation key {0} is quoted, it will be used as literal text",
    }
}

/// A required field that is missing.
pub open spec fn cw200() -> CodeV {
    CodeV {
        id: "CW200"@,
        severity: ErrorSeverity::Error,
        template: "Missing required field {0}"@,
    }
}

/// A required field that is missing.
pub fn cw200_missing_field() -> (c: ErrorCode)
    ensures
        c@ == cw200(),
{
    ErrorCode {
        id: "CW200",
        severity: ErrorSeverity::Error,
        message_template: "Missing required field {0}",
    }
}

/// A field that no rule allows.
pub open spec fn cw201() -> CodeV {
    CodeV {
        id: "CW201"@,
        severity: ErrorSeverity::Error,
        template: "Unexpected field {0}"@,
    }
}

/// A field that no rule allows.
pub fn cw201_unexpected_field() -> (c: ErrorCode)
    ensures
        c@ == cw201(),
{
    ErrorCode {
        id: "CW201",
        severity: ErrorSeverity::Error,
        message_template: "Unexpected field {0}",
    }
}

/// A value of the wrong kind.
pub open spec fn cw202() -> CodeV {
    CodeV {
        id: "CW202"@,
        severity: ErrorSeverity::Error,
        template: "Field '{0}' has value '{1}', expected {2}"@,
    }
}

/// A value of the wrong kind.
pub fn cw202_invalid_value() -> (c: ErrorCode)
    ensures
        c@ == cw202(),
{
    ErrorCode {
        id: "CW202",
        severity: ErrorSeverity::Error,
        message_template: "Field '{0}' has value '{1}', expected {2}",
    }
}

/// A field that appears too few times.
pub open spec fn cw203() -> CodeV {
    CodeV {
        id: "CW203"@,
        severity: ErrorSeverity::Error,
        template: "Field '{0}' appears {1} time(s), expected at least {2}"@,
    }
}

/// A field that appears too few times.
pub fn cw203_cardinality_min() -> (c: ErrorCode)
    ensures
        c@ == cw203(),
{
    ErrorCode {
        id: "CW203",
        severity: ErrorSeverity::Error,
        message_template: "Field '{0}' appears {1} time(s), expected at least {2}",
    }
}

/// A field that appears too many times.
pub open spec fn cw204() -> CodeV {
    CodeV {
        id: "CW204"@,
        severity: ErrorSeverity::Error,
        template: "Field '{0}' appears {1} time(s), expected at most {2}"@,
    }
}

/// A field that appears too many times.
pub fn cw204_cardinality_max() -> (c: ErrorCode)
    ensures
        c@ == cw204(),
{
    ErrorCode {
        id: "CW204",
        severity: ErrorSeverity::Error,
        message_template: "Field '{0}' appears {1} time(s), expected at most {2}",
    }
}

/// A value that is no member of its enum.
pub open spec fn cw205() -> CodeV {
    CodeV {
        id: "CW205"@,
        severity: ErrorSeverity::Error,
        template: "Undefined enum value '{0}' for enum {1}"@,
    }
}

/// A value that is no member of its enum.
pub fn cw205_undefined_enum() -> (c: ErrorCode)
    ensures
        c@ == cw205(),
{
    ErrorCode {
        id: "CW205",
        severity: ErrorSeverity::Error,
        message_template: "Undefined enum value '{0}' for enum {1}",
    }
}

/// A reference to an event that is not defined.
pub open spec fn cw222() -> CodeV {
    CodeV {
        id: "CW222"@,
        severity: ErrorSeverity::Warning,
        template: "The event id {0} is not defined"@,
    }
}

/// A reference to an event that is not defined.
pub fn cw222_undefined_event() -> (c: ErrorCode)
    ensures
        c@ == cw222(),
{
    ErrorCode {
        id: "CW222",
        severity: ErrorSeverity::Warning,
        message_template: "The event id {0} is not defined",
    }
}

/// A `NOT` with several children.
pub open spec fn cw223() -> CodeV {
    CodeV {
        id: "CW223"@,
        severity: ErrorSeverity::Information,
        template: "Do not use NOT with multiple children, replace this with either NOT for each or with NOR/NAND"@,
    }
}

/// A `NOT` with several children.
pub fn cw223_incorrect_not_usage() -> (c: ErrorCode)
    ensures
        c@ == cw223(),
{
    ErrorCode {
        id: "CW223",
        severity: ErrorSeverity::Information,
        message_template: "Do not use NOT with multiple children, replace this with either NOT for each or with NOR/NAND",
    }
}

/// A localisation command that does not exist.
pub open spec fn cw226() -> CodeV {
    CodeV {
        id: "CW226"@,
        severity: ErrorSeverity::Error,
        template: "Localisation key {0} uses the command {1} which does not exist"@,
    }
}

/// A localisation command that does not exist.
pub fn cw226_invalid_loc_command() -> (c: ErrorCode)
    ensures
        c@ == cw226(),
{
    ErrorCode {
        id: "CW226",
        severity: ErrorSeverity::Error,
        message_template: "Localisation key {0} uses the command {1} which does not exist",
    }
}

/// A ship design with an unknown section template.
pub open spec fn cw227() -> CodeV {
    CodeV {
        id: "CW227"@,
        severity: ErrorSeverity::Error,
        template: "The section template {0} is not defined"@,
    }
}

/// A ship design with an unknown section template.
pub fn cw227_unknown_section_template() -> (c: ErrorCode)
    ensures
        c@ == cw227(),
{
    ErrorCode {
        id: "CW227",
        severity: ErrorSeverity::Error,
        message_template: "The section template {0} is not defined",
    }
}

/// A ship design with an unknown component template.
pub open spec fn cw229() -> CodeV {
    CodeV {
        id: "CW229"@,
        severity: ErrorSeverity::Error,
        template: "The component template {0} is not defined"@,
    }
}

/// A ship design with an unknown component template.
pub fn cw229_unknown_component_template() -> (c: ErrorCode)
    ensures
        c@ == cw229(),
{
    ErrorCode {
        id: "CW229",
        severity: ErrorSeverity::Error,
        message_template: "The component template {0} is not defined",
    }
}

/// A modifier that is set to zero.
pub open spec fn cw235() -> CodeV {
    CodeV {
        id: "CW235"@,
        severity: ErrorSeverity::Warning,
        template: "Modifier {0} has value 0. Modifiers are additive so this does nothing."@,
    }
}

/// A modifier that is set to zero.
pub fn cw235_zero_modifier() -> (c: ErrorCode)
    ensures
        c@ == cw235(),
{
    ErrorCode {
        id: "CW235",
        severity: ErrorSeverity::Warning,
        message_template: "Modifier {0} has value 0. Modifiers are additive so this does nothing.",
    }
}

/// An `else` inside the `if` that it belongs to.
pub open spec fn cw236() -> CodeV {
    CodeV {
        id: "CW236"@,
        severity: ErrorSeverity::Warning,
        template: "Nested if/else was deprecated, put the else behind the if"@,
    }
}

/// An `else` inside the `if` that it belongs to.
pub fn cw236_deprecated_else() -> (c: ErrorCode)
    ensures
        c@ == cw236(),
{
    ErrorCode {
        id: "CW236",
        severity: ErrorSeverity::Warning,
        message_template: "Nested if/else was deprecated, put the else behind the if",
    }
}

/// An `if` that holds both an `if` and an `else`.
pub open spec fn cw237() -> CodeV {
    CodeV {
        id: "CW237"@,
        severity: ErrorSeverity::Information,
        template: "An if inside an if with an else is ambiguous"@,
    }
}

/// An `if` that holds both an `if` and an `else`.
pub fn cw237_ambiguous_if_else() -> (c: ErrorCode)
    ensures
        c@ == cw237(),
{
    ErrorCode {
        id: "CW237",
        severity: ErrorSeverity::Information,
        message_template: "An if inside an if with an else is ambiguous",
    }
}

/// An `else` or `else_if` without an `if` before it.
pub open spec fn cw238() -> CodeV {
    CodeV {
        id: "CW238"@,
        severity: ErrorSeverity::Error,
        template: "An else or else_if is missing a preceding if"@,
    }
}

/// An `else` or `else_if` without an `if` before it.
pub fn cw238_if_else_order() -> (c: ErrorCode)
    ensures
        c@ == cw238(),
{
    ErrorCode {
        id: "CW238",
        severity: ErrorSeverity::Error,
        message_template: "An else or else_if is missing a preceding if",
    }
}

/// A value that its rule does not accept.
pub open spec fn cw240() -> CodeV {
    CodeV {
        id: "CW240"@,
        severity: ErrorSeverity::Error,
        template: "{0}"@,
    }
}

/// A value that its rule does not accept.
pub fn cw240_unexpected_value() -> (c: ErrorCode)
    ensures
        c@ == cw240(),
{
    ErrorCode {
        id: "CW240",
        severity: ErrorSeverity::Error,
        message_template: "{0}",
    }
}

/// A field that appears too few or too many times.
pub open spec fn cw242() -> CodeV {
    CodeV {
        id: "CW242"@,
        severity: ErrorSeverity::Warning,
        template: "{0}"@,
    }
}

/// A field that appears too few or too many times.
pub fn cw242_wrong_number() -> (c: ErrorCode)
    ensures
        c@ == cw242(),
{
    ErrorCode {
        id: "CW242",
        severity: ErrorSeverity::Warning,
        message_template: "{0}",
    }
}

/// A target of the wrong scope.
pub open spec fn cw243() -> CodeV {
    CodeV {
        id: "CW243"@,
        severity: ErrorSeverity::Error,
        template: "Target {0} has scope {1} but expected {2}"@,
    }
}

/// A target of the wrong scope.
pub fn cw243_target_wrong_scope() -> (c: ErrorCode)
    ensures
        c@ == cw243(),
{
    ErrorCode {
        id: "CW243",
        severity: ErrorSeverity::Error,
        message_template: "Target {0} has scope {1} but expected {2}",
    }
}

/// A text that is no target.
pub open spec fn cw244() -> CodeV {
    CodeV {
        id: "CW244"@,
        severity: ErrorSeverity::Error,
        template: "{0} is not a target. Expected a target in scope {1}"@,
    }
}

/// A text that is no target.
pub fn cw244_invalid_target() -> (c: ErrorCode)
    ensures
        c@ == cw244(),
{
    ErrorCode {
        id: "CW244",
        severity: ErrorSeverity::Error,
        message_template: "{0} is not a target. Expected a target in scope {1}",
    }
}

/// A chain that uses a command in the wrong scope.
pub open spec fn cw245() -> CodeV {
    CodeV {
        id: "CW245"@,
        severity: ErrorSeverity::Error,
        template: "Error in target: command {0} was used in scope {1} but expected {2}"@,
    }
}

/// A chain that uses a command in the wrong scope.
pub fn cw245_error_in_target() -> (c: ErrorCode)
    ensures
        c@ == cw245(),
{
    ErrorCode {
        id: "CW245",
        severity: ErrorSeverity::Error,
        message_template: "Error in target: command {0} was used in scope {1} but expected {2}",
    }
}

/// A variable that nothing sets.
pub open spec fn cw246() -> CodeV {
    CodeV {
        id: "CW246"@,
        severity: ErrorSeverity::Warning,
        template: "The variable {0} has not been set"@,
    }
}

/// A variable that nothing sets.
pub fn cw246_unset_variable() -> (c: ErrorCode)
    ensures
        c@ == cw246(),
{
    ErrorCode {
        id: "CW246",
        severity: ErrorSeverity::Warning,
        message_template: "The variable {0} has not been set",
    }
}

/// A rule that is used in a scope that it does not support.
pub open spec fn cw247() -> CodeV {
    CodeV {
        id: "CW247"@,
        severity: ErrorSeverity::Error,
        template: "{0} is used in wrong scope ({1} instead of {2})"@,
    }
}

/// A rule that is used in a scope that it does not support.
pub fn cw247_rule_wrong_scope() -> (c: ErrorCode)
    ensures
        c@ == cw247(),
{
    ErrorCode {
        id: "CW247",
        severity: ErrorSeverity::Error,
        message_template: "{0} is used in wrong scope ({1} instead of {2})",
    }
}

/// A chain that is no scope command.
pub open spec fn cw248() -> CodeV {
    CodeV {
        id: "CW248"@,
        severity: ErrorSeverity::Error,
        template: "{0} is not a valid scope command"@,
    }
}

/// A chain that is no scope command.
pub fn cw248_invalid_scope_command() -> (c: ErrorCode)
    ensures
        c@ == cw248(),
{
    ErrorCode {
        id: "CW248",
        severity: ErrorSeverity::Error,
        message_template: "{0} is not a valid scope command",
    }
}

/// A planet killer that lacks a field.
pub open spec fn cw250() -> CodeV {
    CodeV {
        id: "CW250"@,
        severity: ErrorSeverity::Error,
        template: "planet_killer is missing required field(s): {0}"@,
    }
}

/// A planet killer that lacks a field.
pub fn cw250_planet_killer_missing() -> (c: ErrorCode)
    ensures
        c@ == cw250(),
{
    ErrorCode {
        id: "CW250",
        severity: ErrorSeverity::Error,
        message_template: "planet_killer is missing required field(s): {0}",
    }
}

/// An operator that repeats its context.
pub open spec fn cw251() -> CodeV {
    CodeV {
        id: "CW251"@,
        severity: ErrorSeverity::Information,
        template: "This {0} is unnecessary, the block is one already"@,
    }
}

/// An operator that repeats its context.
pub fn cw251_unnecessary_boolean() -> (c: ErrorCode)
    ensures
        c@ == cw251(),
{
    ErrorCode {
        id: "CW251",
        severity: ErrorSeverity::Information,
        message_template: "This {0} is unnecessary, the block is one already",
    }
}

/// A name effect that was replaced.
pub open spec fn cw253() -> CodeV {
    CodeV {
        id: "CW253"@,
        severity: ErrorSeverity::Information,
        template: "Deprecated, use set_name instead"@,
    }
}

/// A name effect that was replaced.
pub fn cw253_deprecated_set_name() -> (c: ErrorCode)
    ensures
        c@ == cw253(),
{
    ErrorCode {
        id: "CW253",
        severity: ErrorSeverity::Information,
        message_template: "Deprecated, use set_name instead",
    }
}

/// A localisation command in the wrong scope.
pub open spec fn cw260() -> CodeV {
    CodeV {
        id: "CW260"@,
        severity: ErrorSeverity::Warning,
        template: "Localisation command {0} is used in wrong scope ({1} instead of {2})"@,
    }
}

/// A localisation command in the wrong scope.
pub fn cw260_loc_command_wrong_scope() -> (c: ErrorCode)
    ensures
        c@ == cw260(),
{
    ErrorCode {
        id: "CW260",
        severity: ErrorSeverity::Warning,
        message_template: "Localisation command {0} is used in wrong scope ({1} instead of {2})",
    }
}

/// A unique type that is defined twice.
pub open spec fn cw261() -> CodeV {
    CodeV {
        id: "CW261"@,
        severity: ErrorSeverity::Warning,
        template: "Key {0} of type {1} is defined multiple times"@,
    }
}

/// A unique type that is defined twice.
pub fn cw261_duplicate_type_def() -> (c: ErrorCode)
    ensures
        c@ == cw261(),
{
    ErrorCode {
        id: "CW261",
        severity: ErrorSeverity::Warning,
        message_template: "Key {0} of type {1} is defined multiple times",
    }
}

/// A block that no rule allows.
pub open spec fn cw262() -> CodeV {
    CodeV {
        id: "CW262"@,
        severity: ErrorSeverity::Error,
        template: "{0}"@,
    }
}

/// A block that no rule allows.
pub fn cw262_unexpected_property_node() -> (c: ErrorCode)
    ensures
        c@ == cw262(),
{
    ErrorCode {
        id: "CW262",
        severity: ErrorSeverity::Error,
        message_template: "{0}",
    }
}

/// A `key = value` that no rule allows.
pub open spec fn cw263() -> CodeV {
    CodeV {
        id: "CW263"@,
        severity: ErrorSeverity::Error,
        template: "{0}"@,
    }
}

/// A `key = value` that no rule allows.
pub fn cw263_unexpected_property_leaf() -> (c: ErrorCode)
    ensures
        c@ == cw263(),
{
    ErrorCode {
        id: "CW263",
        severity: ErrorSeverity::Error,
        message_template: "{0}",
    }
}

/// A bare value that no rule allows.
pub open spec fn cw264() -> CodeV {
    CodeV {
        id: "CW264"@,
        severity: ErrorSeverity::Error,
        template: "{0}"@,
    }
}

/// A bare value that no rule allows.
pub fn cw264_unexpected_property_leaf_value() -> (c: ErrorCode)
    ensures
        c@ == cw264(),
{
    ErrorCode {
        id: "CW264",
        severity: ErrorSeverity::Error,
        message_template: "{0}",
    }
}

/// A bare block that no rule allows.
pub open spec fn cw265() -> CodeV {
    CodeV {
        id: "CW265"@,
        severity: ErrorSeverity::Error,
        template: "{0}"@,
    }
}

/// A bare block that no rule allows.
pub fn cw265_unexpected_property_value_clause() -> (c: ErrorCode)
    ensures
        c@ == cw265(),
{
    ErrorCode {
        id: "CW265",
        severity: ErrorSeverity::Error,
        message_template: "{0}",
    }
}

/// A localisation command that ends in a scope.
pub open spec fn cw266() -> CodeV {
    CodeV {
        id: "CW266"@,
        severity: ErrorSeverity::Error,
        template: "Localisation key {0} uses the command {1} which ends in a {2}"@,
    }
}

/// A localisation command that ends in a scope.
pub fn cw266_loc_command_not_in_data_type() -> (c: ErrorCode)
    ensures
        c@ == cw266(),
{
    ErrorCode {
        id: "CW266",
        severity: ErrorSeverity::Error,
        message_template: "Localisation key {0} uses the command {1} which ends in a {2}",
    }
}

/// A usage that has not the shape of its alias.
pub open spec fn cw267() -> CodeV {
    CodeV {
        id: "CW267"@,
        severity: ErrorSeverity::Error,
        template: "Unexpected alias key/value: {0} = {1}"@,
    }
}

/// A usage that has not the shape of its alias.
pub fn cw267_unexpected_alias_key_value() -> (c: ErrorCode)
    ensures
        c@ == cw267(),
{
    ErrorCode {
        id: "CW267",
        severity: ErrorSeverity::Error,
        message_template: "Unexpected alias key/value: {0} = {1}",
    }
}

/// A number with too many decimal places.
pub open spec fn cw270() -> CodeV {
    CodeV {
        id: "CW270"@,
        severity: ErrorSeverity::Error,
        template: "Variables hold three decimal places only"@,
    }
}

/// A number with too many decimal places.
pub fn cw270_variable_too_small() -> (c: ErrorCode)
    ensures
        c@ == cw270(),
{
    ErrorCode {
        id: "CW270",
        severity: ErrorSeverity::Error,
        message_template: "Variables hold three decimal places only",
    }
}

/// A number that must be an integer.
pub open spec fn cw271() -> CodeV {
    CodeV {
        id: "CW271"@,
        severity: ErrorSeverity::Error,
        template: "This variable must be an integer"@,
    }
}

/// A number that must be an integer.
pub fn cw271_variable_int_only() -> (c: ErrorCode)
    ensures
        c@ == cw271(),
{
    ErrorCode {
        id: "CW271",
        severity: ErrorSeverity::Error,
        message_template: "This variable must be an integer",
    }
}

/// A field that repeats the default of the game.
pub open spec fn cw280() -> CodeV {
    CodeV {
        id: "CW280"@,
        severity: ErrorSeverity::Information,
        template: "The field {0} is set to its default and can be removed"@,
    }
}

/// A field that repeats the default of the game.
pub fn cw280_redundant_default_field() -> (c: ErrorCode)
    ensures
        c@ == cw280(),
{
    ErrorCode {
        id: "CW280",
        severity: ErrorSeverity::Information,
        message_template: "The field {0} is set to its default and can be removed",
    }
}

/// An empty `limit`.
pub open spec fn cw281() -> CodeV {
    CodeV {
        id: "CW281"@,
        severity: ErrorSeverity::Warning,
        template: "This limit has no conditions"@,
    }
}

/// An empty `limit`.
pub fn cw281_empty_limit() -> (c: ErrorCode)
    ensures
        c@ == cw281(),
{
    ErrorCode {
        id: "CW281",
        severity: ErrorSeverity::Warning,
        message_template: "This limit has no conditions",
    }
}

/// A boolean that repeats its declared default.
pub open spec fn cw282() -> CodeV {
    CodeV {
        id: "CW282"@,
        severity: ErrorSeverity::Information,
        template: "The value {0} is the default and can be omitted"@,
    }
}

/// A boolean that repeats its declared default.
pub fn cw282_redundant_default_bool() -> (c: ErrorCode)
    ensures
        c@ == cw282(),
{
    ErrorCode {
        id: "CW282",
        severity: ErrorSeverity::Information,
        message_template: "The value {0} is the default and can be omitted",
    }
}

/// An event that is tested every tick, as a warning.
pub open spec fn cw300() -> CodeV {
    CodeV {
        id: "CW300"@,
        severity: ErrorSeverity::Warning,
        template: "Event is missing mean_time_to_happen, is_triggered_only, fire_only_once, or trigger={always=no}. Performance concern: event may fire every tick."@,
    }
}

/// An event that is tested every tick, as a warning.
pub fn cw300_event_every_tick() -> (c: ErrorCode)
    ensures
        c@ == cw300(),
{
    ErrorCode {
        id: "CW300",
        severity: ErrorSeverity::Warning,
        message_template: "Event is missing mean_time_to_happen, is_triggered_only, fire_only_once, or trigger={always=no}. Performance concern: event may fire every tick.",
    }
}

/// A pre-trigger at the wrong level.
pub open spec fn cw301() -> CodeV {
    CodeV {
        id: "CW301"@,
        severity: ErrorSeverity::Warning,
        template: "Pre-trigger '{0}' should be inside a 'trigger' block, not at event root"@,
    }
}

/// A pre-trigger at the wrong level.
pub fn cw301_pre_trigger_level() -> (c: ErrorCode)
    ensures
        c@ == cw301(),
{
    ErrorCode {
        id: "CW301",
        severity: ErrorSeverity::Warning,
        message_template: "Pre-trigger '{0}' should be inside a 'trigger' block, not at event root",
    }
}

/// A scope that does not exist.
pub open spec fn cw400() -> CodeV {
    CodeV {
        id: "CW400"@,
        severity: ErrorSeverity::Error,
        template: "Unknown scope reference: {0}"@,
    }
}

/// A scope that does not exist.
pub fn cw400_unknown_scope() -> (c: ErrorCode)
    ensures
        c@ == cw400(),
{
    ErrorCode {
        id: "CW400",
        severity: ErrorSeverity::Error,
        message_template: "Unknown scope reference: {0}",
    }
}

/// A reference to an instance that does not exist.
pub open spec fn cw500() -> CodeV {
    CodeV {
        id: "CW500"@,
        severity: ErrorSeverity::Error,
        template: "Type '{0}' not found"@,
    }
}

/// A reference to an instance that does not exist.
pub fn cw500_type_not_found() -> (c: ErrorCode)
    ensures
        c@ == cw500(),
{
    ErrorCode {
        id: "CW500",
        severity: ErrorSeverity::Error,
        message_template: "Type '{0}' not found",
    }
}

/// A type that appears more than once in a file.
pub open spec fn cw501() -> CodeV {
    CodeV {
        id: "CW501"@,
        severity: ErrorSeverity::Warning,
        template: "Type '{0}' appears {1} times in file (unique violation)"@,
    }
}

/// A type that appears more than once in a file.
pub fn cw501_duplicate_type() -> (c: ErrorCode)
    ensures
        c@ == cw501(),
{
    ErrorCode {
        id: "CW501",
        severity: ErrorSeverity::Warning,
        message_template: "Type '{0}' appears {1} times in file (unique violation)",
    }
}

/// A type that nothing refers to.
pub open spec fn cw502() -> CodeV {
    CodeV {
        id: "CW502"@,
        severity: ErrorSeverity::Warning,
        template: "Type '{0}' is defined but never referenced"@,
    }
}

/// A type that nothing refers to.
pub fn cw502_unused_type() -> (c: ErrorCode)
    ensures
        c@ == cw502(),
{
    ErrorCode {
        id: "CW502",
        severity: ErrorSeverity::Warning,
        message_template: "Type '{0}' is defined but never referenced",
    }
}

/// The advice for a `NOT` with several children in a game that has neither `NOR`
/// nor `NAND`.
pub const CW223_INCORRECT_NOT_USAGE_HOI4_MSG: &'static str =
    "Do not use NOT with multiple children, replace this with NOT for each or with NOT = { OR = { ... } }";

} // verus!
