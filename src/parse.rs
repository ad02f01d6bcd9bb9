use vstd::prelude::*;

use password_rules_parser::error::PasswordRulesError;
use password_rules_parser::CharacterClass;

use crate::class::CharClass;
use crate::rule::{ParsedRule, RuleModel};

verus! {

#[verifier::external_type_specification]
#[verifier::external_body]
pub struct ExPasswordRulesError(PasswordRulesError);

#[verifier::external_type_specification]
#[verifier::external_body]
pub struct ExCharacterClass(CharacterClass);

/// The meaning of the rule that the parser reads from a rule string, or
/// `None` where the string does not parse.
pub uninterp spec fn parse_outcome(raw: Seq<char>) -> Option<RuleModel>;

/// Relies on `CharacterClass` having one variant for each variant of
/// `CharClass`, the custom one carrying its list of characters.
#[verifier::external_body]
fn class_from(c: CharacterClass) -> CharClass {
    match c {
        CharacterClass::Upper => CharClass::Upper,
        CharacterClass::Lower => CharClass::Lower,
        CharacterClass::Digit => CharClass::Digit,
        CharacterClass::Special => CharClass::Special,
        CharacterClass::AsciiPrintable => CharClass::AsciiPrintable,
        CharacterClass::Unicode => CharClass::Unicode,
        CharacterClass::Custom(chars) => CharClass::Custom(chars),
    }
}

/// Relies on `password_rules_parser::parse_password_rules` in strict mode
/// (the default class supplied): its result depends on the string alone, and
/// a string that is blank fails.
#[verifier::external_body]
pub(crate) fn parse_rule(raw: &str) -> (r: Result<ParsedRule, PasswordRulesError>)
    ensures
        r matches Ok(rule) ==> parse_outcome(raw@) == Some(rule@),
        r is Err ==> parse_outcome(raw@) is None,
        raw@.len() == 0 ==> r is Err,
{
    let p = password_rules_parser::parse_password_rules(raw, true)?;
    Ok(ParsedRule {
        min_length: p.min_length,
        max_length: p.max_length,
        max_consecutive: p.max_consecutive,
        allowed: p.allowed.into_iter().map(class_from).collect(),
        required: p.required.into_iter().map(|g| g.into_iter().map(class_from).collect()).collect(),
    })
}

} // verus!
