//! Errors of scripted rules.
use vstd::prelude::*;

verus! {

/// What went wrong while a scripted rule ran.
#[derive(Debug, Clone, PartialEq, Eq)]
pub enum DynamicRuleError {
    /// The script engine reported an error (its message) while running the
    /// given code.
    EvalError(String, String),
    /// A value of the type named first could not be read as the type named
    /// second, in the given code.
    CastFail(String, String, String),
    /// A dropped file could not be read (the message, then the file name).
    FileError(String, String),
}

/// The error for a script value of type `item` that was expected to be a
/// `typename`, raised by `code`.
pub fn cast_error(item: &str, typename: String, code: String) -> (r: DynamicRuleError)
    ensures
        match r {
            DynamicRuleError::CastFail(a, b, c) => a@ == item@ && b == typename && c == code,
            _ => false,
        },
{
    DynamicRuleError::CastFail(item.to_string(), typename, code)
}

/// The error for a failed evaluation, with the engine's message, raised by
/// `code`.
pub fn eval_error(message: String, code: String) -> (r: DynamicRuleError)
    ensures
        r == DynamicRuleError::EvalError(message, code),
{
    DynamicRuleError::EvalError(message, code)
}

} // verus!
