//! Names and values shared across the library.

use vstd::prelude::*;

verus! {

/// Number of spaces that make one level of indentation.
pub const INDENT_SIZE: u8 = 4;

/// The name of a group's default subcommand.
pub fn default_subcommand() -> (s: &'static str)
    ensures
        s@ == "default"@,
{
    "default"
}

/// The environment variable that carries the chain of running commands.
pub fn env_nest_call_stack() -> (s: &'static str)
    ensures
        s@ == "NEST_CALL_STACK"@,
{
    "NEST_CALL_STACK"
}

/// The placeholder for the current time.
pub fn template_var_now() -> (s: &'static str)
    ensures
        s@ == "{{now}}"@,
{
    "{{now}}"
}

/// The placeholder for the current user.
pub fn template_var_user() -> (s: &'static str)
    ensures
        s@ == "{{user}}"@,
{
    "{{user}}"
}

/// The placeholder for the error message in fallback scripts.
pub fn template_var_error() -> (s: &'static str)
    ensures
        s@ == "{{SYSTEM_ERROR_MESSAGE}}"@,
{
    "{{SYSTEM_ERROR_MESSAGE}}"
}

/// The environment variable that names the current user.
pub fn env_var_user() -> (s: &'static str)
    ensures
        s@ == "USER"@,
{
    "USER"
}

/// The user name used where the environment names none.
pub fn default_user() -> (s: &'static str)
    ensures
        s@ == "unknown"@,
{
    "unknown"
}

} // verus!
