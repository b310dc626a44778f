//! The confirmation question asked before a command that requires it, and
//! how an answer is read.

use vstd::prelude::*;
use crate::text::{chars_of, join, push_all, string_of, trim};
use crate::type_validator::lowercase;

verus! {

/// The question: the command's own message, or a question naming the
/// command (or "this command" without a path), then `[y/n]: `.
pub open spec fn prompt_spec(message: Option<Seq<char>>, path: Option<Seq<Seq<char>>>) -> Seq<char> {
    let name = match path {
        Some(p) => join(p, " "@),
        None => "this command"@,
    };
    match message {
        Some(m) => if trim(m).len() > 0 {
            trim(m) + " [y/n]: "@
        } else {
            "Are you sure you want to execute '"@ + name + "'? [y/n]: "@
        },
        None => "Are you sure you want to execute '"@ + name + "'? [y/n]: "@,
    }
}

/// What an answer means once trimmed and in lower case: `y`/`yes` agree,
/// `n`/`no` refuse, anything else asks again.
pub open spec fn answer_spec(input: Seq<char>) -> Option<bool> {
    let a = lowercase(trim(input));
    if a == "y"@ || a == "yes"@ {
        Some(true)
    } else if a == "n"@ || a == "no"@ {
        Some(false)
    } else {
        None
    }
}

/// The confirmation question (see `prompt_spec`).
pub fn confirmation_prompt(message: Option<&str>, command_path: Option<&[String]>) -> (s: String)
    ensures
        s@ == prompt_spec(
            crate::includes::opt_str(message),
            crate::report::path_view(command_path),
        ),
{
    let name = match command_path {
        Some(p) => crate::runtime::join_strings_vec(p, " "),
        None => chars_of("this command"),
    };
    let custom = match message {
        Some(m) => {
            let t = crate::text::trimmed(m);
            if t.len() > 0 {
                Some(t)
            } else {
                None
            }
        },
        None => None,
    };
    let out = match custom {
        Some(t) => {
            let mut o = t;
            push_all(&mut o, &chars_of(" [y/n]: "));
            o
        },
        None => {
            let mut o = chars_of("Are you sure you want to execute '");
            push_all(&mut o, &name);
            push_all(&mut o, &chars_of("'? [y/n]: "));
            o
        },
    };
    string_of(&out)
}

/// Reads an answer (see `answer_spec`).
pub fn confirmation_answer(input: &str) -> (r: Option<bool>)
    ensures
        r == answer_spec(input@),
{
    let t = string_of(&crate::text::trimmed(input));
    let a = crate::text::chars_of_string(&crate::type_validator::to_lowercase(t.as_str()));
    if crate::text::eq(&a, &chars_of("y")) || crate::text::eq(&a, &chars_of("yes")) {
        Some(true)
    } else if crate::text::eq(&a, &chars_of("n")) || crate::text::eq(&a, &chars_of("no")) {
        Some(false)
    } else {
        None
    }
}

} // verus!
