//! Parser for Nestfile configuration files.
//!
//! The parser turns the lines of a Nestfile into commands, variables,
//! constants and functions. Values may hold command substitutions
//! `$(...)`; the parser does not run them itself: it asks for each one in
//! turn (`ParseError::CommandRequired`) and is given their outcomes, in
//! order, when it is created again (`Parser::with_substitutions`).

use vstd::prelude::*;
use crate::ast::{
    BindingV, DirectiveV, Variable, Constant, Directive, value_text_of,
    Parameter, ParamKind, Value, strings_view, Dependency,
    opt_view, FunctionV, Function, Command, CommandV, commands_view, command_view,
    assoc_insert, ArgMap, ParamKindV, ParameterV, ValueV, DependencyV,
};
use crate::text::{
    chars_of, find_char, first_pos, int_text, is_quoted, is_quoted_chars, join, push_all,
    replace, replace_chars, slice_chars, split, string_of, trim, trim_chars, unquote,
    float_literal, usize_literal,
};

verus! {

/// Errors that can occur during parsing.
#[derive(Debug)]
pub enum ParseError {
    /// Unexpected end of file (e.g., incomplete command definition)
    UnexpectedEndOfFile(usize),
    /// Invalid syntax in the configuration file
    InvalidSyntax(String, usize),
    /// Invalid indentation (e.g., child command not properly indented)
    InvalidIndent(usize),
    /// Deprecated syntax used in the configuration file
    DeprecatedSyntax(String, usize),
    /// The outcome of this shell command (a `$(...)` substitution) is needed
    /// to go on; run it and parse again with its outcome appended.
    CommandRequired(String),
}

/// The model of a `ParseError`.
pub enum ErrV {
    Eof(int),
    Syntax(Seq<char>, int),
    Indent(int),
    Deprecated(Seq<char>, int),
    Need(Seq<char>),
}

impl View for ParseError {
    type V = ErrV;

    open spec fn view(&self) -> ErrV {
        match self {
            ParseError::UnexpectedEndOfFile(l) => ErrV::Eof(*l as int),
            ParseError::InvalidSyntax(m, l) => ErrV::Syntax(m@, *l as int),
            ParseError::InvalidIndent(l) => ErrV::Indent(*l as int),
            ParseError::DeprecatedSyntax(m, l) => ErrV::Deprecated(m@, *l as int),
            ParseError::CommandRequired(c) => ErrV::Need(c@),
        }
    }
}

/// What running a substituted shell command gave.
#[derive(Debug)]
pub enum SubstitutionOutcome {
    /// The command succeeded with this standard output.
    Output(String),
    /// The command could not be started; the text describes why.
    SpawnFailed(String),
    /// The command exited with this code (-1 without one) and this standard error.
    Failed(i64, String),
}

/// The model of a `SubstitutionOutcome`.
pub enum OutcomeV {
    Output(Seq<char>),
    SpawnFailed(Seq<char>),
    Failed(int, Seq<char>),
}

impl View for SubstitutionOutcome {
    type V = OutcomeV;

    open spec fn view(&self) -> OutcomeV {
        match self {
            SubstitutionOutcome::Output(o) => OutcomeV::Output(o@),
            SubstitutionOutcome::SpawnFailed(e) => OutcomeV::SpawnFailed(e@),
            SubstitutionOutcome::Failed(c, e) => OutcomeV::Failed(*c as int, e@),
        }
    }
}

/// The outcomes as models.
pub open spec fn outcomes_view(o: Seq<SubstitutionOutcome>) -> Seq<OutcomeV> {
    o.map_values(|x: SubstitutionOutcome| x@)
}

/// The result of substituting the command with outcome number `k`, whose
/// text (trimmed) is `c`: the text to insert, or the error.
pub open spec fn run_outcome(c: Seq<char>, k: int, outs: Seq<OutcomeV>, line: int) -> Result<
    Seq<char>,
    ErrV,
> {
    if k >= outs.len() {
        Err(ErrV::Need(c))
    } else {
        match outs[k] {
            OutcomeV::Output(o) => Ok(trim(o)),
            OutcomeV::SpawnFailed(e) => Err(
                ErrV::Syntax("Failed to execute command '"@ + c + "': "@ + e, line),
            ),
            OutcomeV::Failed(code, e) => Err(
                ErrV::Syntax(
                    "Command '"@ + c + "' failed with exit code "@ + int_text(code) + ": "@ + trim(
                        e,
                    ),
                    line,
                ),
            ),
        }
    }
}

/// Command substitution over `s` from position `i`: `in_sub` tells whether
/// a `$(` is open (with nesting `depth` and command text `cmd`), `acc` is
/// the text produced so far and `k` the number of outcomes used so far.
/// Gives the result and the number of outcomes used in the end.
pub open spec fn subst_from(
    s: Seq<char>,
    i: int,
    in_sub: bool,
    depth: int,
    cmd: Seq<char>,
    acc: Seq<char>,
    k: int,
    outs: Seq<OutcomeV>,
    line: int,
) -> (Result<Seq<char>, ErrV>, int)
    decreases s.len() - i,
{
    if i >= s.len() || i < 0 {
        if in_sub {
            (Err(ErrV::Syntax("Unclosed command substitution $(...) in value: "@ + s, line)), k)
        } else {
            (Ok(acc), k)
        }
    } else if !in_sub {
        if s[i] == '$' && i + 1 < s.len() && s[i + 1] == '(' {
            subst_from(s, i + 2, true, 1, Seq::empty(), acc, k, outs, line)
        } else {
            subst_from(s, i + 1, false, depth, cmd, acc.push(s[i]), k, outs, line)
        }
    } else if s[i] == '(' {
        subst_from(s, i + 1, true, depth + 1, cmd.push('('), acc, k, outs, line)
    } else if s[i] == ')' {
        if depth - 1 == 0 {
            match run_outcome(trim(cmd), k, outs, line) {
                Ok(o) => subst_from(s, i + 1, false, 0, Seq::empty(), acc + o, k + 1, outs, line),
                Err(e) => (Err(e), if k >= outs.len() { k } else { k + 1 }),
            }
        } else {
            subst_from(s, i + 1, true, depth - 1, cmd.push(')'), acc, k, outs, line)
        }
    } else {
        subst_from(s, i + 1, true, depth, cmd.push(s[i]), acc, k, outs, line)
    }
}

/// `s` with every `$(command)` replaced by the command's trimmed output,
/// using the outcomes from number `k` on.
pub open spec fn substitute(s: Seq<char>, k: int, outs: Seq<OutcomeV>, line: int) -> (Result<
    Seq<char>,
    ErrV,
>, int) {
    subst_from(s, 0, false, 0, Seq::empty(), Seq::empty(), k, outs, line)
}

/// The items of an array literal after trimming, unquoting and command
/// substitution (a failed substitution keeps the item as written), with
/// empty items left out.
pub open spec fn array_items(items: Seq<Seq<char>>, k: int, outs: Seq<OutcomeV>, line: int) -> (
    Result<Seq<Seq<char>>, ErrV>,
    int,
)
    decreases items.len(),
{
    if items.len() == 0 {
        (Ok(Seq::empty()), k)
    } else {
        let u = unquote(trim(items[0]));
        let (r, k1) = substitute(u, k, outs, line);
        match r {
            Err(ErrV::Need(c)) => (Err(ErrV::Need(c)), k1),
            _ => {
                let x = match r {
                    Ok(x) => x,
                    Err(_) => u,
                };
                let (rest, k2) = array_items(items.drop_first(), k1, outs, line);
                match rest {
                    Ok(xs) => (Ok(if x.len() == 0 { xs } else { seq![x] + xs }), k2),
                    Err(e) => (Err(e), k2),
                }
            },
        }
    }
}

/// `s` is delimited as an array literal: `[...]` or `(...)`.
pub open spec fn is_array_literal(s: Seq<char>) -> bool {
    s.len() > 0 && ((s[0] == '[' && s.last() == ']') || (s[0] == '(' && s.last() == ')'))
}

/// The value denoted by `s`: `true`, `false`, an array literal, a number,
/// or a string (unquoted, with command substitution).
pub open spec fn value_spec(s: Seq<char>, k: int, outs: Seq<OutcomeV>, line: int) -> (Result<
    ValueV,
    ErrV,
>, int) {
    let t = trim(s);
    if t == "true"@ {
        (Ok(ValueV::Bool(true)), k)
    } else if t == "false"@ {
        (Ok(ValueV::Bool(false)), k)
    } else if is_array_literal(t) {
        let (r, k1) = array_items(split(t.subrange(1, t.len() - 1), ','), k, outs, line);
        match r {
            Ok(xs) => (Ok(ValueV::Array(xs)), k1),
            Err(e) => (Err(e), k1),
        }
    } else if float_literal(t) {
        (Ok(ValueV::Number(t)), k)
    } else {
        let (r, k1) = substitute(unquote(t), k, outs, line);
        match r {
            Ok(x) => (Ok(ValueV::Str(x)), k1),
            Err(e) => (Err(e), k1),
        }
    }
}


/// The 1-based line number of line index `i` (saturating).
pub open spec fn line_no(i: int) -> int {
    if i < usize::MAX {
        i + 1
    } else {
        usize::MAX as int
    }
}

/// The parameters already parsed, put in front of the result for the rest.
pub open spec fn prefix_params(xs: Seq<ParameterV>, r: (Result<Seq<ParameterV>, ErrV>, int)) -> (
    Result<Seq<ParameterV>, ErrV>,
    int,
) {
    match r.0 {
        Ok(rest) => (Ok(xs + rest), r.1),
        Err(e) => (Err(e), r.1),
    }
}

/// The closing parenthesis found from an opening one comes after it.
pub proof fn lemma_close_after_open(d: Seq<char>, open: int)
    requires
        0 <= open < d.len(),
        d[open] == '(',
        close_paren_from(d, open, 0, false, '\0') is Some,
    ensures
        close_paren_from(d, open, 0, false, '\0')->0 > open,
{
    assert(close_paren_from(d, open, 0, false, '\0') == close_paren_from(d, open + 1, 1, false, '\0'));
    lemma_close_paren_ge(d, open + 1, 1, false, '\0');
}

/// A closing parenthesis found from `i` is at or after `i`.
pub proof fn lemma_close_paren_ge(d: Seq<char>, i: int, depth: int, in_q: bool, qc: char)
    ensures
        close_paren_from(d, i, depth, in_q, qc) matches Some(c) ==> c >= i,
    decreases d.len() - i,
{
    if 0 <= i < d.len() {
        lemma_close_paren_ge(d, i + 1, depth, in_q, qc);
        lemma_close_paren_ge(d, i + 1, depth + 1, in_q, qc);
        lemma_close_paren_ge(d, i + 1, depth - 1, in_q, qc);
        lemma_close_paren_ge(d, i + 1, depth, true, d[i]);
        lemma_close_paren_ge(d, i + 1, depth, false, qc);
    }
}

/// A slice up to the end is the sequence after its start.
pub open spec fn slice_chars_spec_skip(s: Seq<char>, c: int) -> bool {
    s.subrange(c + 1, s.len() as int) == s.skip(c + 1)
}

/// The value of an array literal with the given items.
pub open spec fn array_value(r: (Result<Seq<Seq<char>>, ErrV>, int)) -> (Result<ValueV, ErrV>, int) {
    match r.0 {
        Ok(xs) => (Ok(ValueV::Array(xs)), r.1),
        Err(e) => (Err(e), r.1),
    }
}

/// The items already collected, put in front of the result for the rest.
pub open spec fn prefix_items(xs: Seq<Seq<char>>, r: (Result<Seq<Seq<char>>, ErrV>, int)) -> (
    Result<Seq<Seq<char>>, ErrV>,
    int,
) {
    match r.0 {
        Ok(rest) => (Ok(xs + rest), r.1),
        Err(e) => (Err(e), r.1),
    }
}

/// The parameter strings of a signature: pieces between commas outside
/// parentheses, trimmed, empty pieces left out.
pub open spec fn param_pieces_from(
    s: Seq<char>,
    i: int,
    depth: int,
    cur: Seq<char>,
    acc: Seq<Seq<char>>,
) -> Seq<Seq<char>>
    decreases s.len() - i,
{
    if i >= s.len() || i < 0 {
        if trim(cur).len() > 0 {
            acc.push(trim(cur))
        } else {
            acc
        }
    } else {
        let c = s[i];
        if c == '(' {
            param_pieces_from(s, i + 1, depth + 1, cur.push(c), acc)
        } else if c == ')' {
            param_pieces_from(s, i + 1, depth - 1, cur.push(c), acc)
        } else if c == ',' && depth == 0 {
            param_pieces_from(
                s,
                i + 1,
                depth,
                Seq::empty(),
                if trim(cur).len() > 0 {
                    acc.push(trim(cur))
                } else {
                    acc
                },
            )
        } else {
            param_pieces_from(s, i + 1, depth, cur.push(c), acc)
        }
    }
}

/// The parameter denoted by `p` (`[!]name|alias: type [= default]`).
pub open spec fn param_spec(p: Seq<char>, k: int, outs: Seq<OutcomeV>, idx: int, line: int) -> (
    Result<ParameterV, ErrV>,
    int,
) {
    if !p.contains(':') {
        (
            Err(
                ErrV::Syntax(
                    "Invalid parameter syntax '"@ + p
                        + "'. Missing type annotation. Expected format: [!]name|alias: type [= default]"@,
                    line,
                ),
            ),
            k,
        )
    } else {
        let c = first_pos(p, ':');
        let name_part = trim(p.take(c));
        let td = trim(p.skip(c + 1));
        let is_named = name_part.len() > 0 && name_part[0] == '!';
        let clean = if is_named { name_part.drop_first() } else { name_part };
        let name = if clean.contains('|') { trim(clean.take(first_pos(clean, '|'))) } else { clean };
        let alias = if clean.contains('|') {
            Some(trim(clean.skip(first_pos(clean, '|') + 1)))
        } else {
            None
        };
        if td.contains('=') {
            let e = first_pos(td, '=');
            let (dv, k1) = value_spec(trim(td.skip(e + 1)), k, outs, line_no(idx));
            match dv {
                Err(err) => (Err(err), k1),
                Ok(v) => (
                    Ok(
                        ParameterV {
                            name,
                            alias,
                            param_type: trim(td.take(e)),
                            default: Some(v),
                            is_named,
                            kind: ParamKindV::Normal,
                        },
                    ),
                    k1,
                ),
            }
        } else {
            (
                Ok(
                    ParameterV {
                        name,
                        alias,
                        param_type: td,
                        default: None,
                        is_named,
                        kind: ParamKindV::Normal,
                    },
                ),
                k,
            )
        }
    }
}

/// The parameters denoted by the pieces, in order.
pub open spec fn pieces_spec(
    pieces: Seq<Seq<char>>,
    k: int,
    outs: Seq<OutcomeV>,
    idx: int,
    line: int,
) -> (Result<Seq<ParameterV>, ErrV>, int)
    decreases pieces.len(),
{
    if pieces.len() == 0 {
        (Ok(Seq::empty()), k)
    } else {
        let p = trim(pieces[0]);
        let (r, k1) = if p.len() > 0 && p[0] == '*' {
            (wildcard_spec(p, line), k)
        } else {
            param_spec(p, k, outs, idx, line)
        };
        match r {
            Err(e) => (Err(e), k1),
            Ok(x) => {
                let (rest, k2) = pieces_spec(pieces.drop_first(), k1, outs, idx, line);
                match rest {
                    Ok(xs) => (Ok(seq![x] + xs), k2),
                    Err(e) => (Err(e), k2),
                }
            },
        }
    }
}

/// The parameter is a wildcard.
pub open spec fn is_wildcard(p: ParameterV) -> bool {
    p.kind is Wildcard
}

/// Two wildcard parameters stand next to each other.
pub open spec fn adjacent_wildcards(ps: Seq<ParameterV>) -> bool {
    exists|i: int| 0 <= i < ps.len() - 1 && #[trigger] is_wildcard(ps[i]) && is_wildcard(ps[i + 1])
}

/// The parameters of a signature's parameter list `s`.
pub open spec fn params_spec(s: Seq<char>, k: int, outs: Seq<OutcomeV>, idx: int, line: int) -> (
    Result<Seq<ParameterV>, ErrV>,
    int,
) {
    let pieces = param_pieces_from(s, 0, 0, Seq::empty(), Seq::empty());
    let (r, k1) = pieces_spec(pieces, k, outs, idx, line);
    match r {
        Err(e) => (Err(e), k1),
        Ok(ps) => if adjacent_wildcards(ps) {
            (
                Err(
                    ErrV::Syntax(
                        "Wildcard parameters cannot be adjacent (e.g., \"*, *\" or \"*a, *b\")"@,
                        line,
                    ),
                ),
                k1,
            )
        } else {
            (Ok(ps), k1)
        },
    }
}

/// The wildcard parameter denoted by `p` (`*`, `*name`, `*[N]`, `*name[N]`).
pub open spec fn wildcard_spec(p: Seq<char>, line: int) -> Result<ParameterV, ErrV> {
    let s = trim(p);
    if s.contains(':') || s.contains('=') {
        Err(
            ErrV::Syntax(
                "Wildcard parameter '"@ + p
                    + "' cannot have a type annotation or default value"@,
                line,
            ),
        )
    } else if !(s.len() > 0 && s[0] == '*') {
        Err(ErrV::Syntax("Invalid wildcard parameter syntax: "@ + p, line))
    } else {
        let rest = s.drop_first();
        let parts: Result<(Seq<char>, Option<Seq<char>>), ErrV> = if rest.contains('[') {
            if !(rest.len() > 0 && rest.last() == ']') {
                Err(
                    ErrV::Syntax(
                        "Wildcard parameter '"@ + p + "' has an opening '[' without matching ']'"@,
                        line,
                    ),
                )
            } else {
                let b = first_pos(rest, '[');
                Ok((trim(rest.take(b)), Some(trim(rest.subrange(b + 1, rest.len() - 1)))))
            }
        } else {
            Ok((trim(rest), None))
        };
        match parts {
            Err(e) => Err(e),
            Ok((name_part, count_part)) => {
                let name_opt = if name_part.len() == 0 { None } else { Some(name_part) };
                let count: Result<Option<nat>, ErrV> = match count_part {
                    None => Ok(None),
                    Some(cs) => if cs.len() == 0 {
                        Err(
                            ErrV::Syntax(
                                "Wildcard parameter '"@ + p + "' has empty size specification []"@,
                                line,
                            ),
                        )
                    } else {
                        match usize_literal(cs) {
                            None => Err(
                                ErrV::Syntax(
                                    "Wildcard parameter '"@ + p + "' has invalid size specification '["@
                                        + cs + "]'"@,
                                    line,
                                ),
                            ),
                            Some(n) => if n == 0 {
                                Err(ErrV::Syntax("Wildcard parameter size must be at least 1"@, line))
                            } else {
                                Ok(Some(n))
                            },
                        }
                    },
                };
                match count {
                    Err(e) => Err(e),
                    Ok(c) => Ok(
                        ParameterV {
                            name: match name_opt {
                                Some(n) => seq!['*'] + n,
                                None => seq!['*'],
                            },
                            alias: None,
                            param_type: "arr"@,
                            default: None,
                            is_named: false,
                            kind: ParamKindV::Wildcard { name: name_opt, count: c },
                        },
                    ),
                }
            },
        }
    }
}

/// A dependency argument value: quoted text unquoted and unescaped,
/// anything else trimmed.
pub open spec fn dep_value_spec(v: Seq<char>) -> Seq<char> {
    let t = trim(v);
    if is_quoted(t) && t.len() >= 2 {
        replace(
            replace(replace(t.subrange(1, t.len() - 1), "\\\""@, "\""@), "\\'"@, "'"@),
            "\\\\"@,
            "\\"@,
        )
    } else {
        t
    }
}

/// The position of the first comma outside quotes in `s` from position
/// `i`, with quote state `in_q` (opened by `qc`).
pub open spec fn arg_comma_from(s: Seq<char>, i: int, in_q: bool, qc: char) -> Option<int>
    decreases s.len() - i,
{
    if i >= s.len() || i < 0 {
        None
    } else {
        let c = s[i];
        if (c == '"' || c == '\'') && !in_q {
            arg_comma_from(s, i + 1, true, c)
        } else if c == qc && in_q {
            arg_comma_from(s, i + 1, false, qc)
        } else if c == ',' && !in_q {
            Some(i)
        } else {
            arg_comma_from(s, i + 1, in_q, qc)
        }
    }
}

/// The first argument of `s` and the rest after its comma.
pub open spec fn split_arg_spec(s: Seq<char>) -> (Seq<char>, Seq<char>) {
    match arg_comma_from(s, 0, false, '\0') {
        Some(i) => (s.take(i), s.skip(i + 1)),
        None => (s, Seq::empty()),
    }
}

/// The position of the first top-level comma (outside quotes and
/// parentheses) in `s` from position `i`.
pub open spec fn dep_comma_from(s: Seq<char>, i: int, depth: int, in_q: bool, qc: char) -> Option<
    int,
>
    decreases s.len() - i,
{
    if i >= s.len() || i < 0 {
        None
    } else {
        let c = s[i];
        if (c == '"' || c == '\'') && !in_q {
            dep_comma_from(s, i + 1, depth, true, c)
        } else if c == qc && in_q {
            dep_comma_from(s, i + 1, depth, false, qc)
        } else if c == '(' && !in_q {
            dep_comma_from(s, i + 1, depth + 1, in_q, qc)
        } else if c == ')' && !in_q {
            dep_comma_from(s, i + 1, depth - 1, in_q, qc)
        } else if c == ',' && !in_q && depth == 0 {
            Some(i)
        } else {
            dep_comma_from(s, i + 1, depth, in_q, qc)
        }
    }
}

/// The first dependency of `s` and the rest after its comma.
pub open spec fn split_dep_spec(s: Seq<char>) -> (Seq<char>, Seq<char>) {
    match dep_comma_from(s, 0, 0, false, '\0') {
        Some(i) => (s.take(i), s.skip(i + 1)),
        None => (s, Seq::empty()),
    }
}

/// The position of the parenthesis that closes the one at `open`, scanning
/// from `i` with nesting `depth` and quote state.
pub open spec fn close_paren_from(s: Seq<char>, i: int, depth: int, in_q: bool, qc: char) -> Option<
    int,
>
    decreases s.len() - i,
{
    if i >= s.len() || i < 0 {
        None
    } else {
        let c = s[i];
        if (c == '"' || c == '\'') && !in_q {
            close_paren_from(s, i + 1, depth, true, c)
        } else if c == qc && in_q {
            close_paren_from(s, i + 1, depth, false, qc)
        } else if c == '(' && !in_q {
            close_paren_from(s, i + 1, depth + 1, in_q, qc)
        } else if c == ')' && !in_q {
            if depth - 1 == 0 {
                Some(i)
            } else {
                close_paren_from(s, i + 1, depth - 1, in_q, qc)
            }
        } else {
            close_paren_from(s, i + 1, depth, in_q, qc)
        }
    }
}

/// The arguments `name=value, ...` of a call, from the text `current`
/// (trimmed) on, added to `acc`; `None` where an argument has no `=`.
pub open spec fn args_from(current: Seq<char>, acc: Seq<(Seq<char>, Seq<char>)>) -> Result<
    Seq<(Seq<char>, Seq<char>)>,
    Seq<char>,
>
    decreases current.len(),
{
    if current.len() == 0 {
        Ok(acc)
    } else {
        let (a, rem) = split_arg_spec(current);
        if a.len() == 0 {
            Ok(acc)
        } else if !a.contains('=') {
            Err(a)
        } else {
            let e = first_pos(a, '=');
            let acc2 = assoc_insert(acc, trim(a.take(e)), dep_value_spec(a.skip(e + 1)));
            if trim(rem).len() < current.len() {
                args_from(trim(rem), acc2)
            } else {
                Ok(acc2)
            }
        }
    }
}

/// The arguments denoted by `s`, or the argument that has no `=`.
pub open spec fn args_spec(s: Seq<char>) -> Result<Seq<(Seq<char>, Seq<char>)>, Seq<char>> {
    args_from(trim(s), Seq::empty())
}

/// The dependency denoted by `d`.
pub open spec fn single_dep_spec(d: Seq<char>, line: int) -> Result<DependencyV, ErrV> {
    if d.contains('(') {
        let open = first_pos(d, '(');
        match close_paren_from(d, open, 0, false, '\0') {
            None => Err(ErrV::Syntax("Unclosed parentheses in dependency: "@ + d, line)),
            Some(close) => match args_spec(d.subrange(open + 1, close)) {
                Ok(args) => Ok(DependencyV { command_path: trim(d.take(open)), args }),
                Err(a) => Err(
                    ErrV::Syntax("Invalid argument format (expected name=value): "@ + a, line),
                ),
            },
        }
    } else {
        Ok(DependencyV { command_path: d, args: Seq::empty() })
    }
}

/// The dependencies listed in `current` (trimmed), added to `acc`.
pub open spec fn deps_from(current: Seq<char>, acc: Seq<DependencyV>, line: int) -> Result<
    Seq<DependencyV>,
    ErrV,
>
    decreases current.len(),
{
    if current.len() == 0 {
        Ok(acc)
    } else {
        let (d, rem) = split_dep_spec(current);
        if d.len() == 0 {
            Ok(acc)
        } else {
            match single_dep_spec(trim(d), line) {
                Err(e) => Err(e),
                Ok(dep) => if trim(rem).len() < current.len() {
                    deps_from(trim(rem), acc.push(dep), line)
                } else {
                    Ok(acc.push(dep))
                },
            }
        }
    }
}

/// The dependencies listed in `value`.
pub open spec fn deps_spec(value: Seq<char>, line: int) -> Result<Seq<DependencyV>, ErrV> {
    deps_from(trim(value), Seq::empty(), line)
}

/// The indentation level of a line: its leading spaces, counted in a byte
/// that wraps around, divided by the indentation size.
pub open spec fn indent_spec(line: Seq<char>) -> int {
    ((leading_spaces(line) % 256) / 4) as int
}

/// A line holds at least as many characters as its indentation level
/// times four.
pub proof fn lemma_indent_len(s: Seq<char>)
    ensures
        indent_spec(s) * 4 <= leading_spaces(s) <= s.len(),
        forall|i: int| 0 <= i < leading_spaces(s) ==> s[i] == ' ',
    decreases s.len(),
{
    if s.len() > 0 && s[0] == ' ' {
        lemma_indent_len(s.drop_first());
        assert forall|i: int| 0 <= i < leading_spaces(s) implies s[i] == ' ' by {
            if i > 0 {
                assert(s[i] == s.drop_first()[i - 1]);
            }
        }
    }
}

/// The number of leading space characters of `s`.
pub open spec fn leading_spaces(s: Seq<char>) -> nat
    decreases s.len(),
{
    if s.len() > 0 && s[0] == ' ' {
        1 + leading_spaces(s.drop_first())
    } else {
        0
    }
}

/// The message text `a` followed by `b`.
pub fn msg2(a: &str, b: &Vec<char>) -> (out: String)
    ensures
        out@ == a@ + b@,
{
    let mut v = chars_of(a);
    push_all(&mut v, b);
    string_of(&v)
}

/// The message text `a`, `b`, `c` in sequence.
pub fn msg3(a: &str, b: &Vec<char>, c: &str) -> (out: String)
    ensures
        out@ == a@ + b@ + c@,
{
    let mut v = chars_of(a);
    push_all(&mut v, b);
    let cv = chars_of(c);
    push_all(&mut v, &cv);
    string_of(&v)
}

/// The indentation level of a line (its leading spaces divided by four,
/// counted in a wrapping byte).
pub fn get_indent_size(line: &Vec<char>) -> (n: u8)
    ensures
        n as int == indent_spec(line@),
{
    let mut spaces: u8 = 0;
    let mut i: usize = 0;
    let ghost mut count: nat = 0;
    assert(line@.skip(0) == line@);
    while i < line.len() && line[i] == ' '
        invariant
            i <= line.len(),
            count == i,
            spaces as nat == count % 256,
            leading_spaces(line@) == count + leading_spaces(line@.skip(i as int)),
        decreases line.len() - i,
    {
        assert(line@.skip(i as int).drop_first() == line@.skip(i + 1));
        spaces = if spaces == 255 { 0 } else { spaces + 1 };
        i += 1;
        proof {
            count = count + 1;
        }
    }
    spaces / 4
}

/// Splits off the first argument of `s` at the first comma outside quotes.
pub fn split_next_arg(s: &Vec<char>) -> (r: (Vec<char>, Vec<char>))
    ensures
        (r.0@, r.1@) == split_arg_spec(s@),
{
    let mut in_q = false;
    let mut qc = '\0';
    let mut i: usize = 0;
    while i < s.len()
        invariant
            i <= s.len(),
            arg_comma_from(s@, 0, false, '\0') == arg_comma_from(s@, i as int, in_q, qc),
        decreases s.len() - i,
    {
        let c = s[i];
        if (c == '"' || c == '\'') && !in_q {
            in_q = true;
            qc = c;
        } else if c == qc && in_q {
            in_q = false;
        } else if c == ',' && !in_q {
            return (slice_chars(s, 0, i), slice_chars(s, i + 1, s.len()));
        }
        i += 1;
    }
    (s.clone(), Vec::new())
}

/// A dependency or call argument value: quoted text is unquoted and
/// unescaped, anything else is trimmed.
pub fn parse_dependency_value(v: &Vec<char>) -> (out: Vec<char>)
    ensures
        out@ == dep_value_spec(v@),
{
    let t = trim_chars(v);
    if is_quoted_chars(&t) && t.len() >= 2 {
        let inner = slice_chars(&t, 1, t.len() - 1);
        let a = replace_chars(&inner, &chars_of("\\\""), &chars_of("\""));
        let b = replace_chars(&a, &chars_of("\\'"), &chars_of("'"));
        replace_chars(&b, &chars_of("\\\\"), &chars_of("\\"))
    } else {
        t
    }
}

/// Parses `name=value, ...` arguments; `Err` holds the argument without `=`.
pub fn parse_args(args_str: &Vec<char>) -> (r: Result<ArgMap, Vec<char>>)
    ensures
        match r {
            Ok(m) => args_spec(args_str@) == Ok::<_, Seq<char>>(m.entries_view()),
            Err(a) => args_spec(args_str@) == Err::<Seq<(Seq<char>, Seq<char>)>, _>(a@),
        },
{
    let mut args = ArgMap::new();
    let mut current = trim_chars(args_str);
    while current.len() > 0
        invariant
            args_spec(args_str@) == args_from(current@, args.entries_view()),
        decreases current.len(),
    {
        let (a, rem) = split_next_arg(&current);
        if a.len() == 0 {
            return Ok(args);
        }
        match find_char(&a, '=') {
            None => {
                return Err(a);
            },
            Some(e) => {
                let name_raw = slice_chars(&a, 0, e);
                let name = trim_chars(&name_raw);
                let val_raw = slice_chars(&a, e + 1, a.len());
                assert(val_raw@ == a@.skip(e + 1));
                let val = parse_dependency_value(&val_raw);
                args.insert(string_of(&name), string_of(&val));
                let next = trim_chars(&rem);
                if next.len() >= current.len() {
                    return Ok(args);
                }
                current = next;
            },
        }
    }
    Ok(args)
}


/// The position of the parser: line index, current source file, and the
/// number of substitution outcomes used.
pub struct PState {
    pub idx: int,
    pub src: Option<Seq<char>>,
    pub k: int,
}

/// The state after moving on to the next line.
pub open spec fn advance(st: PState) -> PState {
    PState { idx: st.idx + 1, ..st }
}

/// The state with `k` substitution outcomes used.
pub open spec fn with_k(st: PState, k: int) -> PState {
    PState { k, ..st }
}

/// The bindings without those named `n`, order kept.
pub open spec fn without_name(s: Seq<BindingV>, n: Seq<char>) -> Seq<BindingV>
    decreases s.len(),
{
    if s.len() == 0 {
        s
    } else {
        let w = without_name(s.drop_last(), n);
        if s.last().0 == n {
            w
        } else {
            w.push(s.last())
        }
    }
}

/// The bindings after (re)defining `b`: older ones with its name go, `b` is
/// appended.
pub open spec fn redefine(s: Seq<BindingV>, b: BindingV) -> Seq<BindingV> {
    without_name(s, b.0).push(b)
}

/// The value text of a binding's right-hand side `vs`: a quoted value goes
/// through value parsing, then the text goes through command substitution.
pub open spec fn binding_value(vs: Seq<char>, k: int, outs: Seq<OutcomeV>, line: int) -> (Result<
    Seq<char>,
    ErrV,
>, int) {
    let (v1, k1): (Result<Seq<char>, ErrV>, int) = if is_quoted(vs) {
        let (r, k1) = value_spec(vs, k, outs, line);
        match r {
            Ok(v) => (Ok(value_text_of(v)), k1),
            Err(e) => (Err(e), k1),
        }
    } else {
        (Ok(vs), k)
    };
    match v1 {
        Err(e) => (Err(e), k1),
        Ok(x) => substitute(x, k1, outs, line),
    }
}

/// The text after keyword `kw` on a trimmed line (empty without it), trimmed.
pub open spec fn after_keyword(t: Seq<char>, kw: Seq<char>) -> Seq<char> {
    if kw.is_prefix_of(t) {
        trim(t.skip(kw.len() as int))
    } else {
        Seq::empty()
    }
}

/// A `var NAME = value` or `const NAME = value` line at the current index.
pub open spec fn binding_spec(
    lines: Seq<Seq<char>>,
    outs: Seq<OutcomeV>,
    st: PState,
    kw: Seq<char>,
    empty_msg: Seq<char>,
    bad_prefix: Seq<char>,
) -> (Result<BindingV, ErrV>, PState) {
    let line = line_no(st.idx);
    if st.idx < 0 || st.idx >= lines.len() {
        (Err(ErrV::Eof(line)), st)
    } else {
        let t = trim(lines[st.idx]);
        let part = after_keyword(t, kw);
        if part.contains('=') {
            let e = first_pos(part, '=');
            let name = trim(part.take(e));
            let vs = trim(part.skip(e + 1));
            if name.len() == 0 {
                (Err(ErrV::Syntax(empty_msg, line)), st)
            } else {
                let (r, k1) = binding_value(vs, st.k, outs, line);
                match r {
                    Ok(v) => (Ok((name, v)), advance(with_k(st, k1))),
                    Err(e) => (Err(e), with_k(st, k1)),
                }
            }
        } else {
            (Err(ErrV::Syntax(bad_prefix + t, line)), st)
        }
    }
}

/// The message for an empty variable name.
pub open spec fn var_empty_msg() -> Seq<char> {
    "Variable name cannot be empty"@
}

/// The message prefix for a malformed variable line.
pub open spec fn var_bad_prefix() -> Seq<char> {
    "Invalid variable syntax. Expected: var NAME = value, got: "@
}

/// The message for an empty constant name.
pub open spec fn const_empty_msg() -> Seq<char> {
    "Constant name cannot be empty"@
}

/// The message prefix for a malformed constant line.
pub open spec fn const_bad_prefix() -> Seq<char> {
    "Invalid constant syntax. Expected: const NAME = value, got: "@
}

/// An `env NAME = value` or `env path` line at the top level: the
/// variables after it.
pub open spec fn env_keyword_spec(
    lines: Seq<Seq<char>>,
    outs: Seq<OutcomeV>,
    st: PState,
    vars: Seq<BindingV>,
) -> (Result<Seq<BindingV>, ErrV>, PState) {
    let line = line_no(st.idx);
    if st.idx < 0 || st.idx >= lines.len() {
        (Err(ErrV::Eof(line)), st)
    } else {
        let t = trim(lines[st.idx]);
        let part = after_keyword(t, "env "@);
        if part.contains('=') {
            let e = first_pos(part, '=');
            let name = trim(part.take(e));
            let vs = trim(part.skip(e + 1));
            if name.len() == 0 {
                (Err(ErrV::Syntax("Environment variable name cannot be empty"@, line)), st)
            } else {
                let (r, k1) = binding_value(vs, st.k, outs, line);
                match r {
                    Ok(v) => (Ok(redefine(vars, (name, v))), advance(with_k(st, k1))),
                    Err(e) => (Err(e), with_k(st, k1)),
                }
            }
        } else {
            (Ok(vars.push(("__env_file_"@ + int_text(line), part))), advance(st))
        }
    }
}

/// An `env NAME = value` or `env path` line inside a command: the directive.
pub open spec fn env_directive_spec(lines: Seq<Seq<char>>, outs: Seq<OutcomeV>, st: PState) -> (
    Result<DirectiveV, ErrV>,
    PState,
) {
    let line = line_no(st.idx);
    if st.idx < 0 || st.idx >= lines.len() {
        (Err(ErrV::Eof(line)), st)
    } else {
        let t = trim(lines[st.idx]);
        let part = after_keyword(t, "env "@);
        if part.contains('=') {
            let e = first_pos(part, '=');
            let name = trim(part.take(e));
            let vs = trim(part.skip(e + 1));
            if name.len() == 0 {
                (Err(ErrV::Syntax("Environment variable name cannot be empty"@, line)), st)
            } else {
                let (r, k1) = value_spec(vs, st.k, outs, line);
                match r {
                    Ok(v) => (
                        Ok(DirectiveV::Env(name, value_text_of(v), false)),
                        advance(with_k(st, k1)),
                    ),
                    Err(e) => (Err(e), with_k(st, k1)),
                }
            }
        } else {
            (Ok(DirectiveV::EnvFile(part, false)), advance(st))
        }
    }
}


/// The text of a multiline block from line `i` on, added to `content`, and
/// the index of the first line after the block.
pub open spec fn block_from(lines: Seq<Seq<char>>, base: int, i: int, content: Seq<char>) -> (
    Seq<char>,
    int,
)
    decreases lines.len() - i,
{
    if i < 0 || i >= lines.len() {
        (content, i)
    } else {
        let l = lines[i];
        let ind = indent_spec(l);
        let t = trim(l);
        if ind <= base && t.len() > 0 {
            (content, i)
        } else if ind == base && t.len() == 0 {
            (content, i)
        } else {
            let c1 = if content.len() > 0 { content.push('\n') } else { content };
            let r = base * 4 + 4;
            let cl = if ind > base && l.len() > r { l.skip(r) } else { l };
            block_from(lines, base, i + 1, c1 + cl)
        }
    }
}

/// The multiline block that follows the current line (`key: |`).
pub open spec fn block_spec(lines: Seq<Seq<char>>, st: PState, base: int) -> (Result<
    Seq<char>,
    ErrV,
>, PState) {
    let (c, j) = block_from(lines, base, st.idx + 1, Seq::empty());
    if trim(c).len() == 0 {
        (
            Err(
                ErrV::Syntax(
                    "Multiline script block is empty. Add script content after '|' or use single-line format without '|'."@,
                    line_no(st.idx),
                ),
            ),
            st,
        )
    } else {
        (Ok(c), PState { idx: j, ..st })
    }
}

/// The directive built from a script-like key.
pub open spec fn script_directive(key: Seq<char>, text: Seq<char>, hide: bool) -> DirectiveV {
    if key == "script"@ {
        DirectiveV::Script(text, None, hide)
    } else if key == "before"@ {
        DirectiveV::Before(text, None, hide)
    } else if key == "after"@ {
        DirectiveV::After(text, None, hide)
    } else if key == "finally"@ {
        DirectiveV::Finally(text, None, hide)
    } else {
        DirectiveV::Fallback(text, None, hide)
    }
}

/// The key names a script-like directive.
pub open spec fn is_script_key(key: Seq<char>) -> bool {
    key == "script"@ || key == "before"@ || key == "after"@ || key == "finally"@ || key
        == "fallback"@
}

/// A `key[.modifier...]: value` directive line of a command; `indent` is
/// the line's indentation. A `|` value of a script-like key takes the
/// following multiline block; otherwise the parser moves to the next line.
pub open spec fn property_spec(
    lines: Seq<Seq<char>>,
    outs: Seq<OutcomeV>,
    st: PState,
    line: Seq<char>,
    indent: int,
) -> (Result<DirectiveV, ErrV>, PState) {
    let ln = line_no(st.idx);
    let t = trim(line);
    if !t.contains(':') {
        (Err(ErrV::Syntax("Invalid directive format. Expected 'key: value', got: "@ + t, ln)), st)
    } else {
        let c = first_pos(t, ':');
        let kwm = trim(t.take(c));
        let vs = trim(t.skip(c + 1));
        let parts = split(kwm, '.');
        let key = parts[0];
        let hide = parts.contains("hide"@);
        if key == "desc"@ {
            let (r, k1) = value_spec(vs, st.k, outs, ln);
            match r {
                Ok(v) => (Ok(DirectiveV::Desc(value_text_of(v))), advance(with_k(st, k1))),
                Err(e) => (Err(e), with_k(st, k1)),
            }
        } else if is_script_key(key) {
            if vs == "|"@ {
                let (r, st1) = block_spec(lines, st, indent);
                match r {
                    Ok(text) => (Ok(script_directive(key, text, hide)), st1),
                    Err(e) => (Err(e), st1),
                }
            } else {
                (Ok(script_directive(key, vs, hide)), advance(st))
            }
        } else if key == "depends"@ {
            match deps_spec(vs, ln) {
                Ok(ds) => (Ok(DirectiveV::Depends(ds, parts.contains("parallel"@))), advance(st)),
                Err(e) => (Err(e), st),
            }
        } else if key == "env"@ {
            if vs.contains('=') {
                let e = first_pos(vs, '=');
                let (r, k1) = value_spec(trim(vs.skip(e + 1)), st.k, outs, ln);
                match r {
                    Ok(v) => (
                        Ok(DirectiveV::Env(trim(vs.take(e)), value_text_of(v), hide)),
                        advance(with_k(st, k1)),
                    ),
                    Err(er) => (Err(er), with_k(st, k1)),
                }
            } else {
                (Ok(DirectiveV::EnvFile(vs, hide)), advance(st))
            }
        } else {
            (Err(ErrV::Syntax("Unknown directive property: "@ + key, ln)), st)
        }
    }
}

/// Tests whether one of the pieces equals `w`.
pub fn contains_piece(parts: &Vec<Vec<char>>, w: &Vec<char>) -> (b: bool)
    ensures
        b == parts@.map_values(|x: Vec<char>| x@).contains(w@),
{
    let ghost pv = parts@.map_values(|x: Vec<char>| x@);
    let mut i: usize = 0;
    while i < parts.len()
        invariant
            i <= parts.len(),
            pv == parts@.map_values(|x: Vec<char>| x@),
            forall|j: int| 0 <= j < i ==> pv[j] != w@,
        decreases parts.len() - i,
    {
        if crate::text::eq(&parts[i], w) {
            assert(pv[i as int] == w@);
            return true;
        }
        i += 1;
    }
    false
}

/// Removes the variables named like `var` and appends `var`.
pub fn redefine_variable(vars: &mut Vec<Variable>, var: Variable)
    ensures
        final(vars)@.map_values(|v: Variable| v@) == redefine(
            old(vars)@.map_values(|v: Variable| v@),
            var@,
        ),
{
    let ghost sv = vars@.map_values(|v: Variable| v@);
    let mut kept: Vec<Variable> = Vec::new();
    let mut i: usize = 0;
    let n = var.name.clone();
    let n0 = vars.len();
    assert(sv.len() == n0);
    while vars.len() > 0
        invariant
            i + vars@.len() == sv.len(),
            sv.len() <= usize::MAX,
            kept@.map_values(|v: Variable| v@) == without_name(sv.take(i as int), n@),
            vars@.map_values(|v: Variable| v@) == sv.skip(i as int),
        decreases vars.len(),
    {
        let ghost before = vars@.map_values(|v: Variable| v@);
        let ghost ov = vars@;
        let x = vars.remove(0);
        assert(x == ov[0]);
        assert(before[0] == ov[0]@);
        assert(sv.skip(i as int)[0] == sv[i as int]);
        assert(vars@.map_values(|v: Variable| v@) =~= before.drop_first());
        assert(x@ == sv[i as int]);
        assert(sv.take(i + 1).drop_last() == sv.take(i as int));
        if x.name != n {
            let ghost kb = kept@.map_values(|v: Variable| v@);
            kept.push(x);
            assert(kept@.map_values(|v: Variable| v@) =~= kb.push(x@));
        }
        i += 1;
        assert(sv.skip(i as int) =~= before.drop_first());
    }
    assert(sv.take(i as int) == sv);
    let ghost kb = kept@.map_values(|v: Variable| v@);
    kept.push(var);
    assert(kept@.map_values(|v: Variable| v@) =~= kb.push(var@));
    *vars = kept;
}

/// Parser state for processing Nestfile content.
///
/// The parser keeps its position in the file and processes commands
/// recursively based on indentation levels.
pub struct Parser {
    /// All lines of the configuration file
    lines: Vec<Vec<char>>,
    /// Current position in the file (line index)
    current_index: usize,
    /// Current source file path (for tracking where commands come from)
    current_source_file: Option<String>,
    /// Outcomes of the command substitutions, in the order they occur
    outcomes: Vec<SubstitutionOutcome>,
    /// Number of outcomes used so far
    used: usize,
}

/// A line written in the `> key: value` directive style, without the `>`
/// and the spaces after it (its indentation kept); other lines as they are.
pub open spec fn strip_gt(l: Seq<char>) -> Seq<char> {
    let t = crate::text::trim_start(l);
    if t.len() > 0 && t[0] == '>' {
        l.take(l.len() - t.len()) + crate::text::trim_start(t.drop_first())
    } else {
        l
    }
}

/// A line without the `>` of the `> key: value` style (see `strip_gt`).
fn strip_gt_chars(l: &Vec<char>) -> (out: Vec<char>)
    ensures
        out@ == strip_gt(l@),
{
    let t = crate::text::trim_start_chars(l);
    proof {
        crate::text::lemma_trim_start_len(l@);
    }
    if t.len() > 0 && t[0] == '>' {
        let mut out = slice_chars(l, 0, l.len() - t.len());
        let rest = slice_chars(&t, 1, t.len());
        assert(rest@ =~= t@.drop_first());
        push_all(&mut out, &crate::text::trim_start_chars(&rest));
        out
    } else {
        l.clone()
    }
}

/// Whether the trimmed line `t` reads as `key: value` (see
/// `is_directive_line`).
fn is_directive_chars(t: &Vec<char>) -> (b: bool)
    ensures
        b == is_directive_line(t@),
{
    match find_char(t, ':') {
        Some(c) => {
            assert(t@.contains(':')) by {
                assert(t@[c as int] == ':');
            }
            let kp = trim_chars(&slice_chars(t, 0, c));
            assert(t@.subrange(0, c as int) =~= t@.take(c as int));
            !crate::text::contains_char(&kp, ' ') || (crate::text::contains_char(&kp, '(')
                && crate::text::contains_char(&kp, ')'))
        },
        None => false,
    }
}

/// The model of an `Option<Vec<char>>`.
pub open spec fn opt_chars(o: Option<Vec<char>>) -> Option<Seq<char>> {
    match o {
        Some(v) => Some(v@),
        None => None,
    }
}

impl Parser {
    /// The lines of the file.
    pub closed spec fn lines_v(&self) -> Seq<Seq<char>> {
        self.lines@.map_values(|l: Vec<char>| l@)
    }

    /// The index of the current line.
    pub closed spec fn idx(&self) -> int {
        self.current_index as int
    }

    /// The source file recorded by the last `# @source:` marker.
    pub closed spec fn source(&self) -> Option<Seq<char>> {
        opt_view(self.current_source_file)
    }

    /// The substitution outcomes given to the parser.
    pub closed spec fn outs(&self) -> Seq<OutcomeV> {
        outcomes_view(self.outcomes@)
    }

    /// The number of substitution outcomes used so far.
    pub closed spec fn used(&self) -> int {
        self.used as int
    }

    /// The position of the parser.
    pub open spec fn st(&self) -> PState {
        PState { idx: self.idx(), src: self.source(), k: self.used() }
    }

    /// Creates a new parser from file content.
    pub fn new(content: &str) -> (p: Parser)
        ensures
            p.lines_v() == crate::text::lines(content@),
            p.idx() == 0,
            p.source() is None,
            p.outs() == Seq::<OutcomeV>::empty(),
            p.used() == 0,
    {
        Self::with_substitutions(content, Vec::new())
    }

    /// Creates a parser that uses the given outcomes, in order, for the
    /// command substitutions it meets.
    pub fn with_substitutions(content: &str, outcomes: Vec<SubstitutionOutcome>) -> (p: Parser)
        ensures
            p.lines_v() == crate::text::lines(content@),
            p.idx() == 0,
            p.source() is None,
            p.outs() == outcomes_view(outcomes@),
            p.used() == 0,
    {
        let v = chars_of(content);
        let lines = crate::text::lines_chars(&v);
        Parser { lines, current_index: 0, current_source_file: None, outcomes, used: 0 }
    }

    /// Gets the current line number (1-based).
    fn current_line_number(&self) -> (n: usize)
        requires
            self.idx() < usize::MAX,
        ensures
            n == self.idx() + 1,
    {
        self.current_index + 1
    }

    /// The text to insert for the substitution of `cmd` (untrimmed).
    fn take_outcome(&mut self, cmd: &Vec<char>, line: usize) -> (r: Result<Vec<char>, ParseError>)
        ensures
            match r {
                Ok(x) => run_outcome(trim(cmd@), old(self).used(), old(self).outs(), line as int)
                    == Ok::<_, ErrV>(x@),
                Err(e) => run_outcome(trim(cmd@), old(self).used(), old(self).outs(), line as int)
                    == Err::<Seq<char>, _>(e@),
            },
            final(self).used() == if old(self).used() >= old(self).outs().len() {
                old(self).used()
            } else {
                old(self).used() + 1
            },
            final(self).lines_v() == old(self).lines_v(),
            final(self).idx() == old(self).idx(),
            final(self).source() == old(self).source(),
            final(self).outs() == old(self).outs(),
    {
        let c = trim_chars(cmd);
        if self.used >= self.outcomes.len() {
            return Err(ParseError::CommandRequired(string_of(&c)));
        }
        let k = self.used;
        self.used = self.used + 1;
        match &self.outcomes[k] {
            SubstitutionOutcome::Output(o) => {
                let ov = chars_of(o.as_str());
                Ok(trim_chars(&ov))
            },
            SubstitutionOutcome::SpawnFailed(e) => {
                let mut m = chars_of("Failed to execute command '");
                push_all(&mut m, &c);
                push_all(&mut m, &chars_of("': "));
                push_all(&mut m, &chars_of(e.as_str()));
                Err(ParseError::InvalidSyntax(string_of(&m), line))
            },
            SubstitutionOutcome::Failed(code, e) => {
                let mut m = chars_of("Command '");
                push_all(&mut m, &c);
                push_all(&mut m, &chars_of("' failed with exit code "));
                push_all(&mut m, &crate::text::i64_text(*code));
                push_all(&mut m, &chars_of(": "));
                let ev = chars_of(e.as_str());
                push_all(&mut m, &trim_chars(&ev));
                Err(ParseError::InvalidSyntax(string_of(&m), line))
            },
        }
    }

    /// Replaces each command substitution `$(command)` in `value` with the
    /// command's trimmed output.
    pub fn execute_command_substitutions(&mut self, value: &Vec<char>, line_number: usize) -> (r:
        Result<Vec<char>, ParseError>)
        ensures
            ({
                let (sr, k1) = substitute(
                    value@,
                    old(self).used(),
                    old(self).outs(),
                    line_number as int,
                );
                &&& final(self).used() == k1
                &&& match r {
                    Ok(x) => sr == Ok::<_, ErrV>(x@),
                    Err(e) => sr == Err::<Seq<char>, _>(e@),
                }
            }),
            final(self).lines_v() == old(self).lines_v(),
            final(self).idx() == old(self).idx(),
            final(self).source() == old(self).source(),
            final(self).outs() == old(self).outs(),
    {
        let ghost outs = self.outs();
        let ghost k0 = self.used();
        let mut result: Vec<char> = Vec::new();
        let mut in_sub = false;
        let mut command: Vec<char> = Vec::new();
        let mut depth: usize = 0;
        let mut i: usize = 0;
        while i < value.len()
            invariant
                i <= value.len(),
                in_sub ==> 1 <= depth <= i,
                k0 == old(self).used(),
                outs == self.outs(),
                self.lines_v() == old(self).lines_v(),
                self.idx() == old(self).idx(),
                self.source() == old(self).source(),
                self.outs() == old(self).outs(),
                substitute(value@, k0, outs, line_number as int) == subst_from(
                    value@,
                    i as int,
                    in_sub,
                    depth as int,
                    command@,
                    result@,
                    self.used(),
                    outs,
                    line_number as int,
                ),
            decreases value.len() - i,
        {
            let ch = value[i];
            if !in_sub {
                if ch == '$' && i + 1 < value.len() && value[i + 1] == '(' {
                    in_sub = true;
                    depth = 1;
                    command = Vec::new();
                    i += 2;
                } else {
                    result.push(ch);
                    i += 1;
                }
            } else if ch == '(' {
                depth += 1;
                command.push(ch);
                i += 1;
            } else if ch == ')' {
                if depth - 1 == 0 {
                    let ghost kb = self.used();
                    let ghost unfolded = subst_from(
                        value@,
                        i as int,
                        in_sub,
                        depth as int,
                        command@,
                        result@,
                        kb,
                        outs,
                        line_number as int,
                    );
                    let out = self.take_outcome(&command, line_number);
                    match out {
                        Ok(o) => {
                            push_all(&mut result, &o);
                            in_sub = false;
                            depth = 0;
                            command = Vec::new();
                            i += 1;
                        },
                        Err(e) => {
                            assert(unfolded == (Err::<Seq<char>, ErrV>(e@), self.used()));
                            return Err(e);
                        },
                    }
                } else {
                    depth -= 1;
                    command.push(ch);
                    i += 1;
                }
            } else {
                command.push(ch);
                i += 1;
            }
        }
        if in_sub {
            return Err(ParseError::InvalidSyntax(
                msg2("Unclosed command substitution $(...) in value: ", value),
                line_number,
            ));
        }
        Ok(result)
    }

    /// The current 1-based line number (saturating).
    fn line_number(&self) -> (n: usize)
        ensures
            n == line_no(self.idx()),
    {
        if self.current_index < usize::MAX {
            self.current_index + 1
        } else {
            usize::MAX
        }
    }

    /// Parses a value: `true`, `false`, an array literal `[a, b]` or
    /// `(a, b)`, a number, or a (possibly quoted) string; strings and array
    /// items go through command substitution.
    pub fn parse_value(&mut self, value_str: &Vec<char>) -> (r: Result<Value, ParseError>)
        ensures
            ({
                let (sr, k1) = value_spec(
                    value_str@,
                    old(self).used(),
                    old(self).outs(),
                    line_no(old(self).idx()),
                );
                &&& final(self).used() == k1
                &&& match r {
                    Ok(v) => sr == Ok::<_, ErrV>(v@),
                    Err(e) => sr == Err::<ValueV, _>(e@),
                }
            }),
            final(self).lines_v() == old(self).lines_v(),
            final(self).idx() == old(self).idx(),
            final(self).source() == old(self).source(),
            final(self).outs() == old(self).outs(),
    {
        let line = self.line_number();
        let t = trim_chars(value_str);
        if crate::text::eq(&t, &chars_of("true")) {
            return Ok(Value::Bool(true));
        }
        if crate::text::eq(&t, &chars_of("false")) {
            return Ok(Value::Bool(false));
        }
        if t.len() > 0 && ((t[0] == '[' && t[t.len() - 1] == ']') || (t[0] == '(' && t[t.len()
            - 1] == ')')) {
            let content = slice_chars(&t, 1, t.len() - 1);
            let items = crate::text::split_chars(&content, ',');
            let ghost iv = items@.map_values(|x: Vec<char>| x@);
            let ghost k0 = self.used();
            let ghost outs = self.outs();
            let mut xs: Vec<String> = Vec::new();
            let mut j: usize = 0;
            assert(iv.skip(0) == iv);
            assert(strings_view(xs@) =~= Seq::<Seq<char>>::empty());
            assert(prefix_items(Seq::empty(), array_items(iv, k0, outs, line as int))
                == array_items(iv, k0, outs, line as int)) by {
                assert(forall|q: Seq<Seq<char>>| Seq::<Seq<char>>::empty() + q == q) by {
                    assert forall|q: Seq<Seq<char>>| Seq::<Seq<char>>::empty() + q == q by {
                        assert(Seq::<Seq<char>>::empty() + q =~= q);
                    }
                }
            }
            while j < items.len()
                invariant
                    j <= items.len(),
                    iv == items@.map_values(|x: Vec<char>| x@),
                    outs == self.outs(),
                    k0 == old(self).used(),
                    line == line_no(old(self).idx()),
                    value_spec(value_str@, k0, outs, line as int) == array_value(
                        array_items(iv, k0, outs, line as int),
                    ),
                    self.lines_v() == old(self).lines_v(),
                    self.idx() == old(self).idx(),
                    self.source() == old(self).source(),
                    self.outs() == old(self).outs(),
                    array_items(iv, k0, outs, line as int) == prefix_items(
                        strings_view(xs@),
                        array_items(iv.skip(j as int), self.used(), outs, line as int),
                    ),
                decreases items.len() - j,
            {
                let ghost kb = self.used();
                let ghost rest = iv.skip(j as int);
                assert(rest[0] == iv[j as int]);
                assert(rest.drop_first() == iv.skip(j + 1));
                let it = trim_chars(&items[j]);
                let u = crate::text::unquote_chars(&it);
                let sub = self.execute_command_substitutions(&u, line);
                let x: Vec<char> = match sub {
                    Ok(x) => x,
                    Err(ParseError::CommandRequired(c)) => {
                        assert(array_items(rest, kb, outs, line as int) == (
                            Err::<Seq<Seq<char>>, ErrV>(ErrV::Need(c@)),
                            self.used(),
                        ));
                        return Err(ParseError::CommandRequired(c));
                    },
                    Err(_) => u,
                };
                let ghost old_xs = strings_view(xs@);
                if x.len() > 0 {
                    xs.push(string_of(&x));
                    assert(strings_view(xs@) =~= old_xs.push(x@));
                    proof {
                        let tail = array_items(iv.skip(j + 1), self.used(), outs, line as int);
                        match tail.0 {
                            Ok(rs) => {
                                assert(old_xs + (seq![x@] + rs) =~= old_xs.push(x@) + rs);
                            },
                            Err(_) => {},
                        }
                    }
                } else {
                    assert(strings_view(xs@) == old_xs);
                }
                j += 1;
            }
            proof {
                assert(iv.skip(items.len() as int).len() == 0);
                assert(strings_view(xs@) + Seq::<Seq<char>>::empty() =~= strings_view(xs@));
            }
            return Ok(Value::Array(xs));
        }
        if crate::text::is_float_literal(&t) {
            return Ok(Value::Number(string_of(&t)));
        }
        let u = crate::text::unquote_chars(&t);
        match self.execute_command_substitutions(&u, line) {
            Ok(x) => Ok(Value::String(string_of(&x))),
            Err(e) => Err(e),
        }
    }

    /// Parses a wildcard parameter: `*`, `*name`, `*[N]` or `*name[N]`.
    pub fn parse_wildcard_parameter(&self, param_str: &Vec<char>, line_number: usize) -> (r: Result<
        Parameter,
        ParseError,
    >)
        ensures
            match r {
                Ok(p) => wildcard_spec(param_str@, line_number as int) == Ok::<_, ErrV>(p@),
                Err(e) => wildcard_spec(param_str@, line_number as int) == Err::<ParameterV, _>(
                    e@,
                ),
            },
    {
        let s = trim_chars(param_str);
        if crate::text::contains_char(&s, ':') || crate::text::contains_char(&s, '=') {
            return Err(ParseError::InvalidSyntax(
                msg3(
                    "Wildcard parameter '",
                    param_str,
                    "' cannot have a type annotation or default value",
                ),
                line_number,
            ));
        }
        if !(s.len() > 0 && s[0] == '*') {
            return Err(ParseError::InvalidSyntax(
                msg2("Invalid wildcard parameter syntax: ", param_str),
                line_number,
            ));
        }
        let rest = slice_chars(&s, 1, s.len());
        assert(rest@ == s@.drop_first());
        let name_part: Vec<char>;
        let count_part: Option<Vec<char>>;
        match find_char(&rest, '[') {
            Some(b) => {
                if !(rest.len() > 0 && rest[rest.len() - 1] == ']') {
                    return Err(ParseError::InvalidSyntax(
                        msg3(
                            "Wildcard parameter '",
                            param_str,
                            "' has an opening '[' without matching ']'",
                        ),
                        line_number,
                    ));
                }
                assert(b < rest.len() - 1) by {
                    assert(rest@[b as int] == '[');
                }
                assert(rest@.contains('['));
                name_part = trim_chars(&slice_chars(&rest, 0, b));
                count_part = Some(trim_chars(&slice_chars(&rest, b + 1, rest.len() - 1)));
            },
            None => {
                name_part = trim_chars(&rest);
                count_part = None;
            },
        }
        let ghost gname = name_part@;
        let ghost gcount = opt_chars(count_part);
        assert(gcount == (if rest@.contains('[') {
            Some(trim(rest@.subrange(first_pos(rest@, '[') + 1, rest@.len() - 1)))
        } else {
            None
        }));
        let name_opt: Option<Vec<char>> = if name_part.len() == 0 {
            None
        } else {
            Some(name_part)
        };
        let count: Option<usize> = match count_part {
            None => None,
            Some(cs) => {
                if cs.len() == 0 {
                    return Err(ParseError::InvalidSyntax(
                        msg3(
                            "Wildcard parameter '",
                            param_str,
                            "' has empty size specification []",
                        ),
                        line_number,
                    ));
                }
                match crate::text::parse_usize(&cs) {
                    None => {
                        let mut m = chars_of("Wildcard parameter '");
                        push_all(&mut m, param_str);
                        push_all(&mut m, &chars_of("' has invalid size specification '["));
                        push_all(&mut m, &cs);
                        push_all(&mut m, &chars_of("]'"));
                        return Err(ParseError::InvalidSyntax(string_of(&m), line_number));
                    },
                    Some(n) => {
                        if n == 0 {
                            return Err(ParseError::InvalidSyntax(
                                String::from_str("Wildcard parameter size must be at least 1"),
                                line_number,
                            ));
                        }
                        Some(n)
                    },
                }
            },
        };
        let mut public_name = vec!['*'];
        let name_s: Option<String> = match &name_opt {
            Some(n) => {
                push_all(&mut public_name, n);
                Some(string_of(n))
            },
            None => None,
        };
        let p = Parameter {
            name: string_of(&public_name),
            alias: None,
            param_type: String::from_str("arr"),
            default: None,
            is_named: false,
            kind: ParamKind::Wildcard { name: name_s, count },
        };
        proof {
            assert(opt_view(p.alias) is None);
            assert(p@.kind == ParamKindV::Wildcard {
                name: if gname.len() == 0 { None } else { Some(gname) },
                count: match count { Some(n) => Some(n as nat), None => None },
            });
            assert(p@.name == (if gname.len() == 0 { seq!['*'] } else { seq!['*'] + gname }));
            assert(p@.param_type == "arr"@);
            assert(p@.default is None);
            assert(p@.is_named == false);
            let sv = trim(param_str@);
            assert(sv == s@);
            assert(!sv.contains(':') && !sv.contains('='));
            assert(sv.len() > 0 && sv[0] == '*');
            assert(sv.drop_first() == rest@);
        }
        Ok(p)
    }

    /// Parses a normal parameter: `[!]name|alias: type [= default]`.
    pub fn parse_parameter(&mut self, param_str: &Vec<char>, line_number: usize) -> (r: Result<
        Parameter,
        ParseError,
    >)
        ensures
            ({
                let (sr, k1) = param_spec(
                    param_str@,
                    old(self).used(),
                    old(self).outs(),
                    old(self).idx(),
                    line_number as int,
                );
                &&& final(self).used() == k1
                &&& match r {
                    Ok(p) => sr == Ok::<_, ErrV>(p@),
                    Err(e) => sr == Err::<ParameterV, _>(e@),
                }
            }),
            final(self).lines_v() == old(self).lines_v(),
            final(self).idx() == old(self).idx(),
            final(self).source() == old(self).source(),
            final(self).outs() == old(self).outs(),
    {
        let c = match find_char(param_str, ':') {
            Some(c) => c,
            None => {
                return Err(ParseError::InvalidSyntax(
                    msg3(
                        "Invalid parameter syntax '",
                        param_str,
                        "'. Missing type annotation. Expected format: [!]name|alias: type [= default]",
                    ),
                    line_number,
                ));
            },
        };
        assert(c < param_str.len());
        assert(param_str@.contains(':')) by {
            assert(param_str@[c as int] == ':');
        }
        let name_part = trim_chars(&slice_chars(param_str, 0, c));
        let td = trim_chars(&slice_chars(param_str, c + 1, param_str.len()));
        assert(slice_chars_spec_skip(param_str@, c as int));
        let is_named = name_part.len() > 0 && name_part[0] == '!';
        let clean = if is_named {
            slice_chars(&name_part, 1, name_part.len())
        } else {
            name_part.clone()
        };
        assert(is_named ==> clean@ == name_part@.drop_first());
        let name: Vec<char>;
        let alias: Option<String>;
        match find_char(&clean, '|') {
            Some(b) => {
                assert(clean@.contains('|')) by {
                    assert(clean@[b as int] == '|');
                }
                name = trim_chars(&slice_chars(&clean, 0, b));
                let a = trim_chars(&slice_chars(&clean, b + 1, clean.len()));
                assert(clean@.subrange(b + 1, clean@.len() as int) == clean@.skip(b + 1));
                alias = Some(string_of(&a));
            },
            None => {
                name = clean;
                alias = None;
            },
        }
        match find_char(&td, '=') {
            Some(e) => {
                assert(td@.contains('=')) by {
                    assert(td@[e as int] == '=');
                }
                assert(e < td.len());
                let ty = trim_chars(&slice_chars(&td, 0, e));
                let dv_raw = trim_chars(&slice_chars(&td, e + 1, td.len()));
                assert(td@.subrange(e + 1, td@.len() as int) == td@.skip(e + 1));
                match self.parse_value(&dv_raw) {
                    Err(err) => Err(err),
                    Ok(v) => Ok(Parameter {
                        name: string_of(&name),
                        alias,
                        param_type: string_of(&ty),
                        default: Some(v),
                        is_named,
                        kind: ParamKind::Normal,
                    }),
                }
            },
            None => {
                Ok(Parameter {
                    name: string_of(&name),
                    alias,
                    param_type: string_of(&td),
                    default: None,
                    is_named,
                    kind: ParamKind::Normal,
                })
            },
        }
    }

    /// Parses a comma-separated parameter list (commas inside parentheses do
    /// not separate); no two wildcard parameters may be adjacent.
    pub fn parse_parameters(&mut self, params_str: &Vec<char>, line_number: usize) -> (r: Result<
        Vec<Parameter>,
        ParseError,
    >)
        ensures
            ({
                let (sr, k1) = params_spec(
                    params_str@,
                    old(self).used(),
                    old(self).outs(),
                    old(self).idx(),
                    line_number as int,
                );
                &&& final(self).used() == k1
                &&& match r {
                    Ok(ps) => sr == Ok::<_, ErrV>(ps@.map_values(|p: Parameter| p@)),
                    Err(e) => sr == Err::<Seq<ParameterV>, _>(e@),
                }
            }),
            final(self).lines_v() == old(self).lines_v(),
            final(self).idx() == old(self).idx(),
            final(self).source() == old(self).source(),
            final(self).outs() == old(self).outs(),
    {
        let ghost k0 = self.used();
        let ghost outs = self.outs();
        let ghost idx = self.idx();
        // collect the parameter strings
        let mut pieces: Vec<Vec<char>> = Vec::new();
        let mut cur: Vec<char> = Vec::new();
        let mut opens: usize = 0;
        let mut closes: usize = 0;
        let mut i: usize = 0;
        assert(pieces@.map_values(|x: Vec<char>| x@) =~= Seq::<Seq<char>>::empty());
        while i < params_str.len()
            invariant
                i <= params_str.len(),
                opens <= i,
                closes <= i,
                param_pieces_from(params_str@, 0, 0, Seq::empty(), Seq::empty())
                    == param_pieces_from(
                    params_str@,
                    i as int,
                    opens - closes,
                    cur@,
                    pieces@.map_values(|x: Vec<char>| x@),
                ),
            decreases params_str.len() - i,
        {
            let ch = params_str[i];
            if ch == '(' {
                opens += 1;
                cur.push(ch);
            } else if ch == ')' {
                closes += 1;
                cur.push(ch);
            } else if ch == ',' && opens == closes {
                let t = trim_chars(&cur);
                if t.len() > 0 {
                    let ghost before = pieces@.map_values(|x: Vec<char>| x@);
                    pieces.push(t);
                    assert(pieces@.map_values(|x: Vec<char>| x@) =~= before.push(trim(cur@)));
                }
                cur = Vec::new();
            } else {
                cur.push(ch);
            }
            i += 1;
        }
        let t = trim_chars(&cur);
        if t.len() > 0 {
            let ghost before = pieces@.map_values(|x: Vec<char>| x@);
            pieces.push(t);
            assert(pieces@.map_values(|x: Vec<char>| x@) =~= before.push(trim(cur@)));
        }
        let ghost pv = pieces@.map_values(|x: Vec<char>| x@);
        assert(pv == param_pieces_from(params_str@, 0, 0, Seq::empty(), Seq::empty()));
        // parse each piece
        let mut params: Vec<Parameter> = Vec::new();
        let mut j: usize = 0;
        assert(pv.skip(0) == pv);
        assert(params@.map_values(|p: Parameter| p@) =~= Seq::<ParameterV>::empty());
        while j < pieces.len()
            invariant
                j <= pieces.len(),
                pv == pieces@.map_values(|x: Vec<char>| x@),
                pv == param_pieces_from(params_str@, 0, 0, Seq::empty(), Seq::empty()),
                k0 == old(self).used(),
                outs == self.outs(),
                idx == self.idx(),
                self.lines_v() == old(self).lines_v(),
                self.idx() == old(self).idx(),
                self.source() == old(self).source(),
                self.outs() == old(self).outs(),
                pieces_spec(pv, k0, outs, idx, line_number as int) == prefix_params(
                    params@.map_values(|p: Parameter| p@),
                    pieces_spec(pv.skip(j as int), self.used(), outs, idx, line_number as int),
                ),
            decreases pieces.len() - j,
        {
            let ghost rest = pv.skip(j as int);
            assert(rest[0] == pv[j as int]);
            assert(rest.drop_first() == pv.skip(j + 1));
            let ghost kb = self.used();
            let p = trim_chars(&pieces[j]);
            let r = if p.len() > 0 && p[0] == '*' {
                self.parse_wildcard_parameter(&p, line_number)
            } else {
                self.parse_parameter(&p, line_number)
            };
            match r {
                Err(e) => {
                    proof {
                        let head: (Result<ParameterV, ErrV>, int) = if p@.len() > 0 && p@[0] == '*' {
                            (wildcard_spec(p@, line_number as int), kb)
                        } else {
                            param_spec(p@, kb, outs, idx, line_number as int)
                        };
                        assert(head.0 == Err::<ParameterV, ErrV>(e@));
                        assert(pieces_spec(rest, kb, outs, idx, line_number as int) == (
                            Err::<Seq<ParameterV>, ErrV>(e@),
                            self.used(),
                        ));
                    }
                    return Err(e);
                },
                Ok(x) => {
                    let ghost before = params@.map_values(|p: Parameter| p@);
                    params.push(x);
                    assert(params@.map_values(|p: Parameter| p@) =~= before.push(x@));
                    proof {
                        let tail = pieces_spec(pv.skip(j + 1), self.used(), outs, idx, line_number as int);
                        match tail.0 {
                            Ok(rs) => {
                                assert(before + (seq![x@] + rs) =~= before.push(x@) + rs);
                            },
                            Err(_) => {},
                        }
                    }
                },
            }
            j += 1;
        }
        let ghost psv = params@.map_values(|p: Parameter| p@);
        assert(pv.skip(pieces.len() as int).len() == 0);
        assert(psv + Seq::<ParameterV>::empty() =~= psv);
        // adjacent wildcards
        let mut q: usize = 0;
        while params.len() > 0 && q < params.len() - 1
            invariant
                psv == params@.map_values(|p: Parameter| p@),
                pieces_spec(pv, k0, outs, idx, line_number as int) == (Ok::<_, ErrV>(psv), self.used()),
                pv == param_pieces_from(params_str@, 0, 0, Seq::empty(), Seq::empty()),
                k0 == old(self).used(),
                outs == self.outs(),
                idx == self.idx(),
                self.lines_v() == old(self).lines_v(),
                self.idx() == old(self).idx(),
                self.source() == old(self).source(),
                self.outs() == old(self).outs(),
                forall|m: int| 0 <= m < q ==> !(is_wildcard(#[trigger] psv[m]) && is_wildcard(psv[m + 1])),
            decreases params.len() - q,
        {
            let w0 = match params[q].kind { ParamKind::Wildcard { .. } => true, ParamKind::Normal => false };
            let w1 = match params[q + 1].kind { ParamKind::Wildcard { .. } => true, ParamKind::Normal => false };
            assert(w0 == is_wildcard(psv[q as int]));
            assert(w1 == is_wildcard(psv[q + 1]));
            if w0 && w1 {
                assert(adjacent_wildcards(psv));
                return Err(ParseError::InvalidSyntax(
                    String::from_str("Wildcard parameters cannot be adjacent (e.g., \"*, *\" or \"*a, *b\")"),
                    line_number,
                ));
            }
            q += 1;
        }
        assert(!adjacent_wildcards(psv));
        Ok(params)
    }

    /// Splits off the first dependency of `s` at the first comma outside
    /// quotes and parentheses.
    pub fn split_next_dependency(s: &Vec<char>) -> (r: (Vec<char>, Vec<char>))
        ensures
            (r.0@, r.1@) == split_dep_spec(s@),
    {
        let mut in_q = false;
        let mut qc = '\0';
        let mut opens: usize = 0;
        let mut closes: usize = 0;
        let mut i: usize = 0;
        while i < s.len()
            invariant
                i <= s.len(),
                opens <= i,
                closes <= i,
                dep_comma_from(s@, 0, 0, false, '\0') == dep_comma_from(
                    s@,
                    i as int,
                    opens - closes,
                    in_q,
                    qc,
                ),
            decreases s.len() - i,
        {
            let c = s[i];
            if (c == '"' || c == '\'') && !in_q {
                in_q = true;
                qc = c;
            } else if c == qc && in_q {
                in_q = false;
            } else if c == '(' && !in_q {
                opens += 1;
            } else if c == ')' && !in_q {
                closes += 1;
            } else if c == ',' && !in_q && opens == closes {
                return (slice_chars(s, 0, i), slice_chars(s, i + 1, s.len()));
            }
            i += 1;
        }
        (s.clone(), Vec::new())
    }

    /// The position of the parenthesis closing the one at `open`.
    pub(crate) fn find_close_paren(d: &Vec<char>, open: usize) -> (r: Option<usize>)
        requires
            open <= d.len(),
        ensures
            match r {
                Some(c) => close_paren_from(d@, open as int, 0, false, '\0') == Some(c as int)
                    && open <= c < d.len(),
                None => close_paren_from(d@, open as int, 0, false, '\0') is None,
            },
    {
        let mut in_q = false;
        let mut qc = '\0';
        let mut opens: usize = 0;
        let mut closes: usize = 0;
        let mut i: usize = open;
        while i < d.len()
            invariant
                open <= i <= d.len(),
                opens <= i,
                closes <= i,
                close_paren_from(d@, open as int, 0, false, '\0') == close_paren_from(
                    d@,
                    i as int,
                    opens - closes,
                    in_q,
                    qc,
                ),
            decreases d.len() - i,
        {
            let c = d[i];
            if (c == '"' || c == '\'') && !in_q {
                in_q = true;
                qc = c;
            } else if c == qc && in_q {
                in_q = false;
            } else if c == '(' && !in_q {
                opens += 1;
            } else if c == ')' && !in_q {
                if opens == closes + 1 {
                    return Some(i);
                }
                closes += 1;
            }
            i += 1;
        }
        None
    }

    /// Parses `name=value, ...` dependency arguments.
    pub fn parse_dependency_args(&self, args_str: &Vec<char>) -> (r: Result<ArgMap, ParseError>)
        ensures
            match r {
                Ok(m) => args_spec(args_str@) == Ok::<_, Seq<char>>(m.entries_view()),
                Err(e) => exists|a: Seq<char>|
                    args_spec(args_str@) == Err::<Seq<(Seq<char>, Seq<char>)>, _>(a) && e@
                        == ErrV::Syntax(
                        "Invalid argument format (expected name=value): "@ + a,
                        line_no(self.idx()),
                    ),
            },
    {
        match parse_args(args_str) {
            Ok(m) => Ok(m),
            Err(a) => Err(ParseError::InvalidSyntax(
                msg2("Invalid argument format (expected name=value): ", &a),
                self.line_number(),
            )),
        }
    }

    /// Parses one dependency: `path` or `path(name=value, ...)`.
    pub fn parse_single_dependency(&self, dep_str: &Vec<char>) -> (r: Result<Dependency, ParseError>)
        ensures
            match r {
                Ok(d) => single_dep_spec(dep_str@, line_no(self.idx())) == Ok::<_, ErrV>(d@),
                Err(e) => single_dep_spec(dep_str@, line_no(self.idx())) == Err::<DependencyV, _>(
                    e@,
                ),
            },
    {
        match find_char(dep_str, '(') {
            Some(open) => {
                assert(dep_str@.contains('(')) by {
                    assert(dep_str@[open as int] == '(');
                }
                let command_path = trim_chars(&slice_chars(dep_str, 0, open));
                match Self::find_close_paren(dep_str, open) {
                    None => Err(ParseError::InvalidSyntax(
                        msg2("Unclosed parentheses in dependency: ", dep_str),
                        self.line_number(),
                    )),
                    Some(close) => {
                        assert(open < close) by {
                            lemma_close_after_open(dep_str@, open as int);
                        }
                        let args_str = slice_chars(dep_str, open + 1, close);
                        match parse_args(&args_str) {
                            Ok(args) => Ok(Dependency { command_path: string_of(&command_path), args }),
                            Err(a) => Err(ParseError::InvalidSyntax(
                                msg2("Invalid argument format (expected name=value): ", &a),
                                self.line_number(),
                            )),
                        }
                    },
                }
            },
            None => Ok(Dependency { command_path: string_of(dep_str), args: ArgMap::new() }),
        }
    }

    /// Parses the dependencies listed in a `depends` value.
    pub fn parse_dependencies(&self, value: &Vec<char>) -> (r: Result<Vec<Dependency>, ParseError>)
        ensures
            match r {
                Ok(ds) => deps_spec(value@, line_no(self.idx())) == Ok::<_, ErrV>(
                    ds@.map_values(|d: Dependency| d@),
                ),
                Err(e) => deps_spec(value@, line_no(self.idx())) == Err::<Seq<DependencyV>, _>(e@),
            },
    {
        let mut deps: Vec<Dependency> = Vec::new();
        let mut current = trim_chars(value);
        assert(deps@.map_values(|d: Dependency| d@) =~= Seq::<DependencyV>::empty());
        while current.len() > 0
            invariant
                deps_spec(value@, line_no(self.idx())) == deps_from(
                    current@,
                    deps@.map_values(|d: Dependency| d@),
                    line_no(self.idx()),
                ),
            decreases current.len(),
        {
            let (d, rem) = Self::split_next_dependency(&current);
            if d.len() == 0 {
                return Ok(deps);
            }
            let dt = trim_chars(&d);
            let dep = self.parse_single_dependency(&dt)?;
            let ghost before = deps@.map_values(|d: Dependency| d@);
            deps.push(dep);
            assert(deps@.map_values(|d: Dependency| d@) =~= before.push(dep@));
            let next = trim_chars(&rem);
            if next.len() >= current.len() {
                return Ok(deps);
            }
            current = next;
        }
        Ok(deps)
    }

    /// The trimmed current line.
    fn current_trimmed(&self) -> (t: Vec<char>)
        requires
            0 <= self.idx() < self.lines_v().len(),
        ensures
            t@ == trim(self.lines_v()[self.idx()]),
    {
        trim_chars(&self.lines[self.current_index])
    }

    /// The value text of a binding's right-hand side.
    fn parse_binding_value(&mut self, vs: &Vec<char>, line: usize) -> (r: Result<Vec<char>, ParseError>)
        requires
            line == line_no(old(self).idx()),
        ensures
            ({
                let (sr, k1) = binding_value(vs@, old(self).used(), old(self).outs(), line as int);
                &&& final(self).used() == k1
                &&& match r {
                    Ok(x) => sr == Ok::<_, ErrV>(x@),
                    Err(e) => sr == Err::<Seq<char>, _>(e@),
                }
            }),
            final(self).lines_v() == old(self).lines_v(),
            final(self).idx() == old(self).idx(),
            final(self).source() == old(self).source(),
            final(self).outs() == old(self).outs(),
    {
        let x = if is_quoted_chars(vs) {
            let v = self.parse_value(vs)?;
            let t = v.to_string_unquoted();
            chars_of(t.as_str())
        } else {
            vs.clone()
        };
        self.execute_command_substitutions(&x, line)
    }

    /// Parses a `kw NAME = value` line at the current index.
    fn parse_binding(&mut self, kw: &str, empty_msg: &str, bad_prefix: &str) -> (r: Result<
        (Vec<char>, Vec<char>),
        ParseError,
    >)
        ensures
            ({
                let (sr, st1) = binding_spec(
                    old(self).lines_v(),
                    old(self).outs(),
                    old(self).st(),
                    kw@,
                    empty_msg@,
                    bad_prefix@,
                );
                &&& match r {
                    Ok(b) => sr == Ok::<_, ErrV>((b.0@, b.1@)) && final(self).st() == st1,
                    Err(e) => sr == Err::<BindingV, _>(e@),
                }
            }),
            final(self).lines_v() == old(self).lines_v(),
            final(self).outs() == old(self).outs(),
    {
        let line = self.line_number();
        if self.current_index >= self.lines.len() {
            return Err(ParseError::UnexpectedEndOfFile(line));
        }
        let t = self.current_trimmed();
        let kwv = chars_of(kw);
        let part = if crate::text::starts_with(&t, &kwv) {
            let rest = slice_chars(&t, kwv.len(), t.len());
            assert(rest@ == t@.skip(kwv@.len() as int));
            trim_chars(&rest)
        } else {
            Vec::new()
        };
        match find_char(&part, '=') {
            Some(e) => {
                assert(e < part.len());
                assert(part@.contains('=')) by {
                    assert(part@[e as int] == '=');
                }
                let name = trim_chars(&slice_chars(&part, 0, e));
                let vs = trim_chars(&slice_chars(&part, e + 1, part.len()));
                assert(part@.subrange(e + 1, part@.len() as int) == part@.skip(e + 1));
                if name.len() == 0 {
                    return Err(ParseError::InvalidSyntax(String::from_str(empty_msg), line));
                }
                let v = self.parse_binding_value(&vs, line)?;
                self.current_index = self.current_index + 1;
                Ok((name, v))
            },
            None => {
                Err(ParseError::InvalidSyntax(msg2(bad_prefix, &t), line))
            },
        }
    }

    /// Parses a `var NAME = value` line.
    pub fn parse_variable(&mut self) -> (r: Result<Variable, ParseError>)
        ensures
            ({
                let (sr, st1) = binding_spec(
                    old(self).lines_v(),
                    old(self).outs(),
                    old(self).st(),
                    "var "@,
                    var_empty_msg(),
                    var_bad_prefix(),
                );
                &&& match r {
                    Ok(b) => sr == Ok::<_, ErrV>(b@) && final(self).st() == st1,
                    Err(e) => sr == Err::<BindingV, _>(e@),
                }
            }),
            final(self).lines_v() == old(self).lines_v(),
            final(self).outs() == old(self).outs(),
    {
        let (n, v) = self.parse_binding(
            "var ",
            "Variable name cannot be empty",
            "Invalid variable syntax. Expected: var NAME = value, got: ",
        )?;
        Ok(Variable { name: string_of(&n), value: string_of(&v) })
    }

    /// Parses a `const NAME = value` line.
    pub fn parse_constant(&mut self) -> (r: Result<Constant, ParseError>)
        ensures
            ({
                let (sr, st1) = binding_spec(
                    old(self).lines_v(),
                    old(self).outs(),
                    old(self).st(),
                    "const "@,
                    const_empty_msg(),
                    const_bad_prefix(),
                );
                &&& match r {
                    Ok(b) => sr == Ok::<_, ErrV>(b@) && final(self).st() == st1,
                    Err(e) => sr == Err::<BindingV, _>(e@),
                }
            }),
            final(self).lines_v() == old(self).lines_v(),
            final(self).outs() == old(self).outs(),
    {
        let (n, v) = self.parse_binding(
            "const ",
            "Constant name cannot be empty",
            "Invalid constant syntax. Expected: const NAME = value, got: ",
        )?;
        Ok(Constant { name: string_of(&n), value: string_of(&v) })
    }

    /// Parses a top-level `env NAME = value` (a variable) or `env path` line.
    pub fn parse_env_keyword(&mut self, variables: &mut Vec<Variable>) -> (r: Result<(), ParseError>)
        ensures
            ({
                let (sr, st1) = env_keyword_spec(
                    old(self).lines_v(),
                    old(self).outs(),
                    old(self).st(),
                    old(variables)@.map_values(|v: Variable| v@),
                );
                &&& match r {
                    Ok(_) => sr == Ok::<_, ErrV>(final(variables)@.map_values(|v: Variable| v@))
                        && final(self).st() == st1,
                    Err(e) => sr == Err::<Seq<BindingV>, _>(e@),
                }
            }),
            final(self).lines_v() == old(self).lines_v(),
            final(self).outs() == old(self).outs(),
    {
        let line = self.line_number();
        if self.current_index >= self.lines.len() {
            return Err(ParseError::UnexpectedEndOfFile(line));
        }
        let t = self.current_trimmed();
        let kwv = chars_of("env ");
        let part = if crate::text::starts_with(&t, &kwv) {
            let rest = slice_chars(&t, kwv.len(), t.len());
            assert(rest@ == t@.skip(kwv@.len() as int));
            trim_chars(&rest)
        } else {
            Vec::new()
        };
        match find_char(&part, '=') {
            Some(e) => {
                assert(e < part.len());
                assert(part@.contains('=')) by {
                    assert(part@[e as int] == '=');
                }
                let name = trim_chars(&slice_chars(&part, 0, e));
                let vs = trim_chars(&slice_chars(&part, e + 1, part.len()));
                assert(part@.subrange(e + 1, part@.len() as int) == part@.skip(e + 1));
                if name.len() == 0 {
                    return Err(ParseError::InvalidSyntax(
                        String::from_str("Environment variable name cannot be empty"),
                        line,
                    ));
                }
                let v = self.parse_binding_value(&vs, line)?;
                redefine_variable(variables, Variable { name: string_of(&name), value: string_of(&v) });
                self.current_index = self.current_index + 1;
                Ok(())
            },
            None => {
                let mut n = chars_of("__env_file_");
                push_all(&mut n, &crate::text::usize_text(line));
                let ghost before = variables@.map_values(|v: Variable| v@);
                let var = Variable { name: string_of(&n), value: string_of(&part) };
                variables.push(var);
                assert(variables@.map_values(|v: Variable| v@) =~= before.push(var@));
                self.current_index = self.current_index + 1;
                Ok(())
            },
        }
    }

    /// Parses an `env NAME = value` or `env path` line inside a command.
    pub fn parse_env_directive_keyword(&mut self) -> (r: Result<Directive, ParseError>)
        ensures
            ({
                let (sr, st1) = env_directive_spec(
                    old(self).lines_v(),
                    old(self).outs(),
                    old(self).st(),
                );
                &&& match r {
                    Ok(d) => sr == Ok::<_, ErrV>(d@) && final(self).st() == st1,
                    Err(e) => sr == Err::<DirectiveV, _>(e@),
                }
            }),
            final(self).lines_v() == old(self).lines_v(),
            final(self).outs() == old(self).outs(),
    {
        let line = self.line_number();
        if self.current_index >= self.lines.len() {
            return Err(ParseError::UnexpectedEndOfFile(line));
        }
        let t = self.current_trimmed();
        let kwv = chars_of("env ");
        let part = if crate::text::starts_with(&t, &kwv) {
            let rest = slice_chars(&t, kwv.len(), t.len());
            assert(rest@ == t@.skip(kwv@.len() as int));
            trim_chars(&rest)
        } else {
            Vec::new()
        };
        match find_char(&part, '=') {
            Some(e) => {
                assert(e < part.len());
                assert(part@.contains('=')) by {
                    assert(part@[e as int] == '=');
                }
                let name = trim_chars(&slice_chars(&part, 0, e));
                let vs = trim_chars(&slice_chars(&part, e + 1, part.len()));
                assert(part@.subrange(e + 1, part@.len() as int) == part@.skip(e + 1));
                if name.len() == 0 {
                    return Err(ParseError::InvalidSyntax(
                        String::from_str("Environment variable name cannot be empty"),
                        line,
                    ));
                }
                let v = self.parse_value(&vs)?;
                let text = v.to_string_unquoted();
                self.current_index = self.current_index + 1;
                Ok(Directive::Env(string_of(&name), text, false))
            },
            None => {
                self.current_index = self.current_index + 1;
                Ok(Directive::EnvFile(string_of(&part), false))
            },
        }
    }

    /// Tests whether line `i` belongs to a multiline block at `base`.
    fn block_continues(&self, i: usize, base_indent: u8) -> (b: bool)
        requires
            i < self.lines_v().len(),
        ensures
            b == !((indent_spec(self.lines_v()[i as int]) <= base_indent && trim(
                self.lines_v()[i as int],
            ).len() > 0) || (indent_spec(self.lines_v()[i as int]) == base_indent && trim(
                self.lines_v()[i as int],
            ).len() == 0)),
    {
        assert(self.lines_v()[i as int] == self.lines@[i as int]@);
        let ind = get_indent_size(&self.lines[i]);
        let t = trim_chars(&self.lines[i]);
        !((ind <= base_indent && t.len() > 0) || (ind == base_indent && t.len() == 0))
    }

    /// Parses the multiline block that follows the current line.
    pub fn parse_multiline_block(&mut self, base_indent: u8) -> (r: Result<Vec<char>, ParseError>)
        requires
            0 <= old(self).idx() < old(self).lines_v().len(),
            base_indent <= 251,
        ensures
            ({
                let (sr, st1) = block_spec(old(self).lines_v(), old(self).st(), base_indent as int);
                match r {
                    Ok(c) => sr == Ok::<_, ErrV>(c@) && final(self).st() == st1,
                    Err(e) => sr == Err::<Seq<char>, _>(e@),
                }
            }),
            final(self).lines_v() == old(self).lines_v(),
            final(self).outs() == old(self).outs(),
            final(self).idx() > old(self).idx(),
            final(self).idx() <= final(self).lines_v().len(),
    {
        let ghost lv = self.lines_v();
        let ghost base = base_indent as int;
        assert(lv.len() == self.lines@.len());
        assert(self.idx() == self.current_index as int);
        let nlines = self.lines.len();
        assert(self.current_index < nlines);
        let start_line = self.line_number();
        let mut content: Vec<char> = Vec::new();
        self.current_index = self.current_index + 1;
        while self.current_index < self.lines.len() && self.block_continues(
            self.current_index,
            base_indent,
        )
            invariant
                lv == self.lines_v(),
                lv.len() == self.lines@.len(),
                old(self).idx() < self.idx() <= lv.len(),
                self.outs() == old(self).outs(),
                self.source() == old(self).source(),
                self.used() == old(self).used(),
                base_indent <= 251,
                base == base_indent as int,
                block_from(lv, base, old(self).idx() + 1, Seq::empty()) == block_from(
                    lv,
                    base,
                    self.idx(),
                    content@,
                ),
            decreases self.lines.len() - self.current_index,
        {
            let i = self.current_index;
            let ghost l = lv[i as int];
            assert(l == self.lines@[i as int]@);
            let ghost c1 = if content@.len() > 0 { content@.push('\n') } else { content@ };
            if content.len() > 0 {
                content.push('\n');
            }
            assert(content@ == c1);
            let ind = get_indent_size(&self.lines[i]);
            let r = base_indent as usize * 4 + 4;
            if ind > base_indent && self.lines[i].len() > r {
                let cl = slice_chars(&self.lines[i], r, self.lines[i].len());
                assert(cl@ == l.skip(r as int));
                push_all(&mut content, &cl);
            } else {
                let cl = self.lines[i].clone();
                push_all(&mut content, &cl);
            }
            self.current_index = self.current_index + 1;
        }
        if trim_chars(&content).len() == 0 {
            return Err(ParseError::InvalidSyntax(
                String::from_str(
                    "Multiline script block is empty. Add script content after '|' or use single-line format without '|'.",
                ),
                start_line,
            ));
        }
        Ok(content)
    }

    /// Parses a `key[.modifier]: value` directive line.
    pub fn parse_property_directive(&mut self, line: &Vec<char>, indent: u8) -> (r: Result<
        Directive,
        ParseError,
    >)
        requires
            0 <= old(self).idx() < old(self).lines_v().len(),
            indent <= 251,
        ensures
            ({
                let (sr, st1) = property_spec(
                    old(self).lines_v(),
                    old(self).outs(),
                    old(self).st(),
                    line@,
                    indent as int,
                );
                match r {
                    Ok(d) => sr == Ok::<_, ErrV>(d@) && final(self).st() == st1,
                    Err(e) => sr == Err::<DirectiveV, _>(e@),
                }
            }),
            final(self).lines_v() == old(self).lines_v(),
            final(self).outs() == old(self).outs(),
            r is Ok ==> old(self).idx() < final(self).idx() <= final(self).lines_v().len(),
    {
        let ln = self.line_number();
        let nlines = self.lines.len();
        assert(self.lines_v().len() == nlines);
        assert(self.current_index < nlines);
        let t = trim_chars(line);
        let c = match find_char(&t, ':') {
            Some(c) => c,
            None => {
                return Err(ParseError::InvalidSyntax(
                    msg2("Invalid directive format. Expected 'key: value', got: ", &t),
                    ln,
                ));
            },
        };
        assert(c < t.len());
        assert(t@.contains(':')) by {
            assert(t@[c as int] == ':');
        }
        let kwm = trim_chars(&slice_chars(&t, 0, c));
        let vs = trim_chars(&slice_chars(&t, c + 1, t.len()));
        assert(t@.subrange(c + 1, t@.len() as int) == t@.skip(c + 1));
        let parts = crate::text::split_chars(&kwm, '.');
        let ghost pv = parts@.map_values(|x: Vec<char>| x@);
        assert(pv.len() > 0) by {
            crate::text::lemma_split_nonempty(kwm@, '.');
        }
        let key = &parts[0];
        assert(key@ == pv[0]);
        let hide = contains_piece(&parts, &chars_of("hide"));
        let is_multi = crate::text::eq(&vs, &chars_of("|"));
        if crate::text::eq(key, &chars_of("desc")) {
            let v = self.parse_value(&vs)?;
            self.current_index = self.current_index + 1;
            return Ok(Directive::Desc(v.to_string_unquoted()));
        }
        let is_script = crate::text::eq(key, &chars_of("script"));
        let is_before = crate::text::eq(key, &chars_of("before"));
        let is_after = crate::text::eq(key, &chars_of("after"));
        let is_finally = crate::text::eq(key, &chars_of("finally"));
        let is_fallback = crate::text::eq(key, &chars_of("fallback"));
        if is_script || is_before || is_after || is_finally || is_fallback {
            let text = if is_multi {
                self.parse_multiline_block(indent)?
            } else {
                self.current_index = self.current_index + 1;
                vs
            };
            let ts = string_of(&text);
            let d = if is_script {
                Directive::Script(ts, None, hide)
            } else if is_before {
                Directive::Before(ts, None, hide)
            } else if is_after {
                Directive::After(ts, None, hide)
            } else if is_finally {
                Directive::Finally(ts, None, hide)
            } else {
                Directive::Fallback(ts, None, hide)
            };
            return Ok(d);
        }
        if crate::text::eq(key, &chars_of("depends")) {
            let parallel = contains_piece(&parts, &chars_of("parallel"));
            let deps = self.parse_dependencies(&vs)?;
            self.current_index = self.current_index + 1;
            return Ok(Directive::Depends(deps, parallel));
        }
        if crate::text::eq(key, &chars_of("env")) {
            match find_char(&vs, '=') {
                Some(e) => {
                    assert(e < vs.len());
                    assert(vs@.contains('=')) by {
                        assert(vs@[e as int] == '=');
                    }
                    let name = trim_chars(&slice_chars(&vs, 0, e));
                    let raw = trim_chars(&slice_chars(&vs, e + 1, vs.len()));
                    assert(vs@.subrange(e + 1, vs@.len() as int) == vs@.skip(e + 1));
                    let v = self.parse_value(&raw)?;
                    self.current_index = self.current_index + 1;
                    return Ok(Directive::Env(string_of(&name), v.to_string_unquoted(), hide));
                },
                None => {
                    self.current_index = self.current_index + 1;
                    return Ok(Directive::EnvFile(string_of(&vs), hide));
                },
            }
        }
        Err(ParseError::InvalidSyntax(msg2("Unknown directive property: ", key), ln))
    }
}

/// A line that a scan passes over: empty, or a comment.
pub open spec fn is_blank_or_comment(t: Seq<char>) -> bool {
    t.len() == 0 || t[0] == '#'
}

/// The characters of `t` from `a` up to `b`; empty where `b < a`.
pub open spec fn between(t: Seq<char>, a: int, b: int) -> Seq<char> {
    if a <= b {
        t.subrange(a, b)
    } else {
        Seq::empty()
    }
}

/// The parameter pieces of a signature that continues on the lines from `i`
/// on: each nonempty line before the closing one gives its text up to a
/// comment, the closing line its text before `)`; also the index after the
/// closing line. A line at or left of `base` before the closing one is an
/// error.
pub open spec fn sig_lines_from(lines: Seq<Seq<char>>, base: int, i: int, acc: Seq<Seq<char>>) -> Result<
    (Seq<Seq<char>>, int),
    ErrV,
>
    decreases lines.len() - i,
{
    if i < 0 || i >= lines.len() {
        Ok((acc, i))
    } else {
        let t = trim(lines[i]);
        if is_blank_or_comment(t) {
            sig_lines_from(lines, base, i + 1, acc)
        } else if t.contains(')') {
            let lwc = trim(crate::text::strip_trailing(t, ':'));
            let p = trim(lwc.take(first_pos(lwc, ')')));
            Ok((if lwc.contains(')') && p.len() > 0 { acc.push(p) } else { acc }, i + 1))
        } else if indent_spec(lines[i]) <= base {
            Err(ErrV::Syntax("Missing closing parenthesis in function signature"@, line_no(i)))
        } else {
            let lc = if t.contains('#') { trim(t.take(first_pos(t, '#'))) } else { t };
            sig_lines_from(lines, base, i + 1, if lc.len() > 0 { acc.push(lc) } else { acc })
        }
    }
}

/// The parameters read from the list `ps`, with the parser at `st` after
/// the signature (the list parsed with the parser's index at `at`).
pub open spec fn sig_params(
    ps: Seq<char>,
    outs: Seq<OutcomeV>,
    st: PState,
    at: int,
    line: int,
    name: Seq<char>,
) -> (Result<(Seq<char>, Seq<ParameterV>), ErrV>, PState) {
    if trim(ps).len() == 0 {
        (Ok((name, Seq::empty())), st)
    } else {
        let (r, k1) = params_spec(ps, st.k, outs, at, line);
        match r {
            Ok(p) => (Ok((name, p)), with_k(st, k1)),
            Err(e) => (Err(e), with_k(st, k1)),
        }
    }
}

/// Reading the list after moving to the next line gives the same result,
/// one line further on.
pub proof fn lemma_sig_params_advance(
    ps: Seq<char>,
    outs: Seq<OutcomeV>,
    st: PState,
    at: int,
    line: int,
    name: Seq<char>,
)
    ensures
        sig_params(ps, outs, advance(st), at, line, name).0 == sig_params(
            ps,
            outs,
            st,
            at,
            line,
            name,
        ).0,
        sig_params(ps, outs, advance(st), at, line, name).1 == advance(
            sig_params(ps, outs, st, at, line, name).1,
        ),
{
}

/// A command signature `name:`, `name(params):`, or one whose parameter
/// list runs over several lines, at the current line; `base` is the
/// indentation of the command.
pub open spec fn sig_spec(lines: Seq<Seq<char>>, outs: Seq<OutcomeV>, st: PState, base: int) -> (
    Result<(Seq<char>, Seq<ParameterV>), ErrV>,
    PState,
) {
    let ln = line_no(st.idx);
    if st.idx < 0 || st.idx >= lines.len() {
        (Err(ErrV::Eof(ln)), st)
    } else {
        let t = trim(lines[st.idx]);
        if t.contains('(') {
            let open = first_pos(t, '(');
            let name = trim(t.take(open));
            if t.contains(')') {
                let ps = between(t, open + 1, crate::text::last_pos(t, ')'));
                sig_params(ps, outs, advance(st), st.idx, ln, name)
            } else {
                match sig_lines_from(lines, base, st.idx + 1, Seq::empty()) {
                    Err(e) => (Err(e), st),
                    Ok(pj) => {
                        let j = pj.1;
                        sig_params(join(pj.0, " "@), outs, PState { idx: j, ..st }, j, line_no(j), name)
                    },
                }
            }
        } else {
            let name = if t.len() > 0 && t.last() == ':' {
                trim(crate::text::strip_trailing(t, ':'))
            } else {
                t
            };
            (Ok((name, Seq::empty())), advance(st))
        }
    }
}

impl Parser {
    /// The line at index `i`.
    fn line_at(&self, i: usize) -> (l: &Vec<char>)
        requires
            i < self.lines_v().len(),
        ensures
            l@ == self.lines_v()[i as int],
    {
        &self.lines[i]
    }

    /// The number of lines.
    fn line_count(&self) -> (n: usize)
        ensures
            n == self.lines_v().len(),
    {
        self.lines.len()
    }

    /// Collects the parameter pieces of a signature whose list continues
    /// below the current line, up to the line holding `)`.
    fn collect_signature_lines(&mut self, base_indent: u8) -> (r: Result<Vec<Vec<char>>, ParseError>)
        requires
            0 <= old(self).idx() < old(self).lines_v().len(),
        ensures
            match r {
                Ok(acc) => sig_lines_from(
                    old(self).lines_v(),
                    base_indent as int,
                    old(self).idx() + 1,
                    Seq::empty(),
                ) == Ok::<_, ErrV>((acc@.map_values(|x: Vec<char>| x@), final(self).idx())),
                Err(e) => sig_lines_from(
                    old(self).lines_v(),
                    base_indent as int,
                    old(self).idx() + 1,
                    Seq::empty(),
                ) == Err::<(Seq<Seq<char>>, int), _>(e@),
            },
            final(self).lines_v() == old(self).lines_v(),
            final(self).outs() == old(self).outs(),
            final(self).source() == old(self).source(),
            final(self).used() == old(self).used(),
            old(self).idx() < final(self).idx() <= final(self).lines_v().len(),
    {
        let ghost lv = self.lines_v();
        let ghost base = base_indent as int;
        let ghost start = old(self).idx() + 1;
        let n = self.line_count();
        let mut acc: Vec<Vec<char>> = Vec::new();
        let mut done = false;
        self.current_index = self.current_index + 1;
        assert(acc@.map_values(|x: Vec<char>| x@) =~= Seq::<Seq<char>>::empty());
        while !done && self.current_index < n
            invariant
                lv == self.lines_v(),
                lv == old(self).lines_v(),
                n == lv.len(),
                start <= self.idx() <= n,
                start == old(self).idx() + 1,
                base == base_indent as int,
                self.outs() == old(self).outs(),
                self.source() == old(self).source(),
                self.used() == old(self).used(),
                !done ==> sig_lines_from(lv, base, start, Seq::empty()) == sig_lines_from(
                    lv,
                    base,
                    self.idx(),
                    acc@.map_values(|x: Vec<char>| x@),
                ),
                done ==> sig_lines_from(lv, base, start, Seq::empty()) == Ok::<_, ErrV>(
                    (acc@.map_values(|x: Vec<char>| x@), self.idx()),
                ),
            decreases n - self.current_index,
        {
            let i = self.current_index;
            let ghost av = acc@.map_values(|x: Vec<char>| x@);
            let l = self.line_at(i);
            let t2 = trim_chars(l);
            let blank = t2.len() == 0 || t2[0] == '#';
            if blank {
                self.current_index = i + 1;
            } else if crate::text::contains_char(&t2, ')') {
                let lwc = trim_chars(&crate::text::strip_trailing_chars(&t2, ':'));
                match find_char(&lwc, ')') {
                    Some(c) => {
                        assert(lwc@.contains(')')) by {
                            assert(lwc@[c as int] == ')');
                        }
                        let p = trim_chars(&slice_chars(&lwc, 0, c));
                        if p.len() > 0 {
                            acc.push(p);
                        }
                    },
                    None => {},
                }
                self.current_index = i + 1;
                done = true;
            } else if get_indent_size(l) <= base_indent {
                let ln = self.line_number();
                return Err(ParseError::InvalidSyntax(
                    String::from_str("Missing closing parenthesis in function signature"),
                    ln,
                ));
            } else {
                let lc = match find_char(&t2, '#') {
                    Some(c) => trim_chars(&slice_chars(&t2, 0, c)),
                    None => t2,
                };
                if lc.len() > 0 {
                    acc.push(lc);
                }
                self.current_index = i + 1;
            }
            assert(acc@.map_values(|x: Vec<char>| x@) =~= if acc@.len() > av.len() {
                av.push(acc@.last()@)
            } else {
                av
            });
        }
        Ok(acc)
    }

    /// Parses the parameter list `ps` of a signature (none where it is
    /// blank) for the command `name`.
    fn signature_params(&mut self, name: &Vec<char>, ps: &Vec<char>, line: usize) -> (r: Result<
        (String, Vec<Parameter>),
        ParseError,
    >)
        ensures
            ({
                let (sr, st1) = sig_params(
                    ps@,
                    old(self).outs(),
                    old(self).st(),
                    old(self).idx(),
                    line as int,
                    name@,
                );
                match r {
                    Ok(p) => sr == Ok::<_, ErrV>((p.0@, p.1@.map_values(|x: Parameter| x@)))
                        && final(self).st() == st1,
                    Err(e) => sr == Err::<(Seq<char>, Seq<ParameterV>), _>(e@),
                }
            }),
            final(self).lines_v() == old(self).lines_v(),
            final(self).outs() == old(self).outs(),
            final(self).idx() == old(self).idx(),
    {
        if trim_chars(ps).len() == 0 {
            let params: Vec<Parameter> = Vec::new();
            assert(params@.map_values(|x: Parameter| x@) =~= Seq::<ParameterV>::empty());
            return Ok((string_of(name), params));
        }
        let params = self.parse_parameters(ps, line)?;
        Ok((string_of(name), params))
    }

    /// Parses a command signature at the current line: `name:`,
    /// `name(params):`, or a parameter list that runs over several lines
    /// (up to the line holding `)`).
    pub fn parse_function_signature_multiline(&mut self, base_indent: u8) -> (r: Result<
        (String, Vec<Parameter>),
        ParseError,
    >)
        ensures
            ({
                let (sr, st1) = sig_spec(
                    old(self).lines_v(),
                    old(self).outs(),
                    old(self).st(),
                    base_indent as int,
                );
                match r {
                    Ok(p) => sr == Ok::<_, ErrV>((p.0@, p.1@.map_values(|x: Parameter| x@)))
                        && final(self).st() == st1,
                    Err(e) => sr == Err::<(Seq<char>, Seq<ParameterV>), _>(e@),
                }
            }),
            final(self).lines_v() == old(self).lines_v(),
            final(self).outs() == old(self).outs(),
            r is Ok ==> old(self).idx() < final(self).idx() <= final(self).lines_v().len(),
    {
        let line = self.line_number();
        let n = self.line_count();
        if self.current_index >= n {
            return Err(ParseError::UnexpectedEndOfFile(line));
        }
        let t = self.current_trimmed();
        match find_char(&t, '(') {
            Some(open) => {
                assert(t@.contains('(')) by {
                    assert(t@[open as int] == '(');
                }
                let name = trim_chars(&slice_chars(&t, 0, open));
                match crate::text::rfind_char(&t, ')') {
                    Some(close) => {
                        assert(t@.contains(')')) by {
                            assert(t@[close as int] == ')');
                        }
                        assert(open < t.len() && close < t.len());
                        let ps = if open + 1 <= close {
                            slice_chars(&t, open + 1, close)
                        } else {
                            Vec::new()
                        };
                        assert(ps@ == between(t@, open + 1, close as int));
                        let ghost st0 = self.st();
                        let res = self.signature_params(&name, &ps, line)?;
                        proof {
                            lemma_sig_params_advance(ps@, self.outs(), st0, st0.idx, line as int, name@);
                        }
                        self.current_index = self.current_index + 1;
                        Ok(res)
                    },
                    None => {
                        let acc = self.collect_signature_lines(base_indent)?;
                        let ps = crate::text::join_chars(&acc, &chars_of(" "));
                        let at = self.line_number();
                        self.signature_params(&name, &ps, at)
                    },
                }
            },
            None => {
                let name = if crate::text::ends_with_char(&t, ':') {
                    trim_chars(&crate::text::strip_trailing_chars(&t, ':'))
                } else {
                    t
                };
                self.current_index = self.current_index + 1;
                let params: Vec<Parameter> = Vec::new();
                assert(params@.map_values(|x: Parameter| x@) =~= Seq::<ParameterV>::empty());
                Ok((string_of(&name), params))
            },
        }
    }
}

/// The body lines and local variables of a function from the parser state
/// `st` on; `ind` is the indentation of the function line. The body ends
/// at the first nonblank line indented at most `ind`; blank lines and
/// comments are dropped, `var` lines define local variables, other lines
/// lose their first `ind` characters.
pub open spec fn func_body_from(
    lines: Seq<Seq<char>>,
    outs: Seq<OutcomeV>,
    st: PState,
    ind: int,
    body: Seq<Seq<char>>,
    locals: Seq<BindingV>,
) -> (Result<(Seq<Seq<char>>, Seq<BindingV>), ErrV>, PState)
    decreases lines.len() - st.idx,
{
    if st.idx < 0 || st.idx >= lines.len() {
        (Ok((body, locals)), st)
    } else {
        let l = lines[st.idx];
        let ni = indent_spec(l);
        let t = trim(l);
        if ni <= ind && t.len() > 0 {
            (Ok((body, locals)), st)
        } else if is_blank_or_comment(t) {
            func_body_from(lines, outs, advance(st), ind, body, locals)
        } else if "var "@.is_prefix_of(t) {
            let (r, st2) = binding_spec(lines, outs, st, "var "@, var_empty_msg(), var_bad_prefix());
            match r {
                Err(e) => (Err(e), st2),
                Ok(b) => if st.idx < st2.idx <= lines.len() {
                    func_body_from(lines, outs, st2, ind, body, redefine(locals, b))
                } else {
                    (Ok((body, locals)), st2)
                },
            }
        } else {
            let bl = if ni > ind { l.skip(ind) } else { l };
            func_body_from(lines, outs, advance(st), ind, body.push(bl), locals)
        }
    }
}

/// The name and parameters of a `function name(params):` line.
pub open spec fn func_header_spec(fp: Seq<char>, outs: Seq<OutcomeV>, st: PState) -> (Result<
    (Seq<char>, Seq<ParameterV>),
    ErrV,
>, PState) {
    let ln = line_no(st.idx);
    if fp.contains('(') {
        let open = first_pos(fp, '(');
        let name = trim(fp.take(open));
        if fp.contains(')') {
            sig_params(
                between(fp, open + 1, crate::text::last_pos(fp, ')')),
                outs,
                advance(st),
                st.idx,
                ln,
                name,
            )
        } else {
            (Err(ErrV::Syntax("Missing closing parenthesis in function signature"@, ln)), st)
        }
    } else {
        let name = if fp.len() > 0 && fp.last() == ':' { trim(fp.drop_last()) } else { fp };
        (Ok((name, Seq::empty())), advance(st))
    }
}

/// A function definition at the current line: `function name(params):`
/// and its indented body.
pub open spec fn func_spec(lines: Seq<Seq<char>>, outs: Seq<OutcomeV>, st: PState) -> (Result<
    FunctionV,
    ErrV,
>, PState) {
    let ln = line_no(st.idx);
    if st.idx < 0 || st.idx >= lines.len() {
        (Err(ErrV::Eof(ln)), st)
    } else {
        let l = lines[st.idx];
        let ind = indent_spec(l);
        let fp = after_keyword(trim(l), "function "@);
        let (hr, st1) = func_header_spec(fp, outs, st);
        match hr {
            Err(e) => (Err(e), st1),
            Ok(h) => {
                let (br, st2) = func_body_from(lines, outs, st1, ind, Seq::empty(), Seq::empty());
                match br {
                    Err(e) => (Err(e), st2),
                    Ok(bv) => (
                        Ok(
                            FunctionV {
                                name: h.0,
                                parameters: h.1,
                                body: join(bv.0, "\n"@),
                                local_variables: bv.1,
                            },
                        ),
                        st2,
                    ),
                }
            },
        }
    }
}

impl Parser {
    /// Parses the body of a function from the current line on; `ind` is
    /// the indentation of the function line.
    fn parse_function_body(&mut self, ind: u8) -> (r: Result<(Vec<Vec<char>>, Vec<Variable>), ParseError>)
        requires
            old(self).idx() <= old(self).lines_v().len(),
        ensures
            ({
                let (sr, st1) = func_body_from(
                    old(self).lines_v(),
                    old(self).outs(),
                    old(self).st(),
                    ind as int,
                    Seq::empty(),
                    Seq::empty(),
                );
                match r {
                    Ok(bv) => sr == Ok::<_, ErrV>(
                        (
                            bv.0@.map_values(|x: Vec<char>| x@),
                            bv.1@.map_values(|v: Variable| v@),
                        ),
                    ) && final(self).st() == st1,
                    Err(e) => sr == Err::<(Seq<Seq<char>>, Seq<BindingV>), _>(e@),
                }
            }),
            final(self).lines_v() == old(self).lines_v(),
            final(self).outs() == old(self).outs(),
            r is Ok ==> old(self).idx() <= final(self).idx() <= final(self).lines_v().len(),
    {
        let ghost lv = self.lines_v();
        let ghost outs = self.outs();
        let n = self.line_count();
        let mut body: Vec<Vec<char>> = Vec::new();
        let mut locals: Vec<Variable> = Vec::new();
        assert(body@.map_values(|x: Vec<char>| x@) =~= Seq::<Seq<char>>::empty());
        assert(locals@.map_values(|v: Variable| v@) =~= Seq::<BindingV>::empty());
        while self.current_index < n
            invariant
                lv == self.lines_v(),
                lv == old(self).lines_v(),
                outs == self.outs(),
                outs == old(self).outs(),
                n == lv.len(),
                old(self).idx() <= self.idx() <= n,
                func_body_from(lv, outs, old(self).st(), ind as int, Seq::empty(), Seq::empty())
                    == func_body_from(
                    lv,
                    outs,
                    self.st(),
                    ind as int,
                    body@.map_values(|x: Vec<char>| x@),
                    locals@.map_values(|v: Variable| v@),
                ),
            ensures
                func_body_from(lv, outs, old(self).st(), ind as int, Seq::empty(), Seq::empty())
                    == (Ok::<_, ErrV>(
                    (body@.map_values(|x: Vec<char>| x@), locals@.map_values(|v: Variable| v@)),
                ), self.st()),
            decreases n - self.current_index,
        {
            let i = self.current_index;
            let ghost bv = body@.map_values(|x: Vec<char>| x@);
            let l = self.line_at(i).clone();
            let ni = get_indent_size(&l);
            let t = trim_chars(&l);
            if ni <= ind && t.len() > 0 {
                break;
            }
            if t.len() == 0 || t[0] == '#' {
                self.current_index = i + 1;
                continue;
            }
            if crate::text::starts_with(&t, &chars_of("var ")) {
                let ghost st0 = self.st();
                let var = match self.parse_variable() {
                    Ok(v) => v,
                    Err(e) => {
                        return Err(e);
                    },
                };
                assert(st0.idx < self.st().idx <= lv.len());
                redefine_variable(&mut locals, var);
                continue;
            }
            proof {
                lemma_indent_len(l@);
            }
            let bl = if ni > ind {
                slice_chars(&l, ind as usize, l.len())
            } else {
                l
            };
            body.push(bl);
            assert(body@.map_values(|x: Vec<char>| x@) =~= bv.push(bl@));
            self.current_index = i + 1;
        }
        Ok((body, locals))
    }
}

impl Parser {
    /// Parses the header of a function line whose text after the keyword
    /// is `fp`.
    fn parse_function_header(&mut self, fp: &Vec<char>) -> (r: Result<(String, Vec<Parameter>), ParseError>)
        requires
            0 <= old(self).idx() < old(self).lines_v().len(),
        ensures
            ({
                let (sr, st1) = func_header_spec(fp@, old(self).outs(), old(self).st());
                match r {
                    Ok(p) => sr == Ok::<_, ErrV>((p.0@, p.1@.map_values(|x: Parameter| x@)))
                        && final(self).st() == st1,
                    Err(e) => sr == Err::<(Seq<char>, Seq<ParameterV>), _>(e@),
                }
            }),
            final(self).lines_v() == old(self).lines_v(),
            final(self).outs() == old(self).outs(),
            r is Ok ==> final(self).idx() == old(self).idx() + 1,
    {
        let line = self.line_number();
        let n = self.line_count();
        assert(self.current_index < n);
        match find_char(fp, '(') {
            Some(open) => {
                assert(fp@.contains('(')) by {
                    assert(fp@[open as int] == '(');
                }
                let name = trim_chars(&slice_chars(fp, 0, open));
                match crate::text::rfind_char(fp, ')') {
                    Some(close) => {
                        assert(fp@.contains(')')) by {
                            assert(fp@[close as int] == ')');
                        }
                        assert(open < fp.len() && close < fp.len());
                        let ps = if open + 1 <= close {
                            slice_chars(fp, open + 1, close)
                        } else {
                            Vec::new()
                        };
                        assert(ps@ == between(fp@, open + 1, close as int));
                        let ghost st0 = self.st();
                        let res = self.signature_params(&name, &ps, line)?;
                        proof {
                            lemma_sig_params_advance(ps@, self.outs(), st0, st0.idx, line as int, name@);
                        }
                        self.current_index = self.current_index + 1;
                        Ok(res)
                    },
                    None => Err(ParseError::InvalidSyntax(
                        String::from_str("Missing closing parenthesis in function signature"),
                        line,
                    )),
                }
            },
            None => {
                let name = if crate::text::ends_with_char(fp, ':') {
                    trim_chars(&slice_chars(fp, 0, fp.len() - 1))
                } else {
                    fp.clone()
                };
                self.current_index = self.current_index + 1;
                let params: Vec<Parameter> = Vec::new();
                assert(params@.map_values(|x: Parameter| x@) =~= Seq::<ParameterV>::empty());
                Ok((string_of(&name), params))
            },
        }
    }

    /// Parses a function definition at the current line:
    /// `function name(params):` followed by its indented body.
    pub fn parse_function(&mut self) -> (r: Result<Function, ParseError>)
        ensures
            ({
                let (sr, st1) = func_spec(old(self).lines_v(), old(self).outs(), old(self).st());
                match r {
                    Ok(f) => sr == Ok::<_, ErrV>(f@) && final(self).st() == st1,
                    Err(e) => sr == Err::<FunctionV, _>(e@),
                }
            }),
            final(self).lines_v() == old(self).lines_v(),
            final(self).outs() == old(self).outs(),
            r is Ok ==> old(self).idx() < final(self).idx() <= final(self).lines_v().len(),
    {
        let line = self.line_number();
        let n = self.line_count();
        if self.current_index >= n {
            return Err(ParseError::UnexpectedEndOfFile(line));
        }
        let l = self.line_at(self.current_index);
        let ind = get_indent_size(l);
        let t = trim_chars(l);
        let kw = chars_of("function ");
        let fp = if crate::text::starts_with(&t, &kw) {
            let rest = slice_chars(&t, kw.len(), t.len());
            assert(rest@ == t@.skip(kw@.len() as int));
            trim_chars(&rest)
        } else {
            Vec::new()
        };
        let (name, parameters) = self.parse_function_header(&fp)?;
        let (body_lines, local_variables) = self.parse_function_body(ind)?;
        let body = crate::text::join_chars(&body_lines, &chars_of("\n"));
        Ok(Function { name, parameters, body: string_of(&body), local_variables })
    }
}

/// What a command body gathers: directives, child commands, local
/// variables and local constants.
pub struct CmdAcc {
    pub directives: Seq<DirectiveV>,
    pub children: Seq<CommandV>,
    pub vars: Seq<BindingV>,
    pub consts: Seq<BindingV>,
}

/// Nothing gathered yet.
pub open spec fn empty_acc() -> CmdAcc {
    CmdAcc {
        directives: Seq::empty(),
        children: Seq::empty(),
        vars: Seq::empty(),
        consts: Seq::empty(),
    }
}

/// The line is a source marker `# @source: path`.
pub open spec fn is_source_marker(t: Seq<char>) -> bool {
    "# @source: "@.is_prefix_of(t)
}

/// The source file after the marker line `t`: its path where it names one.
pub open spec fn marked_source(t: Seq<char>, src: Option<Seq<char>>) -> Option<Seq<char>> {
    let p = trim(t.skip("# @source: "@.len() as int));
    if p.len() > 0 {
        Some(p)
    } else {
        src
    }
}

/// The state after a source marker line.
pub open spec fn after_marker(st: PState, t: Seq<char>) -> PState {
    PState { idx: st.idx + 1, src: marked_source(t, st.src), k: st.k }
}

/// The line opens a command: it ends with `:`, or opens a parameter list
/// that it does not close.
pub open spec fn starts_command(t: Seq<char>) -> bool {
    (t.len() > 0 && t.last() == ':') || (t.contains('(') && !t.contains(')'))
}

/// The line reads as `key: value`: its text before the first `:` has no
/// space, or holds both parentheses.
pub open spec fn is_directive_line(t: Seq<char>) -> bool {
    t.contains(':') && {
        let kp = trim(t.take(first_pos(t, ':')));
        !kp.contains(' ') || (kp.contains('(') && kp.contains(')'))
    }
}

/// Some binding is named `n`.
pub open spec fn has_name(s: Seq<BindingV>, n: Seq<char>) -> bool {
    exists|i: int| 0 <= i < s.len() && #[trigger] s[i].0 == n
}

/// Some parameter is a wildcard.
pub open spec fn has_wildcard_param(ps: Seq<ParameterV>) -> bool {
    exists|i: int| 0 <= i < ps.len() && #[trigger] is_wildcard(ps[i])
}

/// The message for the legacy `@` prefix inside a command.
pub open spec fn command_at_msg() -> Seq<char> {
    "Legacy syntax '@' is deprecated. Use keywords (var, const, env) without '@'. The last version supporting this legacy configuration is 3.0.19. Line: "@
}

/// The message for the legacy `>` prefix.
pub open spec fn gt_msg() -> Seq<char> {
    "Legacy directive prefix '>' is deprecated. Remove '>' and use 'key: value' style. The last version supporting this legacy configuration is 3.0.19. Line: "@
}

/// The message for a constant defined twice in one command.
pub open spec fn local_const_msg(n: Seq<char>) -> Seq<char> {
    "Constant '"@ + n + "' is already defined in this command and cannot be redefined"@
}

/// One step of a command body at line `st.idx`.
pub enum StepV {
    /// The body ends before this line.
    Stop,
    /// The line is in error.
    Fail(ErrV, PState),
    /// The line was read: directives, local variables and local constants
    /// after it, and the state after it.
    Next(Seq<DirectiveV>, Seq<BindingV>, Seq<BindingV>, PState),
    /// The line opens a child command.
    Child,
}

/// What the line at `st.idx` does to a command body indented at `ind`. A
/// directive may be written `> key: value`: such a line reads as the
/// directive `key: value` (any other line after `>` is refused).
#[verifier::opaque]
pub open spec fn body_step(
    lines: Seq<Seq<char>>,
    outs: Seq<OutcomeV>,
    st: PState,
    ind: int,
    dirs: Seq<DirectiveV>,
    vars: Seq<BindingV>,
    consts: Seq<BindingV>,
) -> StepV {
    if st.idx < 0 || st.idx >= lines.len() {
        StepV::Stop
    } else {
        let l = lines[st.idx];
        let ni = indent_spec(l);
        let t = trim(l);
        let ln = line_no(st.idx);
        if ni <= ind && t.len() > 0 {
            StepV::Stop
        } else if is_source_marker(t) {
            StepV::Next(dirs, vars, consts, after_marker(st, t))
        } else if is_blank_or_comment(t) {
            StepV::Next(dirs, vars, consts, advance(st))
        } else if t[0] == '@' {
            StepV::Fail(ErrV::Deprecated(command_at_msg() + t, ln), st)
        } else if t[0] == '>' {
            let l2 = strip_gt(l);
            let t2 = trim(l2);
            if is_directive_line(t2) && t2.last() != ':' {
                let (r, st2) = property_spec(lines, outs, st, l2, ni);
                match r {
                    Err(e) => StepV::Fail(e, st2),
                    Ok(d) => StepV::Next(dirs.push(d), vars, consts, st2),
                }
            } else {
                StepV::Fail(ErrV::Deprecated(gt_msg() + t, ln), st)
            }
        } else if "var "@.is_prefix_of(t) {
            let (r, st2) = binding_spec(lines, outs, st, "var "@, var_empty_msg(), var_bad_prefix());
            match r {
                Err(e) => StepV::Fail(e, st2),
                Ok(b) => StepV::Next(dirs, redefine(vars, b), consts, st2),
            }
        } else if "const "@.is_prefix_of(t) {
            let (r, st2) = binding_spec(
                lines,
                outs,
                st,
                "const "@,
                const_empty_msg(),
                const_bad_prefix(),
            );
            match r {
                Err(e) => StepV::Fail(e, st2),
                Ok(b) => if has_name(consts, b.0) {
                    StepV::Fail(ErrV::Syntax(local_const_msg(b.0), line_no(st2.idx)), st2)
                } else {
                    StepV::Next(dirs, vars, consts.push(b), st2)
                },
            }
        } else if "env "@.is_prefix_of(t) {
            let (r, st2) = env_directive_spec(lines, outs, st);
            match r {
                Err(e) => StepV::Fail(e, st2),
                Ok(d) => StepV::Next(dirs.push(d), vars, consts, st2),
            }
        } else if is_directive_line(t) && t.last() != ':' {
            let (r, st2) = property_spec(lines, outs, st, l, ni);
            match r {
                Err(e) => StepV::Fail(e, st2),
                Ok(d) => StepV::Next(dirs.push(d), vars, consts, st2),
            }
        } else if starts_command(t) {
            StepV::Child
        } else {
            StepV::Fail(ErrV::Syntax("Unexpected line in command definition: "@ + t, ln), st)
        }
    }
}

/// A command definition at line `st.idx`, whose indentation must be at
/// least `base`: its signature, then its body (the lines indented deeper).
pub open spec fn cmd_spec(lines: Seq<Seq<char>>, outs: Seq<OutcomeV>, st: PState, base: int) -> (
    Result<CommandV, ErrV>,
    PState,
)
    decreases lines.len() - st.idx, 0int,
{
    let ln = line_no(st.idx);
    if st.idx < 0 || st.idx >= lines.len() {
        (Err(ErrV::Eof(ln)), st)
    } else {
        let ind = indent_spec(lines[st.idx]);
        if ind < base {
            (Err(ErrV::Indent(ln)), st)
        } else {
            let (hr, st1) = sig_spec(lines, outs, st, ind);
            match hr {
                Err(e) => (Err(e), st1),
                Ok(h) => if st.idx < st1.idx <= lines.len() {
                    let (br, st2) = cmd_body(lines, outs, st1, ind, empty_acc());
                    match br {
                        Err(e) => (Err(e), st2),
                        Ok(a) => (
                            Ok(
                                CommandV {
                                    name: h.0,
                                    parameters: h.1,
                                    directives: a.directives,
                                    children: a.children,
                                    has_wildcard: has_wildcard_param(h.1),
                                    local_variables: a.vars,
                                    local_constants: a.consts,
                                    source_file: st2.src,
                                },
                            ),
                            st2,
                        ),
                    }
                } else {
                    (Err(ErrV::Eof(ln)), st1)
                },
            }
        }
    }
}

/// The body of a command indented at `ind`, from line `st.idx` on, added
/// to `acc`.
pub open spec fn cmd_body(
    lines: Seq<Seq<char>>,
    outs: Seq<OutcomeV>,
    st: PState,
    ind: int,
    acc: CmdAcc,
) -> (Result<CmdAcc, ErrV>, PState)
    decreases lines.len() - st.idx, 1int,
{
    match body_step(lines, outs, st, ind, acc.directives, acc.vars, acc.consts) {
        StepV::Stop => (Ok(acc), st),
        StepV::Fail(e, st2) => (Err(e), st2),
        StepV::Next(d, v, c, st2) => if st.idx < st2.idx <= lines.len() {
            cmd_body(lines, outs, st2, ind, CmdAcc { directives: d, vars: v, consts: c, ..acc })
        } else {
            (Ok(acc), st2)
        },
        StepV::Child => if 0 <= st.idx < lines.len() {
            let (r, st2) = cmd_spec(lines, outs, st, ind);
            match r {
                Err(e) => (Err(e), st2),
                Ok(c) => if st.idx < st2.idx <= lines.len() {
                    cmd_body(lines, outs, st2, ind, CmdAcc { children: acc.children.push(c), ..acc })
                } else {
                    (Ok(acc), st2)
                },
            }
        } else {
            (Ok(acc), st)
        },
    }
}

/// The model of what a command body has gathered.
pub open spec fn acc_of(d: Seq<Directive>, c: Seq<Command>, v: Seq<Variable>, k: Seq<Constant>) -> CmdAcc {
    CmdAcc {
        directives: d.map_values(|x: Directive| x@),
        children: commands_view(c),
        vars: v.map_values(|x: Variable| x@),
        consts: k.map_values(|x: Constant| x@),
    }
}

/// What the parser does with a line of a command body.
pub enum BodyStep {
    /// The body has ended.
    Stop,
    /// The line was read.
    Next,
    /// The line opens a child command.
    Child,
}

/// Tests whether one of the constants is named `name`.
pub fn constant_named(consts: &Vec<Constant>, name: &String) -> (b: bool)
    ensures
        b == has_name(consts@.map_values(|c: Constant| c@), name@),
{
    let ghost cv = consts@.map_values(|c: Constant| c@);
    let mut i: usize = 0;
    while i < consts.len()
        invariant
            i <= consts.len(),
            cv == consts@.map_values(|c: Constant| c@),
            forall|j: int| 0 <= j < i ==> cv[j].0 != name@,
        decreases consts.len() - i,
    {
        if consts[i].name == *name {
            assert(cv[i as int].0 == name@);
            return true;
        }
        i += 1;
    }
    false
}

/// Tests whether one of the parameters is a wildcard.
pub fn params_have_wildcard(ps: &Vec<Parameter>) -> (b: bool)
    ensures
        b == has_wildcard_param(ps@.map_values(|p: Parameter| p@)),
{
    let ghost pv = ps@.map_values(|p: Parameter| p@);
    let mut i: usize = 0;
    while i < ps.len()
        invariant
            i <= ps.len(),
            pv == ps@.map_values(|p: Parameter| p@),
            forall|j: int| 0 <= j < i ==> !is_wildcard(#[trigger] pv[j]),
        decreases ps.len() - i,
    {
        match &ps[i].kind {
            ParamKind::Wildcard { .. } => {
                assert(is_wildcard(pv[i as int]));
                return true;
            },
            ParamKind::Normal => {},
        }
        i += 1;
    }
    false
}

impl Parser {
    /// Reads the current line of a command body indented at `ind`.
    fn command_step(
        &mut self,
        ind: u8,
        dirs: &mut Vec<Directive>,
        vars: &mut Vec<Variable>,
        consts: &mut Vec<Constant>,
    ) -> (r: Result<BodyStep, ParseError>)
        ensures
            ({
                let sv = body_step(
                    old(self).lines_v(),
                    old(self).outs(),
                    old(self).st(),
                    ind as int,
                    old(dirs)@.map_values(|x: Directive| x@),
                    old(vars)@.map_values(|x: Variable| x@),
                    old(consts)@.map_values(|x: Constant| x@),
                );
                match r {
                    Ok(BodyStep::Stop) => sv is Stop && final(self).st() == old(self).st()
                        && final(dirs)@ == old(dirs)@ && final(vars)@ == old(vars)@
                        && final(consts)@ == old(consts)@,
                    Ok(BodyStep::Child) => sv is Child && final(self).st() == old(self).st()
                        && final(dirs)@ == old(dirs)@ && final(vars)@ == old(vars)@
                        && final(consts)@ == old(consts)@ && 0 <= old(self).idx() < old(
                        self,
                    ).lines_v().len(),
                    Ok(BodyStep::Next) => sv == StepV::Next(
                        final(dirs)@.map_values(|x: Directive| x@),
                        final(vars)@.map_values(|x: Variable| x@),
                        final(consts)@.map_values(|x: Constant| x@),
                        final(self).st(),
                    ) && old(self).idx() < final(self).idx() <= final(self).lines_v().len(),
                    Err(e) => sv matches StepV::Fail(e2, _) && e2 == e@,
                }
            }),
            final(self).lines_v() == old(self).lines_v(),
            final(self).outs() == old(self).outs(),
    {
        reveal(body_step);
        let n = self.line_count();
        if self.current_index >= n {
            return Ok(BodyStep::Stop);
        }
        let i = self.current_index;
        let l = self.line_at(i).clone();
        let ni = get_indent_size(&l);
        let t = trim_chars(&l);
        let ln = self.line_number();
        if ni <= ind && t.len() > 0 {
            return Ok(BodyStep::Stop);
        }
        let marker = chars_of("# @source: ");
        if crate::text::starts_with(&t, &marker) {
            let rest = slice_chars(&t, marker.len(), t.len());
            assert(rest@ == t@.skip(marker@.len() as int));
            let p = trim_chars(&rest);
            if p.len() > 0 {
                self.current_source_file = Some(string_of(&p));
            }
            self.current_index = i + 1;
            return Ok(BodyStep::Next);
        }
        if t.len() == 0 || t[0] == '#' {
            self.current_index = i + 1;
            return Ok(BodyStep::Next);
        }
        if t[0] == '@' {
            return Err(ParseError::DeprecatedSyntax(
                msg2(
                    "Legacy syntax '@' is deprecated. Use keywords (var, const, env) without '@'. The last version supporting this legacy configuration is 3.0.19. Line: ",
                    &t,
                ),
                ln,
            ));
        }
        if t[0] == '>' {
            let l2 = strip_gt_chars(&l);
            let t2 = trim_chars(&l2);
            if is_directive_chars(&t2) && !crate::text::ends_with_char(&t2, ':') {
                assert(ni <= 63);
                let d = self.parse_property_directive(&l2, ni)?;
                let ghost before = dirs@.map_values(|x: Directive| x@);
                dirs.push(d);
                assert(dirs@.map_values(|x: Directive| x@) =~= before.push(d@));
                return Ok(BodyStep::Next);
            }
            return Err(ParseError::DeprecatedSyntax(
                msg2(
                    "Legacy directive prefix '>' is deprecated. Remove '>' and use 'key: value' style. The last version supporting this legacy configuration is 3.0.19. Line: ",
                    &t,
                ),
                ln,
            ));
        }
        if crate::text::starts_with(&t, &chars_of("var ")) {
            let var = self.parse_variable()?;
            redefine_variable(vars, var);
            return Ok(BodyStep::Next);
        }
        if crate::text::starts_with(&t, &chars_of("const ")) {
            let c = self.parse_constant()?;
            if constant_named(consts, &c.name) {
                let l2 = self.line_number();
                let nm = crate::text::chars_of_string(&c.name);
                return Err(ParseError::InvalidSyntax(
                    msg3(
                        "Constant '",
                        &nm,
                        "' is already defined in this command and cannot be redefined",
                    ),
                    l2,
                ));
            }
            let ghost before = consts@.map_values(|x: Constant| x@);
            consts.push(c);
            assert(consts@.map_values(|x: Constant| x@) =~= before.push(c@));
            return Ok(BodyStep::Next);
        }
        if crate::text::starts_with(&t, &chars_of("env ")) {
            let d = self.parse_env_directive_keyword()?;
            let ghost before = dirs@.map_values(|x: Directive| x@);
            dirs.push(d);
            assert(dirs@.map_values(|x: Directive| x@) =~= before.push(d@));
            return Ok(BodyStep::Next);
        }
        let is_directive = match find_char(&t, ':') {
            Some(c) => {
                assert(t@.contains(':')) by {
                    assert(t@[c as int] == ':');
                }
                let kp = trim_chars(&slice_chars(&t, 0, c));
                !crate::text::contains_char(&kp, ' ') || (crate::text::contains_char(&kp, '(')
                    && crate::text::contains_char(&kp, ')'))
            },
            None => false,
        };
        if is_directive && !crate::text::ends_with_char(&t, ':') {
            assert(ni <= 63);
            let d = self.parse_property_directive(&l, ni)?;
            let ghost before = dirs@.map_values(|x: Directive| x@);
            dirs.push(d);
            assert(dirs@.map_values(|x: Directive| x@) =~= before.push(d@));
            return Ok(BodyStep::Next);
        }
        let opens = crate::text::contains_char(&t, '(') && !crate::text::contains_char(&t, ')');
        if crate::text::ends_with_char(&t, ':') || opens {
            return Ok(BodyStep::Child);
        }
        Err(ParseError::InvalidSyntax(msg2("Unexpected line in command definition: ", &t), ln))
    }
}

impl Parser {
    /// Parses a command definition at the current line, whose indentation
    /// must be at least `base_indent`: its signature, then directives, local
    /// variables and constants, and child commands, up to the first line
    /// indented no deeper than the command.
    pub fn parse_command(&mut self, base_indent: u8) -> (r: Result<Command, ParseError>)
        ensures
            ({
                let (sr, st1) = cmd_spec(
                    old(self).lines_v(),
                    old(self).outs(),
                    old(self).st(),
                    base_indent as int,
                );
                match r {
                    Ok(c) => sr == Ok::<_, ErrV>(c@) && final(self).st() == st1,
                    Err(e) => sr == Err::<CommandV, _>(e@),
                }
            }),
            final(self).lines_v() == old(self).lines_v(),
            final(self).outs() == old(self).outs(),
            r is Ok ==> old(self).idx() < final(self).idx() <= final(self).lines_v().len(),
        decreases old(self).lines_v().len() - old(self).idx(),
    {
        let ghost lv = self.lines_v();
        let ghost outs = self.outs();
        let line = self.line_number();
        let n = self.line_count();
        if self.current_index >= n {
            return Err(ParseError::UnexpectedEndOfFile(line));
        }
        let ind = get_indent_size(self.line_at(self.current_index));
        if ind < base_indent {
            return Err(ParseError::InvalidIndent(line));
        }
        let ghost st0 = self.st();
        let (name, parameters) = self.parse_function_signature_multiline(ind)?;
        let ghost st1 = self.st();
        let mut directives: Vec<Directive> = Vec::new();
        let mut children: Vec<Command> = Vec::new();
        let mut vars: Vec<Variable> = Vec::new();
        let mut consts: Vec<Constant> = Vec::new();
        assert(acc_of(directives@, children@, vars@, consts@) == empty_acc()) by {
            assert(directives@.map_values(|x: Directive| x@) =~= Seq::<DirectiveV>::empty());
            assert(vars@.map_values(|x: Variable| x@) =~= Seq::<BindingV>::empty());
            assert(consts@.map_values(|x: Constant| x@) =~= Seq::<BindingV>::empty());
            assert(commands_view(children@) =~= Seq::<CommandV>::empty());
        }
        loop
            invariant
                lv == self.lines_v(),
                lv == old(self).lines_v(),
                outs == self.outs(),
                outs == old(self).outs(),
                n == lv.len(),
                st0 == old(self).st(),
                st0.idx < st1.idx <= self.idx() <= n,
                0 <= st0.idx < n,
                ind as int == indent_spec(lv[st0.idx]),
                base_indent <= ind,
                sig_spec(lv, outs, st0, ind as int).0 is Ok,
                sig_spec(lv, outs, st0, ind as int).1 == st1,
                cmd_body(lv, outs, st1, ind as int, empty_acc()) == cmd_body(
                    lv,
                    outs,
                    self.st(),
                    ind as int,
                    acc_of(directives@, children@, vars@, consts@),
                ),
            ensures
                cmd_body(lv, outs, st1, ind as int, empty_acc()) == (Ok::<_, ErrV>(
                    acc_of(directives@, children@, vars@, consts@),
                ), self.st()),
                st0.idx < self.idx() <= n,
            decreases n - self.idx(),
        {
            let ghost stb = self.st();
            let ghost ab = acc_of(directives@, children@, vars@, consts@);
            match self.command_step(ind, &mut directives, &mut vars, &mut consts) {
                Err(e) => {
                    assert(cmd_body(lv, outs, stb, ind as int, ab).0 == Err::<CmdAcc, ErrV>(e@));
                    return Err(e);
                },
                Ok(BodyStep::Stop) => {
                    break;
                },
                Ok(BodyStep::Next) => {},
                Ok(BodyStep::Child) => {
                    let child = match self.parse_command(ind) {
                        Ok(c) => c,
                        Err(e) => {
                            assert(cmd_spec(lv, outs, stb, ind as int).0 == Err::<CommandV, ErrV>(e@));
                            assert(cmd_body(lv, outs, stb, ind as int, ab).0 == Err::<CmdAcc, ErrV>(e@));
                            return Err(e);
                        },
                    };
                    proof {
                        crate::ast::lemma_commands_view_push(children@, child);
                    }
                    children.push(child);
                },
            }
        }
        let has_wildcard = params_have_wildcard(&parameters);
        let source_file = match &self.current_source_file {
            Some(s) => Some(s.clone()),
            None => None,
        };
        Ok(Command {
            name,
            parameters,
            directives,
            children,
            has_wildcard,
            local_variables: vars,
            local_constants: consts,
            source_file,
        })
    }
}

/// The message for the legacy `@` prefix at the top level.
pub open spec fn top_at_msg() -> Seq<char> {
    "Legacy syntax '@' is deprecated. Use keywords (var, const, env, import, function) without '@'. The last version supporting this legacy configuration is 3.0.19. Line: "@
}

/// The message for a constant defined twice at the top level.
pub open spec fn top_const_msg(n: Seq<char>) -> Seq<char> {
    "Constant '"@ + n + "' is already defined and cannot be redefined"@
}

/// One step of the top level of a file at line `st.idx`.
pub enum TopStepV {
    /// The line is in error.
    Fail(ErrV, PState),
    /// The line was read: variables, constants and functions after it, and
    /// the state after it.
    Next(Seq<BindingV>, Seq<BindingV>, Seq<FunctionV>, PState),
    /// The line opens a command.
    Command,
}

/// Law (`>` directives): a command-body line written `> key: value`,
/// indented deeper than the command, reads as the directive `key: value`:
/// the directive is added (or its error reported) and the parser goes on
/// as for that directive.
pub proof fn lemma_gt_directive(
    lines: Seq<Seq<char>>,
    outs: Seq<OutcomeV>,
    st: PState,
    ind: int,
    dirs: Seq<DirectiveV>,
    vars: Seq<BindingV>,
    consts: Seq<BindingV>,
)
    requires
        0 <= st.idx < lines.len(),
        indent_spec(lines[st.idx]) > ind,
        trim(lines[st.idx]).len() > 0,
        trim(lines[st.idx])[0] == '>',
        is_directive_line(trim(strip_gt(lines[st.idx]))),
        trim(strip_gt(lines[st.idx])).last() != ':',
    ensures
        body_step(lines, outs, st, ind, dirs, vars, consts) == match property_spec(
            lines,
            outs,
            st,
            strip_gt(lines[st.idx]),
            indent_spec(lines[st.idx]),
        ) {
            (Err(e), st2) => StepV::Fail(e, st2),
            (Ok(d), st2) => StepV::Next(dirs.push(d), vars, consts, st2),
        },
{
    reveal(body_step);
    reveal_strlit("# @source: ");
    let t = trim(lines[st.idx]);
    assert(!is_source_marker(t)) by {
        if is_source_marker(t) {
            assert(t[0] == "# @source: "@[0]);
        }
    }
}

/// What the line at `st.idx` (within the file) does at the top level. A
/// `> key: value` line outside any command is passed over, as the same
/// line without `>` is (any other line after `>` is refused).
#[verifier::opaque]
pub open spec fn top_step(
    lines: Seq<Seq<char>>,
    outs: Seq<OutcomeV>,
    st: PState,
    vars: Seq<BindingV>,
    consts: Seq<BindingV>,
    funcs: Seq<FunctionV>,
) -> TopStepV {
    let t = trim(lines[st.idx]);
    let ln = line_no(st.idx);
    if is_source_marker(t) {
        TopStepV::Next(vars, consts, funcs, after_marker(st, t))
    } else if is_blank_or_comment(t) {
        TopStepV::Next(vars, consts, funcs, advance(st))
    } else if t[0] == '@' {
        TopStepV::Fail(ErrV::Deprecated(top_at_msg() + t, ln), st)
    } else if t[0] == '>' {
        let t2 = trim(strip_gt(lines[st.idx]));
        if is_directive_line(t2) && t2.last() != ':' {
            TopStepV::Next(vars, consts, funcs, advance(st))
        } else {
            TopStepV::Fail(ErrV::Deprecated(gt_msg() + t, ln), st)
        }
    } else if "var "@.is_prefix_of(t) {
        let (r, st2) = binding_spec(lines, outs, st, "var "@, var_empty_msg(), var_bad_prefix());
        match r {
            Err(e) => TopStepV::Fail(e, st2),
            Ok(b) => TopStepV::Next(redefine(vars, b), consts, funcs, st2),
        }
    } else if "const "@.is_prefix_of(t) {
        let (r, st2) = binding_spec(lines, outs, st, "const "@, const_empty_msg(), const_bad_prefix());
        match r {
            Err(e) => TopStepV::Fail(e, st2),
            Ok(b) => if has_name(consts, b.0) {
                TopStepV::Fail(ErrV::Syntax(top_const_msg(b.0), line_no(st2.idx)), st2)
            } else {
                TopStepV::Next(vars, consts.push(b), funcs, st2)
            },
        }
    } else if "env "@.is_prefix_of(t) {
        let (r, st2) = env_keyword_spec(lines, outs, st, vars);
        match r {
            Err(e) => TopStepV::Fail(e, st2),
            Ok(vs) => TopStepV::Next(vs, consts, funcs, st2),
        }
    } else if "import "@.is_prefix_of(t) {
        TopStepV::Next(vars, consts, funcs, advance(st))
    } else if "function "@.is_prefix_of(t) {
        let (r, st2) = func_spec(lines, outs, st);
        match r {
            Err(e) => TopStepV::Fail(e, st2),
            Ok(f) => TopStepV::Next(vars, consts, funcs.push(f), st2),
        }
    } else if starts_command(t) {
        TopStepV::Command
    } else {
        TopStepV::Next(vars, consts, funcs, advance(st))
    }
}

/// What the top level of a file gathers.
pub struct TopAcc {
    pub cmds: Seq<CommandV>,
    pub vars: Seq<BindingV>,
    pub consts: Seq<BindingV>,
    pub funcs: Seq<FunctionV>,
}

/// Nothing gathered yet.
pub open spec fn empty_top() -> TopAcc {
    TopAcc { cmds: Seq::empty(), vars: Seq::empty(), consts: Seq::empty(), funcs: Seq::empty() }
}

/// The top level of the file from line `st.idx` on, added to `acc`.
pub open spec fn top_from(lines: Seq<Seq<char>>, outs: Seq<OutcomeV>, st: PState, acc: TopAcc) -> (
    Result<TopAcc, ErrV>,
    PState,
)
    decreases lines.len() - st.idx,
{
    if st.idx < 0 || st.idx >= lines.len() {
        (Ok(acc), st)
    } else {
        match top_step(lines, outs, st, acc.vars, acc.consts, acc.funcs) {
            TopStepV::Fail(e, st2) => (Err(e), st2),
            TopStepV::Next(v, c, f, st2) => if st.idx < st2.idx <= lines.len() {
                top_from(lines, outs, st2, TopAcc { vars: v, consts: c, funcs: f, ..acc })
            } else {
                (Ok(acc), st2)
            },
            TopStepV::Command => {
                let (r, st2) = cmd_spec(lines, outs, st, 0);
                match r {
                    Err(e) => (Err(e), st2),
                    Ok(c) => if st.idx < st2.idx <= lines.len() {
                        top_from(lines, outs, st2, TopAcc { cmds: acc.cmds.push(c), ..acc })
                    } else {
                        (Ok(acc), st2)
                    },
                }
            },
        }
    }
}

/// Result of parsing a configuration file.
#[derive(Debug)]
pub struct ParseResult {
    /// List of parsed commands
    pub commands: Vec<Command>,
    /// List of parsed variables (can be redefined)
    pub variables: Vec<Variable>,
    /// List of parsed constants (cannot be redefined)
    pub constants: Vec<Constant>,
    /// List of parsed functions (reusable scripts)
    pub functions: Vec<Function>,
}

/// The model of a `ParseResult`.
pub struct ParseResultV {
    pub commands: Seq<CommandV>,
    pub variables: Seq<BindingV>,
    pub constants: Seq<BindingV>,
    pub functions: Seq<FunctionV>,
}

impl View for ParseResult {
    type V = ParseResultV;

    open spec fn view(&self) -> ParseResultV {
        ParseResultV {
            commands: commands_view(self.commands@),
            variables: self.variables@.map_values(|v: Variable| v@),
            constants: self.constants@.map_values(|v: Constant| v@),
            functions: self.functions@.map_values(|f: Function| f@),
        }
    }
}

/// The parse result for a file whose top level gathered `a`: commands of
/// the same name merged (after their relative paths are resolved).
pub open spec fn result_of(a: TopAcc, r: ParseResultV) -> bool {
    &&& r.variables == a.vars
    &&& r.constants == a.consts
    &&& r.functions == a.funcs
    &&& exists|rc: Seq<CommandV>|
        crate::merge::cmds_resolved(a.cmds, rc) && r.commands == crate::merge::merge_spec(rc)
}

/// What the parser does with a top-level line.
pub enum TopStep {
    /// The line was read.
    Next,
    /// The line opens a command.
    Command,
}

impl Parser {
    /// Reads the current top-level line (which lies within the file).
    fn top_level_step(
        &mut self,
        vars: &mut Vec<Variable>,
        consts: &mut Vec<Constant>,
        funcs: &mut Vec<Function>,
    ) -> (r: Result<TopStep, ParseError>)
        requires
            0 <= old(self).idx() < old(self).lines_v().len(),
        ensures
            ({
                let sv = top_step(
                    old(self).lines_v(),
                    old(self).outs(),
                    old(self).st(),
                    old(vars)@.map_values(|x: Variable| x@),
                    old(consts)@.map_values(|x: Constant| x@),
                    old(funcs)@.map_values(|x: Function| x@),
                );
                match r {
                    Ok(TopStep::Command) => sv is Command && final(self).st() == old(self).st()
                        && final(vars)@ == old(vars)@ && final(consts)@ == old(consts)@
                        && final(funcs)@ == old(funcs)@,
                    Ok(TopStep::Next) => sv == TopStepV::Next(
                        final(vars)@.map_values(|x: Variable| x@),
                        final(consts)@.map_values(|x: Constant| x@),
                        final(funcs)@.map_values(|x: Function| x@),
                        final(self).st(),
                    ) && old(self).idx() < final(self).idx() <= final(self).lines_v().len(),
                    Err(e) => sv matches TopStepV::Fail(e2, _) && e2 == e@,
                }
            }),
            final(self).lines_v() == old(self).lines_v(),
            final(self).outs() == old(self).outs(),
    {
        reveal(top_step);
        let n = self.line_count();
        let i = self.current_index;
        let t = trim_chars(self.line_at(i));
        let ln = self.line_number();
        let marker = chars_of("# @source: ");
        if crate::text::starts_with(&t, &marker) {
            let rest = slice_chars(&t, marker.len(), t.len());
            assert(rest@ == t@.skip(marker@.len() as int));
            let p = trim_chars(&rest);
            if p.len() > 0 {
                self.current_source_file = Some(string_of(&p));
            }
            self.current_index = i + 1;
            return Ok(TopStep::Next);
        }
        if t.len() == 0 || t[0] == '#' {
            self.current_index = i + 1;
            return Ok(TopStep::Next);
        }
        if t[0] == '@' {
            return Err(ParseError::DeprecatedSyntax(
                msg2(
                    "Legacy syntax '@' is deprecated. Use keywords (var, const, env, import, function) without '@'. The last version supporting this legacy configuration is 3.0.19. Line: ",
                    &t,
                ),
                ln,
            ));
        }
        if t[0] == '>' {
            let l2 = strip_gt_chars(self.line_at(i));
            let t2 = trim_chars(&l2);
            if is_directive_chars(&t2) && !crate::text::ends_with_char(&t2, ':') {
                self.current_index = i + 1;
                return Ok(TopStep::Next);
            }
            return Err(ParseError::DeprecatedSyntax(
                msg2(
                    "Legacy directive prefix '>' is deprecated. Remove '>' and use 'key: value' style. The last version supporting this legacy configuration is 3.0.19. Line: ",
                    &t,
                ),
                ln,
            ));
        }
        if crate::text::starts_with(&t, &chars_of("var ")) {
            let var = self.parse_variable()?;
            redefine_variable(vars, var);
            return Ok(TopStep::Next);
        }
        if crate::text::starts_with(&t, &chars_of("const ")) {
            let c = self.parse_constant()?;
            if constant_named(consts, &c.name) {
                let l2 = self.line_number();
                let nm = crate::text::chars_of_string(&c.name);
                return Err(ParseError::InvalidSyntax(
                    msg3("Constant '", &nm, "' is already defined and cannot be redefined"),
                    l2,
                ));
            }
            let ghost before = consts@.map_values(|x: Constant| x@);
            consts.push(c);
            assert(consts@.map_values(|x: Constant| x@) =~= before.push(c@));
            return Ok(TopStep::Next);
        }
        if crate::text::starts_with(&t, &chars_of("env ")) {
            self.parse_env_keyword(vars)?;
            return Ok(TopStep::Next);
        }
        if crate::text::starts_with(&t, &chars_of("import ")) {
            self.parse_import()?;
            return Ok(TopStep::Next);
        }
        if crate::text::starts_with(&t, &chars_of("function ")) {
            let f = self.parse_function()?;
            let ghost before = funcs@.map_values(|x: Function| x@);
            funcs.push(f);
            assert(funcs@.map_values(|x: Function| x@) =~= before.push(f@));
            return Ok(TopStep::Next);
        }
        let opens = crate::text::contains_char(&t, '(') && !crate::text::contains_char(&t, ')');
        if crate::text::ends_with_char(&t, ':') || opens {
            return Ok(TopStep::Command);
        }
        self.current_index = i + 1;
        Ok(TopStep::Next)
    }

    /// Skips an `import` line (imports are resolved before parsing).
    pub fn parse_import(&mut self) -> (r: Result<(), ParseError>)
        requires
            old(self).idx() < old(self).lines_v().len(),
        ensures
            r is Ok,
            final(self).st() == advance(old(self).st()),
            final(self).lines_v() == old(self).lines_v(),
            final(self).outs() == old(self).outs(),
    {
        let n = self.line_count();
        self.current_index = self.current_index + 1;
        Ok(())
    }
}

impl Parser {
    /// Parses the entire file into commands, variables, constants and
    /// functions; commands of the same name are merged ("last wins").
    pub fn parse(&mut self) -> (r: Result<ParseResult, ParseError>)
        ensures
            ({
                let (sr, st1) = top_from(
                    old(self).lines_v(),
                    old(self).outs(),
                    old(self).st(),
                    empty_top(),
                );
                match r {
                    Ok(pr) => sr matches Ok(a) && result_of(a, pr@) && final(self).st() == st1,
                    Err(e) => sr == Err::<TopAcc, _>(e@),
                }
            }),
            final(self).lines_v() == old(self).lines_v(),
            final(self).outs() == old(self).outs(),
    {
        let ghost lv = self.lines_v();
        let ghost outs = self.outs();
        let ghost st0 = self.st();
        let n = self.line_count();
        let mut commands: Vec<Command> = Vec::new();
        let mut variables: Vec<Variable> = Vec::new();
        let mut constants: Vec<Constant> = Vec::new();
        let mut functions: Vec<Function> = Vec::new();
        assert(commands_view(commands@) =~= Seq::<CommandV>::empty());
        assert(variables@.map_values(|x: Variable| x@) =~= Seq::<BindingV>::empty());
        assert(constants@.map_values(|x: Constant| x@) =~= Seq::<BindingV>::empty());
        assert(functions@.map_values(|x: Function| x@) =~= Seq::<FunctionV>::empty());
        while self.current_index < n
            invariant
                lv == self.lines_v(),
                lv == old(self).lines_v(),
                outs == self.outs(),
                outs == old(self).outs(),
                n == lv.len(),
                st0 == old(self).st(),
                top_from(lv, outs, st0, empty_top()) == top_from(
                    lv,
                    outs,
                    self.st(),
                    TopAcc {
                        cmds: commands_view(commands@),
                        vars: variables@.map_values(|x: Variable| x@),
                        consts: constants@.map_values(|x: Constant| x@),
                        funcs: functions@.map_values(|x: Function| x@),
                    },
                ),
                self.idx() >= 0,
            decreases n - self.idx(),
        {
            let ghost stb = self.st();
            let ghost ab = TopAcc {
                cmds: commands_view(commands@),
                vars: variables@.map_values(|x: Variable| x@),
                consts: constants@.map_values(|x: Constant| x@),
                funcs: functions@.map_values(|x: Function| x@),
            };
            match self.top_level_step(&mut variables, &mut constants, &mut functions) {
                Err(e) => {
                    assert(top_from(lv, outs, stb, ab).0 == Err::<TopAcc, ErrV>(e@));
                    return Err(e);
                },
                Ok(TopStep::Next) => {},
                Ok(TopStep::Command) => {
                    let c = match self.parse_command(0) {
                        Ok(c) => c,
                        Err(e) => {
                            assert(top_from(lv, outs, stb, ab).0 == Err::<TopAcc, ErrV>(e@));
                            return Err(e);
                        },
                    };
                    proof {
                        crate::ast::lemma_commands_view_push(commands@, c);
                    }
                    commands.push(c);
                },
            }
        }
        let ghost cmds_v = commands_view(commands@);
        let merged = crate::merge::merge_commands(commands);
        Ok(ParseResult { commands: merged, variables, constants, functions })
    }
}

/// No two bindings share a name.
pub open spec fn unique_bindings(s: Seq<BindingV>) -> bool {
    forall|i: int, j: int| 0 <= i < s.len() && 0 <= j < s.len() && i != j ==> #[trigger] s[i].0 != #[trigger] s[j].0
}

/// The top level keeps constant names unique.
pub proof fn lemma_top_consts_unique(lines: Seq<Seq<char>>, outs: Seq<OutcomeV>, st: PState, acc: TopAcc)
    requires
        unique_bindings(acc.consts),
    ensures
        top_from(lines, outs, st, acc).0 matches Ok(a) ==> unique_bindings(a.consts),
    decreases lines.len() - st.idx,
{
    if 0 <= st.idx < lines.len() {
        reveal(top_step);
        match top_step(lines, outs, st, acc.vars, acc.consts, acc.funcs) {
            TopStepV::Fail(e, st2) => {},
            TopStepV::Next(v, c, f, st2) => {
                if st.idx < st2.idx <= lines.len() {
                    if c != acc.consts {
                        let t = trim(lines[st.idx]);
                        let (r, s2) = binding_spec(
                            lines,
                            outs,
                            st,
                            "const "@,
                            const_empty_msg(),
                            const_bad_prefix(),
                        );
                        let b = r->Ok_0;
                        assert(c == acc.consts.push(b));
                        assert(!has_name(acc.consts, b.0));
                        assert forall|i: int, j: int|
                            0 <= i < c.len() && 0 <= j < c.len() && i != j implies #[trigger] c[i].0
                            != #[trigger] c[j].0 by {
                            if i == acc.consts.len() {
                                assert(c[j] == acc.consts[j]);
                            } else if j == acc.consts.len() {
                                assert(c[i] == acc.consts[i]);
                            } else {
                                assert(c[i] == acc.consts[i] && c[j] == acc.consts[j]);
                            }
                        }
                    }
                    lemma_top_consts_unique(
                        lines,
                        outs,
                        st2,
                        TopAcc { vars: v, consts: c, funcs: f, ..acc },
                    );
                }
            },
            TopStepV::Command => {
                let (r, st2) = cmd_spec(lines, outs, st, 0);
                if r is Ok && st.idx < st2.idx <= lines.len() {
                    lemma_top_consts_unique(
                        lines,
                        outs,
                        st2,
                        TopAcc { cmds: acc.cmds.push(r->Ok_0), ..acc },
                    );
                }
            },
        }
    }
}

/// Law: in a parse result, no two constants share a name (a constant
/// cannot be redefined), and no two commands share a name (definitions of
/// one name are merged).
pub proof fn lemma_parse_result_unique(lines: Seq<Seq<char>>, outs: Seq<OutcomeV>, st: PState, r: ParseResultV)
    requires
        top_from(lines, outs, st, empty_top()).0 matches Ok(a) && result_of(a, r),
    ensures
        unique_bindings(r.constants),
        crate::merge::unique_names(r.commands),
{
    lemma_top_consts_unique(lines, outs, st, empty_top());
    let a = top_from(lines, outs, st, empty_top()).0->Ok_0;
    let rc = choose|rc: Seq<CommandV>|
        crate::merge::cmds_resolved(a.cmds, rc) && r.commands == crate::merge::merge_spec(rc);
    crate::merge::lemma_merge_names(rc);
}

/// No binding that is left keeps the name that was removed.
proof fn lemma_without_name(s: Seq<BindingV>, n: Seq<char>)
    ensures
        forall|i: int| 0 <= i < without_name(s, n).len() ==> #[trigger] without_name(s, n)[i].0 != n,
    decreases s.len(),
{
    if s.len() > 0 {
        lemma_without_name(s.drop_last(), n);
        let w = without_name(s.drop_last(), n);
        if s.last().0 != n {
            assert forall|i: int| 0 <= i < w.push(s.last()).len() implies #[trigger] w.push(s.last())[i].0
                != n by {
                if i < w.len() {
                    assert(w.push(s.last())[i] == w[i]);
                }
            }
        }
    }
}

/// A variable that is defined again keeps only its last definition: after
/// `redefine`, the new binding comes last and no other binding has its
/// name.
pub proof fn lemma_redefine_last_wins(s: Seq<BindingV>, b: BindingV)
    ensures
        redefine(s, b).last() == b,
        forall|i: int| 0 <= i < redefine(s, b).len() - 1 ==> #[trigger] redefine(s, b)[i].0 != b.0,
{
    lemma_without_name(s, b.0);
    let w = without_name(s, b.0);
    assert forall|i: int| 0 <= i < redefine(s, b).len() - 1 implies #[trigger] redefine(s, b)[i].0 != b.0 by {
        assert(redefine(s, b)[i] == w[i]);
    }
}

} // verus!
