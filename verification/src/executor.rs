//! Script execution support: choosing the shell from a shebang, reading
//! the calls of other commands inside scripts, and extracting the missing
//! command from a shell's error output.

use vstd::prelude::*;
use crate::ast::ArgMap;
use crate::parser::{args_spec, dep_value_spec, parse_args, parse_dependency_value, split_arg_spec};
use crate::text::{
    chars_of, chars_of_string, contains, contains_sub, find_char, find_sub, first_pos, is_ws, join,
    lines, slice_chars, string_of, trim, trim_chars, trim_start, is_first_sub,
};

verus! {

/// Executes shell scripts for commands.
pub struct CommandExecutor;

/// `s` without all leading repetitions of `p` (as
/// `str::trim_start_matches` with a string).
pub open spec fn strip_prefix_all(s: Seq<char>, p: Seq<char>) -> Seq<char>
    decreases s.len(),
{
    if p.len() > 0 && p.is_prefix_of(s) {
        strip_prefix_all(s.skip(p.len() as int), p)
    } else {
        s
    }
}

/// The shell named by a shebang path.
pub open spec fn shell_of(path: Seq<char>) -> Seq<char> {
    if contains_sub(path, "bash"@) {
        "bash"@
    } else if contains_sub(path, "zsh"@) {
        "zsh"@
    } else if contains_sub(path, "fish"@) {
        "fish"@
    } else {
        "sh"@
    }
}

/// The shell for a script and the script to run: with a shebang (`#!...`,
/// after leading whitespace) the shell it names (`bash`, `zsh`, `fish`, else
/// `sh`) and the script without its first line; otherwise `sh` and the
/// script unchanged.
pub open spec fn shebang_spec(script: Seq<char>) -> (Seq<char>, Seq<char>) {
    let t = trim_start(script);
    if "#!"@.is_prefix_of(t) {
        let first = lines(t)[0];
        let path = trim(strip_prefix_all(first, "#!"@));
        let rest = if lines(script).len() > 0 { lines(script).drop_first() } else { Seq::empty() };
        (shell_of(path), join(rest, "\n"@))
    } else {
        ("sh"@, script)
    }
}

/// The operators that mark a line as shell code rather than a call.
pub open spec fn shell_ops() -> Seq<Seq<char>> {
    seq![
        "|"@, "&&"@, "||"@, ";"@, ">"@, "<"@, ">>"@, "<<"@, "&"@, "$"@, "`"@, "["@, "]"@, "="@,
    ]
}

/// The keywords that mark a line as shell code rather than a call.
pub open spec fn shell_keywords() -> Seq<Seq<char>> {
    seq![
        "if"@, "then"@, "else"@, "elif"@, "fi"@, "case"@, "esac"@, "for"@, "while"@, "until"@,
        "do"@, "done"@, "function"@,
    ]
}

/// The line may be a call with arguments: it has `(` and ends with `)`.
pub open spec fn potential_call(t: Seq<char>) -> bool {
    t.contains('(') && t.len() > 0 && t.last() == ')'
}

/// The line holds a shell operator.
pub open spec fn has_shell_op(t: Seq<char>) -> bool {
    exists|i: int| 0 <= i < shell_ops().len() && contains_sub(t, #[trigger] shell_ops()[i])
}

/// The first word of the line is a shell keyword.
pub open spec fn starts_with_keyword(t: Seq<char>) -> bool {
    shell_keywords().contains(t.take(ws_pos(t)))
}

/// The position of the first whitespace character of `t`, or its length.
pub open spec fn ws_pos(t: Seq<char>) -> int
    decreases t.len(),
{
    if t.len() == 0 || is_ws(t[0]) {
        0
    } else {
        1 + ws_pos(t.drop_first())
    }
}

/// A character that may stand in a command path.
pub open spec fn path_char(c: char) -> bool {
    crate::env::is_alnum(c) || c == ':' || c == '_' || c == '-'
}

/// A command path: nonempty, of path characters, not starting or ending
/// with `:`.
pub open spec fn valid_command_path(p: Seq<char>) -> bool {
    &&& p.len() > 0
    &&& forall|i: int| 0 <= i < p.len() ==> path_char(#[trigger] p[i])
    &&& p[0] != ':'
    &&& p.last() != ':'
}

/// The call of another command that a script line makes, if it is one:
/// `path` or `path(name=value, ...)` (a line ending in `)` may hold shell
/// operators inside its arguments). Arguments that do not parse are taken
/// as none.
pub open spec fn call_spec(line: Seq<char>) -> Option<(Seq<char>, Seq<(Seq<char>, Seq<char>)>)> {
    let t = trim(line);
    if t.len() == 0 || t[0] == '#' {
        None
    } else if !potential_call(t) && has_shell_op(t) {
        None
    } else if starts_with_keyword(t) {
        None
    } else if t.contains('(') {
        let open = first_pos(t, '(');
        let path = trim(t.take(open));
        match crate::parser::close_paren_from(t, open, 0, false, '\0') {
            None => None,
            Some(close) => {
                let args = match args_spec(t.subrange(open + 1, close)) {
                    Ok(a) => a,
                    Err(_) => Seq::empty(),
                };
                if valid_command_path(path) {
                    Some((path, args))
                } else {
                    None
                }
            },
        }
    } else if valid_command_path(t) {
        Some((t, Seq::empty()))
    } else {
        None
    }
}

/// Law (call paths): the path of a command call found in a script line is
/// not empty, is made of letters, digits, `:`, `_` and `-`, and neither
/// starts nor ends with `:`.
pub proof fn lemma_call_path_valid(line: Seq<char>)
    ensures
        call_spec(line) matches Some((p, _)) ==> {
            &&& p.len() > 0
            &&& forall|i: int|
                0 <= i < p.len() ==> crate::env::is_alnum(#[trigger] p[i]) || p[i] == ':' || p[i] == '_' || p[i]
                    == '-'
            &&& p[0] != ':'
            &&& p.last() != ':'
        },
{
    match call_spec(line) {
        Some((p, _)) => {
            assert(valid_command_path(p));
            assert forall|i: int| 0 <= i < p.len() implies crate::env::is_alnum(#[trigger] p[i]) || p[i] == ':'
                || p[i] == '_' || p[i] == '-' by {
                assert(path_char(p[i]));
            }
        },
        None => {},
    }
}

/// The command that a shell reports as not found in its error output
/// (`sh: line 1: foo: command not found`, `foo: command not found`,
/// `: foo: command not found`): the text before the first
/// `: command not found`, from its last `: ` on (all of it where it has
/// none), trimmed; nothing where that is empty or the report is missing.
pub open spec fn missing_command_spec(stderr: Seq<char>) -> Option<Seq<char>> {
    if contains_sub(stderr, ": command not found"@) {
        let end = choose|i: int| is_first_sub(stderr, ": command not found"@, i);
        let head = stderr.take(end);
        let cmd = if contains_sub(head, ": "@) {
            let k = choose|i: int| crate::text::is_last_sub(head, ": "@, i);
            trim(head.skip(k + 2))
        } else {
            trim(head)
        };
        if cmd.len() > 0 {
            Some(cmd)
        } else {
            None
        }
    } else {
        None
    }
}

/// Each argument twice: under its name in upper case, then under its
/// name.
pub open spec fn arg_env_pairs(args: Seq<(Seq<char>, Seq<char>)>) -> Seq<(Seq<char>, Seq<char>)>
    decreases args.len(),
{
    if args.len() == 0 {
        Seq::empty()
    } else {
        let a = args.last();
        arg_env_pairs(args.drop_last()) + seq![(crate::type_validator::uppercase(a.0), a.1), (a.0, a.1)]
    }
}

/// The environment of a script's process: the command's environment
/// variables, then each argument under its name in upper case and under
/// its name (a later setting of a name replaces an earlier one).
pub open spec fn process_env_spec(env: Seq<(Seq<char>, Seq<char>)>, args: Seq<(Seq<char>, Seq<char>)>) -> Seq<
    (Seq<char>, Seq<char>),
> {
    crate::env::insert_all(env, arg_env_pairs(args))
}

/// The first occurrence is unique.
proof fn lemma_first_sub_unique(s: Seq<char>, p: Seq<char>, i: int, j: int)
    requires
        is_first_sub(s, p, i),
        is_first_sub(s, p, j),
    ensures
        i == j,
{
}

/// `v` without all leading repetitions of `p`.
fn strip_prefix_all_chars(v: &Vec<char>, p: &Vec<char>) -> (out: Vec<char>)
    ensures
        out@ == strip_prefix_all(v@, p@),
{
    let mut cur = v.clone();
    if p.len() == 0 {
        return cur;
    }
    while crate::text::starts_with(&cur, p)
        invariant
            p.len() > 0,
            strip_prefix_all(v@, p@) == strip_prefix_all(cur@, p@),
        decreases cur.len(),
    {
        let next = slice_chars(&cur, p.len(), cur.len());
        assert(next@ == cur@.skip(p@.len() as int));
        cur = next;
    }
    cur
}

/// Tests whether the line holds a shell operator.
fn contains_shell_op(t: &Vec<char>) -> (b: bool)
    ensures
        b == has_shell_op(t@),
{
    let ops = vec![
        chars_of("|"), chars_of("&&"), chars_of("||"), chars_of(";"), chars_of(">"),
        chars_of("<"), chars_of(">>"), chars_of("<<"), chars_of("&"), chars_of("$"),
        chars_of("`"), chars_of("["), chars_of("]"), chars_of("="),
    ];
    assert(ops@.map_values(|x: Vec<char>| x@) =~= shell_ops());
    let mut k: usize = 0;
    while k < ops.len()
        invariant
            k <= ops@.len(),
            ops@.map_values(|x: Vec<char>| x@) == shell_ops(),
            forall|j: int| 0 <= j < k ==> !contains_sub(t@, #[trigger] shell_ops()[j]),
        decreases ops.len() - k,
    {
        assert(shell_ops()[k as int] == ops@[k as int]@);
        if contains(t, &ops[k]) {
            assert(contains_sub(t@, shell_ops()[k as int]));
            return true;
        }
        k += 1;
    }
    false
}

/// Tests whether the first word of the line is a shell keyword.
fn first_word_is_keyword(t: &Vec<char>) -> (b: bool)
    ensures
        b == starts_with_keyword(t@),
{
    let mut w: usize = 0;
    assert(t@.skip(0) =~= t@);
    while w < t.len() && !crate::text::is_whitespace(t[w])
        invariant
            w <= t.len(),
            ws_pos(t@) == w + ws_pos(t@.skip(w as int)),
        decreases t.len() - w,
    {
        assert(t@.skip(w as int).drop_first() =~= t@.skip(w + 1));
        w += 1;
    }
    proof {
        if w < t.len() {
            assert(t@.skip(w as int)[0] == t@[w as int]);
        } else {
            assert(t@.skip(w as int).len() == 0);
        }
    }
    let first = slice_chars(t, 0, w);
    assert(first@ == t@.take(ws_pos(t@)));
    let kws = vec![
        chars_of("if"), chars_of("then"), chars_of("else"), chars_of("elif"), chars_of("fi"),
        chars_of("case"), chars_of("esac"), chars_of("for"), chars_of("while"), chars_of("until"),
        chars_of("do"), chars_of("done"), chars_of("function"),
    ];
    assert(kws@.map_values(|x: Vec<char>| x@) =~= shell_keywords());
    let mut k: usize = 0;
    while k < kws.len()
        invariant
            k <= kws@.len(),
            kws@.map_values(|x: Vec<char>| x@) == shell_keywords(),
            first@ == t@.take(ws_pos(t@)),
            forall|j: int| 0 <= j < k ==> shell_keywords()[j] != first@,
        decreases kws.len() - k,
    {
        assert(shell_keywords()[k as int] == kws@[k as int]@);
        if crate::text::eq(&kws[k], &first) {
            assert(shell_keywords().contains(first@));
            return true;
        }
        k += 1;
    }
    false
}

/// Tests whether `p` is a valid command path.
fn valid_path(p: &Vec<char>) -> (b: bool)
    ensures
        b == valid_command_path(p@),
{
    if p.len() == 0 || p[0] == ':' || p[p.len() - 1] == ':' {
        return false;
    }
    let mut j: usize = 0;
    while j < p.len()
        invariant
            j <= p.len(),
            forall|q: int| 0 <= q < j ==> path_char(#[trigger] p@[q]),
        decreases p.len() - j,
    {
        let c = p[j];
        if !(crate::env::char_alphanumeric(c) || c == ':' || c == '_' || c == '-') {
            assert(!path_char(p@[j as int]));
            return false;
        }
        j += 1;
    }
    true
}

impl CommandExecutor {
    /// Detects the shell from a shebang and removes the shebang line:
    /// gives the shell command and the script to run.
    pub fn detect_shell_and_remove_shebang(script: &str) -> (r: (String, String))
        ensures
            (r.0@, r.1@) == shebang_spec(script@),
    {
        let s = chars_of(script);
        let t = crate::text::trim_start_chars(&s);
        if crate::text::starts_with(&t, &chars_of("#!")) {
            let tl = crate::text::lines_chars(&t);
            proof {
                reveal_strlit("#!");
                crate::text::lemma_lines_nonempty(t@);
            }
            assert(tl@.map_values(|x: Vec<char>| x@)[0] == tl@[0]@);
            let path = trim_chars(&strip_prefix_all_chars(&tl[0], &chars_of("#!")));
            let shell = if contains(&path, &chars_of("bash")) {
                chars_of("bash")
            } else if contains(&path, &chars_of("zsh")) {
                chars_of("zsh")
            } else if contains(&path, &chars_of("fish")) {
                chars_of("fish")
            } else {
                chars_of("sh")
            };
            let sl = crate::text::lines_chars(&s);
            let ghost sv = sl@.map_values(|x: Vec<char>| x@);
            let ghost want = if sv.len() > 0 { sv.drop_first() } else { Seq::<Seq<char>>::empty() };
            let mut rest: Vec<Vec<char>> = Vec::new();
            let mut i: usize = 1;
            assert(rest@.map_values(|x: Vec<char>| x@) =~= want.take(0));
            while i < sl.len()
                invariant
                    1 <= i,
                    i <= sl@.len() || sl@.len() == 0,
                    sl@.len() == 0 ==> i == 1,
                    sv == sl@.map_values(|x: Vec<char>| x@),
                    want == if sv.len() > 0 { sv.drop_first() } else { Seq::<Seq<char>>::empty() },
                    rest@.map_values(|x: Vec<char>| x@) == want.take(i - 1),
                decreases sl.len() - i,
            {
                let ghost before = rest@.map_values(|x: Vec<char>| x@);
                let line = slice_chars(&sl[i], 0, sl[i].len());
                assert(line@ == sv[i as int]);
                rest.push(line);
                assert(rest@.map_values(|x: Vec<char>| x@) =~= before.push(sv[i as int]));
                assert(want.take(i as int) =~= want.take(i - 1).push(sv[i as int]));
                i += 1;
            }
            proof {
                if sl@.len() > 0 {
                    assert(want.take(sl@.len() - 1) =~= want);
                } else {
                    assert(rest@.map_values(|x: Vec<char>| x@) =~= want);
                }
            }
            let body = crate::text::join_chars(&rest, &chars_of("\n"));
            (string_of(&shell), string_of(&body))
        } else {
            (String::from_str("sh"), string_of(&s))
        }
    }

    /// Splits the next argument from `s` at the first comma outside quotes.
    pub fn split_next_arg(s: &str) -> (r: Result<(String, String), ()>)
        ensures
            r matches Ok(p) && (p.0@, p.1@) == split_arg_spec(s@),
    {
        let (a, b) = crate::parser::split_next_arg(&chars_of(s));
        Ok((string_of(&a), string_of(&b)))
    }

    /// Parses a call argument value: quoted text is unquoted and
    /// unescaped, anything else is trimmed.
    pub fn parse_command_value(value_str: &str) -> (s: String)
        ensures
            s@ == dep_value_spec(value_str@),
    {
        string_of(&parse_dependency_value(&chars_of(value_str)))
    }

    /// Parses the arguments `name=value, ...` of a call; fails where an
    /// argument has no `=`.
    pub fn parse_command_args(args_str: &str) -> (r: Result<ArgMap, ()>)
        ensures
            match r {
                Ok(m) => args_spec(args_str@) == Ok::<_, Seq<char>>(m.entries_view()),
                Err(_) => args_spec(args_str@) is Err,
            },
    {
        match parse_args(&chars_of(args_str)) {
            Ok(m) => Ok(m),
            Err(_) => Err(()),
        }
    }

    /// Parses a call of another command from a script line: `command`,
    /// `group:command`, `command(arg="value")`; `None` where the line is
    /// shell code.
    pub fn parse_command_call(line: &str) -> (r: Option<(String, ArgMap)>)
        ensures
            match r {
                Some(p) => call_spec(line@) == Some((p.0@, p.1.entries_view())),
                None => call_spec(line@) is None,
            },
    {
        let t = crate::text::trimmed(line);
        assert(t@ == trim(line@));
        if t.len() == 0 || t[0] == '#' {
            return None;
        }
        let ghost nonblank = !(t@.len() == 0 || t@[0] == '#');
        assert(nonblank);
        let potential = crate::text::contains_char(&t, '(') && crate::text::ends_with_char(&t, ')');
        if !potential && contains_shell_op(&t) {
            return None;
        }
        if first_word_is_keyword(&t) {
            return None;
        }
        let (path, args) = match find_char(&t, '(') {
            Some(open) => {
                assert(t@.contains('(')) by {
                    assert(t@[open as int] == '(');
                }
                let path = trim_chars(&slice_chars(&t, 0, open));
                match crate::parser::Parser::find_close_paren(&t, open) {
                    Some(close) => {
                        proof {
                            crate::parser::lemma_close_after_open(t@, open as int);
                        }
                        let inner = slice_chars(&t, open + 1, close);
                        let args = match parse_args(&inner) {
                            Ok(m) => m,
                            Err(_) => ArgMap::new(),
                        };
                        (path, args)
                    },
                    None => {
                        return None;
                    },
                }
            },
            None => (t, ArgMap::new()),
        };
        if !valid_path(&path) {
            return None;
        }
        Some((string_of(&path), args))
    }
}

/// The environment of a script's process (see `process_env_spec`).
pub fn process_env(env_vars: &ArgMap, args: &ArgMap) -> (r: ArgMap)
    ensures
        r.entries_view() == process_env_spec(env_vars.entries_view(), args.entries_view()),
{
    let mut out = env_vars.copy();
    let ghost e0 = env_vars.entries_view();
    let ghost av = args.entries_view();
    let mut i: usize = 0;
    assert(av.take(0) =~= Seq::<(Seq<char>, Seq<char>)>::empty());
    assert(arg_env_pairs(av.take(0)) =~= Seq::<(Seq<char>, Seq<char>)>::empty());
    while i < args.len()
        invariant
            i <= av.len(),
            av == args.entries_view(),
            out.entries_view() == crate::env::insert_all(e0, arg_env_pairs(av.take(i as int))),
        decreases av.len() - i,
    {
        let ghost before = arg_env_pairs(av.take(i as int));
        assert(av.take(i + 1).drop_last() =~= av.take(i as int));
        assert(av.take(i + 1).last() == av[i as int]);
        let k = args.key_at(i);
        let v = args.value_at(i);
        let upper = crate::type_validator::to_uppercase(k.as_str());
        let ghost up = (crate::type_validator::uppercase(k@), v@);
        let ghost mid = before.push(up);
        let ghost pairs = mid.push((k@, v@));
        let ghost o1 = out.entries_view();
        out.insert(upper, v.clone());
        let ghost o2 = out.entries_view();
        out.insert(k.clone(), v.clone());
        assert(arg_env_pairs(av.take(i + 1)) =~= pairs);
        assert(mid.drop_last() =~= before);
        assert(pairs.drop_last() =~= mid);
        assert(crate::env::insert_all(e0, mid) == crate::ast::assoc_insert(
            crate::env::insert_all(e0, before),
            up.0,
            up.1,
        ));
        assert(o2 == crate::env::insert_all(e0, mid));
        assert(crate::env::insert_all(e0, pairs) == crate::ast::assoc_insert(
            crate::env::insert_all(e0, mid),
            k@,
            v@,
        ));
        i += 1;
    }
    assert(av.take(av.len() as int) =~= av);
    out
}

/// Extracts the name of the command that a shell reports as not found.
pub fn extract_missing_command(stderr: &str) -> (r: Option<String>)
    ensures
        crate::ast::opt_view(r) == missing_command_spec(stderr@),
{
    let s = chars_of(stderr);
    proof {
        reveal_strlit(": ");
        reveal_strlit(": command not found");
    }
    match find_sub(&s, &chars_of(": command not found")) {
        Some(end) => {
            proof {
                let c = choose|i: int| is_first_sub(s@, ": command not found"@, i);
                lemma_first_sub_unique(s@, ": command not found"@, c, end as int);
            }
            let head = slice_chars(&s, 0, end);
            assert(head@ == s@.take(end as int));
            let cmd = match crate::text::rfind_sub(&head, &chars_of(": ")) {
                Some(k) => {
                    proof {
                        let c = choose|i: int| crate::text::is_last_sub(head@, ": "@, i);
                        lemma_last_sub_unique(head@, ": "@, c, k as int);
                    }
                    let rest = slice_chars(&head, k + 2, head.len());
                    assert(rest@ == head@.skip(k + 2));
                    trim_chars(&rest)
                },
                None => trim_chars(&head),
            };
            if cmd.len() > 0 {
                Some(string_of(&cmd))
            } else {
                None
            }
        },
        None => None,
    }
}

/// The last occurrence is unique.
proof fn lemma_last_sub_unique(s: Seq<char>, p: Seq<char>, i: int, j: int)
    requires
        crate::text::is_last_sub(s, p, i),
        crate::text::is_last_sub(s, p, j),
    ensures
        i == j,
{
}

} // verus!
