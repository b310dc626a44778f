//! The texts shown around a script run: the dry-run preview, the verbose
//! summary, the refusal for a command that needs privileges, and the report
//! of a script that failed.

use vstd::prelude::*;
use crate::ast::{ArgMap, Command};
use crate::executor::CommandExecutor;
use crate::executor::missing_command_spec;
use crate::text::{chars_of, chars_of_string, contains_sub, int_text, join, lines, nat_text, push_all, string_of, trim};

verus! {

/// How a command is named in the reports: `nest` and its path, or its name
/// where there is no path.
pub open spec fn command_display(name: Seq<char>, path: Option<Seq<Seq<char>>>) -> Seq<char> {
    match path {
        Some(p) => "nest "@ + join(p, " "@),
        None => name,
    }
}

/// Key-value pairs as `k=v`, joined by `, `.
pub open spec fn pairs_text(es: Seq<(Seq<char>, Seq<char>)>) -> Seq<char> {
    join(es.map_values(|kv: (Seq<char>, Seq<char>)| kv.0 + "="@ + kv.1), ", "@)
}

/// A line number right-aligned in two columns.
pub open spec fn num2(n: nat) -> Seq<char> {
    if n < 10 {
        " "@ + nat_text(n)
    } else {
        nat_text(n)
    }
}

/// A framed title.
pub open spec fn banner(title: Seq<char>) -> Seq<char> {
    "\n╔═══════════════════════════════════════════════════════════════╗\n║  "@ + title
        + "\n╚═══════════════════════════════════════════════════════════════╝\n\n"@
}

/// The command, its arguments (where there are any) and its working
/// directory (where one is set).
pub open spec fn context_text(
    name: Seq<char>,
    path: Option<Seq<Seq<char>>>,
    args: Seq<(Seq<char>, Seq<char>)>,
    cwd: Option<Seq<char>>,
) -> Seq<char> {
    "📋 Command: "@ + command_display(name, path) + "\n"@ + (if args.len() > 0 {
        "🔧 Arguments: "@ + pairs_text(args) + "\n"@
    } else {
        Seq::empty()
    }) + match cwd {
        Some(c) => "📁 Working directory: "@ + c + "\n"@,
        None => Seq::empty(),
    }
}

/// The word for elevated privileges on the host.
pub open spec fn elevate_word(windows: bool) -> Seq<char> {
    if windows {
        "Run as Administrator"@
    } else {
        "sudo"@
    }
}

/// The line that says a command needs privileges.
pub open spec fn privileged_line(privileged: bool, windows: bool) -> Seq<char> {
    if privileged {
        "🔐 Privileged access: Required ("@ + elevate_word(windows) + ")\n"@
    } else {
        Seq::empty()
    }
}

/// The environment variables, one `  k=v` line each, under a heading.
pub open spec fn env_block(env: Seq<(Seq<char>, Seq<char>)>) -> Seq<char> {
    "\n🌍 Environment variables:\n"@ + env_lines(env)
}

/// One `  k=v` line for each variable.
pub open spec fn env_lines(env: Seq<(Seq<char>, Seq<char>)>) -> Seq<char>
    decreases env.len(),
{
    if env.len() == 0 {
        Seq::empty()
    } else {
        env_lines(env.drop_last()) + "  "@ + env.last().0 + "="@ + env.last().1 + "\n"@
    }
}

/// The script's lines in a box, numbered from `from + 1`.
pub open spec fn boxed_lines(ls: Seq<Seq<char>>) -> Seq<char>
    decreases ls.len(),
{
    if ls.len() == 0 {
        Seq::empty()
    } else {
        boxed_lines(ls.drop_last()) + "│ "@ + num2(ls.len()) + " "@ + ls.last() + "│\n"@
    }
}

/// The script in a box with numbered lines.
pub open spec fn boxed_script(script: Seq<char>) -> Seq<char> {
    "┌─────────────────────────────────────────────────────────┐\n"@ + boxed_lines(lines(script))
        + "└─────────────────────────────────────────────────────────┘\n"@
}

/// The dry-run preview of a script: the command, its arguments, working
/// directory and privileges, its environment (in verbose mode), and the
/// script with numbered lines.
pub open spec fn dry_run_spec(
    script: Seq<char>,
    name: Seq<char>,
    path: Option<Seq<Seq<char>>>,
    args: Seq<(Seq<char>, Seq<char>)>,
    cwd: Option<Seq<char>>,
    privileged: bool,
    verbose: bool,
    env: Seq<(Seq<char>, Seq<char>)>,
    windows: bool,
) -> Seq<char> {
    banner("🔍 Dry Run Preview"@) + context_text(name, path, args, cwd) + privileged_line(privileged, windows)
        + (if verbose && env.len() > 0 {
        env_block(env)
    } else {
        Seq::empty()
    }) + "\n📜 Script to execute:\n"@ + boxed_script(script)
        + "\nℹ This is a dry run. The script was not executed.\n"@
}

/// The summary shown before a script runs in verbose mode.
pub open spec fn verbose_spec(
    script: Seq<char>,
    name: Seq<char>,
    path: Option<Seq<Seq<char>>>,
    args: Seq<(Seq<char>, Seq<char>)>,
    cwd: Option<Seq<char>>,
    privileged: bool,
    env: Seq<(Seq<char>, Seq<char>)>,
    windows: bool,
) -> Seq<char> {
    banner("ℹ Verbose Mode"@) + context_text(name, path, args, cwd) + privileged_line(privileged, windows) + (
    if env.len() > 0 {
        env_block(env)
    } else {
        Seq::empty()
    }) + "\n📜 Script:\n"@ + boxed_script(script) + "\n"@
}

/// The refusal of a command that needs privileges the process lacks.
pub open spec fn privileged_error_spec(name: Seq<char>, path: Option<Seq<Seq<char>>>, windows: bool) -> Seq<char> {
    banner("❌ Privileged Access Required"@) + "📋 Command: "@ + command_display(name, path) + "\n"@
        + "\n⚠️  ERROR: This command requires privileged access, but you are not running with elevated privileges.\n"@
        + "   You MUST use "@ + elevate_word(windows)
        + " or an alternative to run this command with elevated privileges.\n"@ + "   Example: "@ + (if windows {
        "Run PowerShell/CMD as Administrator, then: nest <command>"@
    } else {
        "sudo nest <command>"@
    }) + "\n"@ + "\nℹ The command was not executed due to insufficient privileges.\n"@
}

/// The first lines of a script, numbered, for the failure report.
pub open spec fn preview_lines(ls: Seq<Seq<char>>) -> Seq<char>
    decreases ls.len(),
{
    if ls.len() == 0 {
        Seq::empty()
    } else {
        preview_lines(ls.drop_last()) + "  "@ + num2(ls.len()) + " "@ + ls.last() + "\n"@
    }
}

/// The error output, one indented line each.
pub open spec fn detail_lines(ls: Seq<Seq<char>>) -> Seq<char>
    decreases ls.len(),
{
    if ls.len() == 0 {
        Seq::empty()
    } else {
        detail_lines(ls.drop_last()) + "  "@ + ls.last() + "\n"@
    }
}

/// The first five lines of the script, numbered, and how many more there
/// are; nothing for an empty script.
pub open spec fn script_preview_part(script: Seq<char>) -> Seq<char> {
    let ls = lines(script);
    if ls.len() > 0 {
        "\n📜 Script preview:\n"@ + preview_lines(if ls.len() > 5 { ls.take(5) } else { ls }) + (if ls.len() > 5 {
            "  ... ("@ + nat_text((ls.len() - 5) as nat) + " more lines)\n"@
        } else {
            Seq::empty()
        })
    } else {
        Seq::empty()
    }
}

/// A hint about a program the shell did not find, or else the error
/// output, line by line.
pub open spec fn stderr_part(stderr: Seq<char>) -> Seq<char> {
    if contains_sub(stderr, "command not found"@) {
        match missing_command_spec(stderr) {
            Some(cmd) => "\n💡 Suggestion: Command "@ + cmd + " not found.\n"@
                + "   Please install it or check your PATH environment variable.\n"@,
            None => Seq::empty(),
        }
    } else if trim(stderr).len() > 0 {
        "\n📝 Error details:\n"@ + detail_lines(lines(trim(stderr)))
    } else {
        Seq::empty()
    }
}

/// The report of a script that failed: the command and its context, the
/// first five lines of the script (and how many more there are), the exit
/// code, and either a hint about a missing program or the error output.
pub open spec fn failure_spec(
    name: Seq<char>,
    path: Option<Seq<Seq<char>>>,
    args: Seq<(Seq<char>, Seq<char>)>,
    cwd: Option<Seq<char>>,
    script: Seq<char>,
    exit_code: int,
    stderr: Seq<char>,
) -> Seq<char> {
    banner("❌ Execution Error"@) + context_text(name, path, args, cwd) + script_preview_part(script)
        + "\n⚠️  Exit code: "@ + int_text(exit_code) + "\n"@ + stderr_part(stderr)
}

/// The model of an optional path.
pub open spec fn path_view(p: Option<&[String]>) -> Option<Seq<Seq<char>>> {
    match p {
        Some(v) => Some(v@.map_values(|x: String| x@)),
        None => None,
    }
}

/// The model of an optional directory.
pub open spec fn dir_view(c: Option<&str>) -> Option<Seq<char>> {
    match c {
        Some(v) => Some(v@),
        None => None,
    }
}

fn display_chars(name: &str, path: Option<&[String]>) -> (out: Vec<char>)
    ensures
        out@ == command_display(name@, path_view(path)),
{
    match path {
        Some(p) => {
            let mut o = chars_of("nest ");
            push_all(&mut o, &crate::runtime::join_strings_vec(p, " "));
            o
        },
        None => chars_of(name),
    }
}

fn pairs_chars(m: &ArgMap) -> (out: Vec<char>)
    ensures
        out@ == pairs_text(m.entries_view()),
{
    let ghost ev = m.entries_view();
    let mut items: Vec<Vec<char>> = Vec::new();
    let mut i: usize = 0;
    while i < m.len()
        invariant
            i <= ev.len(),
            ev == m.entries_view(),
            items@.map_values(|x: Vec<char>| x@) == ev.take(i as int).map_values(
                |kv: (Seq<char>, Seq<char>)| kv.0 + "="@ + kv.1,
            ),
        decreases ev.len() - i,
    {
        let ghost before = items@.map_values(|x: Vec<char>| x@);
        let mut q = chars_of_string(m.key_at(i));
        push_all(&mut q, &chars_of("="));
        push_all(&mut q, &chars_of_string(m.value_at(i)));
        items.push(q);
        assert(items@.map_values(|x: Vec<char>| x@) =~= before.push(q@));
        assert(ev.take(i + 1).map_values(|kv: (Seq<char>, Seq<char>)| kv.0 + "="@ + kv.1) =~= ev.take(
            i as int,
        ).map_values(|kv: (Seq<char>, Seq<char>)| kv.0 + "="@ + kv.1).push(q@));
        i += 1;
    }
    assert(ev.take(ev.len() as int) =~= ev);
    crate::text::join_chars(&items, &chars_of(", "))
}

fn num2_chars(n: usize) -> (out: Vec<char>)
    ensures
        out@ == num2(n as nat),
{
    if n < 10 {
        let mut o = chars_of(" ");
        push_all(&mut o, &crate::text::usize_text(n));
        o
    } else {
        crate::text::usize_text(n)
    }
}

fn push_banner(out: &mut Vec<char>, title: &str)
    ensures
        final(out)@ == old(out)@ + banner(title@),
{
    let ghost o0 = out@;
    push_all(out, &chars_of("\n╔═══════════════════════════════════════════════════════════════╗\n║  "));
    push_all(out, &chars_of(title));
    push_all(out, &chars_of("\n╚═══════════════════════════════════════════════════════════════╝\n\n"));
    assert(out@ =~= o0 + banner(title@));
}

fn push_context(out: &mut Vec<char>, name: &str, path: Option<&[String]>, args: &ArgMap, cwd: Option<&str>)
    ensures
        final(out)@ == old(out)@ + context_text(name@, path_view(path), args.entries_view(), dir_view(cwd)),
{
    let ghost o0 = out@;
    push_all(out, &chars_of("📋 Command: "));
    push_all(out, &display_chars(name, path));
    push_all(out, &chars_of("\n"));
    let ghost a = out@;
    if args.len() > 0 {
        push_all(out, &chars_of("🔧 Arguments: "));
        push_all(out, &pairs_chars(args));
        push_all(out, &chars_of("\n"));
    }
    let ghost b = out@;
    match cwd {
        Some(c) => {
            push_all(out, &chars_of("📁 Working directory: "));
            push_all(out, &chars_of(c));
            push_all(out, &chars_of("\n"));
        },
        None => {},
    }
    assert(out@ =~= o0 + context_text(name@, path_view(path), args.entries_view(), dir_view(cwd)));
}

fn push_privileged(out: &mut Vec<char>, privileged: bool, windows: bool)
    ensures
        final(out)@ == old(out)@ + privileged_line(privileged, windows),
{
    let ghost o0 = out@;
    if privileged {
        push_all(out, &chars_of("🔐 Privileged access: Required ("));
        if windows {
            push_all(out, &chars_of("Run as Administrator"));
        } else {
            push_all(out, &chars_of("sudo"));
        }
        push_all(out, &chars_of(")\n"));
    }
    assert(out@ =~= o0 + privileged_line(privileged, windows));
}

fn push_env(out: &mut Vec<char>, env: &ArgMap)
    ensures
        final(out)@ == old(out)@ + env_block(env.entries_view()),
{
    let ghost o0 = out@;
    push_all(out, &chars_of("\n🌍 Environment variables:\n"));
    let ghost head = out@;
    let ghost ev = env.entries_view();
    let mut i: usize = 0;
    assert(ev.take(0) =~= Seq::<(Seq<char>, Seq<char>)>::empty());
    assert(out@ =~= head + env_lines(ev.take(0)));
    while i < env.len()
        invariant
            i <= ev.len(),
            ev == env.entries_view(),
            out@ == head + env_lines(ev.take(i as int)),
        decreases ev.len() - i,
    {
        assert(ev.take(i + 1).drop_last() =~= ev.take(i as int));
        assert(ev.take(i + 1).last() == ev[i as int]);
        let ghost before = out@;
        push_all(out, &chars_of("  "));
        push_all(out, &chars_of_string(env.key_at(i)));
        push_all(out, &chars_of("="));
        push_all(out, &chars_of_string(env.value_at(i)));
        push_all(out, &chars_of("\n"));
        assert(out@ =~= before + "  "@ + ev[i as int].0 + "="@ + ev[i as int].1 + "\n"@);
        i += 1;
    }
    assert(ev.take(ev.len() as int) =~= ev);
    assert(out@ =~= o0 + env_block(ev));
}

fn push_boxed(out: &mut Vec<char>, script: &str)
    ensures
        final(out)@ == old(out)@ + boxed_script(script@),
{
    let ghost o0 = out@;
    push_all(out, &chars_of("┌─────────────────────────────────────────────────────────┐\n"));
    let ghost head = out@;
    let ls = crate::text::lines_chars(&chars_of(script));
    let ghost lv = ls@.map_values(|x: Vec<char>| x@);
    let mut i: usize = 0;
    assert(lv.take(0) =~= Seq::<Seq<char>>::empty());
    assert(out@ =~= head + boxed_lines(lv.take(0)));
    while i < ls.len()
        invariant
            i <= ls@.len(),
            lv == ls@.map_values(|x: Vec<char>| x@),
            out@ == head + boxed_lines(lv.take(i as int)),
        decreases ls.len() - i,
    {
        assert(lv.take(i + 1).drop_last() =~= lv.take(i as int));
        assert(lv.take(i + 1).last() == ls@[i as int]@);
        assert(lv.take(i + 1).len() == i + 1);
        let ghost before = out@;
        push_all(out, &chars_of("│ "));
        push_all(out, &num2_chars(i + 1));
        push_all(out, &chars_of(" "));
        push_all(out, &ls[i]);
        push_all(out, &chars_of("│\n"));
        assert(out@ =~= before + "│ "@ + num2((i + 1) as nat) + " "@ + ls@[i as int]@ + "│\n"@);
        i += 1;
    }
    assert(lv.take(ls@.len() as int) =~= lv);
    push_all(out, &chars_of("└─────────────────────────────────────────────────────────┘\n"));
    assert(out@ =~= o0 + boxed_script(script@));
}

/// What a script runs with: its command, arguments, environment, working
/// directory and path, and the run's modes.
pub struct ExecutionContext<'a> {
    pub command: &'a Command,
    pub args: &'a ArgMap,
    pub env_vars: &'a ArgMap,
    pub cwd: Option<&'a str>,
    pub command_path: Option<&'a [String]>,
    pub dry_run: bool,
    pub verbose: bool,
    pub privileged: bool,
    pub hide_output: bool,
}

impl CommandExecutor {
    /// The dry-run preview of a script in its context (see `dry_run_spec`);
    /// `windows` tells how elevated privileges are obtained on the host.
    pub fn show_dry_run_preview(script: &str, context: &ExecutionContext, windows: bool) -> (s: String)
        ensures
            s@ == dry_run_spec(
                script@,
                context.command.name@,
                path_view(context.command_path),
                context.args.entries_view(),
                dir_view(context.cwd),
                context.privileged,
                context.verbose,
                context.env_vars.entries_view(),
                windows,
            ),
    {
        let mut out: Vec<char> = Vec::new();
        push_banner(&mut out, "🔍 Dry Run Preview");
        push_context(&mut out, context.command.name.as_str(), context.command_path, context.args, context.cwd);
        push_privileged(&mut out, context.privileged, windows);
        let ghost a = out@;
        if context.verbose && context.env_vars.len() > 0 {
            push_env(&mut out, context.env_vars);
        }
        let ghost b = out@;
        push_all(&mut out, &chars_of("\n📜 Script to execute:\n"));
        push_boxed(&mut out, script);
        push_all(&mut out, &chars_of("\nℹ This is a dry run. The script was not executed.\n"));
        assert(out@ =~= dry_run_spec(
            script@,
            context.command.name@,
            path_view(context.command_path),
            context.args.entries_view(),
            dir_view(context.cwd),
            context.privileged,
            context.verbose,
            context.env_vars.entries_view(),
            windows,
        ));
        string_of(&out)
    }

    /// The summary shown before a script runs in verbose mode (see
    /// `verbose_spec`).
    pub fn show_verbose_info(script: &str, context: &ExecutionContext, windows: bool) -> (s: String)
        ensures
            s@ == verbose_spec(
                script@,
                context.command.name@,
                path_view(context.command_path),
                context.args.entries_view(),
                dir_view(context.cwd),
                context.privileged,
                context.env_vars.entries_view(),
                windows,
            ),
    {
        let mut out: Vec<char> = Vec::new();
        push_banner(&mut out, "ℹ Verbose Mode");
        push_context(&mut out, context.command.name.as_str(), context.command_path, context.args, context.cwd);
        push_privileged(&mut out, context.privileged, windows);
        let ghost a = out@;
        if context.env_vars.len() > 0 {
            push_env(&mut out, context.env_vars);
        }
        let ghost b = out@;
        push_all(&mut out, &chars_of("\n📜 Script:\n"));
        push_boxed(&mut out, script);
        push_all(&mut out, &chars_of("\n"));
        assert(out@ =~= verbose_spec(
            script@,
            context.command.name@,
            path_view(context.command_path),
            context.args.entries_view(),
            dir_view(context.cwd),
            context.privileged,
            context.env_vars.entries_view(),
            windows,
        ));
        string_of(&out)
    }

    /// The refusal for a command that needs privileges (see
    /// `privileged_error_spec`).
    pub fn format_privileged_error(command: &Command, command_path: Option<&[String]>, windows: bool) -> (s: String)
        ensures
            s@ == privileged_error_spec(command.name@, path_view(command_path), windows),
    {
        let mut out: Vec<char> = Vec::new();
        push_banner(&mut out, "❌ Privileged Access Required");
        push_all(&mut out, &chars_of("📋 Command: "));
        push_all(&mut out, &display_chars(command.name.as_str(), command_path));
        push_all(&mut out, &chars_of("\n"));
        push_all(
            &mut out,
            &chars_of(
                "\n⚠️  ERROR: This command requires privileged access, but you are not running with elevated privileges.\n",
            ),
        );
        push_all(&mut out, &chars_of("   You MUST use "));
        if windows {
            push_all(&mut out, &chars_of("Run as Administrator"));
        } else {
            push_all(&mut out, &chars_of("sudo"));
        }
        push_all(&mut out, &chars_of(" or an alternative to run this command with elevated privileges.\n"));
        push_all(&mut out, &chars_of("   Example: "));
        if windows {
            push_all(&mut out, &chars_of("Run PowerShell/CMD as Administrator, then: nest <command>"));
        } else {
            push_all(&mut out, &chars_of("sudo nest <command>"));
        }
        push_all(&mut out, &chars_of("\n"));
        push_all(&mut out, &chars_of("\nℹ The command was not executed due to insufficient privileges.\n"));
        assert(out@ =~= privileged_error_spec(command.name@, path_view(command_path), windows));
        string_of(&out)
    }
}

fn push_preview(out: &mut Vec<char>, ls: &Vec<Vec<char>>, n: usize)
    requires
        n <= ls@.len(),
    ensures
        final(out)@ == old(out)@ + preview_lines(ls@.map_values(|x: Vec<char>| x@).take(n as int)),
{
    let ghost o0 = out@;
    let ghost lv = ls@.map_values(|x: Vec<char>| x@);
    let mut i: usize = 0;
    assert(lv.take(0) =~= Seq::<Seq<char>>::empty());
    assert(out@ =~= o0 + preview_lines(lv.take(0)));
    while i < n
        invariant
            i <= n,
            n <= ls@.len(),
            lv == ls@.map_values(|x: Vec<char>| x@),
            out@ == o0 + preview_lines(lv.take(i as int)),
        decreases n - i,
    {
        assert(lv.take(i + 1).drop_last() =~= lv.take(i as int));
        assert(lv.take(i + 1).last() == ls@[i as int]@);
        assert(lv.take(i + 1).len() == i + 1);
        let ghost before = out@;
        push_all(out, &chars_of("  "));
        push_all(out, &num2_chars(i + 1));
        push_all(out, &chars_of(" "));
        push_all(out, &ls[i]);
        push_all(out, &chars_of("\n"));
        assert(out@ =~= before + "  "@ + num2((i + 1) as nat) + " "@ + ls@[i as int]@ + "\n"@);
        i += 1;
    }
}

fn push_details(out: &mut Vec<char>, ls: &Vec<Vec<char>>)
    ensures
        final(out)@ == old(out)@ + detail_lines(ls@.map_values(|x: Vec<char>| x@)),
{
    let ghost o0 = out@;
    let ghost lv = ls@.map_values(|x: Vec<char>| x@);
    let mut i: usize = 0;
    assert(lv.take(0) =~= Seq::<Seq<char>>::empty());
    assert(out@ =~= o0 + detail_lines(lv.take(0)));
    while i < ls.len()
        invariant
            i <= ls@.len(),
            lv == ls@.map_values(|x: Vec<char>| x@),
            out@ == o0 + detail_lines(lv.take(i as int)),
        decreases ls.len() - i,
    {
        assert(lv.take(i + 1).drop_last() =~= lv.take(i as int));
        assert(lv.take(i + 1).last() == ls@[i as int]@);
        let ghost before = out@;
        push_all(out, &chars_of("  "));
        push_all(out, &ls[i]);
        push_all(out, &chars_of("\n"));
        assert(out@ =~= before + "  "@ + ls@[i as int]@ + "\n"@);
        i += 1;
    }
    assert(lv.take(ls@.len() as int) =~= lv);
}

fn push_script_preview(out: &mut Vec<char>, script: &str)
    ensures
        final(out)@ == old(out)@ + script_preview_part(script@),
{
    let ghost o0 = out@;
    let ls = crate::text::lines_chars(&chars_of(script));
    let ghost lv = ls@.map_values(|x: Vec<char>| x@);
    if ls.len() > 0 {
        push_all(out, &chars_of("\n📜 Script preview:\n"));
        let n = if ls.len() > 5 { 5 } else { ls.len() };
        push_preview(out, &ls, n);
        if ls.len() <= 5 {
            assert(lv.take(n as int) =~= lv);
        }
        if ls.len() > 5 {
            push_all(out, &chars_of("  ... ("));
            push_all(out, &crate::text::usize_text(ls.len() - 5));
            push_all(out, &chars_of(" more lines)\n"));
        }
    }
    assert(out@ =~= o0 + script_preview_part(script@));
}

fn push_stderr_part(out: &mut Vec<char>, stderr: &str)
    ensures
        final(out)@ == old(out)@ + stderr_part(stderr@),
{
    let ghost o0 = out@;
    let e = chars_of(stderr);
    if crate::text::contains(&e, &chars_of("command not found")) {
        match crate::executor::extract_missing_command(stderr) {
            Some(cmd) => {
                push_all(out, &chars_of("\n💡 Suggestion: Command "));
                push_all(out, &chars_of_string(&cmd));
                push_all(out, &chars_of(" not found.\n"));
                push_all(out, &chars_of("   Please install it or check your PATH environment variable.\n"));
            },
            None => {},
        }
    } else {
        let t = crate::text::trim_chars(&e);
        if t.len() > 0 {
            push_all(out, &chars_of("\n📝 Error details:\n"));
            push_details(out, &crate::text::lines_chars(&t));
        }
    }
    assert(out@ =~= o0 + stderr_part(stderr@));
}

/// The report of a failed script (see `failure_spec`).
pub fn format_error_message(
    command: &Command,
    command_path: Option<&[String]>,
    args: &ArgMap,
    cwd: Option<&str>,
    script: &str,
    exit_code: i32,
    stderr: &str,
) -> (s: String)
    ensures
        s@ == failure_spec(
            command.name@,
            path_view(command_path),
            args.entries_view(),
            dir_view(cwd),
            script@,
            exit_code as int,
            stderr@,
        ),
{
    let mut out: Vec<char> = Vec::new();
    push_banner(&mut out, "❌ Execution Error");
    push_context(&mut out, command.name.as_str(), command_path, args, cwd);
    push_script_preview(&mut out, script);
    push_all(&mut out, &chars_of("\n⚠️  Exit code: "));
    push_all(&mut out, &crate::text::i64_text(exit_code as i64));
    push_all(&mut out, &chars_of("\n"));
    push_stderr_part(&mut out, stderr);
    assert(out@ =~= failure_spec(
        command.name@,
        path_view(command_path),
        args.entries_view(),
        dir_view(cwd),
        script@,
        exit_code as int,
        stderr@,
    ));
    string_of(&out)
}

} // verus!
