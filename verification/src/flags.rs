//! The flags that come before the command on the command line (`--version`,
//! `--example`, `--init`, `--update`, `--config`), and the decisions of the
//! self-update: which release archive fits the host and where it is.

use vstd::prelude::*;
use crate::text::{chars_of, chars_of_string, contains_sub, push_all, string_of};
use crate::type_validator::lowercase;

verus! {

/// The argument is a flag (it starts with `-`).
pub open spec fn is_flag(a: Seq<char>) -> bool {
    a.len() > 0 && a[0] == '-'
}

/// The argument names the configuration file flag.
pub open spec fn is_config_flag(a: Seq<char>) -> bool {
    a == "--config"@ || a == "-c"@
}

/// The position of the first argument from `i` on that is not a flag,
/// passing over the value of `--config`; the length where there is none.
pub open spec fn first_command_from(args: Seq<Seq<char>>, i: int) -> int
    decreases args.len() - i,
{
    if i < 0 || i >= args.len() {
        args.len() as int
    } else if !is_flag(args[i]) {
        i
    } else if is_config_flag(args[i]) {
        if i + 2 >= args.len() {
            args.len() as int
        } else {
            first_command_from(args, i + 2)
        }
    } else {
        first_command_from(args, i + 1)
    }
}

/// The position of the command among the arguments (the first being the
/// program's name).
pub open spec fn first_command(args: Seq<Seq<char>>) -> int {
    first_command_from(args, 1)
}

/// What the flags before the command ask for.
#[derive(Debug, Clone, Copy, PartialEq, Eq, Structural)]
pub enum GlobalAction {
    /// Print the version.
    Version,
    /// Download the examples.
    Example,
    /// Write a starter Nestfile (overwriting an existing one with `--force`).
    Init { force: bool },
    /// Replace the program by the latest release (by the install script
    /// with `--recreate`).
    Update { recreate: bool },
    /// Go on and run a command.
    Run,
}

/// The action of the flags `g` before the command: `--version`/`-V` first,
/// then `--example`, `--init`, `--update`.
pub open spec fn action_spec(g: Seq<Seq<char>>) -> GlobalAction {
    if g.contains("--version"@) || g.contains("-V"@) {
        GlobalAction::Version
    } else if g.contains("--example"@) {
        GlobalAction::Example
    } else if g.contains("--init"@) {
        GlobalAction::Init { force: g.contains("--force"@) || g.contains("-f"@) }
    } else if g.contains("--update"@) {
        GlobalAction::Update { recreate: g.contains("--recreate"@) }
    } else {
        GlobalAction::Run
    }
}

/// The configuration path given by `--config`/`-c` before the command,
/// scanning from `idx` with the position of the first non-flag seen so far.
pub open spec fn config_from(args: Seq<Seq<char>>, idx: int, first: Option<int>) -> Option<Seq<char>>
    decreases args.len() - idx,
{
    if idx < 1 || idx >= args.len() {
        None
    } else {
        let f = if first is None && !is_flag(args[idx]) {
            Some(idx)
        } else {
            first
        };
        if is_config_flag(args[idx]) {
            if f is Some && idx >= f->0 {
                None
            } else if idx + 1 < args.len() {
                Some(args[idx + 1])
            } else {
                None
            }
        } else {
            config_from(args, idx + 1, f)
        }
    }
}

/// The models of the arguments.
pub open spec fn args_view(args: Seq<String>) -> Seq<Seq<char>> {
    args.map_values(|a: String| a@)
}

fn is_flag_exec(a: &String) -> (b: bool)
    ensures
        b == is_flag(a@),
{
    let c = chars_of_string(a);
    c.len() > 0 && c[0] == '-'
}

fn is_config_exec(a: &String) -> (b: bool)
    ensures
        b == is_config_flag(a@),
{
    let c = chars_of_string(a);
    crate::text::eq(&c, &chars_of("--config")) || crate::text::eq(&c, &chars_of("-c"))
}

/// The position of the command among the arguments (see `first_command`).
pub fn first_command_index(args: &[String]) -> (i: usize)
    ensures
        i as int == first_command(args_view(args@)),
{
    let ghost av = args_view(args@);
    let mut i: usize = 1;
    while i < args.len()
        invariant
            1 <= i,
            av == args_view(args@),
            first_command(av) == first_command_from(av, i as int),
        decreases args.len() - i,
    {
        assert(av[i as int] == args@[i as int]@);
        if !is_flag_exec(&args[i]) {
            return i;
        }
        if is_config_exec(&args[i]) {
            if args.len() - i <= 2 {
                return args.len();
            }
            i += 2;
        } else {
            i += 1;
        }
    }
    args.len()
}

fn contains_arg(g: &[String], a: &str) -> (b: bool)
    ensures
        b == args_view(g@).contains(a@),
{
    let ghost gv = args_view(g@);
    let v = chars_of(a);
    let mut i: usize = 0;
    while i < g.len()
        invariant
            i <= g@.len(),
            gv == args_view(g@),
            v@ == a@,
            forall|j: int| 0 <= j < i ==> gv[j] != a@,
        decreases g.len() - i,
    {
        assert(gv[i as int] == g@[i as int]@);
        if crate::text::eq(&chars_of_string(&g[i]), &v) {
            assert(gv[i as int] == a@);
            return true;
        }
        i += 1;
    }
    false
}

/// What the flags before the command ask for (see `action_spec` and
/// `first_command`).
pub fn global_action(args: &[String]) -> (r: GlobalAction)
    ensures
        r == action_spec(args_view(args@).take(first_command(args_view(args@)))),
{
    let n = first_command_index(args);
    let ghost av = args_view(args@);
    proof {
        lemma_first_command_bound(av, 1);
    }
    let g = &args[0..n];
    assert(args_view(g@) =~= av.take(n as int));
    if contains_arg(g, "--version") || contains_arg(g, "-V") {
        GlobalAction::Version
    } else if contains_arg(g, "--example") {
        GlobalAction::Example
    } else if contains_arg(g, "--init") {
        GlobalAction::Init { force: contains_arg(g, "--force") || contains_arg(g, "-f") }
    } else if contains_arg(g, "--update") {
        GlobalAction::Update { recreate: contains_arg(g, "--recreate") }
    } else {
        GlobalAction::Run
    }
}

proof fn lemma_first_command_bound(args: Seq<Seq<char>>, i: int)
    ensures
        0 <= first_command_from(args, i) <= args.len(),
    decreases args.len() - i,
{
    if 0 <= i < args.len() && is_flag(args[i]) {
        if is_config_flag(args[i]) {
            if i + 2 < args.len() {
                lemma_first_command_bound(args, i + 2);
            }
        } else {
            lemma_first_command_bound(args, i + 1);
        }
    }
}

/// The configuration path given before the command (see `config_from`).
pub fn config_path_arg(args: &[String]) -> (r: Option<String>)
    ensures
        crate::ast::opt_view(r) == config_from(args_view(args@), 1, None),
{
    let ghost av = args_view(args@);
    let mut first: Option<usize> = None;
    let mut idx: usize = 1;
    while idx < args.len()
        invariant
            1 <= idx,
            av == args_view(args@),
            config_from(av, 1, None) == config_from(
                av,
                idx as int,
                match first {
                    Some(f) => Some(f as int),
                    None => None,
                },
            ),
            first matches Some(f) ==> f < idx,
        decreases args.len() - idx,
    {
        assert(av[idx as int] == args@[idx as int]@);
        if first.is_none() && !is_flag_exec(&args[idx]) {
            first = Some(idx);
        }
        if is_config_exec(&args[idx]) {
            match first {
                Some(f) => {
                    if idx >= f {
                        return None;
                    }
                },
                None => {},
            }
            if idx + 1 < args.len() {
                assert(av[idx + 1] == args@[idx + 1]@);
                return Some(args[idx + 1].clone());
            }
            return None;
        }
        idx += 1;
    }
    None
}

/// The platform of the release archives for the system's name (`uname -s`).
pub open spec fn platform_spec(os: Seq<char>) -> Option<Seq<char>> {
    if os == "Linux"@ {
        Some("linux"@)
    } else if os == "Darwin"@ {
        Some("macos"@)
    } else {
        None
    }
}

/// The architecture of the release archives for the machine's name
/// (`uname -m`).
pub open spec fn architecture_spec(arch: Seq<char>) -> Option<Seq<char>> {
    if arch == "x86_64"@ {
        Some("x86_64"@)
    } else if arch == "aarch64"@ || arch == "arm64"@ {
        Some("aarch64"@)
    } else {
        None
    }
}

/// The platform and architecture of the host's archive, or the error that
/// names what is not supported.
pub open spec fn host_spec(os: Seq<char>, arch: Seq<char>) -> Result<(Seq<char>, Seq<char>), Seq<char>> {
    match platform_spec(os) {
        None => Err("Unsupported OS: "@ + os + ". Update command currently supports Linux and macOS only."@),
        Some(p) => match architecture_spec(arch) {
            None => Err("Unsupported architecture: "@ + arch),
            Some(a) => Ok((p, a)),
        },
    }
}

/// The platform and architecture of the host's archive (see `host_spec`).
pub fn detect_platform(os: &str, arch: &str) -> (r: Result<(String, String), String>)
    ensures
        match r {
            Ok((p, a)) => host_spec(os@, arch@) == Ok::<(Seq<char>, Seq<char>), Seq<char>>((p@, a@)),
            Err(e) => host_spec(os@, arch@) == Err::<(Seq<char>, Seq<char>), Seq<char>>(e@),
        },
{
    let o = chars_of(os);
    let platform = if crate::text::eq(&o, &chars_of("Linux")) {
        "linux"
    } else if crate::text::eq(&o, &chars_of("Darwin")) {
        "macos"
    } else {
        let mut e = chars_of("Unsupported OS: ");
        push_all(&mut e, &o);
        push_all(&mut e, &chars_of(". Update command currently supports Linux and macOS only."));
        return Err(string_of(&e));
    };
    let m = chars_of(arch);
    let architecture = if crate::text::eq(&m, &chars_of("x86_64")) {
        "x86_64"
    } else if crate::text::eq(&m, &chars_of("aarch64")) || crate::text::eq(&m, &chars_of("arm64")) {
        "aarch64"
    } else {
        let mut e = chars_of("Unsupported architecture: ");
        push_all(&mut e, &m);
        return Err(string_of(&e));
    };
    Ok((String::from_str(platform), String::from_str(architecture)))
}

/// The C library that `ldd` reports for the program: `musl` where it names
/// musl, `glibc` where it names the GNU loader, `musl` for a static
/// program, `glibc` otherwise.
pub open spec fn libc_spec(stdout: Seq<char>, stderr: Seq<char>) -> Seq<char> {
    if contains_sub(stdout, "musl"@) {
        "musl"@
    } else if contains_sub(stdout, "libc.so"@) || contains_sub(stdout, "ld-linux"@) {
        "glibc"@
    } else if contains_sub(stderr, "not a dynamic executable"@) || contains_sub(stdout, "statically linked"@) {
        "musl"@
    } else {
        "glibc"@
    }
}

/// The C library from the output of `ldd` (see `libc_spec`).
pub fn libc_from_ldd(stdout: &str, stderr: &str) -> (r: &'static str)
    ensures
        r@ == libc_spec(stdout@, stderr@),
{
    let o = chars_of(stdout);
    let e = chars_of(stderr);
    if crate::text::contains(&o, &chars_of("musl")) {
        "musl"
    } else if crate::text::contains(&o, &chars_of("libc.so")) || crate::text::contains(&o, &chars_of("ld-linux")) {
        "glibc"
    } else if crate::text::contains(&e, &chars_of("not a dynamic executable")) || crate::text::contains(
        &o,
        &chars_of("statically linked"),
    ) {
        "musl"
    } else {
        "glibc"
    }
}

/// The library named in the version line: `musl` where the detected
/// library is musl (in any case), `glibc` otherwise.
pub open spec fn version_libc(libc: Seq<char>) -> Seq<char> {
    libc_word(lowercase(libc))
}

/// The library named in the version line for a lowered library name.
pub open spec fn libc_word(l: Seq<char>) -> Seq<char> {
    if l == "musl"@ {
        "musl"@
    } else {
        "glibc"@
    }
}

/// The library named in the version line for a lowered library name (see
/// `libc_word`).
pub fn libc_of_lowered(lowered: &str) -> (r: &'static str)
    ensures
        r@ == libc_word(lowered@),
{
    if crate::text::eq(&chars_of(lowered), &chars_of("musl")) {
        "musl"
    } else {
        "glibc"
    }
}

/// The version line: `nest VERSION (LIBC)`.
pub fn version_line(version: &str, libc: &str) -> (s: String)
    ensures
        s@ == "nest "@ + version@ + " ("@ + version_libc(libc@) + ")"@,
{
    let lower = crate::type_validator::to_lowercase(libc);
    let mut out = chars_of("nest ");
    push_all(&mut out, &chars_of(version));
    push_all(&mut out, &chars_of(" ("));
    push_all(&mut out, &chars_of(libc_of_lowered(lower.as_str())));
    push_all(&mut out, &chars_of(")"));
    string_of(&out)
}

/// The platform part of the archive's name: on Linux x86_64 `linux-musl`
/// for musl, `linux` for glibc or nothing named, `linux` with a notice for
/// another name; elsewhere the platform itself.
pub open spec fn archive_spec(platform: Seq<char>, arch: Seq<char>, libc: Seq<char>) -> (Seq<char>, bool) {
    if platform == "linux"@ && arch == "x86_64"@ {
        let l = lowercase(libc);
        if l == "musl"@ {
            ("linux-musl"@, false)
        } else if l == "glibc"@ || l.len() == 0 {
            ("linux"@, false)
        } else {
            ("linux"@, true)
        }
    } else {
        (platform, false)
    }
}

/// The platform part of the archive's name, and whether the library name
/// was unknown (see `archive_spec`).
pub fn archive_platform(platform: &str, arch: &str, libc: &str) -> (r: (String, bool))
    ensures
        (r.0@, r.1) == archive_spec(platform@, arch@, libc@),
{
    let p = chars_of(platform);
    if crate::text::eq(&p, &chars_of("linux")) && crate::text::eq(&chars_of(arch), &chars_of("x86_64")) {
        let l = crate::text::chars_of_string(&crate::type_validator::to_lowercase(libc));
        if crate::text::eq(&l, &chars_of("musl")) {
            (String::from_str("linux-musl"), false)
        } else if crate::text::eq(&l, &chars_of("glibc")) || l.len() == 0 {
            (String::from_str("linux"), false)
        } else {
            (String::from_str("linux"), true)
        }
    } else {
        (String::from_str(platform), false)
    }
}

/// The address of the latest release archive for a platform and
/// architecture.
pub fn release_url(repo: &str, archive_platform: &str, arch: &str) -> (s: String)
    ensures
        s@ == "https://github.com/"@ + repo@ + "/releases/latest/download/nest-"@ + archive_platform@ + "-"@
            + arch@ + ".tar.gz"@,
{
    let mut out = chars_of("https://github.com/");
    push_all(&mut out, &chars_of(repo));
    push_all(&mut out, &chars_of("/releases/latest/download/nest-"));
    push_all(&mut out, &chars_of(archive_platform));
    push_all(&mut out, &chars_of("-"));
    push_all(&mut out, &chars_of(arch));
    push_all(&mut out, &chars_of(".tar.gz"));
    string_of(&out)
}

} // verus!
