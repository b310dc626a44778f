//! Directive resolution: the value a command's directives give for a name,
//! with operating-system-specific variants preferred where they apply.

use vstd::prelude::*;
use crate::ast::{ArgMap, Dependency, DependencyV, Directive, DirectiveV};
use crate::text::{chars_of, chars_of_string, contains_sub, push_all, string_of};

verus! {

/// The operating system that commands run on: its name (as Rust's
/// `std::env::consts::OS` gives it) and whether it is a Unix.
#[derive(Debug)]
pub struct HostOs {
    pub os: String,
    pub unix: bool,
}

/// The code of the ASCII lower-case form of a character.
pub open spec fn ascii_lower(c: char) -> int {
    if 'A' <= c && c <= 'Z' {
        (c as u32) + 32
    } else {
        c as u32 as int
    }
}

/// The two texts are equal when ASCII letters are compared without case
/// (as `str::eq_ignore_ascii_case`).
pub open spec fn ci_eq(a: Seq<char>, b: Seq<char>) -> bool {
    a.len() == b.len() && forall|i: int| 0 <= i < a.len() ==> ascii_lower(#[trigger] a[i]) == ascii_lower(b[i])
}

/// Tests whether two texts are equal ignoring ASCII case.
pub fn eq_ignore_ascii_case(a: &Vec<char>, b: &Vec<char>) -> (r: bool)
    ensures
        r == ci_eq(a@, b@),
{
    if a.len() != b.len() {
        return false;
    }
    let mut i: usize = 0;
    while i < a.len()
        invariant
            a.len() == b.len(),
            i <= a.len(),
            forall|j: int| 0 <= j < i ==> ascii_lower(#[trigger] a@[j]) == ascii_lower(b@[j]),
        decreases a.len() - i,
    {
        let x = a[i];
        let y = b[i];
        let lx: u32 = if 'A' <= x && x <= 'Z' { (x as u32) + 32 } else { x as u32 };
        let ly: u32 = if 'A' <= y && y <= 'Z' { (y as u32) + 32 } else { y as u32 };
        if lx != ly {
            return false;
        }
        i += 1;
    }
    true
}

/// A directive's OS requirement is met on `host`: none, the host's name,
/// `unix` on a Unix, or `bsd` on a BSD (all without case).
pub open spec fn os_matches(os: Option<Seq<char>>, host_os: Seq<char>, unix: bool) -> bool {
    match os {
        Some(r) => ci_eq(r, host_os) || (ci_eq(r, "unix"@) && unix) || (ci_eq(r, "bsd"@)
            && contains_sub(host_os, "bsd"@)),
        None => true,
    }
}

/// What a directive offers under a name: its value (where it has one), its
/// OS requirement, and the name it answers to.
pub open spec fn directive_entry(d: DirectiveV) -> (Option<Seq<char>>, Option<Seq<char>>, Seq<char>) {
    match d {
        DirectiveV::Desc(s) => (Some(s), None, "desc"@),
        DirectiveV::Cwd(s) => (Some(s), None, "cwd"@),
        DirectiveV::Env(k, v, _) => (Some(k + "="@ + v), None, "env"@),
        DirectiveV::EnvFile(s, _) => (Some(s), None, "env"@),
        DirectiveV::Script(s, os, _) => (Some(s), os, "script"@),
        DirectiveV::Before(s, os, _) => (Some(s), os, "before"@),
        DirectiveV::After(s, os, _) => (Some(s), os, "after"@),
        DirectiveV::Fallback(s, os, _) => (Some(s), os, "fallback"@),
        DirectiveV::Finally(s, os, _) => (Some(s), os, "finally"@),
        DirectiveV::Validate(_, _) => (None, None, "validate"@),
        _ => (None, None, Seq::empty()),
    }
}

/// The best value under `name` among the directives and its score: a
/// matching directive with an OS requirement scores 2, one without scores
/// 1, and the last of the highest score wins (a directive appended later,
/// as an override's are, replaces an earlier one).
pub open spec fn best_value(ds: Seq<DirectiveV>, name: Seq<char>, host_os: Seq<char>, unix: bool) -> (
    Option<Seq<char>>,
    int,
)
    decreases ds.len(),
{
    if ds.len() == 0 {
        (None, 0)
    } else {
        let (b, sc) = best_value(ds.drop_last(), name, host_os, unix);
        let (val, os, tn) = directive_entry(ds.last());
        let score: int = if os is Some { 2 } else { 1 };
        if tn == name && os_matches(os, host_os, unix) && score >= sc {
            (val, score)
        } else {
            (b, sc)
        }
    }
}

/// What a directive offers with its hide flag.
pub open spec fn hide_entry(d: DirectiveV) -> (Option<Seq<char>>, Option<Seq<char>>, bool, Seq<char>) {
    match d {
        DirectiveV::Env(k, v, h) => (Some(k + "="@ + v), None, h, "env"@),
        DirectiveV::EnvFile(s, h) => (Some(s), None, h, "env"@),
        DirectiveV::Script(s, os, h) => (Some(s), os, h, "script"@),
        DirectiveV::Before(s, os, h) => (Some(s), os, h, "before"@),
        DirectiveV::After(s, os, h) => (Some(s), os, h, "after"@),
        DirectiveV::Fallback(s, os, h) => (Some(s), os, h, "fallback"@),
        DirectiveV::Finally(s, os, h) => (Some(s), os, h, "finally"@),
        _ => (None, None, false, Seq::empty()),
    }
}

/// The best value under `name` with its hide flag, and its score.
pub open spec fn best_hidden(ds: Seq<DirectiveV>, name: Seq<char>, host_os: Seq<char>, unix: bool) -> (
    Option<(Seq<char>, bool)>,
    int,
)
    decreases ds.len(),
{
    if ds.len() == 0 {
        (None, 0)
    } else {
        let (b, sc) = best_hidden(ds.drop_last(), name, host_os, unix);
        let (val, os, h, tn) = hide_entry(ds.last());
        let score: int = if os is Some { 2 } else { 1 };
        if tn == name && os_matches(os, host_os, unix) && score >= sc {
            match val {
                Some(v) => (Some((v, h)), score),
                None => (b, score),
            }
        } else {
            (b, sc)
        }
    }
}

/// The position of the first directive satisfying `f`, or -1.
pub open spec fn first_where(ds: Seq<DirectiveV>, f: spec_fn(DirectiveV) -> bool) -> int
    decreases ds.len(),
{
    if ds.len() == 0 {
        -1
    } else if f(ds[0]) {
        0
    } else {
        let r = first_where(ds.drop_first(), f);
        if r < 0 {
            -1
        } else {
            r + 1
        }
    }
}

/// The validation rules among the directives, in order.
pub open spec fn validations(ds: Seq<DirectiveV>) -> Seq<(Seq<char>, Seq<char>)>
    decreases ds.len(),
{
    if ds.len() == 0 {
        Seq::empty()
    } else {
        let rest = validations(ds.drop_last());
        match ds.last() {
            DirectiveV::Validate(t, r) => rest.push((t, r)),
            _ => rest,
        }
    }
}

/// A copy of an optional string.
fn copy_opt(o: &Option<String>) -> (r: Option<String>)
    ensures
        crate::ast::opt_view(r) == crate::ast::opt_view(*o),
{
    match o {
        Some(s) => Some(s.clone()),
        None => None,
    }
}

/// Resolver for directives and their values.
pub struct DirectiveResolver;

/// A copy of a list of dependencies.
pub fn copy_dependencies(ds: &Vec<Dependency>) -> (r: Vec<Dependency>)
    ensures
        r@.map_values(|d: Dependency| d@) == ds@.map_values(|d: Dependency| d@),
{
    let mut r: Vec<Dependency> = Vec::new();
    let mut i: usize = 0;
    while i < ds.len()
        invariant
            i <= ds@.len(),
            r@.len() == i,
            forall|j: int| 0 <= j < i ==> (#[trigger] r@[j])@ == ds@[j]@,
        decreases ds.len() - i,
    {
        let d = Dependency { command_path: ds[i].command_path.clone(), args: ds[i].args.copy() };
        r.push(d);
        i += 1;
    }
    assert(r@.map_values(|d: Dependency| d@) =~= ds@.map_values(|d: Dependency| d@));
    r
}

impl DirectiveResolver {
    /// Checks if a directive's OS requirement is met on `host`.
    pub fn check_os_match(os: &Option<String>, host: &HostOs) -> (b: bool)
        ensures
            b == os_matches(crate::ast::opt_view(*os), host.os@, host.unix),
    {
        match os {
            Some(required) => {
                let r = chars_of_string(required);
                let h = chars_of_string(&host.os);
                if eq_ignore_ascii_case(&r, &h) {
                    return true;
                }
                if eq_ignore_ascii_case(&r, &chars_of("unix")) && host.unix {
                    return true;
                }
                if eq_ignore_ascii_case(&r, &chars_of("bsd")) && crate::text::contains(
                    &h,
                    &chars_of("bsd"),
                ) {
                    return true;
                }
                false
            },
            None => true,
        }
    }

    /// Gets the value under `name` (`desc`, `cwd`, `env`, `script`,
    /// `before`, `after`, `fallback`, `finally`), preferring a variant for
    /// the host's OS over a general one, and the last of each.
    pub fn get_directive_value(directives: &[Directive], name: &str, host: &HostOs) -> (r: Option<
        String,
    >)
        ensures
            crate::ast::opt_view(r) == best_value(
                directives@.map_values(|d: Directive| d@),
                name@,
                host.os@,
                host.unix,
            ).0,
    {
        let ghost dv = directives@.map_values(|d: Directive| d@);
        let nm = chars_of(name);
        let mut best: Option<String> = None;
        let mut best_score: u8 = 0;
        let mut i: usize = 0;
        assert(dv.take(0) =~= Seq::<DirectiveV>::empty());
        while i < directives.len()
            invariant
                i <= directives@.len(),
                dv == directives@.map_values(|d: Directive| d@),
                nm@ == name@,
                best_value(dv.take(i as int), name@, host.os@, host.unix) == (
                    crate::ast::opt_view(best),
                    best_score as int,
                ),
            decreases directives.len() - i,
        {
            assert(dv.take(i + 1).drop_last() =~= dv.take(i as int));
            assert(dv.take(i + 1).last() == directives@[i as int]@);
            let (val, os, target): (Option<String>, Option<String>, Vec<char>) = match &directives[i] {
                Directive::Desc(s) => (Some(s.clone()), None, chars_of("desc")),
                Directive::Cwd(s) => (Some(s.clone()), None, chars_of("cwd")),
                Directive::Env(k, v, _) => {
                    let mut t = chars_of_string(k);
                    push_all(&mut t, &chars_of("="));
                    push_all(&mut t, &chars_of_string(v));
                    (Some(string_of(&t)), None, chars_of("env"))
                },
                Directive::EnvFile(s, _) => (Some(s.clone()), None, chars_of("env")),
                Directive::Script(s, o, _) => (Some(s.clone()), copy_opt(o), chars_of("script")),
                Directive::Before(s, o, _) => (Some(s.clone()), copy_opt(o), chars_of("before")),
                Directive::After(s, o, _) => (Some(s.clone()), copy_opt(o), chars_of("after")),
                Directive::Fallback(s, o, _) => (Some(s.clone()), copy_opt(o), chars_of("fallback")),
                Directive::Finally(s, o, _) => (Some(s.clone()), copy_opt(o), chars_of("finally")),
                Directive::Validate(_, _) => (None, None, chars_of("validate")),
                _ => (None, None, Vec::new()),
            };
            assert((crate::ast::opt_view(val), crate::ast::opt_view(os), target@) == directive_entry(
                directives@[i as int]@,
            ));
            let score: u8 = if os.is_some() { 2 } else { 1 };
            if crate::text::eq(&target, &nm) && Self::check_os_match(&os, host) && score >= best_score {
                best_score = score;
                best = val;
            }
            i += 1;
        }
        assert(dv.take(directives@.len() as int) =~= dv);
        best
    }

    /// Gets the value under `name` with its hide flag (for `env` and the
    /// script-like directives), preferring a variant for the host's OS.
    pub fn get_directive_value_with_hide(directives: &[Directive], name: &str, host: &HostOs) -> (r:
        Option<(String, bool)>)
        ensures
            match r {
                Some(p) => best_hidden(
                    directives@.map_values(|d: Directive| d@),
                    name@,
                    host.os@,
                    host.unix,
                ).0 == Some((p.0@, p.1)),
                None => best_hidden(
                    directives@.map_values(|d: Directive| d@),
                    name@,
                    host.os@,
                    host.unix,
                ).0 is None,
            },
    {
        let ghost dv = directives@.map_values(|d: Directive| d@);
        let nm = chars_of(name);
        let mut best: Option<(String, bool)> = None;
        let mut best_score: u8 = 0;
        let mut i: usize = 0;
        assert(dv.take(0) =~= Seq::<DirectiveV>::empty());
        while i < directives.len()
            invariant
                i <= directives@.len(),
                dv == directives@.map_values(|d: Directive| d@),
                nm@ == name@,
                best_hidden(dv.take(i as int), name@, host.os@, host.unix).1 == best_score as int,
                match best {
                    Some(p) => best_hidden(dv.take(i as int), name@, host.os@, host.unix).0 == Some(
                        (p.0@, p.1),
                    ),
                    None => best_hidden(dv.take(i as int), name@, host.os@, host.unix).0 is None,
                },
            decreases directives.len() - i,
        {
            assert(dv.take(i + 1).drop_last() =~= dv.take(i as int));
            assert(dv.take(i + 1).last() == directives@[i as int]@);
            let (val, os, hide, target): (Option<String>, Option<String>, bool, Vec<char>) = match &directives[i] {
                Directive::Env(k, v, h) => {
                    let mut t = chars_of_string(k);
                    push_all(&mut t, &chars_of("="));
                    push_all(&mut t, &chars_of_string(v));
                    (Some(string_of(&t)), None, *h, chars_of("env"))
                },
                Directive::EnvFile(s, h) => (Some(s.clone()), None, *h, chars_of("env")),
                Directive::Script(s, o, h) => (Some(s.clone()), copy_opt(o), *h, chars_of("script")),
                Directive::Before(s, o, h) => (Some(s.clone()), copy_opt(o), *h, chars_of("before")),
                Directive::After(s, o, h) => (Some(s.clone()), copy_opt(o), *h, chars_of("after")),
                Directive::Fallback(s, o, h) => (
                    Some(s.clone()),
                    copy_opt(o),
                    *h,
                    chars_of("fallback"),
                ),
                Directive::Finally(s, o, h) => (Some(s.clone()), copy_opt(o), *h, chars_of("finally")),
                _ => (None, None, false, Vec::new()),
            };
            assert((crate::ast::opt_view(val), crate::ast::opt_view(os), hide, target@) == hide_entry(
                directives@[i as int]@,
            ));
            let score: u8 = if os.is_some() { 2 } else { 1 };
            if crate::text::eq(&target, &nm) && Self::check_os_match(&os, host) && score >= best_score {
                best_score = score;
                match val {
                    Some(v) => {
                        best = Some((v, hide));
                    },
                    None => {},
                }
            }
            i += 1;
        }
        assert(dv.take(directives@.len() as int) =~= dv);
        best
    }

    /// The dependencies of the first `depends` directive and whether they
    /// run in parallel; none otherwise.
    pub fn get_depends_directive(directives: &[Directive]) -> (r: (Vec<Dependency>, bool))
        ensures
            ({
                let dv = directives@.map_values(|d: Directive| d@);
                let i = first_where(dv, |d: DirectiveV| d is Depends);
                if 0 <= i < dv.len() {
                    r.0@.map_values(|d: Dependency| d@) == dv[i]->Depends_0 && r.1 == dv[i]->Depends_1
                } else {
                    r.0@.len() == 0 && !r.1
                }
            }),
    {
        let ghost dv = directives@.map_values(|d: Directive| d@);
        let ghost f = |d: DirectiveV| d is Depends;
        let mut i: usize = 0;
        assert(dv.skip(0) =~= dv);
        while i < directives.len()
            invariant
                i <= directives@.len(),
                dv == directives@.map_values(|d: Directive| d@),
                f == |d: DirectiveV| d is Depends,
                forall|j: int| 0 <= j < i ==> !f(dv[j]),
                first_where(dv, f) == if first_where(dv.skip(i as int), f) < 0 {
                    -1
                } else {
                    first_where(dv.skip(i as int), f) + i
                },
            decreases directives.len() - i,
        {
            assert(dv.skip(i as int)[0] == directives@[i as int]@);
            assert(dv.skip(i as int).drop_first() =~= dv.skip(i + 1));
            match &directives[i] {
                Directive::Depends(deps, parallel) => {
                    return (copy_dependencies(deps), *parallel);
                },
                _ => {},
            }
            i += 1;
        }
        assert(dv.skip(i as int) =~= Seq::<DirectiveV>::empty());
        (Vec::new(), false)
    }

    /// The value of the first `privileged` directive; false without one.
    pub fn get_privileged_directive(directives: &[Directive]) -> (b: bool)
        ensures
            ({
                let dv = directives@.map_values(|d: Directive| d@);
                let i = first_where(dv, |d: DirectiveV| d is Privileged);
                b == (0 <= i < dv.len() && dv[i]->Privileged_0)
            }),
    {
        let ghost dv = directives@.map_values(|d: Directive| d@);
        let ghost f = |d: DirectiveV| d is Privileged;
        let mut i: usize = 0;
        assert(dv.skip(0) =~= dv);
        while i < directives.len()
            invariant
                i <= directives@.len(),
                dv == directives@.map_values(|d: Directive| d@),
                f == |d: DirectiveV| d is Privileged,
                first_where(dv, f) == if first_where(dv.skip(i as int), f) < 0 {
                    -1
                } else {
                    first_where(dv.skip(i as int), f) + i
                },
            decreases directives.len() - i,
        {
            assert(dv.skip(i as int)[0] == directives@[i as int]@);
            assert(dv.skip(i as int).drop_first() =~= dv.skip(i + 1));
            match &directives[i] {
                Directive::Privileged(v) => {
                    return *v;
                },
                _ => {},
            }
            i += 1;
        }
        assert(dv.skip(i as int) =~= Seq::<DirectiveV>::empty());
        false
    }

    /// The message of the first `require_confirm` directive, if any.
    pub fn get_require_confirm_directive(directives: &[Directive]) -> (r: Option<String>)
        ensures
            ({
                let dv = directives@.map_values(|d: Directive| d@);
                let i = first_where(dv, |d: DirectiveV| d is RequireConfirm);
                crate::ast::opt_view(r) == if 0 <= i < dv.len() {
                    Some(dv[i]->RequireConfirm_0)
                } else {
                    None
                }
            }),
    {
        let ghost dv = directives@.map_values(|d: Directive| d@);
        let ghost f = |d: DirectiveV| d is RequireConfirm;
        let mut i: usize = 0;
        assert(dv.skip(0) =~= dv);
        while i < directives.len()
            invariant
                i <= directives@.len(),
                dv == directives@.map_values(|d: Directive| d@),
                f == |d: DirectiveV| d is RequireConfirm,
                first_where(dv, f) == if first_where(dv.skip(i as int), f) < 0 {
                    -1
                } else {
                    first_where(dv.skip(i as int), f) + i
                },
            decreases directives.len() - i,
        {
            assert(dv.skip(i as int)[0] == directives@[i as int]@);
            assert(dv.skip(i as int).drop_first() =~= dv.skip(i + 1));
            match &directives[i] {
                Directive::RequireConfirm(m) => {
                    return Some(m.clone());
                },
                _ => {},
            }
            i += 1;
        }
        assert(dv.skip(i as int) =~= Seq::<DirectiveV>::empty());
        None
    }

    /// The path and format of the first `logs` directive, if any.
    pub fn get_logs_directive(directives: &[Directive]) -> (r: Option<(String, String)>)
        ensures
            ({
                let dv = directives@.map_values(|d: Directive| d@);
                let i = first_where(dv, |d: DirectiveV| d is Logs);
                match r {
                    Some(p) => 0 <= i < dv.len() && p.0@ == dv[i]->Logs_0 && p.1@ == dv[i]->Logs_1,
                    None => !(0 <= i < dv.len()),
                }
            }),
    {
        let ghost dv = directives@.map_values(|d: Directive| d@);
        let ghost f = |d: DirectiveV| d is Logs;
        let mut i: usize = 0;
        assert(dv.skip(0) =~= dv);
        while i < directives.len()
            invariant
                i <= directives@.len(),
                dv == directives@.map_values(|d: Directive| d@),
                f == |d: DirectiveV| d is Logs,
                first_where(dv, f) == if first_where(dv.skip(i as int), f) < 0 {
                    -1
                } else {
                    first_where(dv.skip(i as int), f) + i
                },
            decreases directives.len() - i,
        {
            assert(dv.skip(i as int)[0] == directives@[i as int]@);
            assert(dv.skip(i as int).drop_first() =~= dv.skip(i + 1));
            match &directives[i] {
                Directive::Logs(p, fm) => {
                    return Some((p.clone(), fm.clone()));
                },
                _ => {},
            }
            i += 1;
        }
        assert(dv.skip(i as int) =~= Seq::<DirectiveV>::empty());
        None
    }

    /// The target and rule of every `validate` directive, in order.
    pub fn get_validate_directives(directives: &[Directive]) -> (r: Vec<(String, String)>)
        ensures
            r@.map_values(|p: (String, String)| (p.0@, p.1@)) == validations(
                directives@.map_values(|d: Directive| d@),
            ),
    {
        let ghost dv = directives@.map_values(|d: Directive| d@);
        let mut r: Vec<(String, String)> = Vec::new();
        let mut i: usize = 0;
        assert(dv.take(0) =~= Seq::<DirectiveV>::empty());
        assert(r@.map_values(|p: (String, String)| (p.0@, p.1@)) =~= Seq::<(Seq<char>, Seq<char>)>::empty());
        while i < directives.len()
            invariant
                i <= directives@.len(),
                dv == directives@.map_values(|d: Directive| d@),
                r@.map_values(|p: (String, String)| (p.0@, p.1@)) == validations(dv.take(i as int)),
            decreases directives.len() - i,
        {
            assert(dv.take(i + 1).drop_last() =~= dv.take(i as int));
            assert(dv.take(i + 1).last() == directives@[i as int]@);
            let ghost before = r@.map_values(|p: (String, String)| (p.0@, p.1@));
            match &directives[i] {
                Directive::Validate(t, rule) => {
                    r.push((t.clone(), rule.clone()));
                    assert(r@.map_values(|p: (String, String)| (p.0@, p.1@)) =~= before.push(
                        (t@, rule@),
                    ));
                },
                _ => {},
            }
            i += 1;
        }
        assert(dv.take(directives@.len() as int) =~= dv);
        r
    }
}

/// The directive `d` is a variant under `name` for the host's OS: it
/// answers to `name`, names an OS, and that OS matches the host.
pub open spec fn os_variant(d: DirectiveV, name: Seq<char>, host_os: Seq<char>, unix: bool) -> bool {
    &&& hide_entry(d).3 == name
    &&& hide_entry(d).1 is Some
    &&& os_matches(hide_entry(d).1, host_os, unix)
}

/// A directive naming an OS offers a value, and answers to the same name
/// for values as for values with their hide flag.
proof fn lemma_os_entry(d: DirectiveV)
    ensures
        hide_entry(d).1 is Some ==> hide_entry(d).0 is Some && directive_entry(d).0 == hide_entry(d).0
            && directive_entry(d).1 == hide_entry(d).1 && directive_entry(d).2 == hide_entry(d).3,
        directive_entry(d).1 is Some ==> hide_entry(d).1 == directive_entry(d).1,
{
}

proof fn lemma_best_hidden_os(ds: Seq<DirectiveV>, name: Seq<char>, host_os: Seq<char>, unix: bool)
    ensures
        0 <= best_hidden(ds, name, host_os, unix).1 <= 2,
        (exists|j: int| 0 <= j < ds.len() && #[trigger] os_variant(ds[j], name, host_os, unix))
            <==> best_hidden(ds, name, host_os, unix).1 == 2,
        best_hidden(ds, name, host_os, unix).1 == 2 ==> exists|j: int|
            0 <= j < ds.len() && #[trigger] os_variant(ds[j], name, host_os, unix)
                && best_hidden(ds, name, host_os, unix).0 == Some(
                (hide_entry(ds[j]).0->0, hide_entry(ds[j]).2),
            ),
    decreases ds.len(),
{
    if ds.len() > 0 {
        let init = ds.drop_last();
        lemma_best_hidden_os(init, name, host_os, unix);
        let last = ds.len() - 1;
        let e = ds[last];
        assert(ds.last() == e);
        lemma_os_entry(e);
        let (b, sc) = best_hidden(init, name, host_os, unix);
        let r = best_hidden(ds, name, host_os, unix);
        let ex_init = exists|j: int| 0 <= j < init.len() && #[trigger] os_variant(init[j], name, host_os, unix);
        let ex = exists|j: int| 0 <= j < ds.len() && #[trigger] os_variant(ds[j], name, host_os, unix);
        if ex_init {
            let j = choose|j: int| 0 <= j < init.len() && #[trigger] os_variant(init[j], name, host_os, unix);
            assert(init[j] == ds[j]);
            assert(os_variant(ds[j], name, host_os, unix));
        }
        if ex && !os_variant(e, name, host_os, unix) {
            let j = choose|j: int| 0 <= j < ds.len() && #[trigger] os_variant(ds[j], name, host_os, unix);
            assert(j < init.len());
            assert(init[j] == ds[j]);
            assert(os_variant(init[j], name, host_os, unix));
        }
        if os_variant(e, name, host_os, unix) {
            assert(r == (Some((hide_entry(e).0->0, hide_entry(e).2)), 2int));
            assert(os_variant(ds[last], name, host_os, unix));
        } else {
            if sc == 2 {
                assert(r == (b, sc));
                let j = choose|j: int|
                    0 <= j < init.len() && #[trigger] os_variant(init[j], name, host_os, unix) && b == Some(
                        (hide_entry(init[j]).0->0, hide_entry(init[j]).2),
                    );
                assert(init[j] == ds[j]);
                assert(os_variant(ds[j], name, host_os, unix));
            }
        }
    }
}

/// The directive `d` offers a value under `name` for the host's OS.
pub open spec fn os_value_variant(d: DirectiveV, name: Seq<char>, host_os: Seq<char>, unix: bool) -> bool {
    &&& directive_entry(d).2 == name
    &&& directive_entry(d).1 is Some
    &&& os_matches(directive_entry(d).1, host_os, unix)
}

proof fn lemma_best_value_os(ds: Seq<DirectiveV>, name: Seq<char>, host_os: Seq<char>, unix: bool)
    ensures
        0 <= best_value(ds, name, host_os, unix).1 <= 2,
        (exists|j: int| 0 <= j < ds.len() && #[trigger] os_value_variant(ds[j], name, host_os, unix))
            <==> best_value(ds, name, host_os, unix).1 == 2,
        best_value(ds, name, host_os, unix).1 == 2 ==> exists|j: int|
            0 <= j < ds.len() && #[trigger] os_value_variant(ds[j], name, host_os, unix)
                && best_value(ds, name, host_os, unix).0 == directive_entry(ds[j]).0,
    decreases ds.len(),
{
    if ds.len() > 0 {
        let init = ds.drop_last();
        lemma_best_value_os(init, name, host_os, unix);
        let last = ds.len() - 1;
        let e = ds[last];
        assert(ds.last() == e);
        let (b, sc) = best_value(init, name, host_os, unix);
        let r = best_value(ds, name, host_os, unix);
        let ex_init = exists|j: int| 0 <= j < init.len() && #[trigger] os_value_variant(init[j], name, host_os, unix);
        let ex = exists|j: int| 0 <= j < ds.len() && #[trigger] os_value_variant(ds[j], name, host_os, unix);
        if ex_init {
            let j = choose|j: int| 0 <= j < init.len() && #[trigger] os_value_variant(init[j], name, host_os, unix);
            assert(init[j] == ds[j]);
            assert(os_value_variant(ds[j], name, host_os, unix));
        }
        if ex && !os_value_variant(e, name, host_os, unix) {
            let j = choose|j: int| 0 <= j < ds.len() && #[trigger] os_value_variant(ds[j], name, host_os, unix);
            assert(j < init.len());
            assert(init[j] == ds[j]);
            assert(os_value_variant(init[j], name, host_os, unix));
        }
        if os_value_variant(e, name, host_os, unix) {
            assert(r == (directive_entry(e).0, 2int));
            assert(os_value_variant(ds[last], name, host_os, unix));
        } else {
            if sc == 2 {
                assert(r == (b, sc));
                let j = choose|j: int|
                    0 <= j < init.len() && #[trigger] os_value_variant(init[j], name, host_os, unix) && b
                        == directive_entry(init[j]).0;
                assert(init[j] == ds[j]);
                assert(os_value_variant(ds[j], name, host_os, unix));
            }
        }
    }
}

/// Law (an OS-specific variant wins): where some directive under `name`
/// names the host's OS, the value and hide flag found under `name` are
/// those of such a directive, and so is the value found without the flag;
/// a general directive (with no OS), before or after it, never beats it.
pub proof fn lemma_os_variant_wins(ds: Seq<DirectiveV>, name: Seq<char>, host_os: Seq<char>, unix: bool, i: int)
    requires
        0 <= i < ds.len(),
        os_variant(ds[i], name, host_os, unix),
    ensures
        exists|j: int|
            0 <= j < ds.len() && #[trigger] os_variant(ds[j], name, host_os, unix)
                && best_hidden(ds, name, host_os, unix).0 == Some(
                (hide_entry(ds[j]).0->0, hide_entry(ds[j]).2),
            ),
        exists|j: int|
            0 <= j < ds.len() && #[trigger] os_value_variant(ds[j], name, host_os, unix)
                && best_value(ds, name, host_os, unix).0 == directive_entry(ds[j]).0,
{
    lemma_best_hidden_os(ds, name, host_os, unix);
    lemma_best_value_os(ds, name, host_os, unix);
    lemma_os_entry(ds[i]);
    assert(os_value_variant(ds[i], name, host_os, unix));
}

} // verus!
