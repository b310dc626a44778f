//! Environment variables for command execution: those that directives set
//! or load from `.env` files, the exported Nest variables, and the
//! expansion of `$VAR`, `${VAR}` and `${VAR:-default}` references.
//!
//! The library reads no files and no process environment: the contents of
//! the `.env` files and a snapshot of the system environment are handed to
//! it.

use vstd::prelude::*;
use crate::ast::{ArgMap, Constant, Directive, DirectiveV, Variable, assoc_get, assoc_insert};
use crate::text::{
    chars_of, chars_of_string, find_char, first_pos, lines, lines_chars, push_all, slice_chars,
    string_of, strip_trailing, strip_trailing_chars, trim, trim_chars,
};

verus! {

/// Manages environment variables for command execution.
pub struct EnvironmentManager;

/// `s` without all leading occurrences of `c`.
pub open spec fn strip_leading(s: Seq<char>, c: char) -> Seq<char>
    decreases s.len(),
{
    if s.len() > 0 && s[0] == c {
        strip_leading(s.drop_first(), c)
    } else {
        s
    }
}

/// `s` without all leading and trailing occurrences of `c` (as
/// `str::trim_matches` with a character).
pub open spec fn strip_both(s: Seq<char>, c: char) -> Seq<char> {
    strip_leading(strip_trailing(s, c), c)
}

/// `v` without all leading occurrences of `c`.
fn strip_leading_chars(v: &Vec<char>, c: char) -> (out: Vec<char>)
    ensures
        out@ == strip_leading(v@, c),
{
    let mut i: usize = 0;
    assert(v@.skip(0) =~= v@);
    while i < v.len() && v[i] == c
        invariant
            i <= v.len(),
            strip_leading(v@, c) == strip_leading(v@.skip(i as int), c),
        decreases v.len() - i,
    {
        assert(v@.skip(i as int).drop_first() =~= v@.skip(i + 1));
        i += 1;
    }
    slice_chars(v, i, v.len())
}

/// The key and value of a `.env` line `KEY=value`: both trimmed, the value
/// without surrounding double and then single quotes.
pub open spec fn env_line_spec(line: Seq<char>) -> Option<(Seq<char>, Seq<char>)> {
    if line.contains('=') {
        let p = first_pos(line, '=');
        Some((trim(line.take(p)), strip_both(strip_both(trim(line.skip(p + 1)), '"'), '\'')))
    } else {
        None
    }
}

/// The variables of a `.env` file, added to `m`: blank lines and comments
/// are passed over, later keys overwrite earlier ones.
pub open spec fn env_file_vars(ls: Seq<Seq<char>>, m: Seq<(Seq<char>, Seq<char>)>) -> Seq<
    (Seq<char>, Seq<char>),
>
    decreases ls.len(),
{
    if ls.len() == 0 {
        m
    } else {
        let t = trim(ls[0]);
        let m1 = if t.len() == 0 || t[0] == '#' {
            m
        } else {
            match env_line_spec(t) {
                Some(kv) => assoc_insert(m, kv.0, kv.1),
                None => m,
            }
        };
        env_file_vars(ls.drop_first(), m1)
    }
}

/// The environment that the directives give, added to `m`: `env: K=V`
/// sets `K` to `V` with its `$VAR` / `${VAR:-default}` references resolved
/// (against what is set so far, then the system environment `sys`);
/// `env: path` loads the file's variables where its content is known
/// (`files` maps paths to contents).
pub open spec fn directive_env(
    ds: Seq<DirectiveV>,
    files: Seq<(Seq<char>, Seq<char>)>,
    sys: Seq<(Seq<char>, Seq<char>)>,
    m: Seq<(Seq<char>, Seq<char>)>,
) -> Seq<(Seq<char>, Seq<char>)>
    decreases ds.len(),
{
    if ds.len() == 0 {
        m
    } else {
        let m1 = match ds[0] {
            DirectiveV::Env(k, v, _) => assoc_insert(m, k, resolve_spec(v, m, sys)),
            DirectiveV::EnvFile(p, _) => match assoc_get(files, p) {
                Some(c) => env_file_vars(lines(c), m),
                None => m,
            },
            _ => m,
        };
        directive_env(ds.drop_first(), files, sys, m1)
    }
}

impl EnvironmentManager {
    /// The key and value of a `.env` line `KEY=value`, if it has a `=`.
    pub fn parse_env_line(line: &str) -> (r: Option<(String, String)>)
        ensures
            match r {
                Some(kv) => env_line_spec(line@) == Some((kv.0@, kv.1@)),
                None => env_line_spec(line@) is None,
            },
    {
        let v = chars_of(line);
        match find_char(&v, '=') {
            Some(p) => {
                assert(v@.contains('=')) by {
                    assert(v@[p as int] == '=');
                }
                let key = trim_chars(&slice_chars(&v, 0, p));
                let rest = slice_chars(&v, p + 1, v.len());
                assert(rest@ == v@.skip(p + 1));
                let t = trim_chars(&rest);
                let a = strip_leading_chars(&strip_trailing_chars(&t, '"'), '"');
                let b = strip_leading_chars(&strip_trailing_chars(&a, '\''), '\'');
                Some((string_of(&key), string_of(&b)))
            },
            None => None,
        }
    }

    /// Adds the variables of a `.env` file's content to `env_vars`.
    pub fn load_from_content(content: &String, env_vars: &mut ArgMap)
        ensures
            final(env_vars).entries_view() == env_file_vars(
                lines(content@),
                old(env_vars).entries_view(),
            ),
    {
        let c = chars_of_string(content);
        let ls = lines_chars(&c);
        let ghost lv = ls@.map_values(|x: Vec<char>| x@);
        let mut i: usize = 0;
        assert(lv.skip(0) =~= lv);
        while i < ls.len()
            invariant
                i <= ls@.len(),
                lv == ls@.map_values(|x: Vec<char>| x@),
                lv == lines(content@),
                env_file_vars(lines(content@), old(env_vars).entries_view()) == env_file_vars(
                    lv.skip(i as int),
                    env_vars.entries_view(),
                ),
            decreases ls.len() - i,
        {
            assert(lv.skip(i as int)[0] == ls@[i as int]@);
            assert(lv.skip(i as int).drop_first() =~= lv.skip(i + 1));
            let t = trim_chars(&ls[i]);
            if !(t.len() == 0 || t[0] == '#') {
                let ts = string_of(&t);
                match Self::parse_env_line(ts.as_str()) {
                    Some((k, v)) => {
                        env_vars.insert(k, v);
                    },
                    None => {},
                }
            }
            i += 1;
        }
        assert(lv.skip(ls@.len() as int) =~= Seq::<Seq<char>>::empty());
    }

    /// The paths of the `.env` files that the directives load, in order.
    pub fn env_file_paths(directives: &[Directive]) -> (r: Vec<String>)
        ensures
            r@.map_values(|s: String| s@) == env_paths(directives@.map_values(|d: Directive| d@)),
    {
        let ghost dv = directives@.map_values(|d: Directive| d@);
        let mut r: Vec<String> = Vec::new();
        let mut i: usize = 0;
        assert(dv.take(0) =~= Seq::<DirectiveV>::empty());
        assert(r@.map_values(|s: String| s@) =~= Seq::<Seq<char>>::empty());
        while i < directives.len()
            invariant
                i <= directives@.len(),
                dv == directives@.map_values(|d: Directive| d@),
                r@.map_values(|s: String| s@) == env_paths(dv.take(i as int)),
            decreases directives.len() - i,
        {
            assert(dv.take(i + 1).drop_last() =~= dv.take(i as int));
            assert(dv.take(i + 1).last() == directives@[i as int]@);
            let ghost before = r@.map_values(|s: String| s@);
            match &directives[i] {
                Directive::EnvFile(p, _) => {
                    r.push(p.clone());
                    assert(r@.map_values(|s: String| s@) =~= before.push(p@));
                },
                _ => {},
            }
            i += 1;
        }
        assert(dv.take(directives@.len() as int) =~= dv);
        r
    }

    /// Extracts the environment variables that the directives set: `env:
    /// K=V` sets `K` (its `$VAR` / `${VAR:-default}` references resolved
    /// against the variables set so far, then the system environment
    /// `system`), `env: path` loads the `.env` file at `path` (whose content
    /// `files` holds where it could be read); later settings overwrite
    /// earlier ones.
    pub fn extract_env_vars(directives: &[Directive], files: &ArgMap, system: &ArgMap) -> (m: ArgMap)
        ensures
            m.entries_view() == directive_env(
                directives@.map_values(|d: Directive| d@),
                files.entries_view(),
                system.entries_view(),
                Seq::empty(),
            ),
    {
        let ghost dv = directives@.map_values(|d: Directive| d@);
        let mut m = ArgMap::new();
        let mut i: usize = 0;
        assert(dv.skip(0) =~= dv);
        while i < directives.len()
            invariant
                i <= directives@.len(),
                dv == directives@.map_values(|d: Directive| d@),
                directive_env(dv, files.entries_view(), system.entries_view(), Seq::empty()) == directive_env(
                    dv.skip(i as int),
                    files.entries_view(),
                    system.entries_view(),
                    m.entries_view(),
                ),
            decreases directives.len() - i,
        {
            assert(dv.skip(i as int)[0] == directives@[i as int]@);
            assert(dv.skip(i as int).drop_first() =~= dv.skip(i + 1));
            match &directives[i] {
                Directive::Env(k, v, _) => {
                    let resolved = Self::resolve_env_value(v.as_str(), &m, system);
                    m.insert(k.clone(), resolved);
                },
                Directive::EnvFile(p, _) => {
                    match files.get(p.as_str()) {
                        Some(c) => {
                            Self::load_from_content(c, &mut m);
                        },
                        None => {},
                    }
                },
                _ => {},
            }
            i += 1;
        }
        assert(dv.skip(directives@.len() as int) =~= Seq::<DirectiveV>::empty());
        m
    }

    /// Exports all Nest constants, then all variables, to `env_vars`, so
    /// that a variable wins over a constant of the same name.
    pub fn export_all_vars(env_vars: &mut ArgMap, variables: &[Variable], constants: &[Constant])
        ensures
            final(env_vars).entries_view() == insert_all(
                insert_all(
                    old(env_vars).entries_view(),
                    constants@.map_values(|c: Constant| c@),
                ),
                variables@.map_values(|v: Variable| v@),
            ),
    {
        let ghost vv = variables@.map_values(|v: Variable| v@);
        let ghost cv = constants@.map_values(|c: Constant| c@);
        let ghost m0 = env_vars.entries_view();
        let mut j: usize = 0;
        assert(cv.take(0) =~= Seq::<(Seq<char>, Seq<char>)>::empty());
        while j < constants.len()
            invariant
                j <= constants@.len(),
                cv == constants@.map_values(|c: Constant| c@),
                env_vars.entries_view() == insert_all(m0, cv.take(j as int)),
            decreases constants.len() - j,
        {
            assert(cv.take(j + 1).drop_last() =~= cv.take(j as int));
            assert(cv.take(j + 1).last() == constants@[j as int]@);
            env_vars.insert(constants[j].name.clone(), constants[j].value.clone());
            j += 1;
        }
        assert(cv.take(constants@.len() as int) =~= cv);
        let ghost m1 = env_vars.entries_view();
        let mut i: usize = 0;
        assert(vv.take(0) =~= Seq::<(Seq<char>, Seq<char>)>::empty());
        while i < variables.len()
            invariant
                i <= variables@.len(),
                vv == variables@.map_values(|v: Variable| v@),
                env_vars.entries_view() == insert_all(m1, vv.take(i as int)),
            decreases variables.len() - i,
        {
            assert(vv.take(i + 1).drop_last() =~= vv.take(i as int));
            assert(vv.take(i + 1).last() == variables@[i as int]@);
            env_vars.insert(variables[i].name.clone(), variables[i].value.clone());
            i += 1;
        }
        assert(vv.take(variables@.len() as int) =~= vv);
    }
}

/// The paths that the env-file directives name, in order.
pub open spec fn env_paths(ds: Seq<DirectiveV>) -> Seq<Seq<char>>
    decreases ds.len(),
{
    if ds.len() == 0 {
        Seq::empty()
    } else {
        let rest = env_paths(ds.drop_last());
        match ds.last() {
            DirectiveV::EnvFile(p, _) => rest.push(p),
            _ => rest,
        }
    }
}

/// The map `m` with each pair of `kvs` inserted in order.
pub open spec fn insert_all(m: Seq<(Seq<char>, Seq<char>)>, kvs: Seq<(Seq<char>, Seq<char>)>) -> Seq<
    (Seq<char>, Seq<char>),
>
    decreases kvs.len(),
{
    if kvs.len() == 0 {
        m
    } else {
        assoc_insert(insert_all(m, kvs.drop_last()), kvs.last().0, kvs.last().1)
    }
}

/// What `char::is_alphanumeric` gives for a character (Unicode letters
/// and numbers).
pub uninterp spec fn is_alnum(c: char) -> bool;

/// `char::is_alphanumeric`.
#[verifier::external_body]
pub(crate) fn char_alphanumeric(c: char) -> (r: bool)
    ensures
        r == is_alnum(c),
{
    c.is_alphanumeric()
}

/// The value of variable `n`: from the loaded variables, else from the
/// system environment, else `dflt`.
pub open spec fn lookup_var(
    n: Seq<char>,
    vars: Seq<(Seq<char>, Seq<char>)>,
    sys: Seq<(Seq<char>, Seq<char>)>,
    dflt: Seq<char>,
) -> Seq<char> {
    match assoc_get(vars, n) {
        Some(v) => v,
        None => match assoc_get(sys, n) {
            Some(v) => v,
            None => dflt,
        },
    }
}

/// The name and fallback text of a `${...}` reference whose text after
/// `${` is `t`, and how many characters the reference takes after `${`
/// (up to and with the closing `}`, or to the end).
pub open spec fn brace_scan(t: Seq<char>, name: Seq<char>, fb: Seq<char>, in_fb: bool, used: int) -> (
    Seq<char>,
    Seq<char>,
    int,
)
    decreases t.len() - used,
{
    if used < 0 || used >= t.len() {
        (name, fb, used)
    } else {
        let c = t[used];
        if c == '}' {
            (name, fb, used + 1)
        } else if !in_fb && c == ':' && used + 1 < t.len() && t[used + 1] == '-' {
            brace_scan(t, name, fb, true, used + 2)
        } else if in_fb {
            brace_scan(t, name, fb.push(c), in_fb, used + 1)
        } else {
            brace_scan(t, name.push(c), fb, in_fb, used + 1)
        }
    }
}

/// The length of the run of name characters (letters, digits, `_`) at the
/// start of `t`.
pub open spec fn name_len(t: Seq<char>) -> nat
    decreases t.len(),
{
    if t.len() > 0 && (is_alnum(t[0]) || t[0] == '_') {
        1 + name_len(t.drop_first())
    } else {
        0
    }
}

/// The text `s` with its variable references expanded: `${NAME:-default}`
/// and `${NAME}` (an empty name gives `${}`), and `$NAME` (a `$` followed by
/// no name stays).
pub open spec fn resolve_spec(
    s: Seq<char>,
    vars: Seq<(Seq<char>, Seq<char>)>,
    sys: Seq<(Seq<char>, Seq<char>)>,
) -> Seq<char>
    decreases s.len(),
{
    if s.len() == 0 {
        Seq::empty()
    } else if s[0] == '$' {
        if s.len() > 1 && s[1] == '{' {
            let t = s.skip(2);
            let (name, fb, used) = brace_scan(t, Seq::empty(), Seq::empty(), false, 0);
            let r = if name.len() > 0 { lookup_var(name, vars, sys, fb) } else { "${"@ + name + "}"@ };
            if 0 <= used <= t.len() {
                r + resolve_spec(t.skip(used), vars, sys)
            } else {
                r
            }
        } else {
            let n = name_len(s.drop_first()) as int;
            proof {
                lemma_name_len_bound(s.drop_first());
            }
            if n > 0 {
                lookup_var(s.subrange(1, 1 + n), vars, sys, Seq::empty()) + resolve_spec(
                    s.skip(1 + n),
                    vars,
                    sys,
                )
            } else {
                seq!['$'] + resolve_spec(s.drop_first(), vars, sys)
            }
        }
    } else {
        seq![s[0]] + resolve_spec(s.drop_first(), vars, sys)
    }
}

pub proof fn lemma_brace_scan_bound(t: Seq<char>, name: Seq<char>, fb: Seq<char>, in_fb: bool, used: int)
    requires
        0 <= used <= t.len(),
    ensures
        used <= brace_scan(t, name, fb, in_fb, used).2 <= t.len(),
    decreases t.len() - used,
{
    if used < t.len() {
        let c = t[used];
        if c == '}' {
        } else if !in_fb && c == ':' && used + 1 < t.len() && t[used + 1] == '-' {
            lemma_brace_scan_bound(t, name, fb, true, used + 2);
        } else if in_fb {
            lemma_brace_scan_bound(t, name, fb.push(c), in_fb, used + 1);
        } else {
            lemma_brace_scan_bound(t, name.push(c), fb, in_fb, used + 1);
        }
    }
}

pub proof fn lemma_name_len_bound(t: Seq<char>)
    ensures
        name_len(t) <= t.len(),
    decreases t.len(),
{
    if t.len() > 0 && (is_alnum(t[0]) || t[0] == '_') {
        lemma_name_len_bound(t.drop_first());
    }
}

impl EnvironmentManager {
    /// Resolves variable references in a value: `${VAR:-default}`,
    /// `${VAR}` and `$VAR` take the variable from `env_vars`, else from the
    /// system environment `system`, else the default (empty without one).
    pub fn resolve_env_value(value: &str, env_vars: &ArgMap, system: &ArgMap) -> (r: String)
        ensures
            r@ == resolve_spec(value@, env_vars.entries_view(), system.entries_view()),
    {
        let v = chars_of(value);
        let ghost vars = env_vars.entries_view();
        let ghost sys = system.entries_view();
        let mut out: Vec<char> = Vec::new();
        let mut i: usize = 0;
        assert(v@.skip(0) =~= v@);
        assert(out@ =~= Seq::<char>::empty());
        while i < v.len()
            invariant
                i <= v.len(),
                v@ == value@,
                vars == env_vars.entries_view(),
                sys == system.entries_view(),
                resolve_spec(value@, vars, sys) == out@ + resolve_spec(v@.skip(i as int), vars, sys),
            decreases v.len() - i,
        {
            let ghost s = v@.skip(i as int);
            let ghost before = out@;
            assert(s[0] == v[i as int]);
            if v[i] == '$' {
                if i + 1 < v.len() && v[i + 1] == '{' {
                    assert(s[1] == v[i + 1]);
                    let start = i + 2;
                    let ghost t = s.skip(2);
                    assert(t =~= v@.skip(start as int));
                    let mut name: Vec<char> = Vec::new();
                    let mut fb: Vec<char> = Vec::new();
                    let mut in_fb = false;
                    let mut j: usize = start;
                    let mut closed = false;
                    while !closed && j < v.len()
                        invariant
                            start <= j <= v.len(),
                            t =~= v@.skip(start as int),
                            !closed ==> brace_scan(t, Seq::empty(), Seq::empty(), false, 0)
                                == brace_scan(t, name@, fb@, in_fb, j - start),
                            closed ==> brace_scan(t, Seq::empty(), Seq::empty(), false, 0) == (
                                name@,
                                fb@,
                                j - start,
                            ),
                        decreases v.len() - j,
                    {
                        let c = v[j];
                        assert(t[j - start] == c);
                        if c == '}' {
                            closed = true;
                            j = j + 1;
                        } else if !in_fb && c == ':' && j + 1 < v.len() && v[j + 1] == '-' {
                            assert(t[j + 1 - start] == v[j + 1]);
                            in_fb = true;
                            j = j + 2;
                        } else if in_fb {
                            fb.push(c);
                            j = j + 1;
                        } else {
                            name.push(c);
                            j = j + 1;
                        }
                    }
                    proof {
                        lemma_brace_scan_bound(t, Seq::empty(), Seq::empty(), false, 0);
                    }
                    if name.len() > 0 {
                        let ns = string_of(&name);
                        let val = match env_vars.get(ns.as_str()) {
                            Some(x) => chars_of_string(x),
                            None => match system.get(ns.as_str()) {
                                Some(x) => chars_of_string(x),
                                None => fb,
                            },
                        };
                        push_all(&mut out, &val);
                    } else {
                        push_all(&mut out, &chars_of("${"));
                        push_all(&mut out, &name);
                        push_all(&mut out, &chars_of("}"));
                    }
                    assert(t.skip(j - start) =~= v@.skip(j as int));
                    i = j;
                } else {
                    let mut j: usize = i + 1;
                    assert(s.drop_first() =~= v@.skip(i + 1));
                    while j < v.len() && (char_alphanumeric(v[j]) || v[j] == '_')
                        invariant
                            i + 1 <= j <= v.len(),
                            name_len(v@.skip(i + 1)) == (j - (i + 1)) + name_len(v@.skip(j as int)),
                        decreases v.len() - j,
                    {
                        assert(v@.skip(j as int)[0] == v[j as int]);
                        assert(v@.skip(j as int).drop_first() =~= v@.skip(j + 1));
                        j = j + 1;
                    }
                    proof {
                        if j < v.len() {
                            assert(v@.skip(j as int)[0] == v[j as int]);
                        }
                    }
                    if j > i + 1 {
                        let name = slice_chars(&v, i + 1, j);
                        assert(name@ == s.subrange(1, 1 + (j - (i + 1))));
                        let ns = string_of(&name);
                        let val = match env_vars.get(ns.as_str()) {
                            Some(x) => chars_of_string(x),
                            None => match system.get(ns.as_str()) {
                                Some(x) => chars_of_string(x),
                                None => Vec::new(),
                            },
                        };
                        push_all(&mut out, &val);
                        assert(s.skip(1 + (j - (i + 1))) =~= v@.skip(j as int));
                        i = j;
                    } else {
                        out.push('$');
                        assert(out@ =~= before + seq!['$']);
                        i = i + 1;
                    }
                }
            } else {
                out.push(v[i]);
                assert(out@ =~= before + seq![s[0]]);
                assert(s.drop_first() =~= v@.skip(i + 1));
                i = i + 1;
            }
        }
        assert(v@.skip(v.len() as int) =~= Seq::<char>::empty());
        assert(out@ + Seq::<char>::empty() =~= out@);
        string_of(&out)
    }
}

/// A name followed by a character that cannot continue it is read whole.
proof fn lemma_name_len_of(n: Seq<char>, rest: Seq<char>)
    requires
        forall|i: int| 0 <= i < n.len() ==> is_alnum(#[trigger] n[i]) || n[i] == '_',
        rest.len() == 0 || !(is_alnum(rest[0]) || rest[0] == '_'),
    ensures
        name_len(n + rest) == n.len(),
    decreases n.len(),
{
    if n.len() > 0 {
        assert((n + rest).drop_first() =~= n.drop_first() + rest);
        lemma_name_len_of(n.drop_first(), rest);
    } else {
        assert(n + rest =~= rest);
    }
}

/// Law (an unbraced reference): `$NAME`, where `NAME` is a run of name
/// characters (letters, digits, `_`; not `{`) not followed by another, expands to the value of `NAME`
/// among the loaded variables, else in the system environment, else to
/// nothing; in particular a loaded variable wins whatever the system
/// environment holds.
pub proof fn lemma_unbraced_reference(
    n: Seq<char>,
    rest: Seq<char>,
    vars: Seq<(Seq<char>, Seq<char>)>,
    sys: Seq<(Seq<char>, Seq<char>)>,
)
    requires
        n.len() > 0,
        n[0] != '{',
        forall|i: int| 0 <= i < n.len() ==> is_alnum(#[trigger] n[i]) || n[i] == '_',
        rest.len() == 0 || !(is_alnum(rest[0]) || rest[0] == '_'),
    ensures
        resolve_spec(seq!['$'] + n + rest, vars, sys) == lookup_var(n, vars, sys, Seq::empty())
            + resolve_spec(rest, vars, sys),
        forall|v: Seq<char>|
            assoc_get(vars, n) == Some(v) ==> #[trigger] resolve_spec(seq!['$'] + n, vars, sys) == v,
{
    let s = seq!['$'] + n + rest;
    assert(s.drop_first() =~= n + rest);
    lemma_name_len_of(n, rest);
    assert(s[0] == '$');
    assert(n[0] == s[1]);
    assert(s[1] != '{');
    assert(s.subrange(1, 1 + n.len() as int) =~= n);
    assert(s.skip(1 + n.len() as int) =~= rest);
    lemma_name_len_of(n, Seq::empty());
    let s2 = seq!['$'] + n;
    assert(s2 =~= seq!['$'] + n + Seq::<char>::empty());
    assert(s2.drop_first() =~= n + Seq::<char>::empty());
    assert(s2.subrange(1, 1 + n.len() as int) =~= n);
    assert(s2.skip(1 + n.len() as int) =~= Seq::<char>::empty());
    assert(resolve_spec(Seq::<char>::empty(), vars, sys) =~= Seq::<char>::empty());
    assert(resolve_spec(s2, vars, sys) == lookup_var(n, vars, sys, Seq::empty()) + Seq::<char>::empty());
    assert(lookup_var(n, vars, sys, Seq::empty()) + Seq::<char>::empty() =~= lookup_var(n, vars, sys, Seq::empty()));
}

/// Reading a `${...}` reference over a name without `}` and `:` gives
/// that name, no fallback, and its closing brace.
proof fn lemma_brace_scan_name(n: Seq<char>, rest: Seq<char>, k: int)
    requires
        0 <= k <= n.len(),
        forall|i: int| 0 <= i < n.len() ==> #[trigger] n[i] != '}' && n[i] != ':',
    ensures
        brace_scan(n + seq!['}'] + rest, n.take(k), Seq::empty(), false, k) == (
            n,
            Seq::<char>::empty(),
            n.len() as int + 1,
        ),
    decreases n.len() - k,
{
    let t = n + seq!['}'] + rest;
    if k < n.len() {
        assert(t[k] == n[k]);
        assert(n.take(k).push(n[k]) =~= n.take(k + 1));
        lemma_brace_scan_name(n, rest, k + 1);
    } else {
        assert(t[k] == '}');
        assert(n.take(k) =~= n);
    }
}

/// Law (a braced reference): `${NAME}`, where `NAME` is not empty and
/// holds no `}` and no `:`, expands to the value of `NAME` among the
/// loaded variables, else in the system environment, else to nothing; so
/// `$NAME` and `${NAME}` expand alike when `NAME` is a name.
pub proof fn lemma_braced_reference(
    n: Seq<char>,
    rest: Seq<char>,
    vars: Seq<(Seq<char>, Seq<char>)>,
    sys: Seq<(Seq<char>, Seq<char>)>,
)
    requires
        n.len() > 0,
        forall|i: int| 0 <= i < n.len() ==> #[trigger] n[i] != '}' && n[i] != ':',
    ensures
        resolve_spec(seq!['$', '{'] + n + seq!['}'] + rest, vars, sys) == lookup_var(
            n,
            vars,
            sys,
            Seq::empty(),
        ) + resolve_spec(rest, vars, sys),
        n[0] != '{' && (forall|i: int| 0 <= i < n.len() ==> is_alnum(#[trigger] n[i]) || n[i] == '_') ==> resolve_spec(
            seq!['$', '{'] + n + seq!['}'],
            vars,
            sys,
        ) == resolve_spec(seq!['$'] + n, vars, sys),
{
    let s = seq!['$', '{'] + n + seq!['}'] + rest;
    let t = s.skip(2);
    assert(t =~= n + seq!['}'] + rest);
    assert(n.take(0) =~= Seq::<char>::empty());
    lemma_brace_scan_name(n, rest, 0);
    assert(t.skip(n.len() as int + 1) =~= rest);
    let s0 = seq!['$', '{'] + n + seq!['}'];
    assert(s0 =~= seq!['$', '{'] + n + seq!['}'] + Seq::<char>::empty());
    lemma_brace_scan_name(n, Seq::empty(), 0);
    assert(s0.skip(2) =~= n + seq!['}'] + Seq::<char>::empty());
    assert(s0.skip(2).skip(n.len() as int + 1) =~= Seq::<char>::empty());
    assert(resolve_spec(Seq::<char>::empty(), vars, sys) =~= Seq::<char>::empty());
    assert(lookup_var(n, vars, sys, Seq::empty()) + Seq::<char>::empty() =~= lookup_var(n, vars, sys, Seq::empty()));
    if n[0] != '{' && forall|i: int| 0 <= i < n.len() ==> is_alnum(#[trigger] n[i]) || n[i] == '_' {
        lemma_unbraced_reference(n, Seq::empty(), vars, sys);
        assert(seq!['$'] + n + Seq::<char>::empty() =~= seq!['$'] + n);
    }
}

/// Reading `${NAME:-FALLBACK}` over a name without `}` and `:` and a
/// fallback without `}` gives that name, that fallback, and the closing
/// brace.
proof fn lemma_brace_scan_fallback(n: Seq<char>, d: Seq<char>, rest: Seq<char>, k: int)
    requires
        0 <= k <= d.len(),
        forall|i: int| 0 <= i < d.len() ==> #[trigger] d[i] != '}',
    ensures
        brace_scan(n + seq![':', '-'] + d + seq!['}'] + rest, n, d.take(k), true, n.len() + 2 + k) == (
            n,
            d,
            n.len() as int + 2 + d.len() + 1,
        ),
    decreases d.len() - k,
{
    let t = n + seq![':', '-'] + d + seq!['}'] + rest;
    if k < d.len() {
        assert(t[n.len() + 2 + k] == d[k]);
        assert(d.take(k).push(d[k]) =~= d.take(k + 1));
        lemma_brace_scan_fallback(n, d, rest, k + 1);
    } else {
        assert(t[n.len() + 2 + k] == '}');
        assert(d.take(k) =~= d);
    }
}

proof fn lemma_brace_scan_name_fb(n: Seq<char>, d: Seq<char>, rest: Seq<char>, k: int)
    requires
        0 <= k <= n.len(),
        forall|i: int| 0 <= i < n.len() ==> #[trigger] n[i] != '}' && n[i] != ':',
        forall|i: int| 0 <= i < d.len() ==> #[trigger] d[i] != '}',
    ensures
        brace_scan(n + seq![':', '-'] + d + seq!['}'] + rest, n.take(k), Seq::empty(), false, k) == (
            n,
            d,
            n.len() as int + 2 + d.len() + 1,
        ),
    decreases n.len() - k,
{
    let t = n + seq![':', '-'] + d + seq!['}'] + rest;
    if k < n.len() {
        assert(t[k] == n[k]);
        assert(n.take(k).push(n[k]) =~= n.take(k + 1));
        lemma_brace_scan_name_fb(n, d, rest, k + 1);
    } else {
        assert(t[k] == ':' && t[k + 1] == '-');
        assert(n.take(k) =~= n);
        assert(d.take(0) =~= Seq::<char>::empty());
        lemma_brace_scan_fallback(n, d, rest, 0);
    }
}

/// Law (a reference with a fallback): `${NAME:-FALLBACK}`, where `NAME` is
/// not empty and holds no `}` and no `:` and `FALLBACK` holds no `}`,
/// expands to the value of `NAME` among the loaded variables, else in the
/// system environment, else to `FALLBACK`.
pub proof fn lemma_fallback_reference(
    n: Seq<char>,
    d: Seq<char>,
    rest: Seq<char>,
    vars: Seq<(Seq<char>, Seq<char>)>,
    sys: Seq<(Seq<char>, Seq<char>)>,
)
    requires
        n.len() > 0,
        forall|i: int| 0 <= i < n.len() ==> #[trigger] n[i] != '}' && n[i] != ':',
        forall|i: int| 0 <= i < d.len() ==> #[trigger] d[i] != '}',
    ensures
        resolve_spec(seq!['$', '{'] + n + seq![':', '-'] + d + seq!['}'] + rest, vars, sys) == (match assoc_get(
            vars,
            n,
        ) {
            Some(v) => v,
            None => match assoc_get(sys, n) {
                Some(v) => v,
                None => d,
            },
        }) + resolve_spec(rest, vars, sys),
{
    let s = seq!['$', '{'] + n + seq![':', '-'] + d + seq!['}'] + rest;
    let t = s.skip(2);
    assert(t =~= n + seq![':', '-'] + d + seq!['}'] + rest);
    assert(n.take(0) =~= Seq::<char>::empty());
    lemma_brace_scan_name_fb(n, d, rest, 0);
    assert(t.skip(n.len() as int + 2 + d.len() + 1) =~= rest);
}

} // verus!
