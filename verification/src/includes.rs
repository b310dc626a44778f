//! Inclusion of other Nestfiles: selecting commands from an included file
//! (`from a, b.c`), and the file-name patterns of included directories.

use vstd::prelude::*;
use crate::ast::{Command, CommandV, commands_view, lemma_commands_view, lemma_commands_view_push};
use crate::merge::{kids_depth, lemma_kids_depth, cmd_depth};
use crate::text::{chars_of, chars_of_string, string_of, split, split_from, split_chars, starts_with, ends_with, find_sub, contains_sub, trim, lines};

verus! {

/// Errors that can occur while other files are brought in.
#[derive(Debug)]
pub enum IncludeError {
    /// File or directory not found
    NotFound(String),
    /// I/O error while reading files
    IoError(String),
    /// Invalid path to bring in
    InvalidPath(String),
    /// A file brings itself in, directly or through others
    CircularInclude(String),
}

/// A selection path (`group.sub.cmd`) names the command at `p`.
pub open spec fn has_path(paths: Seq<Seq<Seq<char>>>, p: Seq<Seq<char>>) -> bool {
    exists|i: int| 0 <= i < paths.len() && #[trigger] paths[i] == p
}

/// A selection path names a command below the one at `p`.
pub open spec fn under_path(paths: Seq<Seq<Seq<char>>>, p: Seq<Seq<char>>) -> bool {
    exists|i: int|
        0 <= i < paths.len() && p.len() < paths[i].len() && #[trigger] paths[i].take(p.len() as int)
            == p
}

/// The commands `cs` (whose parent path is `prefix`) that the selection
/// paths keep: a command named by a path is kept whole, with all its
/// children; a command on the way to a named one is kept with its children
/// filtered in turn; the others are dropped.
pub open spec fn filter_spec(cs: Seq<CommandV>, paths: Seq<Seq<Seq<char>>>, prefix: Seq<Seq<char>>) -> Seq<
    CommandV,
>
    decreases kids_depth(cs), cs.len(),
{
    if cs.len() == 0 {
        Seq::empty()
    } else {
        proof {
            lemma_kids_depth(cs, 0);
            assert(cmd_depth(cs[0]) == 1 + kids_depth(cs[0].children));
        }
        let c = cs[0];
        let p = prefix.push(c.name);
        let rest = filter_spec(cs.subrange(1, cs.len() as int), paths, prefix);
        if has_path(paths, p) {
            seq![c] + rest
        } else if under_path(paths, p) {
            seq![CommandV { children: filter_spec(c.children, paths, p), ..c }] + rest
        } else {
            rest
        }
    }
}

/// The pieces of each selection path, split at `.`.
pub open spec fn split_paths(fs: Seq<&str>) -> Seq<Seq<Seq<char>>> {
    fs.map_values(|f: &str| split(f@, '.'))
}

/// Tests whether two paths are equal.
fn same_path(a: &Vec<Vec<char>>, b: &Vec<char>, prefix: &Vec<Vec<char>>) -> (r: bool)
    ensures
        r == (a@.map_values(|x: Vec<char>| x@) == prefix@.map_values(|x: Vec<char>| x@).push(b@)),
{
    let ghost av = a@.map_values(|x: Vec<char>| x@);
    let ghost pv = prefix@.map_values(|x: Vec<char>| x@).push(b@);
    if a.len() == 0 || a.len() - 1 != prefix.len() {
        assert(av.len() != pv.len());
        return false;
    }
    let mut i: usize = 0;
    while i < prefix.len()
        invariant
            a.len() == prefix.len() + 1,
            i <= prefix.len(),
            av == a@.map_values(|x: Vec<char>| x@),
            pv == prefix@.map_values(|x: Vec<char>| x@).push(b@),
            forall|j: int| 0 <= j < i ==> av[j] == pv[j],
        decreases prefix.len() - i,
    {
        if !crate::text::eq(&a[i], &prefix[i]) {
            assert(av[i as int] != pv[i as int]);
            return false;
        }
        i += 1;
    }
    let last = crate::text::eq(&a[prefix.len()], b);
    if last {
        assert(av =~= pv);
    } else {
        assert(av[prefix.len() as int] != pv[prefix.len() as int]);
    }
    last
}

/// Tests whether `a` continues past the path `prefix` then `b`.
fn extends_path(a: &Vec<Vec<char>>, b: &Vec<char>, prefix: &Vec<Vec<char>>) -> (r: bool)
    ensures
        r == ({
            let p = prefix@.map_values(|x: Vec<char>| x@).push(b@);
            let av = a@.map_values(|x: Vec<char>| x@);
            p.len() < av.len() && av.take(p.len() as int) == p
        }),
{
    let ghost av = a@.map_values(|x: Vec<char>| x@);
    let ghost pv = prefix@.map_values(|x: Vec<char>| x@).push(b@);
    if a.len() <= 1 || a.len() - 1 <= prefix.len() {
        return false;
    }
    let mut i: usize = 0;
    while i < prefix.len()
        invariant
            a.len() > prefix.len() + 1,
            i <= prefix.len(),
            av == a@.map_values(|x: Vec<char>| x@),
            pv == prefix@.map_values(|x: Vec<char>| x@).push(b@),
            forall|j: int| 0 <= j < i ==> av[j] == pv[j],
        decreases prefix.len() - i,
    {
        if !crate::text::eq(&a[i], &prefix[i]) {
            assert(av.take(pv.len() as int)[i as int] != pv[i as int]);
            return false;
        }
        i += 1;
    }
    let last = crate::text::eq(&a[prefix.len()], b);
    if last {
        assert(av.take(pv.len() as int) =~= pv);
    } else {
        assert(av.take(pv.len() as int)[prefix.len() as int] != pv[prefix.len() as int]);
    }
    last
}

/// Whether some path equals, or continues past, `prefix` then `name`.
fn path_matches(paths: &Vec<Vec<Vec<char>>>, name: &Vec<char>, prefix: &Vec<Vec<char>>) -> (r: (
    bool,
    bool,
))
    ensures
        ({
            let ps = paths@.map_values(|p: Vec<Vec<char>>| p@.map_values(|x: Vec<char>| x@));
            let p = prefix@.map_values(|x: Vec<char>| x@).push(name@);
            r.0 == has_path(ps, p) && r.1 == under_path(ps, p)
        }),
{
    let ghost ps = paths@.map_values(|p: Vec<Vec<char>>| p@.map_values(|x: Vec<char>| x@));
    let ghost p = prefix@.map_values(|x: Vec<char>| x@).push(name@);
    let mut exact = false;
    let mut below = false;
    let mut i: usize = 0;
    while i < paths.len()
        invariant
            i <= paths.len(),
            ps == paths@.map_values(|p: Vec<Vec<char>>| p@.map_values(|x: Vec<char>| x@)),
            p == prefix@.map_values(|x: Vec<char>| x@).push(name@),
            exact == exists|j: int| 0 <= j < i && #[trigger] ps[j] == p,
            below == exists|j: int|
                0 <= j < i && p.len() < ps[j].len() && #[trigger] ps[j].take(p.len() as int) == p,
        decreases paths.len() - i,
    {
        assert(ps[i as int] == paths@[i as int]@.map_values(|x: Vec<char>| x@));
        if same_path(&paths[i], name, prefix) {
            exact = true;
        }
        if extends_path(&paths[i], name, prefix) {
            below = true;
        }
        i += 1;
    }
    (exact, below)
}

/// Filters the commands whose parent path is `prefix`.
fn filter_commands_recursive(
    commands: Vec<Command>,
    paths: &Vec<Vec<Vec<char>>>,
    prefix: &Vec<Vec<char>>,
) -> (out: Vec<Command>)
    ensures
        commands_view(out@) == filter_spec(
            commands_view(commands@),
            paths@.map_values(|p: Vec<Vec<char>>| p@.map_values(|x: Vec<char>| x@)),
            prefix@.map_values(|x: Vec<char>| x@),
        ),
    decreases kids_depth(commands_view(commands@)),
{
    let ghost ps = paths@.map_values(|p: Vec<Vec<char>>| p@.map_values(|x: Vec<char>| x@));
    let ghost pre = prefix@.map_values(|x: Vec<char>| x@);
    let ghost cv = commands_view(commands@);
    let ghost target = filter_spec(cv, ps, pre);
    proof {
        lemma_kids_depth(cv, 0);
        lemma_commands_view(commands@);
    }
    let mut rest = commands;
    let mut out: Vec<Command> = Vec::new();
    assert(commands_view(out@) =~= Seq::<CommandV>::empty());
    assert(cv =~= commands_view(rest@));
    while rest.len() > 0
        invariant
            cv == commands_view(commands@),
            target == commands_view(out@) + filter_spec(commands_view(rest@), ps, pre),
            kids_depth(commands_view(rest@)) <= kids_depth(cv),
            ps == paths@.map_values(|p: Vec<Vec<char>>| p@.map_values(|x: Vec<char>| x@)),
            pre == prefix@.map_values(|x: Vec<char>| x@),
        decreases rest.len(),
    {
        let ghost rv = commands_view(rest@);
        let ghost ov = commands_view(out@);
        proof {
            lemma_commands_view(rest@);
        }
        let c = rest.remove(0);
        proof {
            lemma_commands_view(rest@);
            assert(commands_view(rest@) =~= rv.subrange(1, rv.len() as int));
            assert(rv[0] == c@);
            lemma_kids_depth(rv, 0);
        }
        let ghost p = pre.push(c.name@);
        let name = crate::text::chars_of_string(&c.name);
        let (exact, below) = path_matches(paths, &name, prefix);
        let ghost tail = filter_spec(commands_view(rest@), ps, pre);
        if exact {
            proof {
                lemma_commands_view_push(out@, c);
                assert(ov.push(c@) + tail =~= ov + (seq![c@] + tail));
            }
            out.push(c);
        } else if below {
            let Command {
                name: cname,
                parameters,
                directives,
                children,
                has_wildcard,
                local_variables,
                local_constants,
                source_file,
            } = c;
            let mut sub = prefix.clone();
            sub.push(name);
            proof {
                assert(sub@.map_values(|x: Vec<char>| x@) =~= p);
                assert(cmd_depth(rv[0]) <= kids_depth(rv));
            }
            let kids = filter_commands_recursive(children, paths, &sub);
            let nc = Command {
                name: cname,
                parameters,
                directives,
                children: kids,
                has_wildcard,
                local_variables,
                local_constants,
                source_file,
            };
            proof {
                lemma_commands_view_push(out@, nc);
                assert(ov.push(nc@) + tail =~= ov + (seq![nc@] + tail));
            }
            out.push(nc);
        } else {
        }
    }
    assert(commands_view(out@) + Seq::<CommandV>::empty() =~= commands_view(out@));
    out
}

/// Filters a list of commands by selection paths: `cmd` selects `cmd` with
/// all its children; `group.cmd` keeps `group` with only `cmd` (and what
/// the other paths select) among its children.
pub fn filter_commands(commands: Vec<Command>, filter_paths: &[&str]) -> (r: Result<
    Vec<Command>,
    String,
>)
    ensures
        r matches Ok(out) && commands_view(out@) == filter_spec(
            commands_view(commands@),
            split_paths(filter_paths@),
            Seq::empty(),
        ),
{
    let mut paths: Vec<Vec<Vec<char>>> = Vec::new();
    let mut i: usize = 0;
    while i < filter_paths.len()
        invariant
            i <= filter_paths@.len(),
            paths@.len() == i,
            forall|j: int|
                #![trigger paths@[j]]
                0 <= j < i ==> paths@[j]@.map_values(|x: Vec<char>| x@) == split(
                    filter_paths@[j]@,
                    '.',
                ),
        decreases filter_paths.len() - i,
    {
        let f = chars_of(filter_paths[i]);
        paths.push(split_chars(&f, '.'));
        i += 1;
    }
    let prefix: Vec<Vec<char>> = Vec::new();
    proof {
        assert(paths@.map_values(|p: Vec<Vec<char>>| p@.map_values(|x: Vec<char>| x@))
            =~= split_paths(filter_paths@));
        assert(prefix@.map_values(|x: Vec<char>| x@) =~= Seq::<Seq<char>>::empty());
    }
    Ok(filter_commands_recursive(commands, &paths, &prefix))
}

/// The pieces `parts` occur in `f` in order, from position `start` on,
/// each at its first occurrence after the previous one (empty pieces are
/// passed over).
pub open spec fn scan_parts(f: Seq<char>, parts: Seq<Seq<char>>, start: int) -> bool
    decreases parts.len(),
{
    if parts.len() == 0 {
        true
    } else if parts[0].len() == 0 {
        scan_parts(f, parts.drop_first(), start)
    } else {
        let s = f.skip(start);
        crate::text::contains_sub(s, parts[0]) && {
            let pos = choose|i: int| crate::text::is_first_sub(s, parts[0], i);
            scan_parts(f, parts.drop_first(), start + pos + parts[0].len())
        }
    }
}

/// The file name `f` matches `pattern`, where each `*` stands for a run of
/// characters (possibly empty) and the runs do not overlap: without `*` the
/// two are equal; otherwise the name starts with the piece before the first
/// `*` and ends with the piece after the last one, these two do not
/// overlap, and the pieces between them occur in order, without
/// overlapping, in what lies between.
pub open spec fn pattern_matches(f: Seq<char>, pattern: Seq<char>) -> bool {
    let parts = split(pattern, '*');
    if parts.len() == 1 {
        f == pattern
    } else {
        let first = parts[0];
        let last = parts.last();
        &&& first.len() + last.len() <= f.len()
        &&& first.is_prefix_of(f)
        &&& last.is_suffix_of(f)
        &&& scan_parts(
            f.subrange(first.len() as int, f.len() - last.len()),
            parts.subrange(1, parts.len() - 1),
            0,
        )
    }
}

/// The first occurrence is unique.
proof fn lemma_first_sub_unique(s: Seq<char>, p: Seq<char>, i: int, j: int)
    requires
        crate::text::is_first_sub(s, p, i),
        crate::text::is_first_sub(s, p, j),
    ensures
        i == j,
{
}

/// Checks if a filename matches a pattern, where `*` matches any sequence
/// of characters.
pub fn matches_pattern(filename: &str, pattern: &str) -> (b: bool)
    ensures
        b == pattern_matches(filename@, pattern@),
{
    let f = chars_of(filename);
    let pat = chars_of(pattern);
    let parts = split_chars(&pat, '*');
    let ghost pv = parts@.map_values(|x: Vec<char>| x@);
    proof {
        crate::text::lemma_split_nonempty(pat@, '*');
    }
    if parts.len() == 1 {
        return crate::text::eq(&f, &pat);
    }
    let n = parts.len();
    let first = &parts[0];
    let last = &parts[n - 1];
    assert(pv[0] == first@);
    assert(pv.last() == last@);
    if first.len() > f.len() || last.len() > f.len() - first.len() {
        return false;
    }
    if !starts_with(&f, first) || !ends_with(&f, last) {
        return false;
    }
    let mid = crate::text::slice_chars(&f, first.len(), f.len() - last.len());
    let ghost mv = mid@;
    let ghost inner = pv.subrange(1, n - 1);
    let mut start: usize = 0;
    let mut k: usize = 1;
    assert(inner.skip(0) =~= inner);
    assert(mv == filename@.subrange(pv[0].len() as int, filename@.len() - pv.last().len()));
    assert(pattern_matches(filename@, pattern@) == scan_parts(mv, inner, 0));
    while k < n - 1
        invariant
            1 <= k <= n - 1,
            n == parts.len(),
            n >= 2,
            pv == parts@.map_values(|x: Vec<char>| x@),
            inner == pv.subrange(1, n - 1),
            mv == mid@,
            start <= mid.len(),
            scan_parts(mv, inner, 0) == scan_parts(mv, inner.skip(k - 1), start as int),
            pattern_matches(filename@, pattern@) == scan_parts(mv, inner, 0),
        decreases n - 1 - k,
    {
        let part = &parts[k];
        assert(pv[k as int] == part@);
        assert(inner.skip(k - 1).drop_first() =~= inner.skip(k as int));
        assert(inner.skip(k - 1)[0] == part@);
        if part.len() > 0 {
            let rest = crate::text::slice_chars(&mid, start, mid.len());
            assert(rest@ == mv.skip(start as int));
            match find_sub(&rest, part) {
                Some(pos) => {
                    proof {
                        let c = choose|i: int| crate::text::is_first_sub(mv.skip(start as int), part@, i);
                        lemma_first_sub_unique(mv.skip(start as int), part@, c, pos as int);
                    }
                    start = start + pos + part.len();
                },
                None => {
                    assert(!scan_parts(mv, inner.skip(k - 1), start as int));
                    return false;
                },
            }
        }
        k += 1;
    }
    assert(inner.skip(k - 1) =~= Seq::<Seq<char>>::empty());
    true
}

/// What is wrong with a line that brings in another file.
#[derive(Debug, Clone, Copy, PartialEq, Eq, Structural)]
pub enum ImportSyntaxError {
    /// Nothing names the file.
    EmptyPath,
    /// `into` names no group.
    EmptyGroup,
}

/// What the text after the directive keyword asks for: the path of the
/// file, the group to nest its commands under (`into g`) and the command
/// paths to keep (`from a, b.c`).
pub struct ImportRequest {
    pub path: String,
    pub into: Option<String>,
    pub from: Option<Vec<String>>,
}

/// The model of an optional string.
pub open spec fn opt_view(o: Option<String>) -> Option<Seq<char>> {
    match o {
        Some(s) => Some(s@),
        None => None,
    }
}

/// The model of an optional string slice.
pub open spec fn opt_str(o: Option<&str>) -> Option<Seq<char>> {
    match o {
        Some(s) => Some(s@),
        None => None,
    }
}

/// The position of the last occurrence of `p` in `s`.
pub open spec fn last_at(s: Seq<char>, p: Seq<char>) -> int {
    choose|i: int| crate::text::is_last_sub(s, p, i)
}

/// The position of the first occurrence of `p` in `s`.
pub open spec fn first_at(s: Seq<char>, p: Seq<char>) -> int {
    choose|i: int| crate::text::is_first_sub(s, p, i)
}

/// `s` split at the last occurrence of `sep`, both sides trimmed; `s`
/// itself and nothing where `sep` does not occur.
pub open spec fn split_last(s: Seq<char>, sep: Seq<char>) -> (Seq<char>, Option<Seq<char>>) {
    if contains_sub(s, sep) {
        let i = last_at(s, sep);
        (trim(s.subrange(0, i)), Some(trim(s.subrange(i + sep.len(), s.len() as int))))
    } else {
        (s, None)
    }
}

/// `s` split at the first occurrence of `sep`, both sides trimmed; `s`
/// itself and nothing where `sep` does not occur.
pub open spec fn split_first(s: Seq<char>, sep: Seq<char>) -> (Seq<char>, Option<Seq<char>>) {
    if contains_sub(s, sep) {
        let i = first_at(s, sep);
        (trim(s.subrange(0, i)), Some(trim(s.subrange(i + sep.len(), s.len() as int))))
    } else {
        (s, None)
    }
}

/// The trimmed pieces of a comma-separated list that are not empty.
pub open spec fn list_items(parts: Seq<Seq<char>>) -> Seq<Seq<char>>
    decreases parts.len(),
{
    if parts.len() == 0 {
        Seq::empty()
    } else {
        let rest = list_items(parts.drop_last());
        if trim(parts.last()).len() > 0 {
            rest.push(trim(parts.last()))
        } else {
            rest
        }
    }
}

/// The path part of the text after the directive keyword: before ` into `
/// and ` from `.
pub open spec fn import_path(rest: Seq<char>) -> Seq<char> {
    split_first(split_last(trim(rest), " from "@).0, " into "@).0
}

/// The group part (`into g`) of the text after the directive keyword.
pub open spec fn import_into(rest: Seq<char>) -> Option<Seq<char>> {
    split_first(split_last(trim(rest), " from "@).0, " into "@).1
}

/// The command paths (`from a, b.c`) of the text after the directive
/// keyword.
pub open spec fn import_from(rest: Seq<char>) -> Option<Seq<Seq<char>>> {
    match split_last(trim(rest), " from "@).1 {
        Some(f) => Some(list_items(split(f, ','))),
        None => None,
    }
}

proof fn lemma_last_sub_unique(s: Seq<char>, p: Seq<char>, i: int, j: int)
    requires
        crate::text::is_last_sub(s, p, i),
        crate::text::is_last_sub(s, p, j),
    ensures
        i == j,
{
}

fn split_last_chars(s: &Vec<char>, sep: &Vec<char>) -> (r: (Vec<char>, Option<Vec<char>>))
    requires
        sep@.len() > 0,
    ensures
        r.0@ == split_last(s@, sep@).0,
        match r.1 {
            Some(a) => split_last(s@, sep@).1 == Some(a@),
            None => split_last(s@, sep@).1 is None,
        },
{
    match crate::text::rfind_sub(s, sep) {
        Some(i) => {
            proof {
                lemma_last_sub_unique(s@, sep@, i as int, last_at(s@, sep@));
            }
            let before = crate::text::trim_chars(&crate::text::slice_chars(s, 0, i));
            let after = crate::text::trim_chars(&crate::text::slice_chars(s, i + sep.len(), s.len()));
            (before, Some(after))
        },
        None => (s.clone(), None),
    }
}

fn split_first_chars(s: &Vec<char>, sep: &Vec<char>) -> (r: (Vec<char>, Option<Vec<char>>))
    requires
        sep@.len() > 0,
    ensures
        r.0@ == split_first(s@, sep@).0,
        match r.1 {
            Some(a) => split_first(s@, sep@).1 == Some(a@),
            None => split_first(s@, sep@).1 is None,
        },
{
    match find_sub(s, sep) {
        Some(i) => {
            proof {
                lemma_first_sub_unique(s@, sep@, i as int, first_at(s@, sep@));
            }
            let before = crate::text::trim_chars(&crate::text::slice_chars(s, 0, i));
            let after = crate::text::trim_chars(&crate::text::slice_chars(s, i + sep.len(), s.len()));
            (before, Some(after))
        },
        None => (s.clone(), None),
    }
}

/// Reads the text after the directive keyword: `path [into group] [from
/// a, b.c]` (see `import_path`, `import_into`, `import_from`); an error
/// when no path is given.
pub fn parse_import(rest: &str) -> (r: Result<ImportRequest, ImportSyntaxError>)
    ensures
        import_path(rest@).len() == 0 <==> r is Err,
        r matches Err(e) ==> e == ImportSyntaxError::EmptyPath,
        r matches Ok(q) ==> {
            &&& q.path@ == import_path(rest@)
            &&& opt_view(q.into) == import_into(rest@)
            &&& match q.from {
                Some(v) => import_from(rest@) == Some(v@.map_values(|x: String| x@)),
                None => import_from(rest@) is None,
            }
        },
{
    proof {
        reveal_strlit(" from ");
        reveal_strlit(" into ");
    }
    let t = crate::text::trimmed(rest);
    let (before_from, from_clause) = split_last_chars(&t, &chars_of(" from "));
    let (path, into) = split_first_chars(&before_from, &chars_of(" into "));
    if path.len() == 0 {
        return Err(ImportSyntaxError::EmptyPath);
    }
    let from = match from_clause {
        Some(f) => {
            let parts = split_chars(&f, ',');
            let ghost pv = parts@.map_values(|x: Vec<char>| x@);
            let mut items: Vec<String> = Vec::new();
            let mut i: usize = 0;
            assert(pv.take(0) =~= Seq::<Seq<char>>::empty());
            assert(items@.map_values(|x: String| x@) =~= Seq::<Seq<char>>::empty());
            while i < parts.len()
                invariant
                    i <= parts@.len(),
                    pv == parts@.map_values(|x: Vec<char>| x@),
                    items@.map_values(|x: String| x@) == list_items(pv.take(i as int)),
                decreases parts.len() - i,
            {
                assert(pv.take(i + 1).drop_last() =~= pv.take(i as int));
                assert(pv.take(i + 1).last() == parts@[i as int]@);
                let item = crate::text::trim_chars(&parts[i]);
                if item.len() > 0 {
                    let ghost before = items@.map_values(|x: String| x@);
                    items.push(string_of(&item));
                    assert(items@.map_values(|x: String| x@) =~= before.push(item@));
                }
                i += 1;
            }
            assert(pv.take(parts@.len() as int) =~= pv);
            Some(items)
        },
        None => None,
    };
    let into = match into {
        Some(g) => Some(string_of(&g)),
        None => None,
    };
    Ok(ImportRequest { path: string_of(&path), into, from })
}

/// The leading whitespace of `s`.
pub open spec fn indentation(s: Seq<char>) -> Seq<char> {
    s.subrange(0, s.len() - crate::text::trim_start(s).len())
}

/// The lines of `ls`, each after `indent` and four spaces, each ended by a
/// line break.
pub open spec fn indented_lines(ls: Seq<Seq<char>>, indent: Seq<char>) -> Seq<char>
    decreases ls.len(),
{
    if ls.len() == 0 {
        Seq::empty()
    } else {
        indented_lines(ls.drop_last(), indent) + indent + "    "@ + ls.last() + "\n"@
    }
}

/// The text that takes the place of the directive line `line` once the
/// text `content` of the file it names is loaded: with `into g`, a group
/// `g` at the line's indentation holding the loaded lines indented four
/// spaces more (an error for an empty `g`); otherwise the loaded text and
/// a line break.
pub open spec fn spliced_spec(line: Seq<char>, into: Option<Seq<char>>, content: Seq<char>) -> Result<
    Seq<char>,
    ImportSyntaxError,
> {
    match into {
        Some(g) => if g.len() == 0 {
            Err(ImportSyntaxError::EmptyGroup)
        } else {
            let ind = indentation(line);
            Ok(ind + g + ":\n"@ + indented_lines(crate::text::lines(content), ind))
        },
        None => Ok(content + "\n"@),
    }
}

/// Builds the text that replaces a directive line (see `spliced_spec`).
pub fn spliced_text(line: &str, into: Option<&str>, content: &str) -> (r: Result<String, ImportSyntaxError>)
    ensures
        match r {
            Ok(t) => spliced_spec(line@, opt_str(into), content@) == Ok::<
                Seq<char>,
                ImportSyntaxError,
            >(t@),
            Err(e) => spliced_spec(line@, opt_str(into), content@) == Err::<
                Seq<char>,
                ImportSyntaxError,
            >(e),
        },
{
    proof {
        reveal_strlit("\n");
        reveal_strlit(":\n");
        reveal_strlit("    ");
    }
    match into {
        None => {
            let mut out = chars_of(content);
            out.push('\n');
            assert(out@ =~= content@ + "\n"@);
            Ok(string_of(&out))
        },
        Some(g) => {
            if g.unicode_len() == 0 {
                return Err(ImportSyntaxError::EmptyGroup);
            }
            let lv = chars_of(line);
            let ts = crate::text::trim_start_chars(&lv);
            proof {
                crate::text::lemma_trim_start_len(lv@);
            }
            let ind = crate::text::slice_chars(&lv, 0, lv.len() - ts.len());
            let mut out = ind.clone();
            crate::text::push_all(&mut out, &chars_of(g));
            crate::text::push_all(&mut out, &chars_of(":\n"));
            let ghost head = out@;
            let ls = crate::text::lines_chars(&chars_of(content));
            let ghost lsv = ls@.map_values(|x: Vec<char>| x@);
            let mut i: usize = 0;
            assert(lsv.take(0) =~= Seq::<Seq<char>>::empty());
            assert(out@ =~= head + indented_lines(lsv.take(0), ind@));
            while i < ls.len()
                invariant
                    i <= ls@.len(),
                    lsv == ls@.map_values(|x: Vec<char>| x@),
                    out@ == head + indented_lines(lsv.take(i as int), ind@),
                decreases ls.len() - i,
            {
                assert(lsv.take(i + 1).drop_last() =~= lsv.take(i as int));
                assert(lsv.take(i + 1).last() == ls@[i as int]@);
                let ghost before = out@;
                proof {
                    reveal_strlit("\n");
                }
                crate::text::push_all(&mut out, &ind);
                crate::text::push_all(&mut out, &chars_of("    "));
                crate::text::push_all(&mut out, &ls[i]);
                out.push('\n');
                assert(out@ =~= before + ind@ + "    "@ + ls@[i as int]@ + "\n"@);
                i += 1;
            }
            assert(lsv.take(ls@.len() as int) =~= lsv);
            Ok(string_of(&out))
        },
    }
}


/// What a line of a Nestfile is for the directive whose keyword (with its
/// trailing space) is `keyword`: a line that is blank, a comment or
/// anything else stays (`None`); a directive line asks for the file its
/// request names.
pub open spec fn directive_line_spec(line: Seq<char>, keyword: Seq<char>) -> Option<Seq<char>> {
    let t = trim(line);
    if t.len() == 0 || t[0] == '#' || !keyword.is_prefix_of(t) {
        None
    } else {
        Some(t.skip(keyword.len() as int))
    }
}

/// Reads a line of a Nestfile: `Ok(None)` for a line that stays as it is,
/// the request of a directive line (the text after `keyword`), or an error
/// for a directive line that names no file.
pub fn directive_line(line: &str, keyword: &str) -> (r: Result<Option<ImportRequest>, IncludeError>)
    ensures
        match directive_line_spec(line@, keyword@) {
            None => r matches Ok(None),
            Some(rest) => if import_path(rest).len() == 0 {
                r matches Err(IncludeError::InvalidPath(m)) && m@ == "Empty include path"@
            } else {
                r matches Ok(Some(q)) && q.path@ == import_path(rest) && opt_view(q.into) == import_into(rest)
                    && match q.from {
                    Some(v) => import_from(rest) == Some(v@.map_values(|x: String| x@)),
                    None => import_from(rest) is None,
                }
            },
        },
{
    let t = crate::text::trim_chars(&chars_of(line));
    let k = chars_of(keyword);
    if t.len() == 0 || t[0] == '#' || !starts_with(&t, &k) {
        return Ok(None);
    }
    let rest = string_of(&crate::text::slice_chars(&t, k.len(), t.len()));
    assert(t@.subrange(k@.len() as int, t@.len() as int) =~= t@.skip(k@.len() as int));
    match parse_import(rest.as_str()) {
        Ok(q) => Ok(Some(q)),
        Err(_) => Err(IncludeError::InvalidPath("Empty include path".to_string())),
    }
}

/// The names of the files a directory brings in by itself.
pub open spec fn config_name(n: Seq<char>) -> bool {
    n == "nestfile"@ || n == "Nestfile"@ || n == "nest"@ || n == "Nest"@
}

/// Whether a file name is one that a directory brings in by itself
/// (`nestfile`, `Nestfile`, `nest`, `Nest`).
pub fn is_config_file(name: &str) -> (b: bool)
    ensures
        b == config_name(name@),
{
    let n = chars_of(name);
    crate::text::eq(&n, &chars_of("nestfile")) || crate::text::eq(&n, &chars_of("Nestfile")) || crate::text::eq(
        &n,
        &chars_of("nest"),
    ) || crate::text::eq(&n, &chars_of("Nest"))
}

/// The names tried, in order, in a directory named without an extension.
pub open spec fn config_names() -> Seq<Seq<char>> {
    seq!["nestfile"@, "Nestfile"@, "nest"@, "Nest"@]
}

/// The names tried, in order, in a directory named without an extension.
pub fn config_file_names() -> (v: Vec<String>)
    ensures
        v@.map_values(|s: String| s@) == config_names(),
{
    let v = vec!["nestfile".to_string(), "Nestfile".to_string(), "nest".to_string(), "Nest".to_string()];
    assert(v@.map_values(|s: String| s@) =~= config_names());
    v
}

/// What a path that brings files in names.
#[derive(Debug)]
pub enum ImportTarget {
    /// The files whose names match the pattern, in the directory (the
    /// base directory where none is written).
    Pattern(Option<String>, String),
    /// A remote file, by its URL.
    Remote(String),
    /// The configuration files of a directory.
    Directory(String),
    /// One file.
    File(String),
}

/// The model of a target.
pub enum TargetV {
    Pattern(Option<Seq<char>>, Seq<char>),
    Remote(Seq<char>),
    Directory(Seq<char>),
    File(Seq<char>),
}

impl View for ImportTarget {
    type V = TargetV;

    open spec fn view(&self) -> TargetV {
        match self {
            ImportTarget::Pattern(d, p) => TargetV::Pattern(opt_view(*d), p@),
            ImportTarget::Remote(u) => TargetV::Remote(u@),
            ImportTarget::Directory(d) => TargetV::Directory(d@),
            ImportTarget::File(f) => TargetV::File(f@),
        }
    }
}

/// What the file system says of a path: whether it exists, is a file, is
/// a directory; its file name and whether that has an extension; and, for
/// each of `config_names()` in order, whether the path joined with it is a
/// file.
pub struct PathFacts {
    pub exists: bool,
    pub is_file: bool,
    pub is_dir: bool,
    pub file_name: Option<String>,
    pub has_extension: bool,
    pub config_files: Vec<bool>,
}

/// `s` without the `c` at its end, however many there are.
pub open spec fn trim_end_char(s: Seq<char>, c: char) -> Seq<char>
    decreases s.len(),
{
    if s.len() > 0 && s.last() == c {
        trim_end_char(s.drop_last(), c)
    } else {
        s
    }
}

/// A pattern path split at its last `/` (else at its last `\`): the
/// directory and the file-name pattern; the whole path is the pattern where
/// it has neither.
pub open spec fn pattern_parts(p: Seq<char>) -> (Option<Seq<char>>, Seq<char>) {
    if p.contains('/') {
        let i = crate::text::last_pos(p, '/');
        (Some(p.take(i)), p.skip(i + 1))
    } else if p.contains('\\') {
        let i = crate::text::last_pos(p, '\\');
        (Some(p.take(i)), p.skip(i + 1))
    } else {
        (None, p)
    }
}

/// The position in `config_names()` of the first name whose file exists
/// under the path.
pub open spec fn first_config(found: Seq<bool>) -> Option<int> {
    if found.len() > 0 && found[0] {
        Some(0)
    } else if found.len() > 1 && found[1] {
        Some(1)
    } else if found.len() > 2 && found[2] {
        Some(2)
    } else if found.len() > 3 && found[3] {
        Some(3)
    } else {
        None
    }
}

/// What the path `p` (already joined to the base directory) names: a
/// pattern where it holds `*`; a remote file for an `http://` or
/// `https://` URL; a directory where it ends with `/` or `\` (without its
/// trailing `/`); the file, where it is one; the directory, where it is
/// one. A path whose file name has no extension is the file where that
/// name is a configuration file name, else the first configuration file
/// found under it, else (where nothing exists there) the directory.
/// Anything else is not found.
pub open spec fn target_spec(
    p: Seq<char>,
    exists: bool,
    is_file: bool,
    is_dir: bool,
    file_name: Option<Seq<char>>,
    has_extension: bool,
    found: Seq<bool>,
) -> Result<TargetV, Seq<char>> {
    if p.contains('*') {
        Ok(TargetV::Pattern(pattern_parts(p).0, pattern_parts(p).1))
    } else if "http://"@.is_prefix_of(p) || "https://"@.is_prefix_of(p) {
        Ok(TargetV::Remote(p))
    } else if p.len() > 0 && (p.last() == '/' || p.last() == '\\') {
        Ok(TargetV::Directory(trim_end_char(p, '/')))
    } else if exists && is_file {
        Ok(TargetV::File(p))
    } else if is_dir {
        Ok(TargetV::Directory(p))
    } else if !has_extension && (file_name matches Some(n) && config_name(n)) {
        Ok(TargetV::File(p))
    } else if !has_extension && first_config(found) is Some {
        Ok(TargetV::File(crate::merge::path_joined(p, config_names()[first_config(found)->0])))
    } else if !has_extension && !exists {
        Ok(TargetV::Directory(p))
    } else {
        Err("File not found: "@ + p)
    }
}

/// `s` without the `c` at its end.
fn trim_end_chars(s: &Vec<char>, c: char) -> (out: Vec<char>)
    ensures
        out@ == trim_end_char(s@, c),
{
    let mut n = s.len();
    assert(s@.take(n as int) =~= s@);
    while n > 0 && s[n - 1] == c
        invariant
            n <= s.len(),
            trim_end_char(s@, c) == trim_end_char(s@.take(n as int), c),
        decreases n,
    {
        assert(s@.take(n as int).drop_last() =~= s@.take(n - 1));
        n -= 1;
    }
    assert(trim_end_char(s@.take(n as int), c) == s@.take(n as int));
    crate::text::slice_chars(s, 0, n)
}

/// The position of the first configuration file found (see
/// `first_config`).
fn first_found(found: &Vec<bool>) -> (r: Option<usize>)
    ensures
        match first_config(found@) {
            Some(i) => r == Some(i as usize) && i < 4,
            None => r is None,
        },
{
    let mut i: usize = 0;
    while i < 4
        invariant
            i <= 4,
            forall|j: int| 0 <= j < i ==> !(j < found@.len() && found@[j]),
        decreases 4 - i,
    {
        if i < found.len() && found[i] {
            return Some(i);
        }
        i += 1;
    }
    None
}

/// What the path `path` (already joined to the base directory) names,
/// given what the file system says of it (see `target_spec`); an error
/// where it names nothing.
pub fn import_target(path: &str, facts: &PathFacts) -> (r: Result<ImportTarget, IncludeError>)
    ensures
        match target_spec(
            path@,
            facts.exists,
            facts.is_file,
            facts.is_dir,
            opt_view(facts.file_name),
            facts.has_extension,
            facts.config_files@,
        ) {
            Ok(t) => r matches Ok(x) && x@ == t,
            Err(m) => r matches Err(IncludeError::NotFound(e)) && e@ == m,
        },
{
    let p = chars_of(path);
    proof {
        reveal_strlit("http://");
        reveal_strlit("https://");
        reveal_strlit("File not found: ");
    }
    if crate::text::contains_char(&p, '*') {
        return match crate::text::rfind_char(&p, '/') {
            Some(i) => {
                assert(p@.subrange(0, i as int) =~= p@.take(i as int));
                assert(p@.subrange(i + 1, p@.len() as int) =~= p@.skip(i + 1));
                Ok(ImportTarget::Pattern(
                    Some(string_of(&crate::text::slice_chars(&p, 0, i))),
                    string_of(&crate::text::slice_chars(&p, i + 1, p.len())),
                ))
            },
            None => match crate::text::rfind_char(&p, '\\') {
                Some(i) => {
                    assert(p@.subrange(0, i as int) =~= p@.take(i as int));
                    assert(p@.subrange(i + 1, p@.len() as int) =~= p@.skip(i + 1));
                    Ok(ImportTarget::Pattern(
                        Some(string_of(&crate::text::slice_chars(&p, 0, i))),
                        string_of(&crate::text::slice_chars(&p, i + 1, p.len())),
                    ))
                },
                None => Ok(ImportTarget::Pattern(None, path.to_string())),
            },
        };
    }
    if starts_with(&p, &chars_of("http://")) || starts_with(&p, &chars_of("https://")) {
        return Ok(ImportTarget::Remote(path.to_string()));
    }
    if p.len() > 0 && (p[p.len() - 1] == '/' || p[p.len() - 1] == '\\') {
        return Ok(ImportTarget::Directory(string_of(&trim_end_chars(&p, '/'))));
    }
    if facts.exists && facts.is_file {
        return Ok(ImportTarget::File(path.to_string()));
    }
    if facts.is_dir {
        return Ok(ImportTarget::Directory(path.to_string()));
    }
    if !facts.has_extension {
        let named_config = match &facts.file_name {
            Some(n) => is_config_file(n.as_str()),
            None => false,
        };
        if named_config {
            return Ok(ImportTarget::File(path.to_string()));
        }
        match first_found(&facts.config_files) {
            Some(i) => {
                let names = config_file_names();
                assert(config_names().len() == 4);
                assert(names@.len() == 4);
                assert(names@[i as int]@ == config_names()[i as int]);
                return Ok(ImportTarget::File(crate::merge::path_join(&path.to_string(), &names[i])));
            },
            None => {},
        }
        if !facts.exists {
            return Ok(ImportTarget::Directory(path.to_string()));
        }
    }
    let mut m = chars_of("File not found: ");
    crate::text::push_all(&mut m, &p);
    Err(IncludeError::NotFound(string_of(&m)))
}

/// The names of a directory's entries that it brings in, in order: the
/// files whose names match `pattern`, or (without a pattern) whose names
/// are configuration file names.
pub open spec fn picks_spec(names: Seq<Seq<char>>, files: Seq<bool>, pattern: Option<Seq<char>>) -> Seq<Seq<char>>
    decreases names.len(),
{
    if names.len() == 0 {
        Seq::empty()
    } else {
        let i = names.len() - 1;
        let rest = picks_spec(names.drop_last(), files, pattern);
        let n = names[i];
        let take = i < files.len() && files[i] && match pattern {
            Some(p) => pattern_matches(n, p),
            None => config_name(n),
        };
        if take {
            rest.push(n)
        } else {
            rest
        }
    }
}

/// The names of a directory's entries that it brings in (see
/// `picks_spec`); `files` says which entries are files.
pub fn directory_picks(names: &Vec<String>, files: &Vec<bool>, pattern: Option<&str>) -> (r: Vec<String>)
    ensures
        r@.map_values(|s: String| s@) == picks_spec(names@.map_values(|s: String| s@), files@, opt_str(pattern)),
{
    let ghost nv = names@.map_values(|s: String| s@);
    let mut r: Vec<String> = Vec::new();
    let mut i: usize = 0;
    while i < names.len()
        invariant
            i <= names@.len(),
            nv == names@.map_values(|s: String| s@),
            r@.map_values(|s: String| s@) == picks_spec(nv.take(i as int), files@, opt_str(pattern)),
        decreases names.len() - i,
    {
        assert(nv.take(i + 1).drop_last() =~= nv.take(i as int));
        assert(nv.take(i + 1)[i as int] == names@[i as int]@);
        let take = i < files.len() && files[i] && match pattern {
            Some(p) => matches_pattern(names[i].as_str(), p),
            None => is_config_file(names[i].as_str()),
        };
        if take {
            let ghost before = r@.map_values(|s: String| s@);
            r.push(names[i].clone());
            assert(r@.map_values(|s: String| s@) =~= before.push(names@[i as int]@));
        }
        i += 1;
    }
    assert(nv.take(names@.len() as int) =~= nv);
    r
}

/// The model of a list of strings.
pub open spec fn strings_view(v: Seq<String>) -> Seq<Seq<char>> {
    v.map_values(|s: String| s@)
}

/// Tests whether `key` is among the strings of `v`.
fn holds_string(v: &Vec<String>, key: &str) -> (b: bool)
    ensures
        b == strings_view(v@).contains(key@),
{
    let mut i: usize = 0;
    while i < v.len()
        invariant
            i <= v@.len(),
            forall|j: int| 0 <= j < i ==> v@[j]@ != key@,
        decreases v.len() - i,
    {
        if crate::text::eq(&chars_of_string(&v[i]), &chars_of(key)) {
            assert(strings_view(v@)[i as int] == key@);
            return true;
        }
        i += 1;
    }
    assert(!strings_view(v@).contains(key@)) by {
        if strings_view(v@).contains(key@) {
            let j = choose|j: int| 0 <= j < strings_view(v@).len() && strings_view(v@)[j] == key@;
            assert(v@[j]@ == key@);
        }
    }
    false
}

/// Refuses to bring in again what is being brought in: an error naming
/// `shown` where `key` is among the files being read (`visited`).
pub fn not_visited(visited: &Vec<String>, key: &str, shown: &str) -> (r: Result<(), IncludeError>)
    ensures
        strings_view(visited@).contains(key@) <==> r is Err,
        r matches Err(e) ==> e matches IncludeError::CircularInclude(m) && m@ == shown@,
{
    if holds_string(visited, key) {
        Err(IncludeError::CircularInclude(shown.to_string()))
    } else {
        Ok(())
    }
}

/// Starts reading the file `key` (its canonical path): an error naming
/// `shown` where it is already being read (a file that brings itself in,
/// directly or through others); otherwise the files being read, with it
/// last.
pub fn enter_file(visited: &Vec<String>, key: &str, shown: &str) -> (r: Result<Vec<String>, IncludeError>)
    ensures
        strings_view(visited@).contains(key@) <==> r is Err,
        r matches Err(e) ==> e matches IncludeError::CircularInclude(m) && m@ == shown@,
        r matches Ok(v) ==> strings_view(v@) == strings_view(visited@).push(key@),
{
    if holds_string(visited, key) {
        return Err(IncludeError::CircularInclude(shown.to_string()));
    }
    let mut v: Vec<String> = Vec::new();
    let mut i: usize = 0;
    while i < visited.len()
        invariant
            i <= visited@.len(),
            strings_view(v@) == strings_view(visited@).take(i as int),
        decreases visited.len() - i,
    {
        let ghost before = strings_view(v@);
        v.push(visited[i].clone());
        assert(strings_view(v@) =~= before.push(visited@[i as int]@));
        assert(strings_view(visited@).take(i + 1) =~= strings_view(visited@).take(i as int).push(
            visited@[i as int]@,
        ));
        i += 1;
    }
    assert(strings_view(visited@).take(visited@.len() as int) =~= strings_view(visited@));
    let ghost before = strings_view(v@);
    v.push(key.to_string());
    assert(strings_view(v@) =~= before.push(key@));
    Ok(v)
}

/// Ends reading the file `key`: the files being read, without it.
pub fn leave_file(visited: &Vec<String>, key: &str) -> (v: Vec<String>)
    ensures
        strings_view(v@) == strings_view(visited@).filter(|s: Seq<char>| s != key@),
{
    let ghost sv = strings_view(visited@);
    let mut v: Vec<String> = Vec::new();
    let mut i: usize = 0;
    while i < visited.len()
        invariant
            i <= visited@.len(),
            sv == strings_view(visited@),
            strings_view(v@) == sv.take(i as int).filter(|s: Seq<char>| s != key@),
        decreases visited.len() - i,
    {
        let ghost before = strings_view(v@);
        assert(sv.take(i + 1).drop_last() =~= sv.take(i as int));
        reveal(Seq::filter);
        if !crate::text::eq(&chars_of_string(&visited[i]), &chars_of(key)) {
            v.push(visited[i].clone());
            assert(strings_view(v@) =~= before.push(visited@[i as int]@));
        } else {
            assert(strings_view(v@) =~= before);
        }
        i += 1;
    }
    assert(sv.take(visited@.len() as int) =~= sv);
    v
}

/// The text brought in from `source`, after a line that names its source
/// (so that the parser can tell which file each command came from).
pub open spec fn sourced_spec(source: Seq<char>, content: Seq<char>) -> Seq<char> {
    "# @source: "@ + source + "\n"@ + content
}

/// The text brought in from `source` (see `sourced_spec`).
pub fn sourced_text(source: &str, content: &str) -> (t: String)
    ensures
        t@ == sourced_spec(source@, content@),
{
    let mut c = chars_of("# @source: ");
    crate::text::push_all(&mut c, &chars_of(source));
    crate::text::push_all(&mut c, &chars_of("\n"));
    crate::text::push_all(&mut c, &chars_of(content));
    string_of(&c)
}


/// Where walking the lines of a file has got to: the text it gives, the
/// error that stops it, or the directive line (with the text so far) whose
/// loaded text it waits for.
pub enum WalkV {
    Finished(Seq<char>),
    Failed(Seq<char>),
    Waiting(int, Seq<char>),
}

/// The walk over the lines `ls` of a file from line `i`, with the text
/// `acc` so far, given the loaded texts `loads` of its directive lines in
/// order (none where a line's target names no file): a line that stays is
/// copied with its line break; a directive line with no path is an error;
/// a directive line is replaced by the text it loaded, spliced in (see
/// `spliced_spec`), or by nothing where it loaded nothing. The walk waits
/// at a directive line when no loaded text is left for it.
pub open spec fn walk_from(
    ls: Seq<Seq<char>>,
    kw: Seq<char>,
    i: int,
    acc: Seq<char>,
    loads: Seq<Option<Seq<char>>>,
) -> WalkV
    decreases ls.len() - i,
{
    if i < 0 || i >= ls.len() {
        WalkV::Finished(acc)
    } else {
        match directive_line_spec(ls[i], kw) {
            None => walk_from(ls, kw, i + 1, acc + ls[i] + "\n"@, loads),
            Some(rest) => if import_path(rest).len() == 0 {
                WalkV::Failed("Empty include path"@)
            } else if loads.len() == 0 {
                WalkV::Waiting(i, acc)
            } else {
                match loads[0] {
                    None => walk_from(ls, kw, i + 1, acc, loads.drop_first()),
                    Some(t) => match spliced_spec(ls[i], import_into(rest), t) {
                        Err(_) => WalkV::Failed("Empty group name in 'into' clause"@),
                        Ok(x) => walk_from(ls, kw, i + 1, acc + x, loads.drop_first()),
                    },
                }
            },
        }
    }
}

/// Law (walking goes on where it waited): once a walk waits at line `j`
/// with text `a`, giving it more loaded texts goes on from there.
pub proof fn lemma_walk_extend(
    ls: Seq<Seq<char>>,
    kw: Seq<char>,
    i: int,
    acc: Seq<char>,
    l: Seq<Option<Seq<char>>>,
    m: Seq<Option<Seq<char>>>,
)
    requires
        walk_from(ls, kw, i, acc, l) is Waiting,
    ensures
        ({
            let w = walk_from(ls, kw, i, acc, l);
            walk_from(ls, kw, i, acc, l + m) == walk_from(ls, kw, w->Waiting_0, w->Waiting_1, m)
        }),
    decreases ls.len() - i,
{
    if 0 <= i < ls.len() {
        match directive_line_spec(ls[i], kw) {
            None => {
                lemma_walk_extend(ls, kw, i + 1, acc + ls[i] + "\n"@, l, m);
            },
            Some(rest) => {
                if import_path(rest).len() != 0 {
                    if l.len() == 0 {
                        assert(l + m =~= m);
                    } else {
                        assert((l + m)[0] == l[0]);
                        assert((l + m).drop_first() =~= l.drop_first() + m);
                        match l[0] {
                            None => {
                                lemma_walk_extend(ls, kw, i + 1, acc, l.drop_first(), m);
                            },
                            Some(t) => {
                                match spliced_spec(ls[i], import_into(rest), t) {
                                    Err(_) => {},
                                    Ok(x) => {
                                        lemma_walk_extend(ls, kw, i + 1, acc + x, l.drop_first(), m);
                                    },
                                }
                            },
                        }
                    }
                }
            },
        }
    }
}

/// What the caller must do next while the lines of a file are walked.
pub enum SpliceAction {
    /// Load what this request names (reading files, listing directories,
    /// fetching a URL) and report the text, or none where it names no file.
    Load(ImportRequest),
    /// The walk is over: the file's text with its directive lines replaced,
    /// or the error that stopped it.
    Done(Result<String, IncludeError>),
}

/// The walk over the lines of one file, whose directive lines (those that
/// start with `keyword`) are replaced by the text they load.
pub struct SpliceRun {
    lines: Vec<Vec<char>>,
    keyword: Vec<char>,
    pos: usize,
    out: Vec<char>,
    waiting: bool,
    loads: Ghost<Seq<Option<Seq<char>>>>,
}

/// The request read from the directive line `l` matches `q`.
pub open spec fn request_of(l: Seq<char>, kw: Seq<char>, q: ImportRequest) -> bool {
    &&& directive_line_spec(l, kw) matches Some(rest)
    &&& q.path@ == import_path(rest)
    &&& opt_view(q.into) == import_into(rest)
    &&& match q.from {
        Some(v) => import_from(rest) == Some(v@.map_values(|x: String| x@)),
        None => import_from(rest) is None,
    }
}

impl SpliceRun {
    /// The lines of the file.
    pub closed spec fn lines_v(&self) -> Seq<Seq<char>> {
        self.lines@.map_values(|l: Vec<char>| l@)
    }

    /// The keyword of directive lines.
    pub closed spec fn keyword_v(&self) -> Seq<char> {
        self.keyword@
    }

    /// The loaded texts reported so far, in order.
    pub closed spec fn loads_v(&self) -> Seq<Option<Seq<char>>> {
        self.loads@
    }

    /// The walk waits for a loaded text.
    pub closed spec fn waiting_v(&self) -> bool {
        self.waiting
    }

    /// Where the walk stands, given the loaded texts reported so far.
    pub open spec fn walk_v(&self) -> WalkV {
        walk_from(self.lines_v(), self.keyword_v(), 0, Seq::empty(), self.loads_v())
    }

    /// The action agrees with the walk.
    pub open spec fn action_ok(&self, a: SpliceAction) -> bool {
        match a {
            SpliceAction::Load(q) => {
                &&& self.waiting_v()
                &&& self.walk_v() matches WalkV::Waiting(j, _)
                &&& 0 <= j < self.lines_v().len()
                &&& request_of(self.lines_v()[j], self.keyword_v(), q)
            },
            SpliceAction::Done(Ok(t)) => !self.waiting_v() && self.walk_v() == WalkV::Finished(t@),
            SpliceAction::Done(Err(IncludeError::InvalidPath(m))) => !self.waiting_v() && self.walk_v()
                == WalkV::Failed(m@),
            SpliceAction::Done(Err(_)) => false,
        }
    }

    /// The walk is where its fields say.
    pub closed spec fn inv(&self) -> bool {
        &&& self.pos <= self.lines@.len()
        &&& self.waiting ==> {
            &&& self.pos < self.lines@.len()
            &&& self.walk_v() == WalkV::Waiting(self.pos as int, self.out@)
            &&& directive_line_spec(self.lines_v()[self.pos as int], self.keyword_v()) matches Some(rest)
            &&& import_path(rest).len() > 0
        }
    }

    /// Walks on from the current line with no loaded text left.
    fn advance(&mut self) -> (a: SpliceAction)
        requires
            old(self).pos <= old(self).lines@.len(),
            old(self).walk_v() == walk_from(
                old(self).lines_v(),
                old(self).keyword_v(),
                old(self).pos as int,
                old(self).out@,
                Seq::empty(),
            ),
        ensures
            final(self).lines_v() == old(self).lines_v(),
            final(self).keyword_v() == old(self).keyword_v(),
            final(self).loads_v() == old(self).loads_v(),
            final(self).inv(),
            final(self).action_ok(a),
    {
        let ghost ls = self.lines_v();
        let ghost kw = self.keyword_v();
        let kws = string_of(&self.keyword);
        while self.pos < self.lines.len()
            invariant
                self.pos <= self.lines@.len(),
                ls == self.lines_v(),
                kw == self.keyword_v(),
                ls == old(self).lines_v(),
                kw == old(self).keyword_v(),
                kws@ == kw,
                self.loads_v() == old(self).loads_v(),
                self.walk_v() == walk_from(ls, kw, self.pos as int, self.out@, Seq::empty()),
            decreases self.lines@.len() - self.pos,
        {
            let line = string_of(&self.lines[self.pos]);
            assert(line@ == ls[self.pos as int]);
            match directive_line(line.as_str(), kws.as_str()) {
                Ok(None) => {
                    let ghost before = self.out@;
                    crate::text::push_all(&mut self.out, &self.lines[self.pos]);
                    self.out.push('\n');
                    proof {
                        reveal_strlit("\n");
                    }
                    assert(self.out@ =~= before + ls[self.pos as int] + "\n"@);
                    self.pos = self.pos + 1;
                },
                Ok(Some(q)) => {
                    self.waiting = true;
                    return SpliceAction::Load(q);
                },
                Err(e) => {
                    self.waiting = false;
                    return SpliceAction::Done(Err(e));
                },
            }
        }
        self.waiting = false;
        SpliceAction::Done(Ok(string_of(&self.out)))
    }

    /// Starts walking the lines of `content`; directive lines start with
    /// `keyword`.
    pub fn start(content: &str, keyword: &str) -> (r: (SpliceRun, SpliceAction))
        ensures
            r.0.lines_v() == lines(content@),
            r.0.keyword_v() == keyword@,
            r.0.loads_v() == Seq::<Option<Seq<char>>>::empty(),
            r.0.action_ok(r.1),
            r.0.inv(),
    {
        let ls = crate::text::lines_chars(&chars_of(content));
        let mut run = SpliceRun {
            lines: ls,
            keyword: chars_of(keyword),
            pos: 0,
            out: Vec::new(),
            waiting: false,
            loads: Ghost(Seq::empty()),
        };
        assert(run.out@ =~= Seq::<char>::empty());
        let a = run.advance();
        (run, a)
    }

    /// Goes on with the loaded text of the directive line the walk waits
    /// at (none where it named no file).
    pub fn resume(&mut self, loaded: Option<String>) -> (a: SpliceAction)
        requires
            old(self).waiting_v(),
            old(self).inv(),
        ensures
            final(self).lines_v() == old(self).lines_v(),
            final(self).keyword_v() == old(self).keyword_v(),
            final(self).loads_v() == old(self).loads_v().push(crate::ast::opt_view(loaded)),
            final(self).inv(),
            final(self).action_ok(a),
    {
        let ghost ls = self.lines_v();
        let ghost kw = self.keyword_v();
        let ghost l0 = self.loads_v();
        let ghost x = crate::ast::opt_view(loaded);
        let n = self.lines.len();
        assert(self.pos < n);
        proof {
            lemma_walk_extend(ls, kw, 0, Seq::empty(), l0, seq![x]);
            assert(l0 + seq![x] =~= l0.push(x));
            assert(seq![x].drop_first() =~= Seq::<Option<Seq<char>>>::empty());
        }
        self.loads = Ghost(l0.push(x));
        let line = string_of(&self.lines[self.pos]);
        assert(line@ == ls[self.pos as int]);
        match loaded {
            None => {
                self.pos = self.pos + 1;
            },
            Some(t) => {
                let kws = string_of(&self.keyword);
                match directive_line(line.as_str(), kws.as_str()) {
                    Ok(Some(q)) => {
                        let into: Option<&str> = match &q.into {
                            Some(g) => Some(g.as_str()),
                            None => None,
                        };
                        assert(opt_str(into) == opt_view(q.into));
                        match spliced_text(line.as_str(), into, t.as_str()) {
                            Ok(x2) => {
                                crate::text::push_all(&mut self.out, &chars_of_string(&x2));
                                self.pos = self.pos + 1;
                            },
                            Err(_) => {
                                self.waiting = false;
                                return SpliceAction::Done(
                                    Err(IncludeError::InvalidPath("Empty group name in 'into' clause".to_string())),
                                );
                            },
                        }
                    },
                    _ => {
                        self.waiting = false;
                        return SpliceAction::Done(Err(IncludeError::InvalidPath("Empty include path".to_string())));
                    },
                }
            },
        }
        self.advance()
    }
}
/// The files kept when one is left: those other than it.
proof fn lemma_filter_all_kept(v: Seq<Seq<char>>, key: Seq<char>)
    requires
        !v.contains(key),
    ensures
        v.filter(|s: Seq<char>| s != key) == v,
    decreases v.len(),
{
    reveal(Seq::filter);
    if v.len() > 0 {
        assert(!v.drop_last().contains(key)) by {
            if v.drop_last().contains(key) {
                let k = choose|k: int| 0 <= k < v.drop_last().len() && v.drop_last()[k] == key;
                assert(v[k] == key);
            }
        }
        lemma_filter_all_kept(v.drop_last(), key);
        assert(v.last() != key) by {
            assert(v[v.len() - 1] == v.last());
        }
        assert(v.drop_last().push(v.last()) =~= v);
    }
}

/// Law: entering a file that is not being read and leaving it again gives
/// back the files being read as they were, so a whole include run that
/// leaves each file it enters ends with the list it started with.
pub proof fn lemma_enter_leave_restores(visited: Seq<Seq<char>>, key: Seq<char>)
    requires
        !visited.contains(key),
    ensures
        visited.push(key).filter(|s: Seq<char>| s != key) == visited,
{
    reveal(Seq::filter);
    lemma_filter_all_kept(visited, key);
    assert(visited.push(key).drop_last() =~= visited);
}

/// The first piece of a split, after `cur`, runs up to the first
/// separator, and there are more pieces when the separator occurs.
proof fn lemma_split_first_piece(t: Seq<char>, c: char, cur: Seq<char>)
    ensures
        t.contains(c) ==> split_from(t, c, cur).len() > 1 && split_from(t, c, cur)[0] == cur + t.take(
            crate::text::first_pos(t, c),
        ),
        !t.contains(c) ==> split_from(t, c, cur) == seq![cur + t],
    decreases t.len(),
{
    if t.len() == 0 {
        assert(cur + t =~= cur);
    } else if t[0] == c {
        crate::text::lemma_split_nonempty(t.drop_first(), c);
        assert(t.take(0) =~= Seq::<char>::empty());
        assert(cur + t.take(0) =~= cur);
        assert(t.contains(c));
    } else {
        lemma_split_first_piece(t.drop_first(), c, cur.push(t[0]));
        if t.contains(c) {
            let j = choose|j: int| 0 <= j < t.len() && t[j] == c;
            assert(t.drop_first()[j - 1] == c);
            let r = crate::text::first_pos(t.drop_first(), c);
            crate::text::lemma_first_pos(t.drop_first(), c);
            assert(cur.push(t[0]) + t.drop_first().take(r) =~= cur + t.take(r + 1));
        } else {
            assert(!t.drop_first().contains(c)) by {
                if t.drop_first().contains(c) {
                    let j = choose|j: int| 0 <= j < t.drop_first().len() && t.drop_first()[j] == c;
                    assert(t[j + 1] == c);
                }
            }
            assert(cur.push(t[0]) + t.drop_first() =~= cur + t);
        }
    }
}

/// Law (a pattern's fixed start): a file name that matches a pattern with
/// a `*` starts with the part of the pattern before its first `*`; a name
/// that matches a pattern without `*` is that pattern.
pub proof fn lemma_pattern_start(f: Seq<char>, pattern: Seq<char>)
    ensures
        pattern.contains('*') && pattern_matches(f, pattern) ==> pattern.take(
            crate::text::first_pos(pattern, '*'),
        ).is_prefix_of(f),
        !pattern.contains('*') && pattern_matches(f, pattern) ==> f == pattern,
{
    lemma_split_first_piece(pattern, '*', Seq::empty());
    assert(Seq::<char>::empty() + pattern =~= pattern);
    if pattern.contains('*') {
        assert(Seq::<char>::empty() + pattern.take(crate::text::first_pos(pattern, '*')) =~= pattern.take(
            crate::text::first_pos(pattern, '*'),
        ));
    }
}

/// The last position of a character that occurs is where it last occurs.
proof fn lemma_last_pos_props(t: Seq<char>, c: char)
    ensures
        t.contains(c) ==> 0 <= crate::text::last_pos(t, c) < t.len() && t[crate::text::last_pos(t, c)] == c
            && forall|j: int| crate::text::last_pos(t, c) < j < t.len() ==> t[j] != c,
    decreases t.len(),
{
    if t.len() > 0 && t.last() != c {
        lemma_last_pos_props(t.drop_last(), c);
        if t.contains(c) {
            let j = choose|j: int| 0 <= j < t.len() && t[j] == c;
            assert(j < t.len() - 1);
            assert(t.drop_last()[j] == c);
            assert forall|k: int| 0 <= k < t.drop_last().len() implies t.drop_last()[k] == t[k] by {}
        }
    }
}

/// The last piece of a split, after `cur`, is what follows the last
/// separator.
proof fn lemma_split_last_piece(t: Seq<char>, c: char, cur: Seq<char>)
    ensures
        split_from(t, c, cur).len() > 0,
        split_from(t, c, cur).last() == if t.contains(c) {
            t.skip(crate::text::last_pos(t, c) + 1)
        } else {
            cur + t
        },
    decreases t.len(),
{
    crate::text::lemma_split_nonempty(t, c);
    lemma_split_first_piece(t, c, cur);
    if t.len() == 0 {
        assert(cur + t =~= cur);
    } else {
        let t1 = t.drop_first();
        lemma_last_pos_props(t, c);
        lemma_last_pos_props(t1, c);
        if t[0] == c {
            lemma_split_last_piece(t1, c, Seq::empty());
            let r = split_from(t1, c, Seq::empty());
            assert((seq![cur] + r).last() == r.last());
            if t1.contains(c) {
                let l1 = crate::text::last_pos(t1, c);
                assert(t[l1 + 1] == c);
                assert forall|j: int| l1 + 1 < j < t.len() implies t[j] != c by {
                    assert(t[j] == t1[j - 1]);
                }
                crate::text::lemma_last_pos(t, c, l1 + 1);
                assert(t.skip(l1 + 2) =~= t1.skip(l1 + 1));
            } else {
                assert forall|j: int| 0 < j < t.len() implies t[j] != c by {
                    assert(t[j] == t1[j - 1]);
                    if t[j] == c {
                        assert(t1.contains(c));
                    }
                }
                crate::text::lemma_last_pos(t, c, 0);
                assert(Seq::<char>::empty() + t1 =~= t.skip(1));
            }
        } else {
            lemma_split_last_piece(t1, c, cur.push(t[0]));
            if t1.contains(c) {
                let l1 = crate::text::last_pos(t1, c);
                assert(t[l1 + 1] == c);
                assert forall|j: int| l1 + 1 < j < t.len() implies t[j] != c by {
                    assert(t[j] == t1[j - 1]);
                }
                crate::text::lemma_last_pos(t, c, l1 + 1);
                assert(t.skip(l1 + 2) =~= t1.skip(l1 + 1));
                assert(t.contains(c));
            } else {
                assert(!t.contains(c)) by {
                    if t.contains(c) {
                        let j = choose|j: int| 0 <= j < t.len() && t[j] == c;
                        assert(t1[j - 1] == c);
                    }
                }
                assert(cur.push(t[0]) + t1 =~= cur + t);
            }
        }
    }
}

/// Law (a pattern's fixed ends): a file name that matches a pattern with
/// a `*` ends with the part of the pattern after its last `*`, and is at
/// least as long as that part and the part before the first `*` together.
pub proof fn lemma_pattern_end(f: Seq<char>, pattern: Seq<char>)
    requires
        pattern.contains('*'),
        pattern_matches(f, pattern),
    ensures
        pattern.skip(crate::text::last_pos(pattern, '*') + 1).is_suffix_of(f),
        pattern.take(crate::text::first_pos(pattern, '*')).len() + pattern.skip(
            crate::text::last_pos(pattern, '*') + 1,
        ).len() <= f.len(),
{
    lemma_split_first_piece(pattern, '*', Seq::empty());
    lemma_split_last_piece(pattern, '*', Seq::empty());
    assert(Seq::<char>::empty() + pattern.take(crate::text::first_pos(pattern, '*')) =~= pattern.take(
        crate::text::first_pos(pattern, '*'),
    ));
}

} // verus!
