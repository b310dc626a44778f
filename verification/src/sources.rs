//! Which file each command was defined in. The Nestfile text that the
//! browser reads carries `# @source: PATH` lines where the text of another
//! file begins; a command's file is the one in force on the line that
//! defines it.

use vstd::prelude::*;
use crate::ast::{Command, CommandV, commands_view, lemma_commands_view, lemma_commands_view_push};
use crate::merge::{cmd_depth, kids_depth, lemma_kids_depth};
use crate::text::{chars_of, lines, string_of, trim, trim_start};

verus! {

/// The file in force on line `k`: the path of the last `# @source: ` line
/// up to it, or `initial`.
pub open spec fn source_at(ls: Seq<Seq<char>>, initial: Seq<char>, k: int) -> Seq<char>
    decreases k + 1,
{
    if k < 0 || k >= ls.len() {
        initial
    } else if "# @source: "@.is_prefix_of(ls[k]) {
        trim(ls[k].skip(11))
    } else {
        source_at(ls, initial, k - 1)
    }
}

/// The file in force on each line.
pub open spec fn source_map(ls: Seq<Seq<char>>, initial: Seq<char>) -> Seq<Seq<char>> {
    Seq::new(ls.len(), |k: int| source_at(ls, initial, k))
}

/// The line defines the command `name`: after its indentation it is not a
/// comment, starts with the name, and goes on with `:` (after spaces) or
/// `(`.
pub open spec fn defines(line: Seq<char>, name: Seq<char>) -> bool {
    let t = trim_start(line);
    let rem = t.skip(name.len() as int);
    &&& t.len() > 0
    &&& t[0] != '#'
    &&& name.is_prefix_of(t)
    &&& ((trim_start(rem).len() > 0 && trim_start(rem)[0] == ':') || (rem.len() > 0 && rem[0] == '('))
}

/// The first line from `from` on that defines `name`; the number of lines
/// where none does.
pub open spec fn first_def(ls: Seq<Seq<char>>, from: int, name: Seq<char>) -> int
    decreases ls.len() - from,
{
    if from < 0 || from >= ls.len() {
        ls.len() as int
    } else if defines(ls[from], name) {
        from
    } else {
        first_def(ls, from + 1, name)
    }
}

/// The commands with their files: each command takes the file of the first
/// line from `from` on that defines it, and its children are looked for
/// after that line; a command without such a line is left as it is.
pub open spec fn resolve_list(cs: Seq<CommandV>, ls: Seq<Seq<char>>, srcs: Seq<Seq<char>>, from: int) -> Seq<
    CommandV,
>
    decreases kids_depth(cs), cs.len(),
{
    if cs.len() == 0 {
        Seq::empty()
    } else {
        proof {
            lemma_kids_depth(cs, 0);
            assert(cmd_depth(cs[0]) == 1 + kids_depth(cs[0].children));
        }
        let c = cs[0];
        let k = first_def(ls, from, c.name);
        let rest = resolve_list(cs.subrange(1, cs.len() as int), ls, srcs, from);
        if 0 <= k < ls.len() {
            seq![CommandV { source_file: Some(srcs[k]), children: resolve_list(c.children, ls, srcs, k + 1), ..c }]
                + rest
        } else {
            seq![c] + rest
        }
    }
}

proof fn lemma_first_def_bounds(ls: Seq<Seq<char>>, from: int, name: Seq<char>)
    ensures
        first_def(ls, from, name) == ls.len() || (0 <= from <= first_def(ls, from, name) < ls.len()),
    decreases ls.len() - from,
{
    if 0 <= from < ls.len() && !defines(ls[from], name) {
        lemma_first_def_bounds(ls, from + 1, name);
    }
}

fn defines_exec(line: &Vec<char>, name: &Vec<char>) -> (b: bool)
    ensures
        b == defines(line@, name@),
{
    let t = crate::text::trim_start_chars(line);
    if t.len() == 0 || t[0] == '#' {
        return false;
    }
    if !crate::text::starts_with(&t, name) {
        return false;
    }
    let rem = crate::text::slice_chars(&t, name.len(), t.len());
    assert(rem@ =~= t@.skip(name@.len() as int));
    let r2 = crate::text::trim_start_chars(&rem);
    (r2.len() > 0 && r2[0] == ':') || (rem.len() > 0 && rem[0] == '(')
}

fn first_def_exec(ls: &Vec<Vec<char>>, from: usize, name: &Vec<char>) -> (k: usize)
    ensures
        k as int == first_def(ls@.map_values(|x: Vec<char>| x@), from as int, name@),
{
    let ghost lv = ls@.map_values(|x: Vec<char>| x@);
    let mut i: usize = from;
    while i < ls.len()
        invariant
            from <= i,
            lv == ls@.map_values(|x: Vec<char>| x@),
            first_def(lv, from as int, name@) == first_def(lv, i as int, name@),
        decreases ls.len() - i,
    {
        if defines_exec(&ls[i], name) {
            return i;
        }
        i += 1;
    }
    ls.len()
}

fn resolve_scope(
    commands: Vec<Command>,
    ls: &Vec<Vec<char>>,
    srcs: &Vec<Vec<char>>,
    from: usize,
) -> (out: Vec<Command>)
    requires
        srcs@.len() == ls@.len(),
    ensures
        commands_view(out@) == resolve_list(
            commands_view(commands@),
            ls@.map_values(|x: Vec<char>| x@),
            srcs@.map_values(|x: Vec<char>| x@),
            from as int,
        ),
    decreases kids_depth(commands_view(commands@)),
{
    let ghost lv = ls@.map_values(|x: Vec<char>| x@);
    let ghost sv = srcs@.map_values(|x: Vec<char>| x@);
    let ghost cv = commands_view(commands@);
    let ghost target = resolve_list(cv, lv, sv, from as int);
    proof {
        lemma_kids_depth(cv, 0);
        lemma_commands_view(commands@);
    }
    let mut rest = commands;
    let mut out: Vec<Command> = Vec::new();
    assert(commands_view(out@) =~= Seq::<CommandV>::empty());
    assert(cv =~= commands_view(rest@));
    while rest.len() > 0
        invariant
            cv == commands_view(commands@),
            target == commands_view(out@) + resolve_list(commands_view(rest@), lv, sv, from as int),
            kids_depth(commands_view(rest@)) <= kids_depth(cv),
            lv == ls@.map_values(|x: Vec<char>| x@),
            sv == srcs@.map_values(|x: Vec<char>| x@),
            srcs@.len() == ls@.len(),
        decreases rest.len(),
    {
        let ghost rv = commands_view(rest@);
        let ghost ov = commands_view(out@);
        proof {
            lemma_commands_view(rest@);
        }
        let c = rest.remove(0);
        proof {
            lemma_commands_view(rest@);
            assert(commands_view(rest@) =~= rv.subrange(1, rv.len() as int));
            assert(rv[0] == c@);
            lemma_kids_depth(rv, 0);
        }
        let name = crate::text::chars_of_string(&c.name);
        let k = first_def_exec(ls, from, &name);
        proof {
            lemma_first_def_bounds(lv, from as int, c@.name);
        }
        let ghost tail = resolve_list(commands_view(rest@), lv, sv, from as int);
        if k < ls.len() {
            let Command {
                name: cname,
                parameters,
                directives,
                children,
                has_wildcard,
                local_variables,
                local_constants,
                source_file: _,
            } = c;
            proof {
                assert(cmd_depth(rv[0]) <= kids_depth(rv));
            }
            let kids = resolve_scope(children, ls, srcs, k + 1);
            let nc = Command {
                name: cname,
                parameters,
                directives,
                children: kids,
                has_wildcard,
                local_variables,
                local_constants,
                source_file: Some(string_of(&srcs[k])),
            };
            proof {
                lemma_commands_view_push(out@, nc);
                assert(ov.push(nc@) + tail =~= ov + (seq![nc@] + tail));
            }
            out.push(nc);
        } else {
            proof {
                lemma_commands_view_push(out@, c);
                assert(ov.push(c@) + tail =~= ov + (seq![c@] + tail));
            }
            out.push(c);
        }
    }
    assert(commands_view(out@) + Seq::<CommandV>::empty() =~= commands_view(out@));
    out
}

/// Gives each command the file it was defined in (see `resolve_list` and
/// `source_map`); `initial_path` is the file in force before the first
/// `# @source: ` line.
pub fn resolve_command_sources(commands: Vec<Command>, content: &str, initial_path: &str) -> (out: Vec<Command>)
    ensures
        commands_view(out@) == resolve_list(
            commands_view(commands@),
            lines(content@),
            source_map(lines(content@), initial_path@),
            0,
        ),
{
    let ls = crate::text::lines_chars(&chars_of(content));
    let ghost lv = ls@.map_values(|x: Vec<char>| x@);
    let marker = chars_of("# @source: ");
    let mut cur = chars_of(initial_path);
    let mut srcs: Vec<Vec<char>> = Vec::new();
    let mut i: usize = 0;
    proof {
        reveal_strlit("# @source: ");
    }
    while i < ls.len()
        invariant
            i <= ls@.len(),
            lv == ls@.map_values(|x: Vec<char>| x@),
            marker@ == "# @source: "@,
            srcs@.len() == i,
            cur@ == source_at(lv, initial_path@, i - 1),
            forall|j: int| 0 <= j < i ==> #[trigger] srcs@[j]@ == source_at(lv, initial_path@, j),
        decreases ls.len() - i,
    {
        proof {
            reveal_strlit("# @source: ");
        }
        if crate::text::starts_with(&ls[i], &marker) {
            assert(marker@.len() == 11);
            let rest = crate::text::slice_chars(&ls[i], 11, ls[i].len());
            assert(rest@ =~= lv[i as int].skip(11));
            cur = crate::text::trim_chars(&rest);
        }
        assert(cur@ == source_at(lv, initial_path@, i as int));
        srcs.push(cur.clone());
        i += 1;
    }
    assert(srcs@.map_values(|x: Vec<char>| x@) =~= source_map(lv, initial_path@));
    resolve_scope(commands, &ls, &srcs, 0)
}

} // verus!
