//! The tree view of the commands: each command under a `└─` marker,
//! indented two spaces per level, with its directives below it.

use vstd::prelude::*;
use crate::ast::{Command, CommandV, Dependency, DependencyV, Directive, DirectiveV, commands_view, lemma_commands_view};
use crate::codegen::{dep_text, deps_joined, quoted_all, quoted_joined, signature_chars, signature_text};
use crate::merge::{cmd_depth, lemma_kids_depth};
use crate::text::{chars_of, chars_of_string, join, lines, push_all, string_of, trim};

verus! {

/// Two spaces for each of `n` levels.
pub open spec fn pad(n: nat) -> Seq<char>
    decreases n,
{
    if n == 0 {
        Seq::empty()
    } else {
        pad((n - 1) as nat) + "  "@
    }
}

/// A directive name with its operating system and `.hide` suffixes.
pub open spec fn shown_name(base: Seq<char>, os: Option<Seq<char>>, hide: bool) -> Seq<char> {
    base + (match os {
        Some(o) => "."@ + o,
        None => Seq::empty(),
    }) + (if hide {
        ".hide"@
    } else {
        Seq::empty()
    })
}

/// The lines of a multi-line script, each indented eight spaces past `ind`.
pub open spec fn shown_body(ls: Seq<Seq<char>>, ind: Seq<char>) -> Seq<char>
    decreases ls.len(),
{
    if ls.len() == 0 {
        Seq::empty()
    } else {
        shown_body(ls.drop_last(), ind) + ind + "        "@ + ls.last() + "\n"@
    }
}

/// A script-like directive: on one line, or `|` and its lines below.
pub open spec fn shown_script(ind: Seq<char>, name: Seq<char>, s: Seq<char>) -> Seq<char> {
    if s.contains('\n') {
        ind + "    > "@ + name + ": |\n"@ + shown_body(lines(s), ind)
    } else {
        ind + "    > "@ + name + ": "@ + s + "\n"@
    }
}

/// The line (or lines) of a directive of a command shown at `ind`.
pub open spec fn shown_directive(d: DirectiveV, ind: Seq<char>) -> Seq<char> {
    let head = ind + "    > "@;
    match d {
        DirectiveV::Desc(s) => head + "desc: "@ + s + "\n"@,
        DirectiveV::Cwd(s) => head + "cwd: "@ + s + "\n"@,
        DirectiveV::Env(k, v, h) => head + shown_name("env"@, None, h) + ": "@ + k + "="@ + v + "\n"@,
        DirectiveV::EnvFile(p, h) => head + shown_name("env"@, None, h) + ": "@ + p + "\n"@,
        DirectiveV::Depends(ds, p) => head + (if p {
            "depends.parallel"@
        } else {
            "depends"@
        }) + ": "@ + join(ds.map_values(|x: DependencyV| dep_text(x)), ", "@) + "\n"@,
        DirectiveV::Before(s, os, h) => shown_script(ind, shown_name("before"@, os, h), s),
        DirectiveV::After(s, os, h) => shown_script(ind, shown_name("after"@, os, h), s),
        DirectiveV::Fallback(s, os, h) => shown_script(ind, shown_name("fallback"@, os, h), s),
        DirectiveV::Finally(s, os, h) => shown_script(ind, shown_name("finally"@, os, h), s),
        DirectiveV::Script(s, os, h) => shown_script(ind, shown_name("script"@, os, h), s),
        DirectiveV::Validate(t, r) => head + "validate."@ + t + ": "@ + r + "\n"@,
        DirectiveV::Privileged(b) => head + "privileged: "@ + (if b {
            "true"@
        } else {
            "false"@
        }) + "\n"@,
        DirectiveV::Logs(p, f) => head + "logs."@ + f + ": "@ + p + "\n"@,
        DirectiveV::RequireConfirm(m) => if trim(m).len() == 0 {
            head + "require_confirm:\n"@
        } else {
            head + "require_confirm: "@ + m + "\n"@
        },
        DirectiveV::Watch(ws) => head + "watch: "@ + join(quoted_all(ws), ", "@) + "\n"@,
    }
}

/// The directives, one after the other.
pub open spec fn shown_directives(ds: Seq<DirectiveV>, ind: Seq<char>) -> Seq<char>
    decreases ds.len(),
{
    if ds.len() == 0 {
        Seq::empty()
    } else {
        shown_directives(ds.drop_last(), ind) + shown_directive(ds.last(), ind)
    }
}

/// The tree of a command at level `level`: its marker line, its
/// directives, then its children one level deeper.
pub open spec fn tree_text(c: CommandV, level: nat) -> Seq<char>
    decreases c, 0nat,
{
    pad(level) + "└─ "@ + signature_text(c) + "\n"@ + shown_directives(c.directives, pad(level))
        + trees_text(c.children, level + 1)
}

/// The trees of the commands, one after the other.
pub open spec fn trees_text(cs: Seq<CommandV>, level: nat) -> Seq<char>
    decreases cs, 1nat,
{
    if cs.len() == 0 {
        Seq::empty()
    } else {
        tree_text(cs[0], level) + trees_text(cs.subrange(1, cs.len() as int), level)
    }
}

/// The trees of the first `n` commands.
pub open spec fn trees_prefix(cs: Seq<CommandV>, level: nat, n: int) -> Seq<char>
    decreases n,
{
    if n <= 0 {
        Seq::empty()
    } else {
        trees_prefix(cs, level, n - 1) + tree_text(cs[n - 1], level)
    }
}

proof fn lemma_trees_prefix_shift(cs: Seq<CommandV>, level: nat, n: int)
    requires
        1 <= n <= cs.len(),
    ensures
        trees_prefix(cs, level, n) == tree_text(cs[0], level) + trees_prefix(
            cs.subrange(1, cs.len() as int),
            level,
            n - 1,
        ),
    decreases n,
{
    let rest = cs.subrange(1, cs.len() as int);
    if n == 1 {
        assert(trees_prefix(rest, level, 0) == Seq::<char>::empty());
        assert(trees_prefix(cs, level, 0) == Seq::<char>::empty());
        assert(Seq::<char>::empty() + tree_text(cs[0], level) =~= tree_text(cs[0], level)
            + Seq::<char>::empty());
    } else {
        lemma_trees_prefix_shift(cs, level, n - 1);
        assert(rest[n - 2] == cs[n - 1]);
        assert(tree_text(cs[0], level) + trees_prefix(rest, level, n - 2) + tree_text(cs[n - 1], level)
            =~= tree_text(cs[0], level) + (trees_prefix(rest, level, n - 2) + tree_text(
            rest[n - 2],
            level,
        )));
    }
}

proof fn lemma_trees_prefix_all(cs: Seq<CommandV>, level: nat)
    ensures
        trees_prefix(cs, level, cs.len() as int) == trees_text(cs, level),
    decreases cs.len(),
{
    if cs.len() > 0 {
        lemma_trees_prefix_all(cs.subrange(1, cs.len() as int), level);
        lemma_trees_prefix_shift(cs, level, cs.len() as int);
    }
}

fn pad_vec(n: usize) -> (out: Vec<char>)
    ensures
        out@ == pad(n as nat),
{
    let mut out: Vec<char> = Vec::new();
    let mut i: usize = 0;
    while i < n
        invariant
            i <= n,
            out@ == pad(i as nat),
        decreases n - i,
    {
        out.push(' ');
        out.push(' ');
        i += 1;
        proof {
            reveal_strlit("  ");
        }
        assert(out@ =~= pad((i - 1) as nat) + "  "@);
    }
    out
}

fn name_vec(base: &str, os: &Option<String>, hide: bool) -> (out: Vec<char>)
    ensures
        out@ == shown_name(
            base@,
            match os {
                Some(o) => Some(o@),
                None => None,
            },
            hide,
        ),
{
    let mut out = chars_of(base);
    let ghost b = out@;
    match os {
        Some(o) => {
            push_all(&mut out, &chars_of("."));
            push_all(&mut out, &chars_of_string(o));
        },
        None => {},
    }
    let ghost mid = out@;
    if hide {
        push_all(&mut out, &chars_of(".hide"));
    }
    assert(out@ =~= shown_name(
        base@,
        match os {
            Some(o) => Some(o@),
            None => None,
        },
        hide,
    ));
    out
}

fn push_script(out: &mut Vec<char>, ind: &Vec<char>, name: &Vec<char>, s: &String)
    ensures
        final(out)@ == old(out)@ + shown_script(ind@, name@, s@),
{
    let c = chars_of_string(s);
    let ghost o0 = out@;
    if crate::text::contains_char(&c, '\n') {
        push_all(out, ind);
        push_all(out, &chars_of("    > "));
        push_all(out, name);
        push_all(out, &chars_of(": |\n"));
        let ghost head = out@;
        let ls = crate::text::lines_chars(&c);
        let ghost lv = ls@.map_values(|x: Vec<char>| x@);
        let mut i: usize = 0;
        assert(lv.take(0) =~= Seq::<Seq<char>>::empty());
        assert(out@ =~= head + shown_body(lv.take(0), ind@));
        while i < ls.len()
            invariant
                i <= ls@.len(),
                lv == ls@.map_values(|x: Vec<char>| x@),
                out@ == head + shown_body(lv.take(i as int), ind@),
            decreases ls.len() - i,
        {
            assert(lv.take(i + 1).drop_last() =~= lv.take(i as int));
            assert(lv.take(i + 1).last() == ls@[i as int]@);
            let ghost before = out@;
            push_all(out, ind);
            push_all(out, &chars_of("        "));
            push_all(out, &ls[i]);
            push_all(out, &chars_of("\n"));
            assert(out@ =~= before + ind@ + "        "@ + ls@[i as int]@ + "\n"@);
            i += 1;
        }
        assert(lv.take(ls@.len() as int) =~= lv);
        assert(out@ =~= o0 + shown_script(ind@, name@, s@));
    } else {
        push_all(out, ind);
        push_all(out, &chars_of("    > "));
        push_all(out, name);
        push_all(out, &chars_of(": "));
        push_all(out, &c);
        push_all(out, &chars_of("\n"));
        assert(out@ =~= o0 + shown_script(ind@, name@, s@));
    }
}

fn push_line(out: &mut Vec<char>, ind: &Vec<char>, parts: &Vec<char>)
    ensures
        final(out)@ == old(out)@ + ind@ + "    > "@ + parts@ + "\n"@,
{
    let ghost o0 = out@;
    push_all(out, ind);
    push_all(out, &chars_of("    > "));
    push_all(out, parts);
    push_all(out, &chars_of("\n"));
    assert(out@ =~= o0 + ind@ + "    > "@ + parts@ + "\n"@);
}

fn cat(a: &str, b: &String) -> (out: Vec<char>)
    ensures
        out@ == a@ + b@,
{
    let mut o = chars_of(a);
    push_all(&mut o, &chars_of_string(b));
    o
}

fn push_directive_line(out: &mut Vec<char>, d: &Directive, ind: &Vec<char>)
    ensures
        final(out)@ == old(out)@ + shown_directive(d@, ind@),
{
    let ghost o0 = out@;
    match d {
        Directive::Desc(s) => push_line(out, ind, &cat("desc: ", s)),
        Directive::Cwd(s) => push_line(out, ind, &cat("cwd: ", s)),
        Directive::Env(k, v, h) => {
            let mut p = name_vec("env", &None, *h);
            push_all(&mut p, &chars_of(": "));
            push_all(&mut p, &chars_of_string(k));
            push_all(&mut p, &chars_of("="));
            push_all(&mut p, &chars_of_string(v));
            push_line(out, ind, &p);
        },
        Directive::EnvFile(f, h) => {
            let mut p = name_vec("env", &None, *h);
            push_all(&mut p, &chars_of(": "));
            push_all(&mut p, &chars_of_string(f));
            push_line(out, ind, &p);
        },
        Directive::Depends(deps, par) => {
            let mut p = if *par {
                chars_of("depends.parallel")
            } else {
                chars_of("depends")
            };
            push_all(&mut p, &chars_of(": "));
            push_all(&mut p, &deps_joined(deps));
            push_line(out, ind, &p);
        },
        Directive::Before(s, os, h) => push_script(out, ind, &name_vec("before", os, *h), s),
        Directive::After(s, os, h) => push_script(out, ind, &name_vec("after", os, *h), s),
        Directive::Fallback(s, os, h) => push_script(out, ind, &name_vec("fallback", os, *h), s),
        Directive::Finally(s, os, h) => push_script(out, ind, &name_vec("finally", os, *h), s),
        Directive::Script(s, os, h) => push_script(out, ind, &name_vec("script", os, *h), s),
        Directive::Validate(t, r) => {
            let mut p = cat("validate.", t);
            push_all(&mut p, &chars_of(": "));
            push_all(&mut p, &chars_of_string(r));
            push_line(out, ind, &p);
        },
        Directive::Privileged(b) => {
            let mut p = chars_of("privileged: ");
            if *b {
                push_all(&mut p, &chars_of("true"));
            } else {
                push_all(&mut p, &chars_of("false"));
            }
            push_line(out, ind, &p);
        },
        Directive::Logs(path, format) => {
            let mut p = cat("logs.", format);
            push_all(&mut p, &chars_of(": "));
            push_all(&mut p, &chars_of_string(path));
            push_line(out, ind, &p);
        },
        Directive::RequireConfirm(m) => {
            let t = crate::text::trim_chars(&chars_of_string(m));
            if t.len() == 0 {
                push_all(out, ind);
                push_all(out, &chars_of("    > "));
                push_all(out, &chars_of("require_confirm:\n"));
                assert(out@ =~= o0 + ind@ + "    > "@ + "require_confirm:\n"@);
            } else {
                push_line(out, ind, &cat("require_confirm: ", m));
            }
        },
        Directive::Watch(ws) => {
            let mut p = chars_of("watch: ");
            push_all(&mut p, &quoted_joined(ws));
            push_line(out, ind, &p);
        },
    }
}

fn push_tree(out: &mut Vec<char>, command: &Command, level: usize)
    requires
        level + cmd_depth(command@) <= usize::MAX,
    ensures
        final(out)@ == old(out)@ + tree_text(command@, level as nat),
    decreases cmd_depth(command@),
{
    let ghost o0 = out@;
    let ghost cv = command@;
    let ind = pad_vec(level);
    push_all(out, &ind);
    push_all(out, &chars_of("└─ "));
    push_all(out, &signature_chars(command));
    push_all(out, &chars_of("\n"));
    let ghost head = out@;
    let ghost dv = cv.directives;
    let mut i: usize = 0;
    assert(dv.take(0) =~= Seq::<DirectiveV>::empty());
    assert(out@ =~= head + shown_directives(dv.take(0), ind@));
    while i < command.directives.len()
        invariant
            i <= command.directives@.len(),
            cv == command@,
            dv == cv.directives,
            out@ == head + shown_directives(dv.take(i as int), ind@),
        decreases command.directives.len() - i,
    {
        assert(dv.take(i + 1).drop_last() =~= dv.take(i as int));
        assert(dv.take(i + 1).last() == command.directives@[i as int]@);
        push_directive_line(out, &command.directives[i], &ind);
        i += 1;
    }
    assert(dv.take(command.directives@.len() as int) =~= dv);
    let ghost before_kids = out@;
    let ghost kv = commands_view(command.children@);
    proof {
        lemma_commands_view(command.children@);
        lemma_kids_depth(kv, 0);
        assert(kv =~= cv.children);
    }
    let mut i: usize = 0;
    while i < command.children.len()
        invariant
            i <= command.children@.len(),
            cv == command@,
            kv == commands_view(command.children@),
            kv.len() == command.children@.len(),
            forall|j: int| 0 <= j < kv.len() ==> #[trigger] kv[j] == command.children@[j]@,
            forall|j: int| 0 <= j < kv.len() ==> #[trigger] cmd_depth(kv[j]) < cmd_depth(cv),
            level + cmd_depth(cv) <= usize::MAX,
            out@ == before_kids + trees_prefix(kv, (level + 1) as nat, i as int),
        decreases command.children.len() - i,
    {
        assert(cmd_depth(kv[i as int]) < cmd_depth(cv));
        let ghost prev = out@;
        push_tree(out, &command.children[i], level + 1);
        assert(out@ =~= before_kids + trees_prefix(kv, (level + 1) as nat, i + 1));
        i += 1;
    }
    proof {
        lemma_trees_prefix_all(kv, (level + 1) as nat);
    }
    assert(out@ =~= o0 + tree_text(cv, level as nat));
}

/// The tree view of a command at `level` (see `tree_text`).
pub fn command_tree(command: &Command, level: usize) -> (s: String)
    requires
        level + cmd_depth(command@) <= usize::MAX,
    ensures
        s@ == tree_text(command@, level as nat),
{
    let mut out: Vec<char> = Vec::new();
    push_tree(&mut out, command, level);
    assert(out@ =~= tree_text(command@, level as nat));
    string_of(&out)
}

} // verus!
