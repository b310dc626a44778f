//! The command tree at run time: finding commands and functions, and what
//! a command inherits from its parents (variables, constants, directives,
//! environment settings).

use vstd::prelude::*;
use crate::ast::{
    ArgMap, BindingV, Command, CommandV, Constant, Directive, DirectiveV, Function, FunctionV,
    Variable, commands_view, lemma_commands_view,
};
use crate::directives::{DirectiveResolver, HostOs};
use crate::text::{chars_of, chars_of_string, push_all, replace, replace_chars, string_of, trim};

verus! {

/// The first command named `n` among `cs`, with its position.
pub open spec fn first_named(cs: Seq<CommandV>, n: Seq<char>) -> int
    decreases cs.len(),
{
    if cs.len() == 0 {
        -1
    } else if cs[0].name == n {
        0
    } else {
        let r = first_named(cs.drop_first(), n);
        if r < 0 {
            -1
        } else {
            r + 1
        }
    }
}

/// The command at `path` in the tree `cs`: the first of each name at each
/// level; none for an empty path or a missing name.
pub open spec fn find_path(cs: Seq<CommandV>, path: Seq<Seq<char>>) -> Option<CommandV>
    decreases path.len(),
{
    if path.len() == 0 {
        None
    } else {
        let i = first_named(cs, path[0]);
        if 0 <= i < cs.len() {
            if path.len() == 1 {
                Some(cs[i])
            } else {
                find_path(cs[i].children, path.drop_first())
            }
        } else {
            None
        }
    }
}

/// Law (path composition): the command at the path `p` followed by `q` is
/// the command at `q` among the children of the command at `p` (none where
/// there is no command at `p`).
pub proof fn lemma_find_path_append(cs: Seq<CommandV>, p: Seq<Seq<char>>, q: Seq<Seq<char>>)
    requires
        p.len() > 0,
        q.len() > 0,
    ensures
        find_path(cs, p + q) == match find_path(cs, p) {
            Some(c) => find_path(c.children, q),
            None => None,
        },
    decreases p.len(),
{
    let i = first_named(cs, p[0]);
    assert((p + q)[0] == p[0]);
    if 0 <= i < cs.len() {
        if p.len() == 1 {
            assert((p + q).drop_first() =~= q);
        } else {
            assert((p + q).drop_first() =~= p.drop_first() + q);
            lemma_find_path_append(cs[i].children, p.drop_first(), q);
        }
    }
}

/// `ch` is the chain of lookups along `path`: its first command is the
/// first of `cs` named `path[0]`, and the rest is the chain of lookups
/// along the rest of the path among that command's children.
pub open spec fn lookup_chain(cs: Seq<CommandV>, path: Seq<Seq<char>>, ch: Seq<CommandV>) -> bool
    decreases path.len(),
{
    &&& path.len() > 0
    &&& ch.len() == path.len()
    &&& 0 <= first_named(cs, path[0]) < cs.len()
    &&& ch[0] == cs[first_named(cs, path[0])]
    &&& path.len() > 1 ==> lookup_chain(ch[0].children, path.drop_first(), ch.drop_first())
}

/// A lookup chain for `path` gives what `find_path` finds.
proof fn lemma_chain_finds(cs: Seq<CommandV>, path: Seq<Seq<char>>, ch: Seq<CommandV>)
    requires
        lookup_chain(cs, path, ch),
    ensures
        find_path(cs, path) == Some(ch.last()),
    decreases path.len(),
{
    if path.len() > 1 {
        lemma_chain_finds(ch[0].children, path.drop_first(), ch.drop_first());
        assert(ch.drop_first().last() == ch.last());
    }
}

/// What `find_path` finds is the end of its lookup chain.
proof fn lemma_find_chain(cs: Seq<CommandV>, path: Seq<Seq<char>>)
    requires
        find_path(cs, path) is Some,
    ensures
        lookup_chain(cs, path, chain(cs, path)),
        chain(cs, path).last() == find_path(cs, path)->0,
    decreases path.len(),
{
    let i = first_named(cs, path[0]);
    let ch = chain(cs, path);
    if path.len() == 1 {
        assert(chain(cs[i].children, path.drop_first()) =~= Seq::<CommandV>::empty());
        assert(ch =~= seq![cs[i]]);
    } else {
        let rp = path.drop_first();
        let kids = cs[i].children;
        lemma_find_chain(kids, rp);
        let rest = chain(kids, rp);
        assert(ch == seq![cs[i]] + rest);
        assert(ch.drop_first() =~= rest);
        assert(ch.last() == rest.last());
    }
}

/// Law (a path is a chain of lookups): the command at `path` is found
/// exactly where the path is not empty and there is a chain of commands
/// along it, the first the first command named `path[0]` and each next
/// the first child of the one before named by the next name; the command
/// found is the last of the chain.
pub proof fn lemma_find_path_chain(cs: Seq<CommandV>, path: Seq<Seq<char>>, c: CommandV)
    ensures
        find_path(cs, path) == Some(c) <==> exists|ch: Seq<CommandV>|
            #[trigger] lookup_chain(cs, path, ch) && ch.last() == c,
{
    if find_path(cs, path) == Some(c) {
        lemma_find_chain(cs, path);
        assert(lookup_chain(cs, path, chain(cs, path)));
    }
    if exists|ch: Seq<CommandV>| #[trigger] lookup_chain(cs, path, ch) && ch.last() == c {
        let ch = choose|ch: Seq<CommandV>| #[trigger] lookup_chain(cs, path, ch) && ch.last() == c;
        lemma_chain_finds(cs, path, ch);
    }
}

/// The commands met along `names` from the top of `cs`, up to the first
/// name that is missing.
pub open spec fn chain(cs: Seq<CommandV>, names: Seq<Seq<char>>) -> Seq<CommandV>
    decreases names.len(),
{
    if names.len() == 0 {
        Seq::empty()
    } else {
        let i = first_named(cs, names[0]);
        if 0 <= i < cs.len() {
            seq![cs[i]] + chain(cs[i].children, names.drop_first())
        } else {
            Seq::empty()
        }
    }
}

/// The parents of the command at `path`: the commands along the path
/// without its last name.
pub open spec fn parents_of(cs: Seq<CommandV>, path: Seq<Seq<char>>) -> Seq<CommandV> {
    if path.len() <= 1 {
        Seq::empty()
    } else {
        chain(cs, path.drop_last())
    }
}

/// The local variables of the commands, one command after the other.
pub open spec fn all_vars(cs: Seq<CommandV>) -> Seq<BindingV>
    decreases cs.len(),
{
    if cs.len() == 0 {
        Seq::empty()
    } else {
        all_vars(cs.drop_last()) + cs.last().local_variables
    }
}

/// The local constants of the commands, one command after the other.
pub open spec fn all_consts(cs: Seq<CommandV>) -> Seq<BindingV>
    decreases cs.len(),
{
    if cs.len() == 0 {
        Seq::empty()
    } else {
        all_consts(cs.drop_last()) + cs.last().local_constants
    }
}

/// The environment directives (`env` settings and files) among `ds`.
pub open spec fn env_directives(ds: Seq<DirectiveV>) -> Seq<DirectiveV>
    decreases ds.len(),
{
    if ds.len() == 0 {
        Seq::empty()
    } else {
        let rest = env_directives(ds.drop_last());
        if ds.last() is Env || ds.last() is EnvFile {
            rest.push(ds.last())
        } else {
            rest
        }
    }
}

/// The environment directives of the commands, one command after the other.
pub open spec fn all_env(cs: Seq<CommandV>) -> Seq<DirectiveV>
    decreases cs.len(),
{
    if cs.len() == 0 {
        Seq::empty()
    } else {
        all_env(cs.drop_last()) + env_directives(cs.last().directives)
    }
}

/// The position of the first function named `n`, or -1.
pub open spec fn function_pos(fs: Seq<FunctionV>, n: Seq<char>) -> int
    decreases fs.len(),
{
    if fs.len() == 0 {
        -1
    } else if fs[0].name == n {
        0
    } else {
        let r = function_pos(fs.drop_first(), n);
        if r < 0 {
            -1
        } else {
            r + 1
        }
    }
}

/// The text after replacing each placeholder `{{key}}` of the pairs in
/// order.
pub open spec fn replace_pairs(s: Seq<char>, kvs: Seq<(Seq<char>, Seq<char>)>) -> Seq<char>
    decreases kvs.len(),
{
    if kvs.len() == 0 {
        s
    } else {
        let t = replace_pairs(s, kvs.drop_last());
        replace(t, "{{"@ + kvs.last().0 + "}}"@, kvs.last().1)
    }
}

/// The return value of a function: placeholders of the arguments, then of
/// the variables, replaced; a value that is quoted once trimmed loses its
/// quotes.
pub open spec fn return_value_spec(
    e: Seq<char>,
    args: Seq<(Seq<char>, Seq<char>)>,
    vars: Seq<(Seq<char>, Seq<char>)>,
) -> Seq<char> {
    let r = replace_pairs(replace_pairs(e, args), vars);
    let t = trim(r);
    if t.len() >= 2 && ((t[0] == '"' && t.last() == '"') || (t[0] == '\'' && t.last() == '\'')) {
        t.subrange(1, t.len() - 1)
    } else {
        r
    }
}

/// The position of the first command named `n`.
pub(crate) fn position_of(cs: &Vec<Command>, n: &String) -> (r: Option<usize>)
    ensures
        match r {
            Some(i) => i as int == first_named(commands_view(cs@), n@) && i < cs@.len(),
            None => first_named(commands_view(cs@), n@) == -1,
        },
{
    let ghost cv = commands_view(cs@);
    proof {
        lemma_commands_view(cs@);
    }
    let mut i: usize = 0;
    assert(cv.skip(0) =~= cv);
    while i < cs.len()
        invariant
            i <= cs@.len(),
            cv == commands_view(cs@),
            cv.len() == cs@.len(),
            forall|j: int| 0 <= j < cv.len() ==> #[trigger] cv[j] == cs@[j]@,
            first_named(cv, n@) == if first_named(cv.skip(i as int), n@) < 0 {
                -1
            } else {
                first_named(cv.skip(i as int), n@) + i
            },
        decreases cs.len() - i,
    {
        assert(cv.skip(i as int)[0] == cv[i as int]);
        assert(cv.skip(i as int).drop_first() =~= cv.skip(i + 1));
        if cs[i].name == *n {
            return Some(i);
        }
        i += 1;
    }
    assert(cv.skip(i as int) =~= Seq::<CommandV>::empty());
    None
}

/// Finds a command by its path in `commands`.
pub fn find_command_in<'a>(commands: &'a Vec<Command>, path: &[String]) -> (r: Option<&'a Command>)
    ensures
        match r {
            Some(c) => find_path(commands_view(commands@), path@.map_values(|s: String| s@)) == Some(
                c@,
            ),
            None => find_path(commands_view(commands@), path@.map_values(|s: String| s@)) is None,
        },
{
    let ghost pv = path@.map_values(|s: String| s@);
    if path.len() == 0 {
        return None;
    }
    let mut current: &'a Vec<Command> = commands;
    let mut k: usize = 0;
    assert(pv.skip(0) =~= pv);
    loop
        invariant
            k < path@.len(),
            pv == path@.map_values(|s: String| s@),
            find_path(commands_view(commands@), pv) == find_path(
                commands_view(current@),
                pv.skip(k as int),
            ),
        decreases path@.len() - k,
    {
        let ghost rest = pv.skip(k as int);
        assert(rest[0] == path@[k as int]@);
        proof {
            lemma_commands_view(current@);
        }
        match position_of(current, &path[k]) {
            Some(i) => {
                let c = &current[i];
                assert(commands_view(current@)[i as int] == c@);
                if k + 1 == path.len() {
                    return Some(c);
                }
                assert(rest.drop_first() =~= pv.skip(k + 1));
                assert(c@.children == commands_view(c.children@));
                current = &c.children;
                k = k + 1;
            },
            None => {
                return None;
            },
        }
    }
}

/// A copy of a variable.
fn copy_variable(v: &Variable) -> (r: Variable)
    ensures
        r@ == v@,
{
    Variable { name: v.name.clone(), value: v.value.clone() }
}

/// A copy of a constant.
fn copy_constant(c: &Constant) -> (r: Constant)
    ensures
        r@ == c@,
{
    Constant { name: c.name.clone(), value: c.value.clone() }
}

/// The commands met along the first `n` names of `path`, up to the first
/// missing name.
fn chain_of<'a>(commands: &'a Vec<Command>, path: &[String], n: usize) -> (r: Vec<&'a Command>)
    requires
        n <= path@.len(),
    ensures
        r@.map_values(|c: &Command| c@) == chain(
            commands_view(commands@),
            path@.map_values(|s: String| s@).take(n as int),
        ),
{
    let ghost pv = path@.map_values(|s: String| s@).take(n as int);
    let mut out: Vec<&'a Command> = Vec::new();
    let mut current: &'a Vec<Command> = commands;
    let mut k: usize = 0;
    assert(pv.skip(0) =~= pv);
    assert(out@.map_values(|c: &Command| c@) =~= Seq::<CommandV>::empty());
    while k < n
        invariant
            k <= n,
            n <= path@.len(),
            pv == path@.map_values(|s: String| s@).take(n as int),
            chain(commands_view(commands@), pv) == out@.map_values(|c: &Command| c@) + chain(
                commands_view(current@),
                pv.skip(k as int),
            ),
        decreases n - k,
    {
        let ghost rest = pv.skip(k as int);
        let ghost before = out@.map_values(|c: &Command| c@);
        assert(rest[0] == path@[k as int]@);
        proof {
            lemma_commands_view(current@);
        }
        match position_of(current, &path[k]) {
            Some(i) => {
                let c = &current[i];
                assert(commands_view(current@)[i as int] == c@);
                assert(rest.drop_first() =~= pv.skip(k + 1));
                assert(c@.children == commands_view(c.children@));
                out.push(c);
                assert(out@.map_values(|c: &Command| c@) =~= before.push(c@));
                assert(before.push(c@) + chain(commands_view(c.children@), pv.skip(k + 1))
                    =~= before + (seq![c@] + chain(commands_view(c.children@), pv.skip(k + 1))));
                current = &c.children;
                k = k + 1;
            },
            None => {
                assert(before + Seq::<CommandV>::empty() =~= before);
                return out;
            },
        }
    }
    assert(pv.skip(n as int) =~= Seq::<Seq<char>>::empty());
    assert(out@.map_values(|c: &Command| c@) + Seq::<CommandV>::empty() =~= out@.map_values(
        |c: &Command| c@,
    ));
    out
}

/// The parents of the command at `path`.
fn parents_in<'a>(commands: &'a Vec<Command>, path: &[String]) -> (r: Vec<&'a Command>)
    ensures
        r@.map_values(|c: &Command| c@) == parents_of(
            commands_view(commands@),
            path@.map_values(|s: String| s@),
        ),
{
    if path.len() <= 1 {
        let r: Vec<&'a Command> = Vec::new();
        assert(r@.map_values(|c: &Command| c@) =~= Seq::<CommandV>::empty());
        return r;
    }
    let r = chain_of(commands, path, path.len() - 1);
    assert(path@.map_values(|s: String| s@).take(path@.len() - 1) =~= path@.map_values(
        |s: String| s@,
    ).drop_last());
    r
}

/// The variables and constants of the parents of the command at `path`,
/// from the root down (so that nearer parents come later).
pub fn collect_parent_variables_in(commands: &Vec<Command>, path: &[String]) -> (r: (
    Vec<Variable>,
    Vec<Constant>,
))
    ensures
        ({
            let ps = parents_of(commands_view(commands@), path@.map_values(|s: String| s@));
            r.0@.map_values(|v: Variable| v@) == all_vars(ps) && r.1@.map_values(|c: Constant| c@)
                == all_consts(ps)
        }),
{
    let parents = parents_in(commands, path);
    let ghost ps = parents@.map_values(|c: &Command| c@);
    let mut vars: Vec<Variable> = Vec::new();
    let mut consts: Vec<Constant> = Vec::new();
    let mut i: usize = 0;
    assert(ps.take(0) =~= Seq::<CommandV>::empty());
    assert(vars@.map_values(|v: Variable| v@) =~= Seq::<BindingV>::empty());
    assert(consts@.map_values(|v: Constant| v@) =~= Seq::<BindingV>::empty());
    while i < parents.len()
        invariant
            i <= parents@.len(),
            ps == parents@.map_values(|c: &Command| c@),
            vars@.map_values(|v: Variable| v@) == all_vars(ps.take(i as int)),
            consts@.map_values(|v: Constant| v@) == all_consts(ps.take(i as int)),
        decreases parents.len() - i,
    {
        let c = parents[i];
        assert(ps.take(i + 1).drop_last() =~= ps.take(i as int));
        assert(ps.take(i + 1).last() == c@);
        let ghost vb = vars@.map_values(|v: Variable| v@);
        let mut j: usize = 0;
        while j < c.local_variables.len()
            invariant
                j <= c.local_variables@.len(),
                vars@.map_values(|v: Variable| v@) == vb + c@.local_variables.take(j as int),
            decreases c.local_variables.len() - j,
        {
            let ghost before = vars@.map_values(|v: Variable| v@);
            let v = copy_variable(&c.local_variables[j]);
            vars.push(v);
            assert(vars@.map_values(|v: Variable| v@) =~= before.push(c@.local_variables[j as int]));
            assert(c@.local_variables.take(j + 1) =~= c@.local_variables.take(j as int).push(
                c@.local_variables[j as int],
            ));
            j += 1;
        }
        assert(c@.local_variables.take(c.local_variables@.len() as int) =~= c@.local_variables);
        let ghost cb = consts@.map_values(|v: Constant| v@);
        let mut j: usize = 0;
        while j < c.local_constants.len()
            invariant
                j <= c.local_constants@.len(),
                consts@.map_values(|v: Constant| v@) == cb + c@.local_constants.take(j as int),
            decreases c.local_constants.len() - j,
        {
            let ghost before = consts@.map_values(|v: Constant| v@);
            let v = copy_constant(&c.local_constants[j]);
            consts.push(v);
            assert(consts@.map_values(|v: Constant| v@) =~= before.push(c@.local_constants[j as int]));
            assert(c@.local_constants.take(j + 1) =~= c@.local_constants.take(j as int).push(
                c@.local_constants[j as int],
            ));
            j += 1;
        }
        assert(c@.local_constants.take(c.local_constants@.len() as int) =~= c@.local_constants);
        i += 1;
    }
    assert(ps.take(parents@.len() as int) =~= ps);
    (vars, consts)
}

/// The environment directives of the parents of the command at `path`,
/// from the root down.
pub fn collect_parent_env_directives_in(commands: &Vec<Command>, path: &[String]) -> (r: Vec<
    Directive,
>)
    ensures
        r@.map_values(|d: Directive| d@) == all_env(
            parents_of(commands_view(commands@), path@.map_values(|s: String| s@)),
        ),
{
    let parents = parents_in(commands, path);
    let ghost ps = parents@.map_values(|c: &Command| c@);
    let mut out: Vec<Directive> = Vec::new();
    let mut i: usize = 0;
    assert(ps.take(0) =~= Seq::<CommandV>::empty());
    assert(out@.map_values(|d: Directive| d@) =~= Seq::<DirectiveV>::empty());
    while i < parents.len()
        invariant
            i <= parents@.len(),
            ps == parents@.map_values(|c: &Command| c@),
            out@.map_values(|d: Directive| d@) == all_env(ps.take(i as int)),
        decreases parents.len() - i,
    {
        let c = parents[i];
        assert(ps.take(i + 1).drop_last() =~= ps.take(i as int));
        assert(ps.take(i + 1).last() == c@);
        let ghost ob = out@.map_values(|d: Directive| d@);
        let ghost dv = c@.directives;
        let mut j: usize = 0;
        assert(dv.take(0) =~= Seq::<DirectiveV>::empty());
        assert(ob + env_directives(dv.take(0)) =~= ob);
        while j < c.directives.len()
            invariant
                j <= c.directives@.len(),
                dv == c@.directives,
                dv == c.directives@.map_values(|d: Directive| d@),
                out@.map_values(|d: Directive| d@) == ob + env_directives(dv.take(j as int)),
            decreases c.directives.len() - j,
        {
            let ghost before = out@.map_values(|d: Directive| d@);
            assert(dv.take(j + 1).drop_last() =~= dv.take(j as int));
            assert(dv.take(j + 1).last() == c.directives@[j as int]@);
            match &c.directives[j] {
                Directive::Env(k, v, h) => {
                    out.push(Directive::Env(k.clone(), v.clone(), *h));
                    assert(out@.map_values(|d: Directive| d@) =~= before.push(dv[j as int]));
                    assert(ob + env_directives(dv.take(j as int)).push(dv[j as int]) =~= (ob
                        + env_directives(dv.take(j as int))).push(dv[j as int]));
                },
                Directive::EnvFile(p, h) => {
                    out.push(Directive::EnvFile(p.clone(), *h));
                    assert(out@.map_values(|d: Directive| d@) =~= before.push(dv[j as int]));
                    assert(ob + env_directives(dv.take(j as int)).push(dv[j as int]) =~= (ob
                        + env_directives(dv.take(j as int))).push(dv[j as int]));
                },
                _ => {},
            }
            j += 1;
        }
        assert(dv.take(c.directives@.len() as int) =~= dv);
        i += 1;
    }
    assert(ps.take(parents@.len() as int) =~= ps);
    out
}

/// Finds a function by its name.
pub fn find_function_in<'a>(functions: &'a Vec<Function>, name: &str) -> (r: Option<&'a Function>)
    ensures
        ({
            let fv = functions@.map_values(|f: Function| f@);
            let i = function_pos(fv, name@);
            match r {
                Some(f) => 0 <= i < fv.len() && f@ == fv[i],
                None => i == -1,
            }
        }),
{
    let ghost fv = functions@.map_values(|f: Function| f@);
    let n = String::from_str(name);
    let mut i: usize = 0;
    assert(fv.skip(0) =~= fv);
    while i < functions.len()
        invariant
            i <= functions@.len(),
            n@ == name@,
            fv == functions@.map_values(|f: Function| f@),
            function_pos(fv, name@) == if function_pos(fv.skip(i as int), name@) < 0 {
                -1
            } else {
                function_pos(fv.skip(i as int), name@) + i
            },
        decreases functions.len() - i,
    {
        assert(fv.skip(i as int)[0] == functions@[i as int]@);
        assert(fv.skip(i as int).drop_first() =~= fv.skip(i + 1));
        if functions[i].name == n {
            return Some(&functions[i]);
        }
        i += 1;
    }
    assert(fv.skip(i as int) =~= Seq::<FunctionV>::empty());
    None
}

/// Tests whether a command has a child named `default`.
pub fn has_default_child(command: &Command) -> (b: bool)
    ensures
        b == exists|i: int|
            0 <= i < command@.children.len() && #[trigger] command@.children[i].name == "default"@,
{
    let ghost kv = command@.children;
    proof {
        lemma_commands_view(command.children@);
    }
    let d = String::from_str(crate::constants::default_subcommand());
    let mut i: usize = 0;
    while i < command.children.len()
        invariant
            i <= command.children@.len(),
            kv == command@.children,
            kv == commands_view(command.children@),
            kv.len() == command.children@.len(),
            forall|j: int| 0 <= j < kv.len() ==> #[trigger] kv[j] == command.children@[j]@,
            d@ == "default"@,
            forall|j: int| 0 <= j < i ==> #[trigger] kv[j].name != "default"@,
        decreases command.children.len() - i,
    {
        if command.children[i].name == d {
            assert(kv[i as int].name == "default"@);
            return true;
        }
        i += 1;
    }
    false
}

/// Replaces `{{key}}` by its value for each pair of `m`, in order.
pub(crate) fn replace_all_pairs(s: Vec<char>, m: &ArgMap) -> (out: Vec<char>)
    ensures
        out@ == replace_pairs(s@, m.entries_view()),
{
    let ghost ev = m.entries_view();
    let n = m.len();
    let mut cur = s;
    let ghost s0 = cur@;
    let mut i: usize = 0;
    assert(ev.take(0) =~= Seq::<(Seq<char>, Seq<char>)>::empty());
    while i < n
        invariant
            i <= n,
            n == ev.len(),
            ev == m.entries_view(),
            cur@ == replace_pairs(s0, ev.take(i as int)),
        decreases n - i,
    {
        assert(ev.take(i + 1).drop_last() =~= ev.take(i as int));
        assert(ev.take(i + 1).last() == ev[i as int]);
        let mut ph = chars_of("{{");
        push_all(&mut ph, &chars_of_string(m.key_at(i)));
        push_all(&mut ph, &chars_of("}}"));
        cur = replace_chars(&cur, &ph, &chars_of_string(m.value_at(i)));
        i += 1;
    }
    assert(ev.take(n as int) =~= ev);
    cur
}

/// The return value of a function after template processing: the
/// placeholders of the arguments, then of the variables, replaced, and the
/// surrounding quotes of a quoted value removed.
pub fn process_template_in_return_value(return_expr: &str, args: &ArgMap, var_map: &ArgMap) -> (r:
    String)
    ensures
        r@ == return_value_spec(return_expr@, args.entries_view(), var_map.entries_view()),
{
    let a = replace_all_pairs(chars_of(return_expr), args);
    let b = replace_all_pairs(a, var_map);
    let t = crate::text::trim_chars(&b);
    if t.len() >= 2 && ((t[0] == '"' && t[t.len() - 1] == '"') || (t[0] == '\'' && t[t.len() - 1]
        == '\'')) {
        string_of(&crate::text::slice_chars(&t, 1, t.len() - 1))
    } else {
        string_of(&b)
    }
}

/// Inherited directive values: name, value and hide flag.
pub type DirEntryV = (Seq<char>, Seq<char>, bool);

/// The entries after setting `k` to `(v, h)`: replaced in place where `k`
/// is present, appended otherwise.
pub open spec fn dir_insert(m: Seq<DirEntryV>, k: Seq<char>, v: Seq<char>, h: bool) -> Seq<DirEntryV>
    decreases m.len(),
{
    if m.len() == 0 {
        seq![(k, v, h)]
    } else if m[0].0 == k {
        seq![(k, v, h)] + m.drop_first()
    } else {
        seq![m[0]] + dir_insert(m.drop_first(), k, v, h)
    }
}

/// The entries after one command's inheritable directives: `cwd`, then
/// `after`, `before`, `fallback`, `finally` with their hide flags.
pub open spec fn command_dirs(m: Seq<DirEntryV>, ds: Seq<DirectiveV>, os: Seq<char>, unix: bool) -> Seq<
    DirEntryV,
> {
    let m1 = match crate::directives::best_value(ds, "cwd"@, os, unix).0 {
        Some(v) => dir_insert(m, "cwd"@, v, false),
        None => m,
    };
    let m2 = match crate::directives::best_hidden(ds, "after"@, os, unix).0 {
        Some(p) => dir_insert(m1, "after"@, p.0, p.1),
        None => m1,
    };
    let m3 = match crate::directives::best_hidden(ds, "before"@, os, unix).0 {
        Some(p) => dir_insert(m2, "before"@, p.0, p.1),
        None => m2,
    };
    let m4 = match crate::directives::best_hidden(ds, "fallback"@, os, unix).0 {
        Some(p) => dir_insert(m3, "fallback"@, p.0, p.1),
        None => m3,
    };
    match crate::directives::best_hidden(ds, "finally"@, os, unix).0 {
        Some(p) => dir_insert(m4, "finally"@, p.0, p.1),
        None => m4,
    }
}

/// The inheritable directives of the commands, nearer ones overriding.
pub open spec fn parent_dirs(ps: Seq<CommandV>, os: Seq<char>, unix: bool) -> Seq<DirEntryV>
    decreases ps.len(),
{
    if ps.len() == 0 {
        Seq::empty()
    } else {
        command_dirs(parent_dirs(ps.drop_last(), os, unix), ps.last().directives, os, unix)
    }
}

/// The model of inherited directive entries.
pub open spec fn dir_entries_view(v: Seq<(String, String, bool)>) -> Seq<DirEntryV> {
    v.map_values(|e: (String, String, bool)| (e.0@, e.1@, e.2))
}

/// Sets `k` to `(v, h)` among the entries.
fn set_dir_entry(m: &mut Vec<(String, String, bool)>, k: &str, v: String, h: bool)
    ensures
        dir_entries_view(final(m)@) == dir_insert(dir_entries_view(old(m)@), k@, v@, h),
{
    let ghost ev = dir_entries_view(m@);
    let ks = String::from_str(k);
    let mut i: usize = 0;
    while i < m.len()
        invariant
            i <= m@.len(),
            ks@ == k@,
            ev == dir_entries_view(m@),
            m@ == old(m)@,
            forall|j: int| 0 <= j < i ==> ev[j].0 != k@,
        decreases m.len() - i,
    {
        if m[i].0 == ks {
            m.set(i, (ks, v, h));
            proof {
                lemma_dir_insert_at(ev, k@, v@, h, i as int);
                assert(dir_entries_view(m@) =~= ev.update(i as int, (k@, v@, h)));
            }
            return;
        }
        i += 1;
    }
    m.push((ks, v, h));
    proof {
        lemma_dir_insert_absent(ev, k@, v@, h);
        assert(dir_entries_view(m@) =~= ev.push((k@, v@, h)));
    }
}

proof fn lemma_dir_insert_at(m: Seq<DirEntryV>, k: Seq<char>, v: Seq<char>, h: bool, i: int)
    requires
        0 <= i < m.len(),
        m[i].0 == k,
        forall|j: int| 0 <= j < i ==> m[j].0 != k,
    ensures
        dir_insert(m, k, v, h) == m.update(i, (k, v, h)),
    decreases m.len(),
{
    if i == 0 {
        assert(seq![(k, v, h)] + m.drop_first() =~= m.update(0, (k, v, h)));
    } else {
        lemma_dir_insert_at(m.drop_first(), k, v, h, i - 1);
        assert(seq![m[0]] + m.drop_first().update(i - 1, (k, v, h)) =~= m.update(i, (k, v, h)));
    }
}

proof fn lemma_dir_insert_absent(m: Seq<DirEntryV>, k: Seq<char>, v: Seq<char>, h: bool)
    requires
        forall|j: int| 0 <= j < m.len() ==> m[j].0 != k,
    ensures
        dir_insert(m, k, v, h) == m.push((k, v, h)),
    decreases m.len(),
{
    if m.len() == 0 {
        assert(seq![(k, v, h)] =~= m.push((k, v, h)));
    } else {
        lemma_dir_insert_absent(m.drop_first(), k, v, h);
        assert(seq![m[0]] + m.drop_first().push((k, v, h)) =~= m.push((k, v, h)));
    }
}

/// The inheritable directives (`cwd`, `after`, `before`, `fallback`,
/// `finally`) of the parents of the command at `path`: nearer parents
/// override farther ones; each entry holds the name, the value and the hide
/// flag.
pub fn collect_parent_directives_in(commands: &Vec<Command>, path: &[String], host: &HostOs) -> (r: Vec<
    (String, String, bool),
>)
    ensures
        dir_entries_view(r@) == parent_dirs(
            parents_of(commands_view(commands@), path@.map_values(|s: String| s@)),
            host.os@,
            host.unix,
        ),
{
    let parents = parents_in(commands, path);
    let ghost ps = parents@.map_values(|c: &Command| c@);
    let mut out: Vec<(String, String, bool)> = Vec::new();
    let mut i: usize = 0;
    assert(ps.take(0) =~= Seq::<CommandV>::empty());
    assert(dir_entries_view(out@) =~= Seq::<DirEntryV>::empty());
    while i < parents.len()
        invariant
            i <= parents@.len(),
            ps == parents@.map_values(|c: &Command| c@),
            dir_entries_view(out@) == parent_dirs(ps.take(i as int), host.os@, host.unix),
        decreases parents.len() - i,
    {
        let c = parents[i];
        assert(ps.take(i + 1).drop_last() =~= ps.take(i as int));
        assert(ps.take(i + 1).last() == c@);
        let ds = c.directives.as_slice();
        assert(ds@.map_values(|d: Directive| d@) == c@.directives);
        match DirectiveResolver::get_directive_value(ds, "cwd", host) {
            Some(v) => set_dir_entry(&mut out, "cwd", v, false),
            None => {},
        }
        match DirectiveResolver::get_directive_value_with_hide(ds, "after", host) {
            Some((v, h)) => set_dir_entry(&mut out, "after", v, h),
            None => {},
        }
        match DirectiveResolver::get_directive_value_with_hide(ds, "before", host) {
            Some((v, h)) => set_dir_entry(&mut out, "before", v, h),
            None => {},
        }
        match DirectiveResolver::get_directive_value_with_hide(ds, "fallback", host) {
            Some((v, h)) => set_dir_entry(&mut out, "fallback", v, h),
            None => {},
        }
        match DirectiveResolver::get_directive_value_with_hide(ds, "finally", host) {
            Some((v, h)) => set_dir_entry(&mut out, "finally", v, h),
            None => {},
        }
        i += 1;
    }
    assert(ps.take(parents@.len() as int) =~= ps);
    out
}

/// The path of a dependency: `a:b` is absolute (its trimmed pieces);
/// a plain name is a sibling of the current command (a top-level command
/// for a top-level one).
pub open spec fn dep_path_spec(dep: Seq<char>, current: Seq<Seq<char>>) -> Seq<Seq<char>> {
    if dep.contains(':') {
        crate::text::split(dep, ':').map_values(|s: Seq<char>| trim(s))
    } else if current.len() == 0 {
        seq![trim(dep)]
    } else {
        current.drop_last().push(trim(dep))
    }
}

/// The message for a dependency cycle.
pub open spec fn cycle_msg(current: Seq<Seq<char>>, dep: Seq<Seq<char>>) -> Seq<char> {
    "Circular dependency detected: "@ + crate::text::join(current, " "@) + " -> "@
        + crate::text::join(dep, " "@)
}

/// The dependency paths in order, or the message for the first one that is
/// already being run (`visited`).
pub open spec fn plan_spec(deps: Seq<Seq<char>>, current: Seq<Seq<char>>, visited: Seq<Seq<Seq<char>>>) -> Result<
    Seq<Seq<Seq<char>>>,
    Seq<char>,
>
    decreases deps.len(),
{
    if deps.len() == 0 {
        Ok(Seq::empty())
    } else {
        let p = dep_path_spec(deps[0], current);
        if visited.contains(p) {
            Err(cycle_msg(current, p))
        } else {
            match plan_spec(deps.drop_first(), current, visited) {
                Ok(rest) => Ok(seq![p] + rest),
                Err(e) => Err(e),
            }
        }
    }
}

/// Joins the pieces with `sep`.
pub(crate) fn join_strings_vec(parts: &[String], sep: &str) -> (out: Vec<char>)
    ensures
        out@ == crate::text::join(parts@.map_values(|s: String| s@), sep@),
{
    let mut vs: Vec<Vec<char>> = Vec::new();
    let mut i: usize = 0;
    while i < parts.len()
        invariant
            i <= parts@.len(),
            vs@.map_values(|x: Vec<char>| x@) == parts@.map_values(|s: String| s@).take(i as int),
        decreases parts.len() - i,
    {
        let ghost before = vs@.map_values(|x: Vec<char>| x@);
        vs.push(chars_of_string(&parts[i]));
        assert(vs@.map_values(|x: Vec<char>| x@) =~= before.push(parts@[i as int]@));
        assert(parts@.map_values(|s: String| s@).take(i + 1) =~= parts@.map_values(|s: String| s@).take(
            i as int,
        ).push(parts@[i as int]@));
        i += 1;
    }
    assert(parts@.map_values(|s: String| s@).take(parts@.len() as int) =~= parts@.map_values(
        |s: String| s@,
    ));
    crate::text::join_chars(&vs, &chars_of(sep))
}

/// The path of a dependency named `dep` of the command at `current_path`.
pub fn resolve_dependency_path(dep: &str, current_path: &[String]) -> (r: Vec<String>)
    ensures
        r@.map_values(|s: String| s@) == dep_path_spec(dep@, current_path@.map_values(|s: String| s@)),
{
    let d = chars_of(dep);
    let ghost cv = current_path@.map_values(|s: String| s@);
    let mut out: Vec<String> = Vec::new();
    if crate::text::contains_char(&d, ':') {
        let pieces = crate::text::split_chars(&d, ':');
        let ghost pv = pieces@.map_values(|x: Vec<char>| x@);
        let mut i: usize = 0;
        while i < pieces.len()
            invariant
                i <= pieces@.len(),
                pv == pieces@.map_values(|x: Vec<char>| x@),
                out@.map_values(|s: String| s@) == pv.take(i as int).map_values(|s: Seq<char>| trim(s)),
            decreases pieces.len() - i,
        {
            let ghost before = out@.map_values(|s: String| s@);
            let t = crate::text::trim_chars(&pieces[i]);
            assert(t@ == trim(pv[i as int]));
            out.push(string_of(&t));
            assert(out@.map_values(|s: String| s@) =~= before.push(trim(pv[i as int])));
            assert(pv.take(i + 1).map_values(|s: Seq<char>| trim(s)) =~= pv.take(i as int).map_values(
                |s: Seq<char>| trim(s),
            ).push(trim(pv[i as int])));
            i += 1;
        }
        assert(pv.take(pieces@.len() as int) =~= pv);
        return out;
    }
    let name = string_of(&crate::text::trim_chars(&d));
    if current_path.len() > 0 {
        let mut i: usize = 0;
        while i < current_path.len() - 1
            invariant
                current_path@.len() > 0,
                i <= current_path@.len() - 1,
                cv == current_path@.map_values(|s: String| s@),
                out@.map_values(|s: String| s@) == cv.take(i as int),
            decreases current_path.len() - 1 - i,
        {
            let ghost before = out@.map_values(|s: String| s@);
            out.push(current_path[i].clone());
            assert(out@.map_values(|s: String| s@) =~= before.push(cv[i as int]));
            assert(cv.take(i + 1) =~= cv.take(i as int).push(cv[i as int]));
            i += 1;
        }
        assert(cv.take(current_path@.len() - 1) =~= cv.drop_last());
    }
    let ghost before = out@.map_values(|s: String| s@);
    out.push(name);
    assert(out@.map_values(|s: String| s@) =~= before.push(trim(dep@)));
    proof {
        if current_path@.len() == 0 {
            assert(before =~= Seq::<Seq<char>>::empty());
            assert(before.push(trim(dep@)) =~= seq![trim(dep@)]);
        }
    }
    out
}

/// Tests whether two paths are equal.
fn same_path(a: &Vec<String>, b: &Vec<String>) -> (r: bool)
    ensures
        r == (a@.map_values(|s: String| s@) == b@.map_values(|s: String| s@)),
{
    let ghost av = a@.map_values(|s: String| s@);
    let ghost bv = b@.map_values(|s: String| s@);
    if a.len() != b.len() {
        assert(av.len() != bv.len());
        return false;
    }
    let mut i: usize = 0;
    while i < a.len()
        invariant
            i <= a@.len(),
            a@.len() == b@.len(),
            av == a@.map_values(|s: String| s@),
            bv == b@.map_values(|s: String| s@),
            forall|j: int| 0 <= j < i ==> av[j] == bv[j],
        decreases a.len() - i,
    {
        if a[i] != b[i] {
            assert(av[i as int] != bv[i as int]);
            return false;
        }
        i += 1;
    }
    assert(av =~= bv);
    true
}

/// Tests whether the path `p` is among `visited`.
fn path_visited(visited: &[Vec<String>], p: &Vec<String>) -> (b: bool)
    ensures
        b == visited@.map_values(|q: Vec<String>| q@.map_values(|s: String| s@)).contains(
            p@.map_values(|s: String| s@),
        ),
{
    let ghost vv = visited@.map_values(|q: Vec<String>| q@.map_values(|s: String| s@));
    let mut k: usize = 0;
    while k < visited.len()
        invariant
            k <= visited@.len(),
            vv == visited@.map_values(|q: Vec<String>| q@.map_values(|s: String| s@)),
            forall|j: int| 0 <= j < k ==> vv[j] != p@.map_values(|s: String| s@),
        decreases visited.len() - k,
    {
        if same_path(&visited[k], p) {
            assert(vv[k as int] == p@.map_values(|s: String| s@));
            return true;
        }
        k += 1;
    }
    false
}

/// Plans the dependencies of the command at `current_path`: their paths in
/// order, or the cycle error for the first dependency that is already being
/// run (its path is in `visited`).
pub fn plan_dependencies(deps: &[crate::ast::Dependency], current_path: &[String], visited: &[Vec<String>]) -> (r:
    Result<Vec<Vec<String>>, String>)
    ensures
        ({
            let dv = deps@.map_values(|d: crate::ast::Dependency| d@.command_path);
            let cv = current_path@.map_values(|s: String| s@);
            let vv = visited@.map_values(|p: Vec<String>| p@.map_values(|s: String| s@));
            match r {
                Ok(ps) => plan_spec(dv, cv, vv) == Ok::<_, Seq<char>>(
                    ps@.map_values(|p: Vec<String>| p@.map_values(|s: String| s@)),
                ),
                Err(m) => plan_spec(dv, cv, vv) == Err::<Seq<Seq<Seq<char>>>, _>(m@),
            }
        }),
{
    let ghost dv = deps@.map_values(|d: crate::ast::Dependency| d@.command_path);
    let ghost cv = current_path@.map_values(|s: String| s@);
    let ghost vv = visited@.map_values(|p: Vec<String>| p@.map_values(|s: String| s@));
    let mut out: Vec<Vec<String>> = Vec::new();
    let mut i: usize = 0;
    assert(dv.skip(0) =~= dv);
    while i < deps.len()
        invariant
            i <= deps@.len(),
            dv == deps@.map_values(|d: crate::ast::Dependency| d@.command_path),
            cv == current_path@.map_values(|s: String| s@),
            vv == visited@.map_values(|p: Vec<String>| p@.map_values(|s: String| s@)),
            plan_spec(dv, cv, vv) == match plan_spec(dv.skip(i as int), cv, vv) {
                Ok(rest) => Ok(out@.map_values(|p: Vec<String>| p@.map_values(|s: String| s@)) + rest),
                Err(e) => Err::<Seq<Seq<Seq<char>>>, Seq<char>>(e),
            },
        decreases deps.len() - i,
    {
        let ghost ov = out@.map_values(|p: Vec<String>| p@.map_values(|s: String| s@));
        assert(dv.skip(i as int)[0] == deps@[i as int]@.command_path);
        assert(dv.skip(i as int).drop_first() =~= dv.skip(i + 1));
        let p = resolve_dependency_path(deps[i].command_path.as_str(), current_path);
        if path_visited(visited, &p) {
            let mut m = chars_of("Circular dependency detected: ");
            push_all(&mut m, &join_strings_vec(current_path, " "));
            push_all(&mut m, &chars_of(" -> "));
            push_all(&mut m, &join_strings_vec(p.as_slice(), " "));
            return Err(string_of(&m));
        }
        let ghost pp = p@.map_values(|s: String| s@);
        out.push(p);
        proof {
            assert(out@.map_values(|p: Vec<String>| p@.map_values(|s: String| s@)) =~= ov.push(pp));
            match plan_spec(dv.skip(i + 1), cv, vv) {
                Ok(rest) => {
                    assert(ov + (seq![pp] + rest) =~= ov.push(pp) + rest);
                },
                Err(e) => {},
            }
        }
        i += 1;
    }
    assert(dv.skip(deps@.len() as int) =~= Seq::<Seq<char>>::empty());
    assert(out@.map_values(|p: Vec<String>| p@.map_values(|s: String| s@)) + Seq::<
        Seq<Seq<char>>,
    >::empty() =~= out@.map_values(|p: Vec<String>| p@.map_values(|s: String| s@)));
    Ok(out)
}

/// The message for a command already in the call stack `stack` (a
/// comma-separated list of command ids), if `command_id` is in it.
pub open spec fn call_stack_spec(command_id: Seq<char>, stack: Seq<char>) -> Option<Seq<char>> {
    if command_id.len() > 0 && crate::text::split(stack, ',').contains(command_id) {
        Some(
            "Circular dependency detected: Command '"@ + command_id
                + "' is already in the call stack.\nCall stack: "@ + stack,
        )
    } else {
        None
    }
}

/// Checks the call stack that running commands pass down for the command
/// `command_id`: an error message where it is already running.
pub fn check_call_stack(command_id: &str, stack: &str) -> (r: Option<String>)
    ensures
        crate::ast::opt_view(r) == call_stack_spec(command_id@, stack@),
{
    let id = chars_of(command_id);
    if id.len() == 0 {
        return None;
    }
    let st = chars_of(stack);
    let pieces = crate::text::split_chars(&st, ',');
    let ghost pv = pieces@.map_values(|x: Vec<char>| x@);
    let mut i: usize = 0;
    while i < pieces.len()
        invariant
            i <= pieces@.len(),
            pv == pieces@.map_values(|x: Vec<char>| x@),
            pv == crate::text::split(stack@, ','),
            id@ == command_id@,
            st@ == stack@,
            id@.len() > 0,
            forall|j: int| 0 <= j < i ==> pv[j] != id@,
        decreases pieces.len() - i,
    {
        if crate::text::eq(&pieces[i], &id) {
            assert(pv[i as int] == id@);
            assert(pv.contains(id@));
            let mut m = chars_of("Circular dependency detected: Command '");
            push_all(&mut m, &id);
            push_all(&mut m, &chars_of("' is already in the call stack.\nCall stack: "));
            push_all(&mut m, &st);
            return Some(string_of(&m));
        }
        i += 1;
    }
    None
}

/// The message for a dependency that names no command.
pub fn dependency_not_found_message(dep_path: &[String], current_path: &[String]) -> (s: String)
    ensures
        s@ == "Dependency not found: "@ + crate::text::join(dep_path@.map_values(|x: String| x@), " "@)
            + " (required by "@ + crate::text::join(current_path@.map_values(|x: String| x@), " "@)
            + ")"@,
{
    let mut m = chars_of("Dependency not found: ");
    push_all(&mut m, &join_strings_vec(dep_path, " "));
    push_all(&mut m, &chars_of(" (required by "));
    push_all(&mut m, &join_strings_vec(current_path, " "));
    push_all(&mut m, &chars_of(")"));
    string_of(&m)
}

/// The message for a dependency at `dep` that names no command, required
/// by the command at `cur`.
pub open spec fn not_found_msg(dep: Seq<Seq<char>>, cur: Seq<Seq<char>>) -> Seq<char> {
    "Dependency not found: "@ + crate::text::join(dep, " "@) + " (required by "@ + crate::text::join(cur, " "@)
        + ")"@
}

/// What came of one dependency: it ran (with this outcome), or no command
/// has its path.
#[derive(Debug)]
pub enum DepOutcome {
    Ran(Result<(), String>),
    Missing,
}

/// The model of a dependency's outcome.
pub enum DepOutcomeV {
    Ran(Result<(), Seq<char>>),
    Missing,
}

impl View for DepOutcome {
    type V = DepOutcomeV;

    open spec fn view(&self) -> DepOutcomeV {
        match self {
            DepOutcome::Ran(Ok(())) => DepOutcomeV::Ran(Ok(())),
            DepOutcome::Ran(Err(e)) => DepOutcomeV::Ran(Err(e@)),
            DepOutcome::Missing => DepOutcomeV::Missing,
        }
    }
}

/// The error at which running the dependencies one after the other stops
/// after this dependency: its failure as it is, or the message for a
/// missing command; none where it succeeded.
pub open spec fn serial_failure(dep: Seq<Seq<char>>, cur: Seq<Seq<char>>, o: DepOutcomeV) -> Option<Seq<char>> {
    match o {
        DepOutcomeV::Ran(Ok(())) => None,
        DepOutcomeV::Ran(Err(e)) => Some(e),
        DepOutcomeV::Missing => Some(not_found_msg(dep, cur)),
    }
}

/// The error at which running the dependencies one after the other stops
/// after the dependency at `dep_path` (see `serial_failure`).
pub fn dependency_failure(dep_path: &[String], current_path: &[String], outcome: &DepOutcome) -> (r: Option<
    String,
>)
    ensures
        crate::ast::opt_view(r) == serial_failure(
            dep_path@.map_values(|s: String| s@),
            current_path@.map_values(|s: String| s@),
            outcome@,
        ),
{
    match outcome {
        DepOutcome::Ran(Ok(())) => None,
        DepOutcome::Ran(Err(e)) => Some(e.clone()),
        DepOutcome::Missing => Some(dependency_not_found_message(dep_path, current_path)),
    }
}

/// The report of one dependency run alongside others: its name as written
/// in `depends`, its path, and what came of it.
pub struct DepReport {
    pub name: String,
    pub path: Vec<String>,
    pub outcome: DepOutcome,
}

/// The model of a report.
pub struct DepReportV {
    pub name: Seq<char>,
    pub path: Seq<Seq<char>>,
    pub outcome: DepOutcomeV,
}

impl View for DepReport {
    type V = DepReportV;

    open spec fn view(&self) -> DepReportV {
        DepReportV {
            name: self.name@,
            path: self.path@.map_values(|s: String| s@),
            outcome: self.outcome@,
        }
    }
}

/// The error messages of dependencies run side by side, in order: a
/// failure as `Dependency 'NAME' failed: ERROR`, a missing command as
/// `not_found_msg`; nothing for a success.
pub open spec fn parallel_errors(rs: Seq<DepReportV>, cur: Seq<Seq<char>>) -> Seq<Seq<char>>
    decreases rs.len(),
{
    if rs.len() == 0 {
        Seq::empty()
    } else {
        let r = rs.last();
        let before = parallel_errors(rs.drop_last(), cur);
        match r.outcome {
            DepOutcomeV::Ran(Ok(())) => before,
            DepOutcomeV::Ran(Err(e)) => before.push("Dependency '"@ + r.name + "' failed: "@ + e),
            DepOutcomeV::Missing => before.push(not_found_msg(r.path, cur)),
        }
    }
}

/// What running dependencies side by side gives: success where none
/// failed, else their error messages joined by line breaks.
pub open spec fn parallel_spec(rs: Seq<DepReportV>, cur: Seq<Seq<char>>) -> Result<(), Seq<char>> {
    let es = parallel_errors(rs, cur);
    if es.len() == 0 {
        Ok(())
    } else {
        Err(crate::text::join(es, "\n"@))
    }
}

/// The result of dependencies run side by side (see `parallel_spec`).
pub fn parallel_result(reports: &[DepReport], current_path: &[String]) -> (r: Result<(), String>)
    ensures
        ({
            let sp = parallel_spec(
                reports@.map_values(|x: DepReport| x@),
                current_path@.map_values(|s: String| s@),
            );
            match r {
                Ok(()) => sp == Ok::<(), Seq<char>>(()),
                Err(m) => sp == Err::<(), Seq<char>>(m@),
            }
        }),
{
    let ghost rv = reports@.map_values(|x: DepReport| x@);
    let ghost cv = current_path@.map_values(|s: String| s@);
    let mut es: Vec<Vec<char>> = Vec::new();
    let mut i: usize = 0;
    while i < reports.len()
        invariant
            i <= rv.len(),
            rv == reports@.map_values(|x: DepReport| x@),
            cv == current_path@.map_values(|s: String| s@),
            es@.map_values(|x: Vec<char>| x@) == parallel_errors(rv.take(i as int), cv),
        decreases reports.len() - i,
    {
        let ghost before = es@.map_values(|x: Vec<char>| x@);
        assert(rv.take(i + 1).drop_last() =~= rv.take(i as int));
        assert(rv.take(i + 1).last() == reports@[i as int]@);
        let rep = &reports[i];
        match &rep.outcome {
            DepOutcome::Ran(Ok(())) => {},
            DepOutcome::Ran(Err(e)) => {
                let mut m = chars_of("Dependency '");
                push_all(&mut m, &chars_of_string(&rep.name));
                push_all(&mut m, &chars_of("' failed: "));
                push_all(&mut m, &chars_of_string(e));
                es.push(m);
                assert(es@.map_values(|x: Vec<char>| x@) =~= before.push(
                    "Dependency '"@ + rep.name@ + "' failed: "@ + e@,
                ));
            },
            DepOutcome::Missing => {
                let m = chars_of_string(&dependency_not_found_message(rep.path.as_slice(), current_path));
                es.push(m);
                assert(es@.map_values(|x: Vec<char>| x@) =~= before.push(not_found_msg(rv[i as int].path, cv)));
            },
        }
        i += 1;
    }
    assert(rv.take(rv.len() as int) =~= rv);
    if es.len() == 0 {
        Ok(())
    } else {
        Err(string_of(&crate::text::join_chars(&es, &chars_of("\n"))))
    }
}

/// The paths of the commands being run, with the path of the one whose
/// dependencies are about to run added last (what the dependencies are
/// checked against for cycles).
pub fn running_with(visited: &[Vec<String>], path: &[String]) -> (r: Vec<Vec<String>>)
    ensures
        r@.map_values(|p: Vec<String>| p@.map_values(|s: String| s@)) == visited@.map_values(
            |p: Vec<String>| p@.map_values(|s: String| s@),
        ).push(path@.map_values(|s: String| s@)),
{
    let ghost vv = visited@.map_values(|p: Vec<String>| p@.map_values(|s: String| s@));
    let mut r: Vec<Vec<String>> = Vec::new();
    let mut i: usize = 0;
    while i < visited.len()
        invariant
            i <= vv.len(),
            vv == visited@.map_values(|p: Vec<String>| p@.map_values(|s: String| s@)),
            r@.map_values(|p: Vec<String>| p@.map_values(|s: String| s@)) == vv.take(i as int),
        decreases visited.len() - i,
    {
        let ghost before = r@.map_values(|p: Vec<String>| p@.map_values(|s: String| s@));
        let c = copy_path(&visited[i]);
        r.push(c);
        assert(r@.map_values(|p: Vec<String>| p@.map_values(|s: String| s@)) =~= before.push(vv[i as int]));
        assert(vv.take(i + 1) =~= vv.take(i as int).push(vv[i as int]));
        i += 1;
    }
    assert(vv.take(vv.len() as int) =~= vv);
    let ghost before = r@.map_values(|p: Vec<String>| p@.map_values(|s: String| s@));
    r.push(copy_path(path));
    assert(r@.map_values(|p: Vec<String>| p@.map_values(|s: String| s@)) =~= before.push(
        path@.map_values(|s: String| s@),
    ));
    r
}

/// A copy of a path.
fn copy_path(p: &[String]) -> (r: Vec<String>)
    ensures
        r@.map_values(|s: String| s@) == p@.map_values(|s: String| s@),
{
    let mut r: Vec<String> = Vec::new();
    let mut i: usize = 0;
    while i < p.len()
        invariant
            i <= p@.len(),
            r@.map_values(|s: String| s@) == p@.map_values(|s: String| s@).take(i as int),
        decreases p.len() - i,
    {
        let ghost before = r@.map_values(|s: String| s@);
        r.push(p[i].clone());
        assert(r@.map_values(|s: String| s@) =~= before.push(p@[i as int]@));
        assert(p@.map_values(|s: String| s@).take(i + 1) =~= p@.map_values(|s: String| s@).take(i as int).push(
            p@[i as int]@,
        ));
        i += 1;
    }
    assert(p@.map_values(|s: String| s@).take(p@.len() as int) =~= p@.map_values(|s: String| s@));
    r
}

/// The parsed configuration that commands run against: commands,
/// variables, constants and functions.
pub struct Runtime {
    commands: Vec<Command>,
    variables: Vec<Variable>,
    constants: Vec<Constant>,
    functions: Vec<Function>,
}

impl Runtime {
    /// The commands.
    pub closed spec fn commands_v(&self) -> Seq<CommandV> {
        commands_view(self.commands@)
    }

    /// The global variables.
    pub closed spec fn variables_v(&self) -> Seq<BindingV> {
        self.variables@.map_values(|v: Variable| v@)
    }

    /// The global constants.
    pub closed spec fn constants_v(&self) -> Seq<BindingV> {
        self.constants@.map_values(|v: Constant| v@)
    }

    /// The functions.
    pub closed spec fn functions_v(&self) -> Seq<FunctionV> {
        self.functions@.map_values(|f: Function| f@)
    }

    /// Creates a runtime from parsed commands, variables, constants and
    /// functions.
    pub fn new(
        commands: Vec<Command>,
        variables: Vec<Variable>,
        constants: Vec<Constant>,
        functions: Vec<Function>,
    ) -> (r: Runtime)
        ensures
            r.commands_v() == commands_view(commands@),
            r.variables_v() == variables@.map_values(|v: Variable| v@),
            r.constants_v() == constants@.map_values(|v: Constant| v@),
            r.functions_v() == functions@.map_values(|f: Function| f@),
    {
        Runtime { commands, variables, constants, functions }
    }

    /// The global variables.
    pub fn variables(&self) -> (v: &Vec<Variable>)
        ensures
            v@.map_values(|v: Variable| v@) == self.variables_v(),
    {
        &self.variables
    }

    /// The global constants.
    pub fn constants(&self) -> (v: &Vec<Constant>)
        ensures
            v@.map_values(|v: Constant| v@) == self.constants_v(),
    {
        &self.constants
    }

    /// Finds a command by its path (e.g. `["dev", "default"]`).
    pub fn find_command(&self, path: &[String]) -> (r: Option<&Command>)
        ensures
            match r {
                Some(c) => find_path(self.commands_v(), path@.map_values(|s: String| s@)) == Some(c@),
                None => find_path(self.commands_v(), path@.map_values(|s: String| s@)) is None,
            },
    {
        find_command_in(&self.commands, path)
    }

    /// The variables and constants of the parents of the command at `path`,
    /// from the root down.
    pub fn collect_parent_variables(&self, command_path: &[String]) -> (r: (Vec<Variable>, Vec<Constant>))
        ensures
            ({
                let ps = parents_of(self.commands_v(), command_path@.map_values(|s: String| s@));
                r.0@.map_values(|v: Variable| v@) == all_vars(ps) && r.1@.map_values(
                    |c: Constant| c@,
                ) == all_consts(ps)
            }),
    {
        collect_parent_variables_in(&self.commands, command_path)
    }

    /// The inheritable directives of the parents of the command at `path`.
    pub fn collect_parent_directives(&self, command_path: &[String], host: &HostOs) -> (r: Vec<
        (String, String, bool),
    >)
        ensures
            dir_entries_view(r@) == parent_dirs(
                parents_of(self.commands_v(), command_path@.map_values(|s: String| s@)),
                host.os@,
                host.unix,
            ),
    {
        collect_parent_directives_in(&self.commands, command_path, host)
    }

    /// The environment directives of the parents of the command at `path`.
    pub fn collect_parent_env_directives(&self, command_path: &[String]) -> (r: Vec<Directive>)
        ensures
            r@.map_values(|d: Directive| d@) == all_env(
                parents_of(self.commands_v(), command_path@.map_values(|s: String| s@)),
            ),
    {
        collect_parent_env_directives_in(&self.commands, command_path)
    }

    /// Finds a function by its name.
    pub fn find_function(&self, name: &str) -> (r: Option<&Function>)
        ensures
            ({
                let i = function_pos(self.functions_v(), name@);
                match r {
                    Some(f) => 0 <= i < self.functions_v().len() && f@ == self.functions_v()[i],
                    None => i == -1,
                }
            }),
    {
        find_function_in(&self.functions, name)
    }

    /// Whether the command has a default subcommand (a child named
    /// `default`).
    pub fn has_default_command(&self, command: &Command) -> (b: bool)
        ensures
            b == exists|i: int|
                0 <= i < command@.children.len() && #[trigger] command@.children[i].name
                    == "default"@,
    {
        has_default_child(command)
    }
}

} // verus!
