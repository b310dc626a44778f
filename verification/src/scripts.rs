//! Splitting a script (or a function body) into the steps that run it:
//! blocks of shell lines, explicit `shell:` commands, calls of functions and
//! of other commands, and a function's `@return`.

use vstd::prelude::*;
use crate::ast::{ArgMap, CommandV, Function, FunctionV, Variable, Constant};
use crate::executor::{CommandExecutor, call_spec};
use crate::env::insert_all;
use crate::runtime::{Runtime, dep_path_spec, find_path, function_pos, replace_pairs, resolve_dependency_path};
use crate::template::{TemplateContext, TemplateProcessor, process_spec, var_map_spec};
use crate::text::{
    chars_of, chars_of_string, contains_char, join, lines, push_all, replace, replace_chars, string_of,
    trim, trim_start,
};

verus! {

/// One step of running a script.
#[derive(Debug)]
pub enum ScriptStep {
    /// Run these shell lines as one script.
    Shell(String),
    /// Run this command line as written after `shell:` (processed).
    External(String),
    /// Call the function of this name with these arguments.
    Function(String, ArgMap),
    /// Run the command at this path with these arguments.
    Command(Vec<String>, ArgMap),
    /// The function returns this value.
    Return(String),
}

/// The model of a step.
pub enum StepV {
    Shell(Seq<char>),
    External(Seq<char>),
    Function(Seq<char>, Seq<(Seq<char>, Seq<char>)>),
    Command(Seq<Seq<char>>, Seq<(Seq<char>, Seq<char>)>),
    Return(Seq<char>),
}

impl View for ScriptStep {
    type V = StepV;

    open spec fn view(&self) -> StepV {
        match self {
            ScriptStep::Shell(s) => StepV::Shell(s@),
            ScriptStep::External(s) => StepV::External(s@),
            ScriptStep::Function(n, a) => StepV::Function(n@, a.entries_view()),
            ScriptStep::Command(p, a) => StepV::Command(p@.map_values(|s: String| s@), a.entries_view()),
            ScriptStep::Return(v) => StepV::Return(v@),
        }
    }
}

/// The models of the steps.
pub open spec fn steps_view(s: Seq<ScriptStep>) -> Seq<StepV> {
    s.map_values(|x: ScriptStep| x@)
}

/// What a script is run against: the functions and commands, the path of
/// the running command, its arguments and its parent's, the global
/// variables and constants (for templates), the variables of the running
/// function (for its `@return` value), and the time and user.
pub struct PlanCtx {
    pub functions: Seq<FunctionV>,
    pub commands: Seq<CommandV>,
    pub path: Seq<Seq<char>>,
    pub args: Seq<(Seq<char>, Seq<char>)>,
    pub pargs: Seq<(Seq<char>, Seq<char>)>,
    pub gvars: Seq<(Seq<char>, Seq<char>)>,
    pub fvars: Seq<(Seq<char>, Seq<char>)>,
    pub now: Seq<char>,
    pub user: Seq<char>,
}

/// What a line does.
pub enum LineKind {
    /// The line joins the current block of shell lines.
    Keep(Seq<char>),
    /// The block ends, and the step (if any) follows.
    Flush(Option<StepV>),
    /// The block ends and a new one starts with this line.
    Restart(Seq<char>),
    /// The block ends and the function returns; the text after `@return`.
    Return(Seq<char>),
}

/// The expression of a trimmed `@return` line: what follows `@return `,
/// without leading white space (empty when no space follows `@return`).
pub open spec fn return_expr(t: Seq<char>) -> Seq<char> {
    if "@return "@.is_prefix_of(t) {
        trim_start(t.skip(8))
    } else {
        Seq::empty()
    }
}

/// `t` is at least two characters long and starts and ends with the same
/// quote (`"` or `'`).
pub open spec fn quoted(t: Seq<char>) -> bool {
    t.len() >= 2 && ((t[0] == '"' && t.last() == '"') || (t[0] == '\'' && t.last() == '\''))
}

/// The value a function returns for the expression `e`: the placeholders
/// of its arguments, then of its variables, replaced; a value that, trimmed,
/// is quoted loses its white space and quotes.
pub open spec fn return_value(
    e: Seq<char>,
    args: Seq<(Seq<char>, Seq<char>)>,
    fvars: Seq<(Seq<char>, Seq<char>)>,
) -> Seq<char> {
    let r = replace_pairs(replace_pairs(e, args), fvars);
    let t = trim(r);
    if quoted(t) {
        t.subrange(1, t.len() - 1)
    } else {
        r
    }
}

/// An argument of a call written back as shell text: `k=v`, or `k="v"`
/// where the value holds a space.
pub open spec fn arg_text(kv: (Seq<char>, Seq<char>)) -> Seq<char> {
    if kv.1.contains(' ') {
        kv.0 + "=\""@ + kv.1 + "\""@
    } else {
        kv.0 + "="@ + kv.1
    }
}

/// A call of the running command from its own script, as a shell command:
/// the name, then the wildcard arguments (where the command has them), else
/// the call's arguments.
pub open spec fn self_call_text(
    name: Seq<char>,
    wild: Option<Seq<char>>,
    cargs: Seq<(Seq<char>, Seq<char>)>,
) -> Seq<char> {
    match wild {
        Some(w) => if w.len() > 0 {
            name + " "@ + w
        } else {
            name
        },
        None => if cargs.len() > 0 {
            name + " "@ + join(cargs.map_values(|kv: (Seq<char>, Seq<char>)| arg_text(kv)), " "@)
        } else {
            name
        },
    }
}

/// What the line `l` does (in a function body when `fmode`).
pub open spec fn line_kind(l: Seq<char>, c: PlanCtx, fmode: bool) -> LineKind {
    let t = trim(l);
    if fmode && "@return"@.is_prefix_of(t) {
        LineKind::Return(return_expr(t))
    } else if t.len() == 0 {
        LineKind::Keep(l)
    } else if "shell:"@.is_prefix_of(t) {
        let ext = trim_start(t.skip(6));
        LineKind::Flush(
            if ext.len() > 0 {
                Some(StepV::External(process_spec(ext, c.args, c.pargs, c.gvars, c.now, c.user)))
            } else {
                None
            },
        )
    } else {
        match call_spec(t) {
            Some((name, cargs)) => if !name.contains(':') && function_pos(c.functions, name) >= 0 {
                LineKind::Flush(Some(StepV::Function(name, cargs)))
            } else {
                let resolved = dep_path_spec(name, c.path);
                if resolved == c.path {
                    LineKind::Restart(
                        process_spec(
                            self_call_text(name, crate::ast::assoc_get(c.args, "*"@), cargs),
                            c.args,
                            Seq::empty(),
                            c.gvars,
                            c.now,
                            c.user,
                        ),
                    )
                } else if find_path(c.commands, resolved) is Some {
                    LineKind::Flush(Some(StepV::Command(resolved, cargs)))
                } else {
                    LineKind::Restart(l)
                }
            },
            None => LineKind::Keep(l),
        }
    }
}

/// The steps so far with the current block of shell lines run.
pub open spec fn flush(block: Seq<Seq<char>>, steps: Seq<StepV>) -> Seq<StepV> {
    if block.len() > 0 {
        steps.push(StepV::Shell(join(block, "\n"@)))
    } else {
        steps
    }
}

/// The steps of the lines, after the steps so far and with the current
/// block: at the end, the block runs unless it is blank.
pub open spec fn plan_from(
    ls: Seq<Seq<char>>,
    c: PlanCtx,
    fmode: bool,
    block: Seq<Seq<char>>,
    steps: Seq<StepV>,
) -> Seq<StepV>
    decreases ls.len(),
{
    if ls.len() == 0 {
        let s = join(block, "\n"@);
        if block.len() > 0 && trim(s).len() > 0 {
            steps.push(StepV::Shell(s))
        } else {
            steps
        }
    } else {
        match line_kind(ls[0], c, fmode) {
            LineKind::Keep(x) => plan_from(ls.drop_first(), c, fmode, block.push(x), steps),
            LineKind::Flush(o) => {
                let st = flush(block, steps);
                plan_from(
                    ls.drop_first(),
                    c,
                    fmode,
                    Seq::empty(),
                    match o {
                        Some(x) => st.push(x),
                        None => st,
                    },
                )
            },
            LineKind::Restart(x) => plan_from(ls.drop_first(), c, fmode, seq![x], flush(block, steps)),
            LineKind::Return(e) => flush(block, steps).push(StepV::Return(return_value(e, c.args, c.fvars))),
        }
    }
}

/// No step runs the running command itself: a call of its own path in its
/// script is kept as a shell line, so a script never recurses into its own
/// command.
pub proof fn lemma_no_self_call(
    ls: Seq<Seq<char>>,
    c: PlanCtx,
    fmode: bool,
    block: Seq<Seq<char>>,
    steps: Seq<StepV>,
)
    requires
        forall|i: int| 0 <= i < steps.len() ==> !(#[trigger] steps[i] matches StepV::Command(p, _) && p == c.path),
    ensures
        ({
            let r = plan_from(ls, c, fmode, block, steps);
            forall|i: int| 0 <= i < r.len() ==> !(#[trigger] r[i] matches StepV::Command(p, _) && p == c.path)
        }),
    decreases ls.len(),
{
    if ls.len() > 0 {
        let st = flush(block, steps);
        assert forall|i: int| 0 <= i < st.len() implies !(#[trigger] st[i] matches StepV::Command(p, _) && p
            == c.path) by {
            if i < steps.len() {
                assert(st[i] == steps[i]);
            }
        }
        match line_kind(ls[0], c, fmode) {
            LineKind::Keep(x) => {
                lemma_no_self_call(ls.drop_first(), c, fmode, block.push(x), steps);
            },
            LineKind::Flush(o) => {
                let nst = match o {
                    Some(x) => st.push(x),
                    None => st,
                };
                assert forall|i: int| 0 <= i < nst.len() implies !(#[trigger] nst[i] matches StepV::Command(
                    p,
                    _,
                ) && p == c.path) by {
                    if i < st.len() {
                        assert(nst[i] == st[i]);
                    }
                }
                lemma_no_self_call(ls.drop_first(), c, fmode, Seq::empty(), nst);
            },
            LineKind::Restart(x) => {
                lemma_no_self_call(ls.drop_first(), c, fmode, seq![x], st);
            },
            LineKind::Return(e) => {
                let r = st.push(StepV::Return(return_value(e, c.args, c.fvars)));
                assert forall|i: int| 0 <= i < r.len() implies !(#[trigger] r[i] matches StepV::Command(p, _)
                    && p == c.path) by {
                    if i < st.len() {
                        assert(r[i] == st[i]);
                    }
                }
            },
        }
    } else {
        let s = join(block, "\n"@);
        if block.len() > 0 && trim(s).len() > 0 {
            let r = steps.push(StepV::Shell(s));
            assert forall|i: int| 0 <= i < r.len() implies !(#[trigger] r[i] matches StepV::Command(p, _) && p
                == c.path) by {
                if i < steps.len() {
                    assert(r[i] == steps[i]);
                }
            }
        }
    }
}

/// The variables a function sees: the global constants, then the global
/// variables, then its own (a later one replaces an earlier one of the same
/// name).
pub open spec fn function_vars(
    f: FunctionV,
    gc: Seq<(Seq<char>, Seq<char>)>,
    gv: Seq<(Seq<char>, Seq<char>)>,
) -> Seq<(Seq<char>, Seq<char>)> {
    insert_all(insert_all(insert_all(Seq::empty(), gc), gv), f.local_variables)
}

/// A function body with its placeholders replaced: the arguments, then
/// the global constants and variables and the function's own variables,
/// then `{{now}}` and `{{user}}`.
pub open spec fn function_body_spec(
    f: FunctionV,
    args: Seq<(Seq<char>, Seq<char>)>,
    gc: Seq<(Seq<char>, Seq<char>)>,
    gv: Seq<(Seq<char>, Seq<char>)>,
    now: Seq<char>,
    user: Seq<char>,
) -> Seq<char> {
    let fvars = function_vars(f, gc, gv);
    replace(replace(replace_pairs(replace_pairs(f.body, args), fvars), "{{now}}"@, now), "{{user}}"@, user)
}

/// The text of a call's arguments written back as shell text.
fn args_text(m: &ArgMap) -> (out: Vec<char>)
    ensures
        out@ == join(m.entries_view().map_values(|kv: (Seq<char>, Seq<char>)| arg_text(kv)), " "@),
{
    let ghost ev = m.entries_view();
    let mut parts: Vec<Vec<char>> = Vec::new();
    let mut i: usize = 0;
    while i < m.len()
        invariant
            i <= ev.len(),
            ev == m.entries_view(),
            parts@.map_values(|x: Vec<char>| x@) == ev.take(i as int).map_values(
                |kv: (Seq<char>, Seq<char>)| arg_text(kv),
            ),
        decreases ev.len() - i,
    {
        let ghost before = parts@.map_values(|x: Vec<char>| x@);
        let k = chars_of_string(m.key_at(i));
        let v = chars_of_string(m.value_at(i));
        let mut t = k;
        if contains_char(&v, ' ') {
            push_all(&mut t, &chars_of("=\""));
            push_all(&mut t, &v);
            push_all(&mut t, &chars_of("\""));
        } else {
            push_all(&mut t, &chars_of("="));
            push_all(&mut t, &v);
        }
        assert(t@ == arg_text(ev[i as int]));
        parts.push(t);
        assert(parts@.map_values(|x: Vec<char>| x@) =~= before.push(arg_text(ev[i as int])));
        assert(ev.take(i + 1).map_values(|kv: (Seq<char>, Seq<char>)| arg_text(kv)) =~= ev.take(
            i as int,
        ).map_values(|kv: (Seq<char>, Seq<char>)| arg_text(kv)).push(arg_text(ev[i as int])));
        i += 1;
    }
    assert(ev.take(ev.len() as int) =~= ev);
    crate::text::join_chars(&parts, &chars_of(" "))
}

/// A call of the running command as a shell command.
fn self_call(name: &String, args: &ArgMap, cargs: &ArgMap) -> (out: String)
    ensures
        out@ == self_call_text(name@, crate::ast::assoc_get(args.entries_view(), "*"@), cargs.entries_view()),
{
    let mut t = chars_of_string(name);
    match args.get("*") {
        Some(w) => {
            if w.unicode_len() > 0 {
                t.push(' ');
                push_all(&mut t, &chars_of_string(w));
                proof {
                    reveal_strlit(" ");
                }
                assert(t@ =~= name@ + " "@ + w@);
            }
        },
        None => {
            if cargs.len() > 0 {
                t.push(' ');
                push_all(&mut t, &args_text(cargs));
                proof {
                    reveal_strlit(" ");
                }
                assert(t@ =~= name@ + " "@ + join(
                    cargs.entries_view().map_values(|kv: (Seq<char>, Seq<char>)| arg_text(kv)),
                    " "@,
                ));
            }
        },
    }
    string_of(&t)
}

/// Tests whether two paths are equal.
fn same_path(a: &Vec<String>, b: &[String]) -> (r: bool)
    ensures
        r == (a@.map_values(|s: String| s@) == b@.map_values(|s: String| s@)),
{
    let ghost av = a@.map_values(|s: String| s@);
    let ghost bv = b@.map_values(|s: String| s@);
    if a.len() != b.len() {
        assert(av.len() != bv.len());
        return false;
    }
    let mut i: usize = 0;
    while i < a.len()
        invariant
            i <= a@.len(),
            a@.len() == b@.len(),
            av == a@.map_values(|s: String| s@),
            bv == b@.map_values(|s: String| s@),
            forall|j: int| 0 <= j < i ==> av[j] == bv[j],
        decreases a.len() - i,
    {
        if a[i] != b[i] {
            assert(av[i as int] != bv[i as int]);
            return false;
        }
        i += 1;
    }
    assert(av =~= bv);
    true
}

/// The value of the trimmed `@return` line `t` (see `return_value`).
fn return_text(t: &Vec<char>, args: &ArgMap, fvars: &ArgMap) -> (v: String)
    ensures
        v@ == return_value(return_expr(t@), args.entries_view(), fvars.entries_view()),
{
    proof {
        reveal_strlit("@return ");
    }
    let e = if crate::text::starts_with(t, &chars_of("@return ")) {
        assert(t@.subrange(8, t@.len() as int) =~= t@.skip(8));
        crate::text::trim_start_chars(&crate::text::slice_chars(t, 8, t.len()))
    } else {
        Vec::new()
    };
    let r = crate::runtime::replace_all_pairs(crate::runtime::replace_all_pairs(e, args), fvars);
    let tr = crate::text::trim_chars(&r);
    let n = tr.len();
    if n >= 2 && ((tr[0] == '"' && tr[n - 1] == '"') || (tr[0] == '\'' && tr[n - 1] == '\'')) {
        string_of(&crate::text::slice_chars(&tr, 1, n - 1))
    } else {
        string_of(&r)
    }
}

/// Runs the current block, if any, as a step.
fn flush_block(block: &mut Vec<Vec<char>>, steps: &mut Vec<ScriptStep>)
    ensures
        final(block)@.len() == 0,
        steps_view(final(steps)@) == flush(old(block)@.map_values(|x: Vec<char>| x@), steps_view(old(steps)@)),
{
    if block.len() > 0 {
        let s = crate::text::join_chars(block, &chars_of("\n"));
        let ghost before = steps_view(steps@);
        steps.push(ScriptStep::Shell(string_of(&s)));
        assert(steps_view(steps@) =~= before.push(StepV::Shell(s@)));
    }
    *block = Vec::new();
}

impl Runtime {
    /// What a script runs against (see `PlanCtx`).
    pub open spec fn plan_ctx(
        &self,
        args: Seq<(Seq<char>, Seq<char>)>,
        pargs: Seq<(Seq<char>, Seq<char>)>,
        path: Seq<Seq<char>>,
        fvars: Seq<(Seq<char>, Seq<char>)>,
        now: Seq<char>,
        user: Seq<char>,
    ) -> PlanCtx {
        PlanCtx {
            functions: self.functions_v(),
            commands: self.commands_v(),
            path,
            args,
            pargs,
            gvars: var_map_spec(
                self.constants_v(),
                self.variables_v(),
                Seq::empty(),
                Seq::empty(),
                Seq::empty(),
                Seq::empty(),
            ),
            fvars,
            now,
            user,
        }
    }

    /// The steps of the lines `ls` (in a function body when `fmode`).
    fn plan_lines(
        &self,
        ls: &Vec<Vec<char>>,
        fmode: bool,
        args: &ArgMap,
        parent_args: &ArgMap,
        command_path: &[String],
        fvars: &ArgMap,
        now: &str,
        user: &str,
    ) -> (r: Vec<ScriptStep>)
        ensures
            steps_view(r@) == plan_from(
                ls@.map_values(|x: Vec<char>| x@),
                self.plan_ctx(
                    args.entries_view(),
                    parent_args.entries_view(),
                    command_path@.map_values(|s: String| s@),
                    fvars.entries_view(),
                    now@,
                    user@,
                ),
                fmode,
                Seq::empty(),
                Seq::empty(),
            ),
    {
        let ghost c = self.plan_ctx(
            args.entries_view(),
            parent_args.entries_view(),
            command_path@.map_values(|s: String| s@),
            fvars.entries_view(),
            now@,
            user@,
        );
        let ghost lv = ls@.map_values(|x: Vec<char>| x@);
        let ctx = TemplateContext {
            global_variables: self.variables().as_slice(),
            global_constants: self.constants().as_slice(),
            local_variables: &[],
            local_constants: &[],
            parent_variables: &[],
            parent_constants: &[],
        };
        assert(ctx.local_variables@.map_values(|v: Variable| v@) =~= Seq::<(Seq<char>, Seq<char>)>::empty());
        assert(ctx.local_constants@.map_values(|v: Constant| v@) =~= Seq::<(Seq<char>, Seq<char>)>::empty());
        assert(ctx.parent_variables@.map_values(|v: Variable| v@) =~= Seq::<(Seq<char>, Seq<char>)>::empty());
        assert(ctx.parent_constants@.map_values(|v: Constant| v@) =~= Seq::<(Seq<char>, Seq<char>)>::empty());
        let gvars = TemplateProcessor::build_var_map(&ctx);
        let empty = ArgMap::new();
        let mut block: Vec<Vec<char>> = Vec::new();
        let mut steps: Vec<ScriptStep> = Vec::new();
        let mut i: usize = 0;
        assert(lv.skip(0) =~= lv);
        assert(steps_view(steps@) =~= Seq::<StepV>::empty());
        assert(block@.map_values(|x: Vec<char>| x@) =~= Seq::<Seq<char>>::empty());
        while i < ls.len()
            invariant
                i <= lv.len(),
                lv == ls@.map_values(|x: Vec<char>| x@),
                gvars.entries_view() == c.gvars,
                empty.entries_view() == Seq::<(Seq<char>, Seq<char>)>::empty(),
                c == self.plan_ctx(
                    args.entries_view(),
                    parent_args.entries_view(),
                    command_path@.map_values(|s: String| s@),
                    fvars.entries_view(),
                    now@,
                    user@,
                ),
                plan_from(lv, c, fmode, Seq::empty(), Seq::empty()) == plan_from(
                    lv.skip(i as int),
                    c,
                    fmode,
                    block@.map_values(|x: Vec<char>| x@),
                    steps_view(steps@),
                ),
            decreases lv.len() - i,
        {
            assert(lv.skip(i as int)[0] == lv[i as int]);
            assert(lv.skip(i as int).drop_first() =~= lv.skip(i + 1));
            let line = &ls[i];
            let t = crate::text::trim_chars(line);
            let ghost bv = block@.map_values(|x: Vec<char>| x@);
            let ghost sv = steps_view(steps@);
            proof {
                reveal_strlit("@return");
                reveal_strlit("shell:");
            }
            if fmode && crate::text::starts_with(&t, &chars_of("@return")) {
                flush_block(&mut block, &mut steps);
                let value = return_text(&t, args, fvars);
                let ghost before = steps_view(steps@);
                let ghost vv = value@;
                steps.push(ScriptStep::Return(value));
                assert(steps_view(steps@) =~= before.push(StepV::Return(vv)));
                return steps;
            }
            if t.len() == 0 {
                block.push(line.clone());
                assert(block@.map_values(|x: Vec<char>| x@) =~= bv.push(lv[i as int]));
            } else if crate::text::starts_with(&t, &chars_of("shell:")) {
                flush_block(&mut block, &mut steps);
                let ext = crate::text::trim_start_chars(&crate::text::slice_chars(&t, 6, t.len()));
                assert(t@.subrange(6, t@.len() as int) =~= t@.skip(6));
                if ext.len() > 0 {
                    let es = string_of(&ext);
                    let p = TemplateProcessor::process_vars(es.as_str(), args, parent_args, &gvars, now, user);
                    let ghost before = steps_view(steps@);
                    steps.push(ScriptStep::External(p));
                    assert(steps_view(steps@) =~= before.push(StepV::External(p@)));
                }
                assert(block@.map_values(|x: Vec<char>| x@) =~= Seq::<Seq<char>>::empty());
            } else {
                let ts = string_of(&t);
                match CommandExecutor::parse_command_call(ts.as_str()) {
                    None => {
                        block.push(line.clone());
                        assert(block@.map_values(|x: Vec<char>| x@) =~= bv.push(lv[i as int]));
                    },
                    Some((name, cargs)) => {
                        flush_block(&mut block, &mut steps);
                        let nc = chars_of_string(&name);
                        let is_function = !contains_char(&nc, ':') && self.find_function(name.as_str()).is_some();
                        if is_function {
                            let ghost before = steps_view(steps@);
                            let ghost cv = cargs.entries_view();
                            steps.push(ScriptStep::Function(name, cargs));
                            assert(steps_view(steps@) =~= before.push(StepV::Function(nc@, cv)));
                            assert(block@.map_values(|x: Vec<char>| x@) =~= Seq::<Seq<char>>::empty());
                        } else {
                            let resolved = resolve_dependency_path(name.as_str(), command_path);
                            if same_path(&resolved, command_path) {
                                let sc = self_call(&name, args, &cargs);
                                let p = TemplateProcessor::process_vars(sc.as_str(), args, &empty, &gvars, now, user);
                                block.push(chars_of_string(&p));
                                assert(block@.map_values(|x: Vec<char>| x@) =~= seq![p@]);
                            } else if self.find_command(resolved.as_slice()).is_some() {
                                let ghost before = steps_view(steps@);
                                let ghost cv = cargs.entries_view();
                                let ghost rv = resolved@.map_values(|s: String| s@);
                                steps.push(ScriptStep::Command(resolved, cargs));
                                assert(steps_view(steps@) =~= before.push(StepV::Command(rv, cv)));
                                assert(block@.map_values(|x: Vec<char>| x@) =~= Seq::<Seq<char>>::empty());
                            } else {
                                block.push(line.clone());
                                assert(block@.map_values(|x: Vec<char>| x@) =~= seq![lv[i as int]]);
                            }
                        }
                    },
                }
            }
            i += 1;
        }
        assert(lv.skip(i as int) =~= Seq::<Seq<char>>::empty());
        if block.len() > 0 {
            let s = crate::text::join_chars(&block, &chars_of("\n"));
            if crate::text::trim_chars(&s).len() > 0 {
                let ghost before = steps_view(steps@);
                steps.push(ScriptStep::Shell(string_of(&s)));
                assert(steps_view(steps@) =~= before.push(StepV::Shell(s@)));
            }
        }
        steps
    }

    /// The steps of a script (with its `{{ func() }}` calls already
    /// replaced): shell lines gather into blocks; a `shell:` line runs its
    /// command (processed as a template); a line that calls a function or
    /// another command ends the block and makes the call; a call of the
    /// running command itself is kept as a shell line; the last block runs
    /// unless it is blank.
    pub fn plan_script(
        &self,
        script: &str,
        args: &ArgMap,
        parent_args: &ArgMap,
        command_path: &[String],
        now: &str,
        user: &str,
    ) -> (r: Vec<ScriptStep>)
        ensures
            steps_view(r@) == plan_from(
                lines(script@),
                self.plan_ctx(
                    args.entries_view(),
                    parent_args.entries_view(),
                    command_path@.map_values(|s: String| s@),
                    Seq::empty(),
                    now@,
                    user@,
                ),
                false,
                Seq::empty(),
                Seq::empty(),
            ),
    {
        let ls = crate::text::lines_chars(&chars_of(script));
        let none = ArgMap::new();
        self.plan_lines(&ls, false, args, parent_args, command_path, &none, now, user)
    }

    /// The variables `function` sees (see `function_vars`).
    fn function_vars_map(&self, function: &Function) -> (m: ArgMap)
        ensures
            m.entries_view() == function_vars(function@, self.constants_v(), self.variables_v()),
    {
        let mut fvars = ArgMap::new();
        crate::env::EnvironmentManager::export_all_vars(&mut fvars, &[], self.constants().as_slice());
        assert(Seq::<Variable>::empty().map_values(|v: Variable| v@) =~= Seq::<(Seq<char>, Seq<char>)>::empty());
        crate::env::EnvironmentManager::export_all_vars(&mut fvars, self.variables().as_slice(), &[]);
        assert(Seq::<Constant>::empty().map_values(|v: Constant| v@) =~= Seq::<(Seq<char>, Seq<char>)>::empty());
        crate::env::EnvironmentManager::export_all_vars(&mut fvars, function.local_variables.as_slice(), &[]);
        fvars
    }

    /// A function's body with its placeholders replaced (see
    /// `function_body_spec`).
    pub fn function_body(&self, function: &Function, args: &ArgMap, now: &str, user: &str) -> (s: String)
        ensures
            s@ == function_body_spec(function@, args.entries_view(), self.constants_v(), self.variables_v(), now@, user@),
    {
        let fvars = self.function_vars_map(function);
        let b1 = crate::runtime::replace_all_pairs(chars_of_string(&function.body), args);
        let b2 = crate::runtime::replace_all_pairs(b1, &fvars);
        let b3 = replace_chars(&b2, &chars_of("{{now}}"), &chars_of(now));
        let b4 = replace_chars(&b3, &chars_of("{{user}}"), &chars_of(user));
        string_of(&b4)
    }

    /// The steps of a function called with `args` from the command at
    /// `command_path`: its body with placeholders replaced, split as a
    /// script, where a line starting with `@return` ends the function.
    pub fn plan_function(
        &self,
        function: &Function,
        args: &ArgMap,
        parent_args: &ArgMap,
        command_path: &[String],
        now: &str,
        user: &str,
    ) -> (r: Vec<ScriptStep>)
        ensures
            steps_view(r@) == plan_from(
                lines(function_body_spec(function@, args.entries_view(), self.constants_v(), self.variables_v(), now@, user@)),
                self.plan_ctx(
                    args.entries_view(),
                    parent_args.entries_view(),
                    command_path@.map_values(|s: String| s@),
                    function_vars(function@, self.constants_v(), self.variables_v()),
                    now@,
                    user@,
                ),
                true,
                Seq::empty(),
                Seq::empty(),
            ),
    {
        let body = self.function_body(function, args, now, user);
        let fvars = self.function_vars_map(function);
        let ls = crate::text::lines_chars(&chars_of_string(&body));
        self.plan_lines(&ls, true, args, parent_args, command_path, &fvars, now, user)
    }
}

} // verus!
