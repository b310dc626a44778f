//! Writes commands back as Nestfile text (used when commands selected from
//! another file are brought in).

use vstd::prelude::*;
use crate::ast::{
    Command, CommandV, Dependency, DependencyV, Directive, DirectiveV, ParamKind, ParamKindV,
    Parameter, ParameterV, Value, ValueV, commands_view, lemma_commands_view,
};
use crate::merge::{cmd_depth, kids_depth, lemma_kids_depth};
use crate::text::{chars_of, chars_of_string, join, lines, push_all, string_of};

verus! {

/// `n` spaces.
pub open spec fn spaces(n: nat) -> Seq<char> {
    Seq::new(n, |i: int| ' ')
}

/// Each text in double quotes.
pub open spec fn quoted_all(items: Seq<Seq<char>>) -> Seq<Seq<char>> {
    items.map_values(|s: Seq<char>| "\""@ + s + "\""@)
}

/// The text of a value: strings quoted, booleans as `true`/`false`, numbers
/// as written, arrays as `["a", "b"]`.
pub open spec fn value_text(v: ValueV) -> Seq<char> {
    match v {
        ValueV::Str(s) => "\""@ + s + "\""@,
        ValueV::Bool(b) => if b {
            "true"@
        } else {
            "false"@
        },
        ValueV::Number(n) => n,
        ValueV::Array(a) => "["@ + join(quoted_all(a), ", "@) + "]"@,
    }
}

/// The text of a parameter: `[!]name[|alias]: type[ = default]`, or a
/// wildcard `*[name][[count]]`.
pub open spec fn param_text(p: ParameterV) -> Seq<char> {
    match p.kind {
        ParamKindV::Normal => {
            let s1 = (if p.is_named { "!"@ } else { Seq::empty() }) + p.name;
            let s2 = match p.alias {
                Some(a) => s1 + "|"@ + a,
                None => s1,
            };
            let s3 = s2 + ": "@ + p.param_type;
            match p.default {
                Some(d) => s3 + " = "@ + value_text(d),
                None => s3,
            }
        },
        ParamKindV::Wildcard { name, count } => {
            let s1 = "*"@ + match name {
                Some(n) => n,
                None => Seq::empty(),
            };
            match count {
                Some(c) => s1 + "["@ + crate::text::nat_text(c) + "]"@,
                None => s1,
            }
        },
    }
}

/// The text of a dependency: its path, with its arguments `k="v"` in
/// parentheses where it has any.
pub open spec fn dep_text(d: DependencyV) -> Seq<char> {
    if d.args.len() == 0 {
        d.command_path
    } else {
        d.command_path + "("@ + join(
            d.args.map_values(|kv: (Seq<char>, Seq<char>)| kv.0 + "=\""@ + kv.1 + "\""@),
            ", "@,
        ) + ")"@
    }
}

/// The lines of a script-like directive named `name`: one line, or `|`
/// followed by the script's lines indented four more spaces.
pub open spec fn script_text(ind: Seq<char>, name: Seq<char>, content: Seq<char>) -> Seq<char> {
    if content.contains('\n') {
        ind + name + ": |\n"@ + join(
            lines(content).map_values(|l: Seq<char>| ind + "    "@ + l + "\n"@),
            Seq::empty(),
        )
    } else {
        ind + name + ": "@ + content + "\n"@
    }
}

/// A directive key with the `.hide` modifier where it is hidden.
pub open spec fn hidden_key(key: Seq<char>, hide: bool) -> Seq<char> {
    if hide {
        key + ".hide"@
    } else {
        key
    }
}

/// The text of a directive, indented by `ind`.
pub open spec fn directive_text(d: DirectiveV, ind: Seq<char>) -> Seq<char> {
    match d {
        DirectiveV::Desc(s) => ind + "desc: "@ + s + "\n"@,
        DirectiveV::Cwd(s) => ind + "cwd: "@ + s + "\n"@,
        DirectiveV::Env(k, v, h) => ind + hidden_key("env"@, h) + ": "@ + k + "="@ + v + "\n"@,
        DirectiveV::EnvFile(p, h) => ind + hidden_key("env"@, h) + ": "@ + p + "\n"@,
        DirectiveV::Script(s, _, h) => script_text(ind, hidden_key("script"@, h), s),
        DirectiveV::Before(s, _, h) => script_text(ind, hidden_key("before"@, h), s),
        DirectiveV::After(s, _, h) => script_text(ind, hidden_key("after"@, h), s),
        DirectiveV::Fallback(s, _, h) => script_text(ind, hidden_key("fallback"@, h), s),
        DirectiveV::Finally(s, _, h) => script_text(ind, hidden_key("finally"@, h), s),
        DirectiveV::Depends(ds, p) => ind + (if p { "depends.parallel"@ } else { "depends"@ })
            + ": "@ + join(ds.map_values(|x: DependencyV| dep_text(x)), ", "@) + "\n"@,
        DirectiveV::Privileged(b) => ind + "privileged: "@ + (if b { "true"@ } else { "false"@ })
            + "\n"@,
        DirectiveV::RequireConfirm(m) => if m.len() == 0 {
            ind + "require_confirm:\n"@
        } else {
            ind + "require_confirm: "@ + m + "\n"@
        },
        DirectiveV::Logs(p, f) => ind + "logs:"@ + f + " "@ + p + "\n"@,
        DirectiveV::Validate(t, r) => ind + "validate: "@ + t + " "@ + r + "\n"@,
        DirectiveV::Watch(ws) => ind + "watch: "@ + join(quoted_all(ws), ", "@) + "\n"@,
    }
}

/// The signature of a command: its name, then its parameters in
/// parentheses where it has any.
pub open spec fn signature_text(c: CommandV) -> Seq<char> {
    c.name + if c.parameters.len() > 0 {
        "("@ + join(c.parameters.map_values(|p: ParameterV| param_text(p)), ", "@) + ")"@
    } else {
        Seq::empty()
    }
}

/// The signature of a command (see `signature_text`).
pub(crate) fn signature_chars(command: &Command) -> (out: Vec<char>)
    ensures
        out@ == signature_text(command@),
{
    let ghost cv = command@;
    let mut out = chars_of_string(&command.name);
    if command.parameters.len() > 0 {
        let mut pl: Vec<Vec<char>> = Vec::new();
        let mut i: usize = 0;
        while i < command.parameters.len()
            invariant
                i <= command.parameters@.len(),
                cv == command@,
                pl@.map_values(|x: Vec<char>| x@) == cv.parameters.take(i as int).map_values(
                    |p: ParameterV| param_text(p),
                ),
            decreases command.parameters.len() - i,
        {
            let ghost before = pl@.map_values(|x: Vec<char>| x@);
            let t = param_to_string(&command.parameters[i]);
            assert(cv.parameters[i as int] == command.parameters@[i as int]@);
            let ghost tv = t@;
            pl.push(t);
            assert(pl@.map_values(|x: Vec<char>| x@) =~= before.push(tv));
            assert(cv.parameters.take(i + 1).map_values(|p: ParameterV| param_text(p))
                =~= cv.parameters.take(i as int).map_values(|p: ParameterV| param_text(p)).push(tv));
            assert(pl@.map_values(|x: Vec<char>| x@) =~= cv.parameters.take(i + 1).map_values(
                |p: ParameterV| param_text(p),
            ));
            i += 1;
        }
        assert(cv.parameters.take(command.parameters@.len() as int) =~= cv.parameters);
        push_all(&mut out, &chars_of("("));
        push_joined(&mut out, &pl, &chars_of(", "));
        push_all(&mut out, &chars_of(")"));
    }
    out
}

/// The Nestfile text of a command at indentation `indent`: its local
/// variables and constants, its signature, its directives and its children
/// (indented four more spaces).
pub open spec fn command_text(c: CommandV, indent: nat) -> Seq<char>
    decreases c, 0nat,
{
    let ind = spaces(indent);
    let vars = join(
        c.local_variables.map_values(|b: (Seq<char>, Seq<char>)| ind + "var "@ + b.0 + " = "@ + b.1 + "\n"@),
        Seq::empty(),
    );
    let consts = join(
        c.local_constants.map_values(|b: (Seq<char>, Seq<char>)| ind + "const "@ + b.0 + " = "@ + b.1 + "\n"@),
        Seq::empty(),
    );
    let inner = spaces(indent + 4);
    let dirs = join(c.directives.map_values(|d: DirectiveV| directive_text(d, inner)), Seq::empty());
    vars + consts + ind + signature_text(c) + ":\n"@ + dirs + commands_text(c.children, indent + 4)
}

/// The texts of the commands, one after the other.
pub open spec fn commands_text(cs: Seq<CommandV>, indent: nat) -> Seq<char>
    decreases cs, 1nat,
{
    if cs.len() == 0 {
        Seq::empty()
    } else {
        command_text(cs[0], indent) + commands_text(cs.subrange(1, cs.len() as int), indent)
    }
}

/// `n` spaces.
fn spaces_vec(n: usize) -> (out: Vec<char>)
    ensures
        out@ == spaces(n as nat),
{
    let mut out: Vec<char> = Vec::new();
    let mut i: usize = 0;
    while i < n
        invariant
            i <= n,
            out@ == spaces(i as nat),
        decreases n - i,
    {
        out.push(' ');
        i += 1;
        assert(out@ =~= spaces(i as nat));
    }
    out
}

/// Appends the texts `parts` joined by `sep` to `out`.
fn push_joined(out: &mut Vec<char>, parts: &Vec<Vec<char>>, sep: &Vec<char>)
    ensures
        final(out)@ == old(out)@ + join(parts@.map_values(|x: Vec<char>| x@), sep@),
{
    let j = crate::text::join_chars(parts, sep);
    push_all(out, &j);
}

/// The text of a value: strings quoted, booleans as `true`/`false`,
/// numbers as written, arrays as `["a", "b"]`.
pub fn value_to_string(v: &Value) -> (s: String)
    ensures
        s@ == value_text(v@),
{
    match v {
        Value::String(s) => {
            let mut o = chars_of("\"");
            push_all(&mut o, &chars_of_string(s));
            push_all(&mut o, &chars_of("\""));
            string_of(&o)
        },
        Value::Bool(b) => if *b {
            String::from_str("true")
        } else {
            String::from_str("false")
        },
        Value::Number(n) => n.clone(),
        Value::Array(arr) => {
            let mut items: Vec<Vec<char>> = Vec::new();
            let mut i: usize = 0;
            let ghost av = crate::ast::strings_view(arr@);
            while i < arr.len()
                invariant
                    i <= arr@.len(),
                    av == crate::ast::strings_view(arr@),
                    items@.map_values(|x: Vec<char>| x@) == quoted_all(av.take(i as int)),
                decreases arr.len() - i,
            {
                let ghost before = items@.map_values(|x: Vec<char>| x@);
                let mut q = chars_of("\"");
                push_all(&mut q, &chars_of_string(&arr[i]));
                push_all(&mut q, &chars_of("\""));
                assert(av[i as int] == arr@[i as int]@);
                assert(q@ == "\""@ + av[i as int] + "\""@);
                items.push(q);
                assert(items@.map_values(|x: Vec<char>| x@) =~= before.push(q@));
                assert(quoted_all(av.take(i + 1)) =~= quoted_all(av.take(i as int)).push(q@));
                i += 1;
            }
            assert(av.take(arr@.len() as int) =~= av);
            let mut o = chars_of("[");
            push_joined(&mut o, &items, &chars_of(", "));
            push_all(&mut o, &chars_of("]"));
            string_of(&o)
        },
    }
}

/// The text of a parameter.
fn param_to_string(p: &Parameter) -> (out: Vec<char>)
    ensures
        out@ == param_text(p@),
{
    match &p.kind {
        ParamKind::Normal => {
            let mut s: Vec<char> = if p.is_named { chars_of("!") } else { Vec::new() };
            push_all(&mut s, &chars_of_string(&p.name));
            match &p.alias {
                Some(a) => {
                    push_all(&mut s, &chars_of("|"));
                    push_all(&mut s, &chars_of_string(a));
                },
                None => {},
            }
            push_all(&mut s, &chars_of(": "));
            push_all(&mut s, &chars_of_string(&p.param_type));
            match &p.default {
                Some(d) => {
                    push_all(&mut s, &chars_of(" = "));
                    push_all(&mut s, &chars_of_string(&value_to_string(d)));
                },
                None => {},
            }
            s
        },
        ParamKind::Wildcard { name, count } => {
            let mut s = chars_of("*");
            match name {
                Some(n) => push_all(&mut s, &chars_of_string(n)),
                None => {},
            }
            match count {
                Some(c) => {
                    push_all(&mut s, &chars_of("["));
                    push_all(&mut s, &crate::text::usize_text(*c));
                    push_all(&mut s, &chars_of("]"));
                },
                None => {},
            }
            s
        },
    }
}

/// The text of a dependency.
fn dep_to_string(d: &Dependency) -> (out: Vec<char>)
    ensures
        out@ == dep_text(d@),
{
    let n = d.args.len();
    if n == 0 {
        return chars_of_string(&d.command_path);
    }
    let ghost av = d.args.entries_view();
    let mut items: Vec<Vec<char>> = Vec::new();
    let mut i: usize = 0;
    while i < n
        invariant
            i <= n,
            n == av.len(),
            av == d.args.entries_view(),
            items@.map_values(|x: Vec<char>| x@) == av.take(i as int).map_values(
                |kv: (Seq<char>, Seq<char>)| kv.0 + "=\""@ + kv.1 + "\""@,
            ),
        decreases n - i,
    {
        let ghost before = items@.map_values(|x: Vec<char>| x@);
        let mut q = chars_of_string(d.args.key_at(i));
        push_all(&mut q, &chars_of("=\""));
        push_all(&mut q, &chars_of_string(d.args.value_at(i)));
        push_all(&mut q, &chars_of("\""));
        assert(q@ == av[i as int].0 + "=\""@ + av[i as int].1 + "\""@);
        items.push(q);
        assert(items@.map_values(|x: Vec<char>| x@) =~= before.push(q@));
        assert(items@.map_values(|x: Vec<char>| x@) =~= av.take(i + 1).map_values(
            |kv: (Seq<char>, Seq<char>)| kv.0 + "=\""@ + kv.1 + "\""@,
        ));
        i += 1;
    }
    assert(av.take(n as int) =~= av);
    let mut o = chars_of_string(&d.command_path);
    push_all(&mut o, &chars_of("("));
    push_joined(&mut o, &items, &chars_of(", "));
    push_all(&mut o, &chars_of(")"));
    o
}

/// Appends the lines of a script-like directive named `name` to `result`.
pub fn format_script_directive(result: &mut Vec<char>, indent_str: &Vec<char>, name: &Vec<char>, content: &String)
    ensures
        final(result)@ == old(result)@ + script_text(indent_str@, name@, content@),
{
    let c = chars_of_string(content);
    if crate::text::contains_char(&c, '\n') {
        push_all(result, indent_str);
        push_all(result, name);
        push_all(result, &chars_of(": |\n"));
        let ls = crate::text::lines_chars(&c);
        let ghost lv = ls@.map_values(|x: Vec<char>| x@);
        let ghost f = |l: Seq<char>| indent_str@ + "    "@ + l + "\n"@;
        let ghost base = result@;
        let mut i: usize = 0;
        assert(lv.take(0).map_values(f) =~= Seq::<Seq<char>>::empty());
        while i < ls.len()
            invariant
                i <= ls@.len(),
                lv == ls@.map_values(|x: Vec<char>| x@),
                f == |l: Seq<char>| indent_str@ + "    "@ + l + "\n"@,
                result@ == base + join(lv.take(i as int).map_values(f), Seq::empty()),
            decreases ls.len() - i,
        {
            let ghost before = lv.take(i as int).map_values(f);
            push_all(result, indent_str);
            push_all(result, &chars_of("    "));
            push_all(result, &ls[i]);
            push_all(result, &chars_of("\n"));
            assert(lv.take(i + 1).map_values(f) =~= before.push(f(lv[i as int])));
            proof {
                lemma_join_empty_push(before, f(lv[i as int]));
            }
            i += 1;
        }
        assert(lv.take(ls@.len() as int) =~= lv);
    } else {
        push_all(result, indent_str);
        push_all(result, name);
        push_all(result, &chars_of(": "));
        push_all(result, &c);
        push_all(result, &chars_of("\n"));
    }
}

/// Joining with an empty separator appends the next piece.
proof fn lemma_join_empty_push(s: Seq<Seq<char>>, x: Seq<char>)
    ensures
        join(s.push(x), Seq::empty()) == join(s, Seq::empty()) + x,
{
    if s.len() == 0 {
        assert(s.push(x) =~= seq![x]);
        assert(Seq::<char>::empty() + x =~= x);
    } else {
        assert(s.push(x).drop_last() =~= s);
        assert(join(s, Seq::empty()) + Seq::<char>::empty() =~= join(s, Seq::empty()));
    }
}

/// A key with the `.hide` modifier where it is hidden.
fn hidden_key_vec(key: &str, hide: bool) -> (out: Vec<char>)
    ensures
        out@ == hidden_key(key@, hide),
{
    let mut k = chars_of(key);
    if hide {
        push_all(&mut k, &chars_of(".hide"));
    }
    k
}

/// The texts of the dependencies, joined by `, `.
pub(crate) fn deps_joined(deps: &Vec<Dependency>) -> (out: Vec<char>)
    ensures
        out@ == join(deps@.map_values(|x: Dependency| x@).map_values(|x: DependencyV| dep_text(x)), ", "@),
{
    let mut items: Vec<Vec<char>> = Vec::new();
    let mut i: usize = 0;
    let ghost dv = deps@.map_values(|x: Dependency| x@);
    while i < deps.len()
        invariant
            i <= deps@.len(),
            dv == deps@.map_values(|x: Dependency| x@),
            items@.map_values(|x: Vec<char>| x@) == dv.take(i as int).map_values(
                |x: DependencyV| dep_text(x),
            ),
        decreases deps.len() - i,
    {
        let ghost before = items@.map_values(|x: Vec<char>| x@);
        let t = dep_to_string(&deps[i]);
        assert(t@ == dep_text(dv[i as int]));
        items.push(t);
        assert(items@.map_values(|x: Vec<char>| x@) =~= before.push(t@));
        assert(dv.take(i + 1).map_values(|x: DependencyV| dep_text(x)) =~= dv.take(
            i as int,
        ).map_values(|x: DependencyV| dep_text(x)).push(t@));
        assert(items@.map_values(|x: Vec<char>| x@) =~= dv.take(i + 1).map_values(
            |x: DependencyV| dep_text(x),
        ));
        i += 1;
    }
    assert(dv.take(deps@.len() as int) =~= dv);
    crate::text::join_chars(&items, &chars_of(", "))
}

/// The texts in double quotes, joined by `, `.
pub(crate) fn quoted_joined(ws: &Vec<String>) -> (out: Vec<char>)
    ensures
        out@ == join(quoted_all(crate::ast::strings_view(ws@)), ", "@),
{
    let mut items: Vec<Vec<char>> = Vec::new();
    let mut i: usize = 0;
    let ghost wv = crate::ast::strings_view(ws@);
    while i < ws.len()
        invariant
            i <= ws@.len(),
            wv == crate::ast::strings_view(ws@),
            items@.map_values(|x: Vec<char>| x@) == quoted_all(wv.take(i as int)),
        decreases ws.len() - i,
    {
        let ghost before = items@.map_values(|x: Vec<char>| x@);
        let mut q = chars_of("\"");
        push_all(&mut q, &chars_of_string(&ws[i]));
        push_all(&mut q, &chars_of("\""));
        assert(wv[i as int] == ws@[i as int]@);
        items.push(q);
        assert(items@.map_values(|x: Vec<char>| x@) =~= before.push(q@));
        assert(quoted_all(wv.take(i + 1)) =~= quoted_all(wv.take(i as int)).push(q@));
        i += 1;
    }
    assert(wv.take(ws@.len() as int) =~= wv);
    crate::text::join_chars(&items, &chars_of(", "))
}

/// Appends the text of a directive, indented by `ind`, to `out`.
fn push_directive(out: &mut Vec<char>, d: &Directive, ind: &Vec<char>)
    ensures
        final(out)@ == old(out)@ + directive_text(d@, ind@),
{
    let ghost o0 = out@;
    match d {
        Directive::Desc(s) => {
            push_all(out, ind);
            push_all(out, &chars_of("desc: "));
            push_all(out, &chars_of_string(s));
            push_all(out, &chars_of("\n"));
        },
        Directive::Cwd(s) => {
            push_all(out, ind);
            push_all(out, &chars_of("cwd: "));
            push_all(out, &chars_of_string(s));
            push_all(out, &chars_of("\n"));
        },
        Directive::Env(k, v, h) => {
            push_all(out, ind);
            push_all(out, &hidden_key_vec("env", *h));
            push_all(out, &chars_of(": "));
            push_all(out, &chars_of_string(k));
            push_all(out, &chars_of("="));
            push_all(out, &chars_of_string(v));
            push_all(out, &chars_of("\n"));
        },
        Directive::EnvFile(p, h) => {
            push_all(out, ind);
            push_all(out, &hidden_key_vec("env", *h));
            push_all(out, &chars_of(": "));
            push_all(out, &chars_of_string(p));
            push_all(out, &chars_of("\n"));
        },
        Directive::Script(s, _, h) => format_script_directive(out, ind, &hidden_key_vec("script", *h), s),
        Directive::Before(s, _, h) => format_script_directive(out, ind, &hidden_key_vec("before", *h), s),
        Directive::After(s, _, h) => format_script_directive(out, ind, &hidden_key_vec("after", *h), s),
        Directive::Fallback(s, _, h) => format_script_directive(
            out,
            ind,
            &hidden_key_vec("fallback", *h),
            s,
        ),
        Directive::Finally(s, _, h) => format_script_directive(
            out,
            ind,
            &hidden_key_vec("finally", *h),
            s,
        ),
        Directive::Depends(deps, p) => {
            let joined = deps_joined(deps);
            push_all(out, ind);
            if *p {
                push_all(out, &chars_of("depends.parallel"));
            } else {
                push_all(out, &chars_of("depends"));
            }
            push_all(out, &chars_of(": "));
            push_all(out, &joined);
            push_all(out, &chars_of("\n"));
        },
        Directive::Privileged(b) => {
            push_all(out, ind);
            push_all(out, &chars_of("privileged: "));
            if *b {
                push_all(out, &chars_of("true"));
            } else {
                push_all(out, &chars_of("false"));
            }
            push_all(out, &chars_of("\n"));
        },
        Directive::RequireConfirm(m) => {
            push_all(out, ind);
            let mv = chars_of_string(m);
            if mv.len() == 0 {
                push_all(out, &chars_of("require_confirm:\n"));
            } else {
                push_all(out, &chars_of("require_confirm: "));
                push_all(out, &chars_of_string(m));
                push_all(out, &chars_of("\n"));
            }
        },
        Directive::Logs(p, f) => {
            push_all(out, ind);
            push_all(out, &chars_of("logs:"));
            push_all(out, &chars_of_string(f));
            push_all(out, &chars_of(" "));
            push_all(out, &chars_of_string(p));
            push_all(out, &chars_of("\n"));
        },
        Directive::Validate(t, r) => {
            push_all(out, ind);
            push_all(out, &chars_of("validate: "));
            push_all(out, &chars_of_string(t));
            push_all(out, &chars_of(" "));
            push_all(out, &chars_of_string(r));
            push_all(out, &chars_of("\n"));
        },
        Directive::Watch(ws) => {
            let joined = quoted_joined(ws);
            push_all(out, ind);
            push_all(out, &chars_of("watch: "));
            push_all(out, &joined);
            push_all(out, &chars_of("\n"));
        },
    }
}

/// Converts a command back to Nestfile text at indentation `indent`
/// (spaces): local variables and constants, the signature, the directives
/// and the children, indented four more spaces.
pub fn to_nestfile_string(command: &Command, indent: usize) -> (s: String)
    requires
        indent + 4 * cmd_depth(command@) <= usize::MAX,
    ensures
        s@ == command_text(command@, indent as nat),
{
    string_of(&command_chars(command, indent))
}

/// The Nestfile text of a command, as characters.
fn command_chars(command: &Command, indent: usize) -> (out: Vec<char>)
    requires
        indent + 4 * cmd_depth(command@) <= usize::MAX,
    ensures
        out@ == command_text(command@, indent as nat),
    decreases cmd_depth(command@),
{
    let ind = spaces_vec(indent);
    let mut out: Vec<char> = Vec::new();
    let ghost cv = command@;
    // local variables
    let mut vl: Vec<Vec<char>> = Vec::new();
    let mut i: usize = 0;
    while i < command.local_variables.len()
        invariant
            i <= command.local_variables@.len(),
            cv == command@,
            ind@ == spaces(indent as nat),
            vl@.map_values(|x: Vec<char>| x@) == cv.local_variables.take(i as int).map_values(
                |b: (Seq<char>, Seq<char>)| ind@ + "var "@ + b.0 + " = "@ + b.1 + "\n"@,
            ),
        decreases command.local_variables.len() - i,
    {
        let ghost before = vl@.map_values(|x: Vec<char>| x@);
        let mut l = crate::text::slice_chars(&ind, 0, ind.len());
        push_all(&mut l, &chars_of("var "));
        push_all(&mut l, &chars_of_string(&command.local_variables[i].name));
        push_all(&mut l, &chars_of(" = "));
        push_all(&mut l, &chars_of_string(&command.local_variables[i].value));
        push_all(&mut l, &chars_of("\n"));
        assert(cv.local_variables[i as int] == command.local_variables@[i as int]@);
        let ghost lv = l@;
        assert(lv == ind@ + "var "@ + cv.local_variables[i as int].0 + " = "@
            + cv.local_variables[i as int].1 + "\n"@);
        vl.push(l);
        assert(vl@.map_values(|x: Vec<char>| x@) =~= before.push(lv));
        assert(cv.local_variables.take(i + 1).map_values(
            |b: (Seq<char>, Seq<char>)| ind@ + "var "@ + b.0 + " = "@ + b.1 + "\n"@,
        ) =~= cv.local_variables.take(i as int).map_values(
            |b: (Seq<char>, Seq<char>)| ind@ + "var "@ + b.0 + " = "@ + b.1 + "\n"@,
        ).push(lv));
        assert(vl@.map_values(|x: Vec<char>| x@) =~= cv.local_variables.take(i + 1).map_values(
            |b: (Seq<char>, Seq<char>)| ind@ + "var "@ + b.0 + " = "@ + b.1 + "\n"@,
        ));
        i += 1;
    }
    assert(cv.local_variables.take(command.local_variables@.len() as int) =~= cv.local_variables);
    push_joined(&mut out, &vl, &Vec::new());
    // local constants
    let mut cl: Vec<Vec<char>> = Vec::new();
    let mut i: usize = 0;
    while i < command.local_constants.len()
        invariant
            i <= command.local_constants@.len(),
            cv == command@,
            ind@ == spaces(indent as nat),
            cl@.map_values(|x: Vec<char>| x@) == cv.local_constants.take(i as int).map_values(
                |b: (Seq<char>, Seq<char>)| ind@ + "const "@ + b.0 + " = "@ + b.1 + "\n"@,
            ),
        decreases command.local_constants.len() - i,
    {
        let ghost before = cl@.map_values(|x: Vec<char>| x@);
        let mut l = crate::text::slice_chars(&ind, 0, ind.len());
        push_all(&mut l, &chars_of("const "));
        push_all(&mut l, &chars_of_string(&command.local_constants[i].name));
        push_all(&mut l, &chars_of(" = "));
        push_all(&mut l, &chars_of_string(&command.local_constants[i].value));
        push_all(&mut l, &chars_of("\n"));
        assert(cv.local_constants[i as int] == command.local_constants@[i as int]@);
        let ghost lv = l@;
        assert(lv == ind@ + "const "@ + cv.local_constants[i as int].0 + " = "@
            + cv.local_constants[i as int].1 + "\n"@);
        cl.push(l);
        assert(cl@.map_values(|x: Vec<char>| x@) =~= before.push(lv));
        assert(cv.local_constants.take(i + 1).map_values(
            |b: (Seq<char>, Seq<char>)| ind@ + "const "@ + b.0 + " = "@ + b.1 + "\n"@,
        ) =~= cv.local_constants.take(i as int).map_values(
            |b: (Seq<char>, Seq<char>)| ind@ + "const "@ + b.0 + " = "@ + b.1 + "\n"@,
        ).push(lv));
        assert(cl@.map_values(|x: Vec<char>| x@) =~= cv.local_constants.take(i + 1).map_values(
            |b: (Seq<char>, Seq<char>)| ind@ + "const "@ + b.0 + " = "@ + b.1 + "\n"@,
        ));
        i += 1;
    }
    assert(cv.local_constants.take(command.local_constants@.len() as int) =~= cv.local_constants);
    push_joined(&mut out, &cl, &Vec::new());
    // signature
    push_all(&mut out, &ind);
    push_all(&mut out, &signature_chars(command));
    push_all(&mut out, &chars_of(":\n"));
    // directives
    let inner = spaces_vec(indent + 4);
    let ghost before_dirs = out@;
    let mut i: usize = 0;
    assert(cv.directives.take(0).map_values(|d: DirectiveV| directive_text(d, inner@))
        =~= Seq::<Seq<char>>::empty());
    while i < command.directives.len()
        invariant
            i <= command.directives@.len(),
            cv == command@,
            out@ == before_dirs + join(
                cv.directives.take(i as int).map_values(|d: DirectiveV| directive_text(d, inner@)),
                Seq::empty(),
            ),
        decreases command.directives.len() - i,
    {
        let ghost prev = cv.directives.take(i as int).map_values(
            |d: DirectiveV| directive_text(d, inner@),
        );
        push_directive(&mut out, &command.directives[i], &inner);
        assert(cv.directives[i as int] == command.directives@[i as int]@);
        assert(cv.directives.take(i + 1).map_values(|d: DirectiveV| directive_text(d, inner@))
            =~= prev.push(directive_text(cv.directives[i as int], inner@)));
        proof {
            lemma_join_empty_push(prev, directive_text(cv.directives[i as int], inner@));
        }
        i += 1;
    }
    assert(cv.directives.take(command.directives@.len() as int) =~= cv.directives);
    // children
    let ghost before_kids = out@;
    let ghost kv = commands_view(command.children@);
    proof {
        lemma_commands_view(command.children@);
        lemma_kids_depth(kv, 0);
        assert(kv =~= cv.children);
    }
    let mut i: usize = 0;
    assert(kv.take(0) =~= Seq::<CommandV>::empty());
    while i < command.children.len()
        invariant
            i <= command.children@.len(),
            cv == command@,
            kv == commands_view(command.children@),
            kv.len() == command.children@.len(),
            forall|j: int| 0 <= j < kv.len() ==> #[trigger] kv[j] == command.children@[j]@,
            forall|j: int| 0 <= j < kv.len() ==> #[trigger] cmd_depth(kv[j]) < cmd_depth(cv),
            indent + 4 * cmd_depth(cv) <= usize::MAX,
            out@ == before_kids + commands_text_prefix(kv, (indent + 4) as nat, i as int),
        decreases command.children.len() - i,
    {
        assert(cmd_depth(kv[i as int]) < cmd_depth(cv));
        let t = command_chars(&command.children[i], indent + 4);
        push_all(&mut out, &t);
        i += 1;
    }
    proof {
        lemma_commands_text_prefix(kv, (indent + 4) as nat);
    }
    out
}

/// The texts of the first `n` commands, one after the other.
pub open spec fn commands_text_prefix(cs: Seq<CommandV>, indent: nat, n: int) -> Seq<char>
    decreases n,
{
    if n <= 0 {
        Seq::empty()
    } else {
        commands_text_prefix(cs, indent, n - 1) + command_text(cs[n - 1], indent)
    }
}

/// The texts of all the commands are those of the first `len` commands.
proof fn lemma_commands_text_prefix(cs: Seq<CommandV>, indent: nat)
    ensures
        commands_text_prefix(cs, indent, cs.len() as int) == commands_text(cs, indent),
    decreases cs.len(),
{
    if cs.len() > 0 {
        let rest = cs.subrange(1, cs.len() as int);
        lemma_commands_text_prefix(rest, indent);
        lemma_prefix_shift(cs, indent, cs.len() as int);
    }
}

/// Splitting off the first command.
proof fn lemma_prefix_shift(cs: Seq<CommandV>, indent: nat, n: int)
    requires
        1 <= n <= cs.len(),
    ensures
        commands_text_prefix(cs, indent, n) == command_text(cs[0], indent) + commands_text_prefix(
            cs.subrange(1, cs.len() as int),
            indent,
            n - 1,
        ),
    decreases n,
{
    let rest = cs.subrange(1, cs.len() as int);
    if n == 1 {
        assert(commands_text_prefix(rest, indent, 0) == Seq::<char>::empty());
        assert(commands_text_prefix(cs, indent, 0) == Seq::<char>::empty());
        assert(Seq::<char>::empty() + command_text(cs[0], indent) =~= command_text(cs[0], indent)
            + Seq::<char>::empty());
    } else {
        lemma_prefix_shift(cs, indent, n - 1);
        assert(rest[n - 2] == cs[n - 1]);
        assert(command_text(cs[0], indent) + commands_text_prefix(rest, indent, n - 2)
            + command_text(cs[n - 1], indent) =~= command_text(cs[0], indent) + (
        commands_text_prefix(rest, indent, n - 2) + command_text(rest[n - 2], indent)));
    }
}


/// `c` occurs nowhere in `a`.
spec fn lacks(a: Seq<char>, c: char) -> bool {
    forall|i: int| 0 <= i < a.len() ==> a[i] != c
}

/// Splitting text without the separator gives the text, after `cur`.
proof fn lemma_split_without(s: Seq<char>, c: char, cur: Seq<char>)
    requires
        lacks(s, c),
    ensures
        crate::text::split_from(s, c, cur) == seq![cur + s],
    decreases s.len(),
{
    if s.len() > 0 {
        assert(lacks(s.drop_first(), c));
        lemma_split_without(s.drop_first(), c, cur.push(s[0]));
        assert(cur.push(s[0]) + s.drop_first() =~= cur + s);
    } else {
        assert(cur + s =~= cur);
    }
}

/// Splitting `a.b` (neither holding the separator) gives `a` and `b`.
proof fn lemma_split_once(a: Seq<char>, b: Seq<char>, c: char, cur: Seq<char>)
    requires
        lacks(a, c),
        lacks(b, c),
    ensures
        crate::text::split_from(a + seq![c] + b, c, cur) == seq![cur + a, b],
    decreases a.len(),
{
    let s = a + seq![c] + b;
    if a.len() > 0 {
        assert(s.drop_first() =~= a.drop_first() + seq![c] + b);
        assert(lacks(a.drop_first(), c));
        lemma_split_once(a.drop_first(), b, c, cur.push(a[0]));
        assert(cur.push(a[0]) + a.drop_first() =~= cur + a);
    } else {
        assert(s.drop_first() =~= b);
        lemma_split_without(b, c, Seq::empty());
        assert(Seq::<char>::empty() + b =~= b);
        assert(cur + a =~= cur);
    }
}

/// Leading white space is dropped before a text.
proof fn lemma_trim_start_spaces(ind: Seq<char>, x: Seq<char>)
    requires
        forall|i: int| 0 <= i < ind.len() ==> ind[i] == ' ',
    ensures
        crate::text::trim_start(ind + x) == crate::text::trim_start(x),
    decreases ind.len(),
{
    if ind.len() > 0 {
        assert((ind + x).drop_first() =~= ind.drop_first() + x);
        lemma_trim_start_spaces(ind.drop_first(), x);
    } else {
        assert(ind + x =~= x);
    }
}

/// The first `c` of `a + b`, where `a` lacks it and `b` starts with it.
proof fn lemma_first_pos_after(a: Seq<char>, b: Seq<char>, c: char)
    requires
        lacks(a, c),
        b.len() > 0,
        b[0] == c,
    ensures
        crate::text::first_pos(a + b, c) == a.len(),
    decreases a.len(),
{
    if a.len() > 0 {
        assert((a + b).drop_first() =~= a.drop_first() + b);
        assert(lacks(a.drop_first(), c));
        lemma_first_pos_after(a.drop_first(), b, c);
    } else {
        assert(a + b =~= b);
    }
}

/// The facts of a script-like key that reading it back needs.
proof fn lemma_script_key_facts(k: Seq<char>)
    requires
        crate::parser::is_script_key(k),
    ensures
        k.len() > 0,
        !crate::text::is_ws(k[0]),
        !crate::text::is_ws(k.last()),
        lacks(k, '.'),
        lacks(k, ':'),
        lacks(k, ' '),
        k[0] != '#' && k[0] != '@' && k[0] != '>' && k[0] != 'v' && k[0] != 'c' && k[0] != 'e',
        k != "hide"@,
        k != "desc"@,
{
    reveal_strlit("script");
    reveal_strlit("before");
    reveal_strlit("after");
    reveal_strlit("finally");
    reveal_strlit("fallback");
    reveal_strlit("hide");
    reveal_strlit("desc");
    if k == "hide"@ {
        assert(k.len() == 4);
        assert(k[0] != "hide"@[0] || k[1] != "hide"@[1]);
    }
    if k == "desc"@ {
        assert(k.len() == 4);
        assert(k[0] != "desc"@[0] || k[1] != "desc"@[1]);
    }
}

/// Law (directive round trip, one line): the line that the writer gives a
/// script-like directive (`script`, `before`, `after`, `finally`,
/// `fallback`, hidden or not, for any operating system) whose text is one
/// line that starts and ends with a character that is not white space (and
/// is not `|`), read back by the parser as a directive line, gives that
/// directive again (for all operating systems), and the parser moves on to
/// the next line.
pub proof fn lemma_script_line_round_trip(
    lines: Seq<Seq<char>>,
    outs: Seq<crate::parser::OutcomeV>,
    st: crate::parser::PState,
    ind: Seq<char>,
    k: Seq<char>,
    h: bool,
    s: Seq<char>,
    indent: int,
)
    requires
        crate::parser::is_script_key(k),
        forall|i: int| 0 <= i < ind.len() ==> ind[i] == ' ',
        s.len() > 0,
        !crate::text::is_ws(s[0]),
        !crate::text::is_ws(s.last()),
        !s.contains('\n'),
        s != "|"@,
    ensures
        directive_text(crate::parser::script_directive(k, s, h), ind) == ind + hidden_key(k, h) + ": "@ + s
            + "\n"@,
        crate::parser::property_spec(lines, outs, st, ind + hidden_key(k, h) + ": "@ + s, indent) == (
            Ok::<DirectiveV, crate::parser::ErrV>(crate::parser::script_directive(k, s, h)),
            crate::parser::advance(st),
        ),
{
    reveal_strlit(": ");
    reveal_strlit(".hide");
    reveal_strlit("hide");
    reveal_strlit("script");
    reveal_strlit("before");
    reveal_strlit("after");
    reveal_strlit("finally");
    reveal_strlit("fallback");
    lemma_script_key_facts(k);
    let kk = hidden_key(k, h);
    let hide_v = "hide"@;
    assert(lacks(hide_v, '.') && lacks(hide_v, ':'));
    if h {
        assert(kk =~= k + seq!['.'] + hide_v);
        lemma_split_once(k, hide_v, '.', Seq::empty());
        assert(Seq::<char>::empty() + k =~= k);
    } else {
        lemma_split_without(k, '.', Seq::empty());
        assert(Seq::<char>::empty() + k =~= k);
    }
    let parts = crate::text::split(kk, '.');
    assert(parts[0] == k);
    assert(parts.contains(hide_v) == h) by {
        if h {
            assert(parts[1] == hide_v);
        } else {
            assert(parts =~= seq![k]);
        }
    }
    assert(kk.len() > 0 && !crate::text::is_ws(kk[0]) && !crate::text::is_ws(kk.last()));
    assert(lacks(kk, ':')) by {
        if h {
            assert forall|i: int| 0 <= i < kk.len() implies kk[i] != ':' by {
                if i < k.len() {
                    assert(kk[i] == k[i]);
                } else if i > k.len() {
                    assert(kk[i] == hide_v[i - k.len() - 1]);
                }
            }
        }
    }
    let x = kk + ": "@ + s;
    let line = ind + kk + ": "@ + s;
    assert(line =~= ind + x);
    lemma_trim_start_spaces(ind, x);
    assert(x[0] == kk[0]);
    assert(crate::text::trim_start(x) == x);
    assert(x.last() == s.last());
    assert(crate::text::trim_end(x) == x);
    let t = crate::text::trim(line);
    assert(t == x);
    let b = ": "@ + s;
    assert(x =~= kk + b);
    lemma_first_pos_after(kk, b, ':');
    let c = crate::text::first_pos(t, ':');
    assert(c == kk.len());
    assert(t[c] == ':');
    assert(t.contains(':'));
    assert(t.take(c) =~= kk);
    assert(crate::text::trim_start(kk) == kk);
    assert(crate::text::trim_end(kk) == kk);
    assert(t.skip(c + 1) =~= seq![' '] + s);
    assert((seq![' '] + s).drop_first() =~= s);
    assert(crate::text::trim_start(s) == s);
    assert(crate::text::trim_end(s) == s);
    assert(crate::text::trim(t.skip(c + 1)) == s);
}

/// Command substitution leaves a text without `$` as it is.
proof fn lemma_subst_plain(
    s: Seq<char>,
    i: int,
    depth: int,
    cmd: Seq<char>,
    acc: Seq<char>,
    k: int,
    outs: Seq<crate::parser::OutcomeV>,
    line: int,
)
    requires
        0 <= i <= s.len(),
        lacks(s, '$'),
    ensures
        crate::parser::subst_from(s, i, false, depth, cmd, acc, k, outs, line) == (
            Ok::<Seq<char>, crate::parser::ErrV>(acc + s.skip(i)),
            k,
        ),
    decreases s.len() - i,
{
    if i < s.len() {
        lemma_subst_plain(s, i + 1, depth, cmd, acc.push(s[i]), k, outs, line);
        assert(acc.push(s[i]) + s.skip(i + 1) =~= acc + s.skip(i));
    } else {
        assert(acc + s.skip(i) =~= acc);
    }
}

/// Law (directive round trip, one line): the line that the writer gives a
/// description whose text starts and ends with a character that is not
/// white space, holds no `$` and does not start with a quote or a bracket,
/// read back by the parser as a directive line, gives that description
/// again, and the parser moves on to the next line.
#[verifier::rlimit(40)]
#[verifier::spinoff_prover]
pub proof fn lemma_desc_line_round_trip(
    lines: Seq<Seq<char>>,
    outs: Seq<crate::parser::OutcomeV>,
    st: crate::parser::PState,
    ind: Seq<char>,
    s: Seq<char>,
    indent: int,
)
    requires
        forall|i: int| 0 <= i < ind.len() ==> ind[i] == ' ',
        s.len() > 0,
        !crate::text::is_ws(s[0]),
        !crate::text::is_ws(s.last()),
        !s.contains('$'),
        s[0] != '"' && s[0] != '\'' && s[0] != '[' && s[0] != '(',
    ensures
        directive_text(DirectiveV::Desc(s), ind) == ind + "desc: "@ + s + "\n"@,
        crate::parser::property_spec(lines, outs, st, ind + "desc: "@ + s, indent) == (
            Ok::<DirectiveV, crate::parser::ErrV>(DirectiveV::Desc(s)),
            crate::parser::advance(st),
        ),
{
    reveal_strlit(": ");
    reveal_strlit("desc");
    reveal_strlit("desc: ");
    reveal_strlit("true");
    reveal_strlit("false");
    let kk = "desc"@;
    assert(lacks(kk, '.') && lacks(kk, ':'));
    lemma_split_without(kk, '.', Seq::empty());
    assert(Seq::<char>::empty() + kk =~= kk);
    let x = kk + ": "@ + s;
    let line = ind + "desc: "@ + s;
    assert(line =~= ind + x);
    lemma_trim_start_spaces(ind, x);
    assert(crate::text::trim_start(x) == x);
    assert(x.last() == s.last());
    assert(crate::text::trim_end(x) == x);
    let t = crate::text::trim(line);
    assert(t == x);
    let b = ": "@ + s;
    assert(x =~= kk + b);
    lemma_first_pos_after(kk, b, ':');
    let c = crate::text::first_pos(t, ':');
    assert(t[c] == ':');
    assert(t.take(c) =~= kk);
    assert(crate::text::trim_start(kk) == kk);
    assert(crate::text::trim_end(kk) == kk);
    assert(t.skip(c + 1) =~= seq![' '] + s);
    assert((seq![' '] + s).drop_first() =~= s);
    assert(crate::text::trim_start(s) == s);
    assert(crate::text::trim_end(s) == s);
    assert(crate::text::trim(t.skip(c + 1)) == s);
    assert(lacks(s, '$')) by {
        assert forall|i: int| 0 <= i < s.len() implies s[i] != '$' by {
            if s[i] == '$' {
                assert(s.contains('$'));
            }
        }
    }
    assert(crate::text::unquote(s) == s);
    lemma_subst_plain(s, 0, 0, Seq::empty(), Seq::empty(), st.k, outs, crate::parser::line_no(st.idx));
    assert(Seq::<char>::empty() + s.skip(0) =~= s);
    assert(crate::parser::with_k(st, st.k) == st);
}

/// The key of a script-like directive, and its text and hide flag.
pub open spec fn script_parts(d: DirectiveV) -> Option<(Seq<char>, Seq<char>, bool)> {
    match d {
        DirectiveV::Script(s, None, h) => Some(("script"@, s, h)),
        DirectiveV::Before(s, None, h) => Some(("before"@, s, h)),
        DirectiveV::After(s, None, h) => Some(("after"@, s, h)),
        DirectiveV::Finally(s, None, h) => Some(("finally"@, s, h)),
        DirectiveV::Fallback(s, None, h) => Some(("fallback"@, s, h)),
        _ => None,
    }
}

/// A text that a one-line directive keeps when read back: not empty,
/// starting and ending with a character that is not white space, without
/// a line break, not `|`, not ending with `:`.
pub open spec fn one_line_text(s: Seq<char>) -> bool {
    &&& s.len() > 0
    &&& !crate::text::is_ws(s[0])
    &&& !crate::text::is_ws(s.last())
    &&& !s.contains('\n')
    &&& s != "|"@
    &&& s.last() != ':'
}

/// A directive that the writer puts on one line and the parser reads back
/// as it is: a description (without `$`, not starting with a quote or a
/// bracket), a script-like directive for all operating systems, with a
/// one-line text, or a nonempty list of dependencies without arguments
/// (see `simple_dep`).
pub open spec fn one_line_directive(d: DirectiveV) -> bool {
    match d {
        DirectiveV::Desc(s) => one_line_text(s) && !s.contains('$') && s[0] != '"' && s[0] != '\'' && s[0] != '['
            && s[0] != '(',
        DirectiveV::Depends(ds, _) => ds.len() > 0 && forall|i: int| 0 <= i < ds.len() ==> simple_dep(#[trigger] ds[i]),
        _ => script_parts(d) matches Some((_, s, _)) && one_line_text(s),
    }
}

/// A character that a written dependency path may hold: not white space,
/// a comma, a parenthesis, a quote or `|`.
pub open spec fn dep_path_char(c: char) -> bool {
    !crate::text::is_ws(c) && c != ',' && c != '(' && c != ')' && c != '"' && c != '\'' && c != '|'
}

/// A dependency that the writer lists and the parser reads back as it is:
/// no arguments, and a path of such characters, not empty and not ending
/// with `:`.
pub open spec fn simple_dep(d: DependencyV) -> bool {
    &&& d.args.len() == 0
    &&& d.command_path.len() > 0
    &&& forall|i: int| 0 <= i < d.command_path.len() ==> dep_path_char(#[trigger] d.command_path[i])
    &&& d.command_path.last() != ':'
}

/// The key of a `depends` line.
pub open spec fn depends_key(parallel: bool) -> Seq<char> {
    if parallel {
        "depends.parallel"@
    } else {
        "depends"@
    }
}

/// The paths of the dependencies.
pub open spec fn dep_paths(ds: Seq<DependencyV>) -> Seq<Seq<char>> {
    ds.map_values(|x: DependencyV| x.command_path)
}

/// The line the writer gives a one-line directive of a top-level command.
pub open spec fn written_line(d: DirectiveV) -> Seq<char> {
    match d {
        DirectiveV::Desc(s) => spaces(4) + "desc: "@ + s,
        DirectiveV::Depends(ds, p) => spaces(4) + depends_key(p) + ": "@ + join(dep_paths(ds), ", "@),
        _ => match script_parts(d) {
            Some((k, s, h)) => spaces(4) + hidden_key(k, h) + ": "@ + s,
            None => Seq::empty(),
        },
    }
}

/// A name that the writer puts alone on the line that opens a command and
/// the parser reads back: not empty, and without white space, `:`,
/// parentheses, and not starting with `#`, `@` or `>`.
pub open spec fn simple_name(n: Seq<char>) -> bool {
    &&& n.len() > 0
    &&& forall|i: int|
        0 <= i < n.len() ==> !crate::text::is_ws(#[trigger] n[i]) && n[i] != ':' && n[i] != '(' && n[i] != ')'
    &&& n[0] != '#' && n[0] != '@' && n[0] != '>'
}

/// A top-level command whose text reads back as it is: a simple name, no
/// parameters, children, local variables or constants, no source file, and
/// one-line directives only.
pub open spec fn simple_command(c: CommandV) -> bool {
    &&& simple_name(c.name)
    &&& c.parameters.len() == 0
    &&& c.children.len() == 0
    &&& c.local_variables.len() == 0
    &&& c.local_constants.len() == 0
    &&& !c.has_wildcard
    &&& c.source_file is None
    &&& forall|i: int| 0 <= i < c.directives.len() ==> one_line_directive(#[trigger] c.directives[i])
}

/// The lines of `x` followed by a line break, where `x` has none.
proof fn lemma_lines_one(x: Seq<char>, cur: Seq<char>, rest: Seq<char>)
    requires
        !x.contains('\n'),
    ensures
        crate::text::lines_from(x + "\n"@ + rest, cur) == seq![crate::text::strip_cr(cur + x)]
            + crate::text::lines_from(rest, Seq::empty()),
    decreases x.len(),
{
    reveal_strlit("\n");
    let a = x + "\n"@ + rest;
    if x.len() == 0 {
        assert(a[0] == '\n');
        assert(a.drop_first() =~= rest);
        assert(cur + x =~= cur);
    } else {
        assert(a[0] == x[0]);
        assert(x[0] != '\n') by {
            if x[0] == '\n' {
                assert(x.contains('\n'));
            }
        }
        assert(a.drop_first() =~= x.drop_first() + "\n"@ + rest);
        assert(!x.drop_first().contains('\n')) by {
            if x.drop_first().contains('\n') {
                let j = choose|j: int| 0 <= j < x.drop_first().len() && x.drop_first()[j] == '\n';
                assert(x[j + 1] == '\n');
            }
        }
        lemma_lines_one(x.drop_first(), cur.push(x[0]), rest);
        assert(cur.push(x[0]) + x.drop_first() =~= cur + x);
    }
}

/// The lines of the written directives, one after the other.
proof fn lemma_lines_of_written(ds: Seq<DirectiveV>, rest: Seq<char>)
    requires
        forall|i: int| 0 <= i < ds.len() ==> one_line_directive(#[trigger] ds[i]),
    ensures
        crate::text::lines_from(
            join(ds.map_values(|d: DirectiveV| directive_text(d, spaces(4))), Seq::empty()) + rest,
            Seq::empty(),
        ) == ds.map_values(|d: DirectiveV| written_line(d)) + crate::text::lines_from(rest, Seq::empty()),
    decreases ds.len(),
{
    reveal_strlit("\n");
    let ts = ds.map_values(|d: DirectiveV| directive_text(d, spaces(4)));
    if ds.len() == 0 {
        assert(join(ts, Seq::empty()) + rest =~= rest);
        assert(ds.map_values(|d: DirectiveV| written_line(d)) =~= Seq::<Seq<char>>::empty());
    } else {
        let last = ds.last();
        let init = ds.drop_last();
        assert(one_line_directive(last));
        lemma_written_text(last);
        let w = written_line(last);
        assert(!w.contains('\n')) by {
            lemma_written_no_break(last);
        }
        lemma_lines_one(w, Seq::empty(), rest);
        assert(crate::text::strip_cr(Seq::<char>::empty() + w) == w) by {
            lemma_written_no_break(last);
            assert(Seq::<char>::empty() + w =~= w);
        }
        assert forall|i: int| 0 <= i < init.len() implies one_line_directive(#[trigger] init[i]) by {
            assert(init[i] == ds[i]);
        }
        let tail = w + "\n"@ + rest;
        lemma_lines_of_written(init, tail);
        let ti = init.map_values(|d: DirectiveV| directive_text(d, spaces(4)));
        assert(ts.drop_last() =~= ti);
        assert(ts.last() == w + "\n"@);
        if ds.len() == 1 {
            assert(join(ts, Seq::empty()) == ts[0]);
            assert(join(ti, Seq::empty()) =~= Seq::<char>::empty());
        } else {
            assert(join(ts, Seq::empty()) == join(ti, Seq::empty()) + Seq::<char>::empty() + ts.last());
        }
        assert(join(ts, Seq::empty()) + rest =~= join(ti, Seq::empty()) + tail);
        assert(ds.map_values(|d: DirectiveV| written_line(d)) =~= init.map_values(|d: DirectiveV| written_line(d))
            + seq![w]);
        assert(seq![w] + crate::text::lines_from(rest, Seq::empty()) == crate::text::lines_from(
            tail,
            Seq::empty(),
        ));
    }
}

/// The writer's text of a one-line directive is its line and a line break.
proof fn lemma_written_text(d: DirectiveV)
    requires
        one_line_directive(d),
    ensures
        directive_text(d, spaces(4)) == written_line(d) + "\n"@,
{
    match d {
        DirectiveV::Desc(s) => {},
        DirectiveV::Depends(ds, p) => {
            assert(ds.map_values(|x: DependencyV| dep_text(x)) =~= dep_paths(ds));
        },
        _ => {
            let (k, s, h) = script_parts(d)->0;
            assert(!s.contains('\n'));
            assert(d == crate::parser::script_directive(k, s, h)) by {
                reveal_strlit("script");
                reveal_strlit("before");
                reveal_strlit("after");
                reveal_strlit("finally");
                reveal_strlit("fallback");
                assert("before"@[0] != "script"@[0]);
                assert("after"@[0] != "script"@[0] && "after"@[0] != "before"@[0]);
                assert("finally"@[0] != "script"@[0] && "finally"@[0] != "before"@[0] && "finally"@[0]
                    != "after"@[0]);
                assert("fallback"@[0] != "script"@[0] && "fallback"@[0] != "before"@[0] && "fallback"@[0]
                    != "after"@[0] && "fallback"@[2] != "finally"@[2]);
            }
        },
    }
}

/// A written line holds no line break and does not end with `\r`.
proof fn lemma_written_no_break(d: DirectiveV)
    requires
        one_line_directive(d),
    ensures
        !written_line(d).contains('\n'),
        written_line(d).len() > 0,
        written_line(d).last() != '\r',
{
    reveal_strlit("desc: ");
    reveal_strlit(": ");
    reveal_strlit(".hide");
    reveal_strlit("script");
    reveal_strlit("before");
    reveal_strlit("after");
    reveal_strlit("finally");
    reveal_strlit("fallback");
    let w = written_line(d);
    if let DirectiveV::Depends(ds, p) = d {
        lemma_depends_text(ds);
        let j = join(dep_paths(ds), ", "@);
        let pre = spaces(4) + depends_key(p) + ": "@;
        reveal_strlit("depends.parallel");
        reveal_strlit("depends");
        assert(w =~= pre + j);
        assert(!pre.contains('\n')) by {
            assert forall|i: int| 0 <= i < pre.len() implies pre[i] != '\n' by {
                if i >= 4 && i < 4 + depends_key(p).len() {
                    assert(pre[i] == depends_key(p)[i - 4]);
                }
            }
        }
        assert(!w.contains('\n')) by {
            if w.contains('\n') {
                let q = choose|q: int| 0 <= q < w.len() && w[q] == '\n';
                if q < pre.len() {
                    assert(pre[q] == '\n');
                } else {
                    assert(j[q - pre.len()] == '\n');
                    assert(j.contains('\n'));
                }
            }
        }
        assert(w.last() == j.last());
        return;
    }
    let s = match d {
        DirectiveV::Desc(s) => s,
        _ => {
            let t = script_parts(d)->0;
            t.1
        },
    };
    let pre = w.take(w.len() - s.len());
    assert(w =~= pre + s);
    assert(!pre.contains('\n')) by {
        assert forall|i: int| 0 <= i < pre.len() implies pre[i] != '\n' by {
            match d {
                DirectiveV::Desc(_) => {},
                _ => {
                    let (k, _, h) = script_parts(d)->0;
                    if i >= 4 && i < 4 + hidden_key(k, h).len() {
                        assert(pre[i] == hidden_key(k, h)[i - 4]);
                    }
                },
            }
        }
    }
    assert(!w.contains('\n')) by {
        if w.contains('\n') {
            let j = choose|j: int| 0 <= j < w.len() && w[j] == '\n';
            if j < pre.len() {
                assert(pre[j] == '\n');
            } else {
                assert(s[j - pre.len()] == '\n');
            }
        }
    }
    assert(w.last() == s.last());
}

/// A script-like directive is the one `script_directive` makes of its parts.
proof fn lemma_script_parts(d: DirectiveV)
    requires
        script_parts(d) is Some,
    ensures
        ({
            let p = script_parts(d)->0;
            crate::parser::is_script_key(p.0) && d == crate::parser::script_directive(p.0, p.1, p.2)
        }),
{
    reveal_strlit("script");
    reveal_strlit("before");
    reveal_strlit("after");
    reveal_strlit("finally");
    reveal_strlit("fallback");
    assert("before"@[0] != "script"@[0]);
    assert("after"@[0] != "script"@[0] && "after"@[0] != "before"@[0]);
    assert("finally"@[0] != "script"@[0] && "finally"@[0] != "before"@[0] && "finally"@[0] != "after"@[0]);
    assert("fallback"@[0] != "script"@[0] && "fallback"@[0] != "before"@[0] && "fallback"@[0] != "after"@[0]
        && "fallback"@[2] != "finally"@[2]);
}

/// Spaces before a text that does not start with one are its leading
/// spaces.
proof fn lemma_leading_spaces(n: nat, x: Seq<char>)
    requires
        x.len() > 0,
        x[0] != ' ',
    ensures
        crate::parser::leading_spaces(spaces(n) + x) == n,
    decreases n,
{
    if n > 0 {
        let a = spaces(n) + x;
        assert(a[0] == ' ');
        assert(a.drop_first() =~= spaces((n - 1) as nat) + x);
        lemma_leading_spaces((n - 1) as nat, x);
    } else {
        assert(spaces(0) + x =~= x);
    }
}

/// A written `key: text` line, indented four spaces: its trimmed text, its
/// indentation level, and that it reads as a directive line.
proof fn lemma_key_line(key: Seq<char>, s: Seq<char>)
    requires
        key.len() > 0,
        lacks(key, ':'),
        lacks(key, ' '),
        !crate::text::is_ws(key[0]),
        !crate::text::is_ws(key.last()),
        one_line_text(s),
    ensures
        ({
            let x = key + ": "@ + s;
            &&& crate::text::trim(spaces(4) + x) == x
            &&& x[0] == key[0]
            &&& crate::parser::is_directive_line(x)
            &&& x.last() != ':'
            &&& crate::parser::indent_spec(spaces(4) + x) == 1
        }),
{
    reveal_strlit(": ");
    let x = key + ": "@ + s;
    assert(forall|i: int| 0 <= i < spaces(4).len() ==> spaces(4)[i] == ' ');
    lemma_trim_start_spaces(spaces(4), x);
    assert(x[0] == key[0]);
    assert(crate::text::trim_start(x) == x);
    assert(x.last() == s.last());
    assert(crate::text::trim_end(x) == x);
    let b = ": "@ + s;
    assert(x =~= key + b);
    lemma_first_pos_after(key, b, ':');
    assert(x[key.len() as int] == ':');
    assert(x.contains(':'));
    assert(x.take(key.len() as int) =~= key);
    assert(crate::text::trim_start(key) == key);
    assert(crate::text::trim_end(key) == key);
    assert(!key.contains(' ')) by {
        if key.contains(' ') {
            let j = choose|j: int| 0 <= j < key.len() && key[j] == ' ';
            assert(key[j] != ' ');
        }
    }
    lemma_leading_spaces(4, x);
}

/// A written description line in a command body adds that description.
proof fn lemma_body_desc_line(
    lines: Seq<Seq<char>>,
    outs: Seq<crate::parser::OutcomeV>,
    st: crate::parser::PState,
    s: Seq<char>,
    dirs: Seq<DirectiveV>,
    vars: Seq<crate::ast::BindingV>,
    consts: Seq<crate::ast::BindingV>,
)
    requires
        0 <= st.idx < lines.len(),
        lines[st.idx] == written_line(DirectiveV::Desc(s)),
        one_line_directive(DirectiveV::Desc(s)),
    ensures
        crate::parser::body_step(lines, outs, st, 0, dirs, vars, consts) == crate::parser::StepV::Next(
            dirs.push(DirectiveV::Desc(s)),
            vars,
            consts,
            crate::parser::advance(st),
        ),
{
    reveal_strlit("desc");
    reveal_strlit("desc: ");
    reveal_strlit(": ");
    reveal_strlit("var ");
    reveal_strlit("const ");
    reveal_strlit("env ");
    reveal_strlit("# @source: ");
    let l = lines[st.idx];
    let key = "desc"@;
    assert(lacks(key, ':') && lacks(key, ' '));
    assert(key[0] == 'd' && key.last() == 'c');
    assert("desc: "@ =~= key + ": "@);
    assert(l =~= spaces(4) + (key + ": "@ + s));
    lemma_key_line(key, s);
    lemma_desc_line_round_trip(lines, outs, st, spaces(4), s, 1);
    let t = crate::text::trim(l);
    assert(t[0] == 'd');
    assert(!crate::parser::is_source_marker(t)) by {
        if crate::parser::is_source_marker(t) {
            assert(t[0] == "# @source: "@[0]);
        }
    }
    assert(!("var "@.is_prefix_of(t))) by {
        if "var "@.is_prefix_of(t) {
            assert(t[0] == "var "@[0]);
        }
    }
    assert(!("const "@.is_prefix_of(t))) by {
        if "const "@.is_prefix_of(t) {
            assert(t[0] == "const "@[0]);
        }
    }
    assert(!("env "@.is_prefix_of(t))) by {
        if "env "@.is_prefix_of(t) {
            assert(t[0] == "env "@[0]);
        }
    }
    reveal(crate::parser::body_step);
}

/// A written script-like line in a command body adds that directive.
proof fn lemma_body_script_line(
    lines: Seq<Seq<char>>,
    outs: Seq<crate::parser::OutcomeV>,
    st: crate::parser::PState,
    d: DirectiveV,
    dirs: Seq<DirectiveV>,
    vars: Seq<crate::ast::BindingV>,
    consts: Seq<crate::ast::BindingV>,
)
    requires
        0 <= st.idx < lines.len(),
        lines[st.idx] == written_line(d),
        one_line_directive(d),
        script_parts(d) is Some,
    ensures
        crate::parser::body_step(lines, outs, st, 0, dirs, vars, consts) == crate::parser::StepV::Next(
            dirs.push(d),
            vars,
            consts,
            crate::parser::advance(st),
        ),
{
    reveal_strlit(": ");
    reveal_strlit("var ");
    reveal_strlit("const ");
    reveal_strlit("env ");
    reveal_strlit("# @source: ");
    reveal_strlit(".hide");
    reveal_strlit("hide");
    let l = lines[st.idx];
    let (k, s, h) = script_parts(d)->0;
    lemma_script_parts(d);
    lemma_script_key_facts(k);
    let key = hidden_key(k, h);
    if h {
        assert(key =~= k + ".hide"@);
        assert(lacks(key, ':') && lacks(key, ' ')) by {
            assert forall|i: int| 0 <= i < key.len() implies key[i] != ':' && key[i] != ' ' by {
                if i < k.len() {
                    assert(key[i] == k[i]);
                }
            }
        }
        assert(key.last() == 'e');
    }
    assert(key[0] == k[0]);
    assert(l =~= spaces(4) + (key + ": "@ + s));
    lemma_key_line(key, s);
    lemma_script_line_round_trip(lines, outs, st, spaces(4), k, h, s, 1);
    let t = crate::text::trim(l);
    assert(t[0] == k[0]);
    assert(!crate::parser::is_source_marker(t)) by {
        if crate::parser::is_source_marker(t) {
            assert(t[0] == "# @source: "@[0]);
        }
    }
    assert(!("var "@.is_prefix_of(t))) by {
        if "var "@.is_prefix_of(t) {
            assert(t[0] == "var "@[0]);
        }
    }
    assert(!("const "@.is_prefix_of(t))) by {
        if "const "@.is_prefix_of(t) {
            assert(t[0] == "const "@[0]);
        }
    }
    assert(!("env "@.is_prefix_of(t))) by {
        if "env "@.is_prefix_of(t) {
            assert(t[0] == "env "@[0]);
        }
    }
    reveal(crate::parser::body_step);
}

/// A list joined with a separator is its first item, the separator, and
/// the rest joined.
proof fn lemma_join_front(parts: Seq<Seq<char>>, sep: Seq<char>)
    requires
        parts.len() >= 2,
    ensures
        join(parts, sep) == parts[0] + sep + join(parts.drop_first(), sep),
    decreases parts.len(),
{
    if parts.len() == 2 {
        assert(parts.drop_last() =~= seq![parts[0]]);
        assert(parts.drop_first() =~= seq![parts[1]]);
        assert(join(parts.drop_last(), sep) == parts[0]);
        assert(join(parts.drop_first(), sep) == parts[1]);
        assert(parts.last() == parts[1]);
        assert(join(parts, sep) == join(parts.drop_last(), sep) + sep + parts.last());
    } else {
        let dl = parts.drop_last();
        let df = parts.drop_first();
        lemma_join_front(dl, sep);
        assert(dl.drop_first() =~= df.drop_last());
        assert(df.last() == parts.last());
        assert(dl[0] == parts[0]);
        assert(join(df, sep) == join(df.drop_last(), sep) + sep + df.last());
        assert(join(parts, sep) == join(dl, sep) + sep + parts.last());
        assert(join(parts, sep) =~= parts[0] + sep + join(df, sep));
    }
}

/// The written list of simple dependency paths: the text that starts with
/// the first path's first character, ends with the last path's last
/// character, and holds no line break.
proof fn lemma_depends_text(ds: Seq<DependencyV>)
    requires
        ds.len() > 0,
        forall|i: int| 0 <= i < ds.len() ==> simple_dep(#[trigger] ds[i]),
    ensures
        ({
            let j = join(dep_paths(ds), ", "@);
            &&& j.len() > 0
            &&& j[0] == ds[0].command_path[0]
            &&& j.last() == ds.last().command_path.last()
            &&& !j.contains('\n')
        }),
    decreases ds.len(),
{
    reveal_strlit(", ");
    let ps = dep_paths(ds);
    let j = join(ps, ", "@);
    assert(simple_dep(ds[0]));
    assert(simple_dep(ds.last()));
    if ds.len() == 1 {
        assert(j == ps[0]);
        assert(!j.contains('\n')) by {
            if j.contains('\n') {
                let q = choose|q: int| 0 <= q < j.len() && j[q] == '\n';
                assert(dep_path_char(ds[0].command_path[q]));
            }
        }
    } else {
        let init = ds.drop_last();
        assert forall|i: int| 0 <= i < init.len() implies simple_dep(#[trigger] init[i]) by {
            assert(init[i] == ds[i]);
        }
        lemma_depends_text(init);
        assert(dep_paths(init) =~= ps.drop_last());
        let a = join(ps.drop_last(), ", "@);
        let l = ps.last();
        assert(j == a + ", "@ + l);
        assert(l == ds.last().command_path);
        assert(j[0] == a[0]);
        assert(init[0] == ds[0]);
        assert(!j.contains('\n')) by {
            if j.contains('\n') {
                let q = choose|q: int| 0 <= q < j.len() && j[q] == '\n';
                if q < a.len() {
                    assert(a[q] == '\n');
                    assert(a.contains('\n'));
                } else if q < a.len() + 2 {
                    assert(j[q] == ", "@[q - a.len()]);
                } else {
                    assert(j[q] == l[q - a.len() - 2]);
                    assert(dep_path_char(ds.last().command_path[q - a.len() - 2]));
                }
            }
        }
    }
}

/// Scanning dependency text over characters that are no quote,
/// parenthesis or comma finds what it finds after them.
proof fn lemma_dep_scan(s: Seq<char>, i: int, n: int)
    requires
        0 <= i <= n <= s.len(),
        forall|q: int| i <= q < n ==> dep_path_char(#[trigger] s[q]),
    ensures
        crate::parser::dep_comma_from(s, i, 0, false, '\0') == crate::parser::dep_comma_from(
            s,
            n,
            0,
            false,
            '\0',
        ),
    decreases n - i,
{
    if i < n {
        assert(dep_path_char(s[i]));
        lemma_dep_scan(s, i + 1, n);
    }
}

/// A list of simple dependency paths, joined with `, `, reads back as
/// those dependencies, after `acc`.
#[verifier::rlimit(60)]
#[verifier::spinoff_prover]
proof fn lemma_deps_join(ds: Seq<DependencyV>, acc: Seq<DependencyV>, line: int)
    requires
        ds.len() > 0,
        forall|i: int| 0 <= i < ds.len() ==> simple_dep(#[trigger] ds[i]),
    ensures
        crate::parser::deps_from(join(dep_paths(ds), ", "@), acc, line) == Ok::<_, crate::parser::ErrV>(acc + ds),
    decreases ds.len(),
{
    reveal_strlit(", ");
    let ps = dep_paths(ds);
    let j = join(ps, ", "@);
    let d0 = ds[0];
    let p0 = d0.command_path;
    assert(simple_dep(d0));
    lemma_depends_text(ds);
    assert(crate::text::trim_start(p0) == p0);
    assert(crate::text::trim_end(p0) == p0);
    assert(!p0.contains('(')) by {
        if p0.contains('(') {
            let q = choose|q: int| 0 <= q < p0.len() && p0[q] == '(';
            assert(dep_path_char(p0[q]));
        }
    }
    assert(d0.args =~= Seq::<(Seq<char>, Seq<char>)>::empty());
    assert(d0 == crate::ast::DependencyV { command_path: p0, args: Seq::empty() });
    if ds.len() == 1 {
        assert(j == p0);
        lemma_dep_scan(j, 0, j.len() as int);
        assert(crate::parser::split_dep_spec(j) == (j, Seq::<char>::empty()));
        assert(crate::text::trim(Seq::<char>::empty()) =~= Seq::<char>::empty());
        assert(crate::parser::deps_from(Seq::<char>::empty(), acc.push(d0), line) == Ok::<_, crate::parser::ErrV>(acc.push(d0)));
        assert(acc.push(d0) =~= acc + ds);
    } else {
        let rest = ds.drop_first();
        assert forall|i: int| 0 <= i < rest.len() implies simple_dep(#[trigger] rest[i]) by {
            assert(rest[i] == ds[i + 1]);
        }
        lemma_join_front(ps, ", "@);
        assert(ps.drop_first() =~= dep_paths(rest));
        let r = join(dep_paths(rest), ", "@);
        lemma_depends_text(rest);
        assert(j == p0 + ", "@ + r);
        assert forall|q: int| 0 <= q < p0.len() implies dep_path_char(#[trigger] j[q]) by {
            assert(j[q] == p0[q]);
        }
        lemma_dep_scan(j, 0, p0.len() as int);
        assert(j[p0.len() as int] == ',');
        assert(crate::parser::dep_comma_from(j, p0.len() as int, 0, false, '\0') == Some(p0.len() as int));
        assert(j.take(p0.len() as int) =~= p0);
        assert(j.skip(p0.len() as int + 1) =~= seq![' '] + r);
        assert((seq![' '] + r).drop_first() =~= r);
        assert(crate::text::trim_start(r) == r);
        assert(crate::text::trim_end(r) == r);
        assert(crate::text::trim_start(seq![' '] + r) == r);
        assert(crate::text::trim_end(r) == r);
        assert(crate::text::trim(seq![' '] + r) == r);
        lemma_deps_join(rest, acc.push(d0), line);
        assert(acc.push(d0) + rest =~= acc + ds);
    }
}

/// Law (directive round trip, dependencies): the line that the writer
/// gives a list of dependencies without arguments (paths of characters
/// that are no white space, comma, parenthesis, quote or `|`, none ending
/// with `:`), in order or in parallel, read back by the parser as a
/// directive line, gives that directive again, and the parser moves on to
/// the next line.
pub proof fn lemma_depends_line_round_trip(
    lines: Seq<Seq<char>>,
    outs: Seq<crate::parser::OutcomeV>,
    st: crate::parser::PState,
    ind: Seq<char>,
    ds: Seq<DependencyV>,
    p: bool,
    indent: int,
)
    requires
        forall|i: int| 0 <= i < ind.len() ==> ind[i] == ' ',
        ds.len() > 0,
        forall|i: int| 0 <= i < ds.len() ==> simple_dep(#[trigger] ds[i]),
    ensures
        directive_text(DirectiveV::Depends(ds, p), ind) == ind + depends_key(p) + ": "@ + join(
            dep_paths(ds),
            ", "@,
        ) + "\n"@,
        crate::parser::property_spec(
            lines,
            outs,
            st,
            ind + depends_key(p) + ": "@ + join(dep_paths(ds), ", "@),
            indent,
        ) == (Ok::<DirectiveV, crate::parser::ErrV>(DirectiveV::Depends(ds, p)), crate::parser::advance(st)),
{
    reveal_strlit(": ");
    reveal_strlit("depends");
    reveal_strlit("depends.parallel");
    reveal_strlit("parallel");
    reveal_strlit("hide");
    reveal_strlit("desc");
    reveal_strlit("script");
    reveal_strlit("before");
    reveal_strlit("after");
    reveal_strlit("finally");
    reveal_strlit("fallback");
    assert(ds.map_values(|x: DependencyV| dep_text(x)) =~= dep_paths(ds));
    let kk = depends_key(p);
    let base = "depends"@;
    let par = "parallel"@;
    assert(lacks(base, '.') && lacks(par, '.') && lacks(base, ':'));
    if p {
        assert(kk =~= base + seq!['.'] + par);
        lemma_split_once(base, par, '.', Seq::empty());
        assert(Seq::<char>::empty() + base =~= base);
    } else {
        lemma_split_without(base, '.', Seq::empty());
        assert(Seq::<char>::empty() + base =~= base);
    }
    let parts = crate::text::split(kk, '.');
    assert(parts[0] == base);
    assert(parts.contains(par) == p) by {
        if p {
            assert(parts[1] == par);
        } else {
            assert(parts =~= seq![base]);
            if parts.contains(par) {
                assert(par[0] != base[0]);
            }
        }
    }
    assert(lacks(kk, ':'));
    lemma_depends_text(ds);
    let s = join(dep_paths(ds), ", "@);
    assert(simple_dep(ds[0]) && simple_dep(ds.last()));
    assert(dep_path_char(ds[0].command_path[0]));
    let lp = ds.last().command_path;
    assert(dep_path_char(lp[lp.len() - 1]));
    let x = kk + ": "@ + s;
    let line = ind + kk + ": "@ + s;
    assert(line =~= ind + x);
    lemma_trim_start_spaces(ind, x);
    assert(x[0] == kk[0]);
    assert(crate::text::trim_start(x) == x);
    assert(x.last() == s.last());
    assert(crate::text::trim_end(x) == x);
    let t = crate::text::trim(line);
    assert(t == x);
    let b = ": "@ + s;
    assert(x =~= kk + b);
    lemma_first_pos_after(kk, b, ':');
    let c = crate::text::first_pos(t, ':');
    assert(t[c] == ':');
    assert(t.contains(':'));
    assert(t.take(c) =~= kk);
    assert(crate::text::trim_start(kk) == kk);
    assert(crate::text::trim_end(kk) == kk);
    assert(t.skip(c + 1) =~= seq![' '] + s);
    assert((seq![' '] + s).drop_first() =~= s);
    assert(crate::text::trim_start(s) == s);
    assert(crate::text::trim_end(s) == s);
    assert(crate::text::trim(t.skip(c + 1)) == s);
    assert(base != "desc"@) by {
        assert(base[2] != "desc"@[2]);
    }
    assert(!crate::parser::is_script_key(base)) by {
        assert(base[0] != "script"@[0] && base[0] != "before"@[0] && base[0] != "after"@[0]
            && base[0] != "finally"@[0] && base[0] != "fallback"@[0]);
    }
    lemma_deps_join(ds, Seq::empty(), crate::parser::line_no(st.idx));
    assert(Seq::<DependencyV>::empty() + ds =~= ds);
    assert(crate::parser::deps_spec(s, crate::parser::line_no(st.idx)) == Ok::<_, crate::parser::ErrV>(ds));
}

/// A written dependency line in a command body adds that directive.
proof fn lemma_body_depends_line(
    lines: Seq<Seq<char>>,
    outs: Seq<crate::parser::OutcomeV>,
    st: crate::parser::PState,
    ds: Seq<DependencyV>,
    p: bool,
    dirs: Seq<DirectiveV>,
    vars: Seq<crate::ast::BindingV>,
    consts: Seq<crate::ast::BindingV>,
)
    requires
        0 <= st.idx < lines.len(),
        lines[st.idx] == written_line(DirectiveV::Depends(ds, p)),
        one_line_directive(DirectiveV::Depends(ds, p)),
    ensures
        crate::parser::body_step(lines, outs, st, 0, dirs, vars, consts) == crate::parser::StepV::Next(
            dirs.push(DirectiveV::Depends(ds, p)),
            vars,
            consts,
            crate::parser::advance(st),
        ),
{
    reveal_strlit(": ");
    reveal_strlit("var ");
    reveal_strlit("const ");
    reveal_strlit("env ");
    reveal_strlit("# @source: ");
    reveal_strlit("depends");
    reveal_strlit("depends.parallel");
    let l = lines[st.idx];
    let key = depends_key(p);
    assert(lacks(key, ':') && lacks(key, ' '));
    assert(key[0] == 'd' && key.last() != ' ' && !crate::text::is_ws(key.last()));
    let s = join(dep_paths(ds), ", "@);
    lemma_depends_text(ds);
    assert(simple_dep(ds[0]) && simple_dep(ds.last()));
    assert(dep_path_char(ds[0].command_path[0]));
    let lp = ds.last().command_path;
    assert(dep_path_char(lp[lp.len() - 1]));
    assert(s != "|"@) by {
        if s == "|"@ {
            reveal_strlit("|");
            assert(s[0] == '|');
        }
    }
    assert(one_line_text(s));
    assert(l =~= spaces(4) + (key + ": "@ + s));
    lemma_key_line(key, s);
    lemma_depends_line_round_trip(lines, outs, st, spaces(4), ds, p, 1);
    let t = crate::text::trim(l);
    assert(t[0] == 'd');
    assert(!crate::parser::is_source_marker(t)) by {
        if crate::parser::is_source_marker(t) {
            assert(t[0] == "# @source: "@[0]);
        }
    }
    assert(!("var "@.is_prefix_of(t))) by {
        if "var "@.is_prefix_of(t) {
            assert(t[0] == "var "@[0]);
        }
    }
    assert(!("const "@.is_prefix_of(t))) by {
        if "const "@.is_prefix_of(t) {
            assert(t[0] == "const "@[0]);
        }
    }
    assert(!("env "@.is_prefix_of(t))) by {
        if "env "@.is_prefix_of(t) {
            assert(t[0] == "env "@[0]);
        }
    }
    reveal(crate::parser::body_step);
}

/// A written one-line directive line in a command body adds that
/// directive, and the parser goes on to the next line.
proof fn lemma_body_line(
    lines: Seq<Seq<char>>,
    outs: Seq<crate::parser::OutcomeV>,
    st: crate::parser::PState,
    d: DirectiveV,
    dirs: Seq<DirectiveV>,
    vars: Seq<crate::ast::BindingV>,
    consts: Seq<crate::ast::BindingV>,
)
    requires
        0 <= st.idx < lines.len(),
        lines[st.idx] == written_line(d),
        one_line_directive(d),
    ensures
        crate::parser::body_step(lines, outs, st, 0, dirs, vars, consts) == crate::parser::StepV::Next(
            dirs.push(d),
            vars,
            consts,
            crate::parser::advance(st),
        ),
{
    match d {
        DirectiveV::Desc(s) => lemma_body_desc_line(lines, outs, st, s, dirs, vars, consts),
        DirectiveV::Depends(ds, p) => lemma_body_depends_line(lines, outs, st, ds, p, dirs, vars, consts),
        _ => lemma_body_script_line(lines, outs, st, d, dirs, vars, consts),
    }
}

/// The body of a top-level command made of written one-line directive
/// lines reads back as those directives, from the `j`-th one on.
proof fn lemma_body_all(
    lines: Seq<Seq<char>>,
    outs: Seq<crate::parser::OutcomeV>,
    ds: Seq<DirectiveV>,
    j: int,
    src: Option<Seq<char>>,
    k: int,
)
    requires
        lines.len() == 1 + ds.len(),
        forall|i: int| 0 <= i < ds.len() ==> lines[1 + i] == written_line(#[trigger] ds[i]),
        forall|i: int| 0 <= i < ds.len() ==> one_line_directive(#[trigger] ds[i]),
        0 <= j <= ds.len(),
    ensures
        crate::parser::cmd_body(
            lines,
            outs,
            crate::parser::PState { idx: 1 + j, src, k },
            0,
            crate::parser::CmdAcc {
                directives: ds.take(j),
                children: Seq::empty(),
                vars: Seq::empty(),
                consts: Seq::empty(),
            },
        ) == (
            Ok::<crate::parser::CmdAcc, crate::parser::ErrV>(
                crate::parser::CmdAcc {
                    directives: ds,
                    children: Seq::empty(),
                    vars: Seq::empty(),
                    consts: Seq::empty(),
                },
            ),
            crate::parser::PState { idx: 1 + ds.len() as int, src, k },
        ),
    decreases ds.len() - j,
{
    let st = crate::parser::PState { idx: 1 + j, src, k };
    if j == ds.len() {
        reveal(crate::parser::body_step);
        assert(ds.take(j) =~= ds);
    } else {
        let acc = crate::parser::CmdAcc {
            directives: ds.take(j),
            children: Seq::<CommandV>::empty(),
            vars: Seq::<crate::ast::BindingV>::empty(),
            consts: Seq::<crate::ast::BindingV>::empty(),
        };
        lemma_body_line(lines, outs, st, ds[j], acc.directives, acc.vars, acc.consts);
        assert(ds.take(j).push(ds[j]) =~= ds.take(j + 1));
        lemma_body_all(lines, outs, ds, j + 1, src, k);
    }
}

/// A text without `c` does not start with a text that holds `c`.
proof fn lemma_no_prefix_with(t: Seq<char>, p: Seq<char>, c: char, m: int)
    requires
        lacks(t, c),
        0 <= m < p.len(),
        p[m] == c,
    ensures
        !p.is_prefix_of(t),
{
    if p.is_prefix_of(t) {
        assert(t[m] == c);
    }
}

/// The lines of a simple command's text: the opening line, then the
/// written directive lines.
proof fn lemma_round_trip_lines(c: CommandV)
    requires
        simple_command(c),
    ensures
        lines(command_text(c, 0)) == seq![c.name + ":"@] + c.directives.map_values(|d: DirectiveV| written_line(d)),
{
    reveal_strlit(":\n");
    reveal_strlit(":");
    reveal_strlit("\n");
    let n = c.name;
    let ds = c.directives;
    let dj = join(ds.map_values(|d: DirectiveV| directive_text(d, spaces(4))), Seq::empty());
    let text = command_text(c, 0);
    assert(c.local_variables.map_values(
        |b: (Seq<char>, Seq<char>)| spaces(0) + "var "@ + b.0 + " = "@ + b.1 + "\n"@,
    ) =~= Seq::<Seq<char>>::empty());
    assert(c.local_constants.map_values(
        |b: (Seq<char>, Seq<char>)| spaces(0) + "const "@ + b.0 + " = "@ + b.1 + "\n"@,
    ) =~= Seq::<Seq<char>>::empty());
    assert(spaces(0) =~= Seq::<char>::empty());
    assert(signature_text(c) =~= n);
    assert(commands_text(c.children, 4) =~= Seq::<char>::empty());
    let hdr = n + ":"@;
    assert(text =~= hdr + "\n"@ + dj);
    assert(!hdr.contains('\n')) by {
        if hdr.contains('\n') {
            let j = choose|j: int| 0 <= j < hdr.len() && hdr[j] == '\n';
            if j < n.len() {
                assert(!crate::text::is_ws(n[j]));
            }
        }
    }
    lemma_lines_one(hdr, Seq::empty(), dj);
    assert(Seq::<char>::empty() + hdr =~= hdr);
    assert(hdr.last() == ':');
    assert(crate::text::strip_cr(hdr) == hdr);
    lemma_lines_of_written(ds, Seq::empty());
    assert(dj + Seq::<char>::empty() =~= dj);
}

/// The opening line of a simple command opens a command at the top level,
/// and its signature is the name without parameters.
proof fn lemma_round_trip_header(
    ls: Seq<Seq<char>>,
    outs: Seq<crate::parser::OutcomeV>,
    n: Seq<char>,
)
    requires
        simple_name(n),
        ls.len() > 0,
        ls[0] == n + ":"@,
    ensures
        crate::parser::top_step(
            ls,
            outs,
            crate::parser::PState { idx: 0, src: None, k: 0 },
            Seq::empty(),
            Seq::empty(),
            Seq::empty(),
        ) == crate::parser::TopStepV::Command,
        crate::parser::indent_spec(ls[0]) == 0,
        crate::parser::sig_spec(ls, outs, crate::parser::PState { idx: 0, src: None, k: 0 }, 0) == (
            Ok::<(Seq<char>, Seq<crate::ast::ParameterV>), crate::parser::ErrV>((n, Seq::empty())),
            crate::parser::PState { idx: 1, src: None, k: 0 },
        ),
{
    reveal_strlit(":");
    reveal_strlit("var ");
    reveal_strlit("const ");
    reveal_strlit("env ");
    reveal_strlit("import ");
    reveal_strlit("function ");
    reveal_strlit("# @source: ");
    let hdr = n + ":"@;
    assert(hdr[0] == n[0]);
    assert(hdr.last() == ':');
    assert(crate::text::trim_start(hdr) == hdr);
    assert(crate::text::trim_end(hdr) == hdr);
    let t = crate::text::trim(hdr);
    assert(t == hdr);
    assert(lacks(t, ' ')) by {
        assert forall|i: int| 0 <= i < t.len() implies t[i] != ' ' by {
            if i < n.len() {
                assert(!crate::text::is_ws(n[i]));
            }
        }
    }
    assert(!t.contains('(')) by {
        if t.contains('(') {
            let j = choose|j: int| 0 <= j < t.len() && t[j] == '(';
            if j < n.len() {
                assert(t[j] == n[j]);
            }
        }
    }
    lemma_no_prefix_with(t, "var "@, ' ', 3);
    lemma_no_prefix_with(t, "const "@, ' ', 5);
    lemma_no_prefix_with(t, "env "@, ' ', 3);
    lemma_no_prefix_with(t, "import "@, ' ', 6);
    lemma_no_prefix_with(t, "function "@, ' ', 8);
    lemma_no_prefix_with(t, "# @source: "@, ' ', 1);
    reveal(crate::parser::top_step);
    lemma_leading_spaces(0, hdr);
    assert(spaces(0) + hdr =~= hdr);
    assert(hdr.drop_last() =~= n);
    assert(crate::text::strip_trailing(hdr.drop_last(), ':') == n);
    assert(crate::text::strip_trailing(hdr, ':') == n);
    assert(crate::text::trim_start(n) == n);
    assert(crate::text::trim_end(n) == n);
}

/// The parser reads a simple command's lines back as the command.
proof fn lemma_round_trip_command(c: CommandV, ls: Seq<Seq<char>>, outs: Seq<crate::parser::OutcomeV>)
    requires
        simple_command(c),
        ls == seq![c.name + ":"@] + c.directives.map_values(|d: DirectiveV| written_line(d)),
    ensures
        crate::parser::cmd_spec(ls, outs, crate::parser::PState { idx: 0, src: None, k: 0 }, 0) == (
            Ok::<CommandV, crate::parser::ErrV>(c),
            crate::parser::PState { idx: 1 + c.directives.len() as int, src: None, k: 0 },
        ),
{
    let ds = c.directives;
    lemma_round_trip_header(ls, outs, c.name);
    assert(forall|i: int| 0 <= i < ds.len() ==> ls[1 + i] == written_line(#[trigger] ds[i]));
    lemma_body_all(ls, outs, ds, 0, None, 0);
    assert(ds.take(0) =~= Seq::<DirectiveV>::empty());
    assert(crate::parser::empty_acc() == crate::parser::CmdAcc {
        directives: ds.take(0),
        children: Seq::<CommandV>::empty(),
        vars: Seq::<crate::ast::BindingV>::empty(),
        consts: Seq::<crate::ast::BindingV>::empty(),
    });
    assert(!crate::parser::has_wildcard_param(Seq::empty()));
    assert(c.children =~= Seq::<CommandV>::empty());
    assert(c.parameters =~= Seq::<crate::ast::ParameterV>::empty());
    assert(c.local_variables =~= Seq::<crate::ast::BindingV>::empty());
    assert(c.local_constants =~= Seq::<crate::ast::BindingV>::empty());
}

/// Law (command round trip): the text that the writer gives a simple
/// top-level command (see `simple_command`: one-line descriptions,
/// script-like directives and dependency lists only), read by the parser from its first line,
/// gives exactly that command, and the parse result holds that command
/// alone once same-name commands are merged.
pub proof fn lemma_command_round_trip(c: CommandV, outs: Seq<crate::parser::OutcomeV>)
    requires
        simple_command(c),
    ensures
        ({
            let ls = lines(command_text(c, 0));
            let st0 = crate::parser::PState { idx: 0, src: None, k: 0 };
            let a = crate::parser::TopAcc {
                cmds: seq![c],
                vars: Seq::empty(),
                consts: Seq::empty(),
                funcs: Seq::empty(),
            };
            &&& crate::parser::top_from(ls, outs, st0, crate::parser::empty_top()).0 == Ok::<
                crate::parser::TopAcc,
                crate::parser::ErrV,
            >(a)
            &&& forall|r: crate::parser::ParseResultV| #[trigger]
                crate::parser::result_of(a, r) ==> r.commands == seq![c]
        }),
{
    let ls = lines(command_text(c, 0));
    lemma_round_trip_lines(c);
    lemma_round_trip_command(c, ls, outs);
    lemma_round_trip_header(ls, outs, c.name);
    let st2 = crate::parser::PState { idx: 1 + c.directives.len() as int, src: None, k: 0 };
    let a = crate::parser::TopAcc {
        cmds: seq![c],
        vars: Seq::empty(),
        consts: Seq::empty(),
        funcs: Seq::empty(),
    };
    assert(crate::parser::empty_top().cmds.push(c) =~= seq![c]);
    assert(crate::parser::top_from(ls, outs, st2, a).0 == Ok::<crate::parser::TopAcc, crate::parser::ErrV>(a));
    assert forall|r: crate::parser::ParseResultV| #[trigger] crate::parser::result_of(a, r) implies r.commands
        == seq![c] by {
        let rc = choose|rc: Seq<CommandV>|
            crate::merge::cmds_resolved(a.cmds, rc) && r.commands == crate::merge::merge_spec(rc);
        lemma_resolved_simple(c, rc);
        lemma_merge_single(c);
    }
}

/// A command without a source file or children is resolved to itself.
proof fn lemma_resolved_simple(c: CommandV, rc: Seq<CommandV>)
    requires
        c.source_file is None,
        c.children.len() == 0,
        crate::merge::cmds_resolved(seq![c], rc),
    ensures
        rc == seq![c],
{
    let b = rc[0];
    assert(crate::merge::cmd_resolved(c, b));
    assert(crate::merge::cmds_resolved(c.children, b.children));
    assert(b.children.len() == 0);
    assert(b.children =~= c.children);
    assert(b.directives == c.directives);
    assert(b == c);
    assert(rc.len() == 1);
    assert(rc =~= seq![c]);
}

/// Merging a single command keeps it.
proof fn lemma_merge_single(c: CommandV)
    ensures
        crate::merge::merge_spec(seq![c]) == seq![c],
{
    let d = crate::merge::kids_depth(seq![c]);
    let acc = crate::merge::merge_into(Seq::empty(), c, d);
    assert(crate::merge::name_pos(Seq::<CommandV>::empty(), c.name) == -1);
    assert(acc =~= seq![c]);
    assert(seq![c].drop_first() =~= Seq::<CommandV>::empty());
    assert(crate::merge::merge_from(seq![c], d, Seq::empty()) == crate::merge::merge_from(
        seq![c].drop_first(),
        d,
        acc,
    ));
    assert(crate::merge::merge_from(Seq::<CommandV>::empty(), d, acc) == acc);
}
/// Law (write, then read back): take a simple command `c` (see
/// `simple_command`), the text `to_nestfile_string` writes for it at
/// indent 0 (`command_text(c, 0)`), and the parser `Parser::new` makes of
/// that text (its lines, at the first one, with no source and no
/// substitution used). The parse that `Parser::parse` performs from there
/// succeeds, and every result it stands for holds the command `c` alone.
pub proof fn lemma_written_command_reparses(c: CommandV, p: crate::parser::Parser)
    requires
        simple_command(c),
        p.lines_v() == lines(command_text(c, 0)),
        p.idx() == 0,
        p.source() is None,
        p.used() == 0,
    ensures
        crate::parser::top_from(p.lines_v(), p.outs(), p.st(), crate::parser::empty_top()).0 is Ok,
        forall|a: crate::parser::TopAcc, r: crate::parser::ParseResultV|
            crate::parser::top_from(p.lines_v(), p.outs(), p.st(), crate::parser::empty_top()).0
                == Ok::<crate::parser::TopAcc, crate::parser::ErrV>(a) && #[trigger]
                crate::parser::result_of(a, r) ==> r.commands == seq![c],
{
    lemma_command_round_trip(c, p.outs());
    assert(p.st() == crate::parser::PState { idx: 0, src: None, k: 0 });
}

} // verus!
