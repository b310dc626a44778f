//! The texts of the browser's panes: the title of the command list, the
//! label of a command in the tree, the details of the selected command, and
//! the line of each argument in the argument form.

use vstd::prelude::*;
use crate::ast::{Command, CommandV, DependencyV, Directive, DirectiveV, Parameter, ParameterV, commands_view, lemma_commands_view};
use crate::help::first_desc;
use crate::browser::strs;
use crate::text::{chars_of, chars_of_string, join, push_all, string_of};

verus! {

/// The title of the command list: the tree level's path, or all commands.
pub open spec fn title_spec(flat: bool, crumbs: Seq<Seq<char>>) -> Seq<char> {
    if flat {
        "Commands (All)"@
    } else if crumbs.len() == 0 {
        "Commands (Root)"@
    } else {
        "Commands ("@ + join(crumbs, " > "@) + ")"@
    }
}

/// The title of the command list (see `title_spec`).
pub fn list_title(flat: bool, crumbs: &Vec<String>) -> (s: String)
    ensures
        s@ == title_spec(flat, strs(crumbs@)),
{
    if flat {
        String::from_str("Commands (All)")
    } else if crumbs.len() == 0 {
        String::from_str("Commands (Root)")
    } else {
        let mut out = chars_of("Commands (");
        push_all(&mut out, &crate::runtime::join_strings_vec(crumbs, " > "));
        push_all(&mut out, &chars_of(")"));
        string_of(&out)
    }
}

/// A command in the tree: its name, with ` /` after a group's.
pub open spec fn label_spec(c: CommandV) -> Seq<char> {
    if c.children.len() > 0 {
        c.name + " /"@
    } else {
        c.name
    }
}

/// The label of a command in the tree (see `label_spec`).
pub fn tree_label(c: &Command) -> (s: String)
    ensures
        s@ == label_spec(c@),
{
    proof {
        lemma_commands_view(c.children@);
    }
    let mut out = chars_of_string(&c.name);
    if c.children.len() > 0 {
        push_all(&mut out, &chars_of(" /"));
    }
    string_of(&out)
}

/// The line of an argument in the form: a check box and the flag for a
/// boolean; otherwise the flag or `<name>`, the value where one is set, and
/// the type.
pub open spec fn arg_item_spec(p: ParameterV, v: Option<Seq<char>>) -> Seq<char> {
    if p.param_type == "bool"@ {
        (if v == Some("true"@) {
            "[x] "@
        } else {
            "[ ] "@
        }) + "--"@ + p.name
    } else {
        (if p.is_named {
            "--"@ + p.name
        } else {
            "<"@ + p.name + ">"@
        }) + (match v {
            Some(x) => if x.len() > 0 {
                ": "@ + x
            } else {
                Seq::empty()
            },
            None => Seq::empty(),
        }) + " ("@ + p.param_type + ")"@
    }
}

/// The line of an argument in the form (see `arg_item_spec`).
pub fn arg_item(p: &Parameter, value: Option<&String>) -> (s: String)
    ensures
        s@ == arg_item_spec(
            p@,
            match value {
                Some(v) => Some(v@),
                None => None,
            },
        ),
{
    let ghost vv = match value {
        Some(v) => Some(v@),
        None => None,
    };
    let is_bool = crate::text::eq(&chars_of_string(&p.param_type), &chars_of("bool"));
    let mut out: Vec<char> = Vec::new();
    if is_bool {
        let checked = match value {
            Some(v) => crate::text::eq(&chars_of_string(v), &chars_of("true")),
            None => false,
        };
        if checked {
            push_all(&mut out, &chars_of("[x] "));
        } else {
            push_all(&mut out, &chars_of("[ ] "));
        }
        push_all(&mut out, &chars_of("--"));
        push_all(&mut out, &chars_of_string(&p.name));
    } else {
        if p.is_named {
            push_all(&mut out, &chars_of("--"));
            push_all(&mut out, &chars_of_string(&p.name));
        } else {
            push_all(&mut out, &chars_of("<"));
            push_all(&mut out, &chars_of_string(&p.name));
            push_all(&mut out, &chars_of(">"));
        }
        match value {
            Some(v) => {
                if v.unicode_len() > 0 {
                    push_all(&mut out, &chars_of(": "));
                    push_all(&mut out, &chars_of_string(v));
                }
            },
            None => {},
        }
        push_all(&mut out, &chars_of(" ("));
        push_all(&mut out, &chars_of_string(&p.param_type));
        push_all(&mut out, &chars_of(")"));
    }
    assert(out@ =~= arg_item_spec(p@, vv));
    string_of(&out)
}

/// The dependencies of each `depends` directive: the paths joined by `, `,
/// with ` (parallel)` for parallel ones.
pub open spec fn dep_lines(ds: Seq<DirectiveV>) -> Seq<Seq<char>>
    decreases ds.len(),
{
    if ds.len() == 0 {
        Seq::empty()
    } else {
        let rest = dep_lines(ds.drop_last());
        match ds.last() {
            DirectiveV::Depends(deps, p) => rest.push(
                join(deps.map_values(|d: DependencyV| d.command_path), ", "@) + if p {
                    " (parallel)"@
                } else {
                    Seq::empty()
                },
            ),
            _ => rest,
        }
    }
}

/// The facts shown under "Info" for the directives: working directory,
/// environment variables (hidden values masked), privileges, validations.
pub open spec fn info_items(ds: Seq<DirectiveV>) -> Seq<Seq<char>>
    decreases ds.len(),
{
    if ds.len() == 0 {
        Seq::empty()
    } else {
        let rest = info_items(ds.drop_last());
        match ds.last() {
            DirectiveV::Cwd(p) => rest.push("Cwd: "@ + p),
            DirectiveV::Env(k, v, h) => rest.push(
                "Env: "@ + k + "="@ + if h {
                    "********"@
                } else {
                    v
                },
            ),
            DirectiveV::Privileged(true) => rest.push("Privileged: Yes"@),
            DirectiveV::Validate(t, r) => rest.push("Validate "@ + t + ": "@ + r),
            _ => rest,
        }
    }
}

/// A titled section: the title, each item indented two spaces, and an
/// empty line; nothing without items.
pub open spec fn section(title: Seq<char>, items: Seq<Seq<char>>) -> Seq<Seq<char>> {
    if items.len() > 0 {
        seq![title] + items.map_values(|x: Seq<char>| "  "@ + x) + seq![Seq::<char>::empty()]
    } else {
        Seq::empty()
    }
}

/// The lines of the details pane for a command: what it is and its name,
/// its description, subcommands, dependencies, variables, and the other
/// facts about it.
pub open spec fn details_spec(c: CommandV) -> Seq<Seq<char>> {
    seq![
        (if c.children.len() > 0 {
            "Group: "@
        } else {
            "Command: "@
        }) + c.name,
        Seq::<char>::empty(),
    ] + (match first_desc(c.directives) {
        Some(d) => seq!["Description:"@, "  "@ + d, Seq::<char>::empty()],
        None => Seq::empty(),
    }) + (if c.children.len() > 0 {
        seq![
            "Subcommands:"@,
            "  "@ + join(c.children.map_values(|k: CommandV| k.name), ", "@),
            Seq::<char>::empty(),
        ]
    } else {
        Seq::empty()
    }) + section("Dependencies:"@, dep_lines(c.directives)) + section(
        "Variables:"@,
        c.local_variables.map_values(|b: (Seq<char>, Seq<char>)| b.0 + " = "@ + b.1),
    ) + section(
        "Info:"@,
        (match c.source_file {
            Some(p) => seq!["Source: "@ + p],
            None => Seq::empty(),
        }) + info_items(c.directives),
    )
}

fn push_section(out: &mut Vec<String>, title: &str, items: Vec<String>)
    ensures
        strs(final(out)@) == strs(old(out)@) + section(title@, strs(items@)),
{
    let ghost o0 = strs(out@);
    let ghost iv = strs(items@);
    if items.len() == 0 {
        assert(strs(out@) =~= o0 + section(title@, iv));
        return;
    }
    out.push(String::from_str(title));
    let mut i: usize = 0;
    while i < items.len()
        invariant
            i <= items@.len(),
            iv == strs(items@),
            iv.len() > 0,
            strs(out@) == o0 + seq![title@] + iv.take(i as int).map_values(|x: Seq<char>| "  "@ + x),
        decreases items.len() - i,
    {
        let ghost before = strs(out@);
        let mut l = chars_of("  ");
        push_all(&mut l, &chars_of_string(&items[i]));
        out.push(string_of(&l));
        assert(strs(out@) =~= before.push("  "@ + iv[i as int]));
        assert(iv.take(i + 1).map_values(|x: Seq<char>| "  "@ + x) =~= iv.take(i as int).map_values(
            |x: Seq<char>| "  "@ + x,
        ).push("  "@ + iv[i as int]));
        i += 1;
    }
    assert(iv.take(items@.len() as int) =~= iv);
    let ghost mid = strs(out@);
    out.push(String::new());
    assert(strs(out@) =~= mid.push(Seq::<char>::empty()));
    assert(strs(out@) =~= o0 + section(title@, iv));
}

fn dependency_items(ds: &Vec<Directive>) -> (r: Vec<String>)
    ensures
        strs(r@) == dep_lines(ds@.map_values(|d: Directive| d@)),
{
    let ghost dv = ds@.map_values(|d: Directive| d@);
    let mut out: Vec<String> = Vec::new();
    let mut i: usize = 0;
    while i < ds.len()
        invariant
            i <= ds@.len(),
            dv == ds@.map_values(|d: Directive| d@),
            strs(out@) == dep_lines(dv.take(i as int)),
        decreases ds.len() - i,
    {
        assert(dv.take(i + 1).drop_last() =~= dv.take(i as int));
        assert(dv.take(i + 1).last() == ds@[i as int]@);
        match &ds[i] {
            Directive::Depends(deps, p) => {
                let ghost before = strs(out@);
                let ghost depv = deps@.map_values(|x: crate::ast::Dependency| x@);
                let mut names: Vec<String> = Vec::new();
                let mut j: usize = 0;
                while j < deps.len()
                    invariant
                        j <= deps@.len(),
                        depv == deps@.map_values(|x: crate::ast::Dependency| x@),
                        strs(names@) == depv.take(j as int).map_values(|d: DependencyV| d.command_path),
                    decreases deps.len() - j,
                {
                    let ghost nb = strs(names@);
                    names.push(deps[j].command_path.clone());
                    assert(strs(names@) =~= nb.push(depv[j as int].command_path));
                    assert(depv.take(j + 1).map_values(|d: DependencyV| d.command_path) =~= depv.take(
                        j as int,
                    ).map_values(|d: DependencyV| d.command_path).push(depv[j as int].command_path));
                    j += 1;
                }
                assert(depv.take(deps@.len() as int) =~= depv);
                let mut l = crate::runtime::join_strings_vec(&names, ", ");
                if *p {
                    push_all(&mut l, &chars_of(" (parallel)"));
                }
                out.push(string_of(&l));
                assert(strs(out@) =~= before.push(l@));
            },
            _ => {},
        }
        i += 1;
    }
    assert(dv.take(ds@.len() as int) =~= dv);
    out
}

fn info_list(c: &Command) -> (r: Vec<String>)
    ensures
        strs(r@) == (match c@.source_file {
            Some(p) => seq!["Source: "@ + p],
            None => Seq::empty(),
        }) + info_items(c@.directives),
{
    let ghost dv = c@.directives;
    let mut out: Vec<String> = Vec::new();
    match &c.source_file {
        Some(p) => {
            let mut l = chars_of("Source: ");
            push_all(&mut l, &chars_of_string(p));
            out.push(string_of(&l));
        },
        None => {},
    }
    let ghost head = strs(out@);
    assert(head =~= match c@.source_file {
        Some(p) => seq!["Source: "@ + p],
        None => Seq::<Seq<char>>::empty(),
    });
    let mut i: usize = 0;
    assert(dv.take(0) =~= Seq::<DirectiveV>::empty());
    assert(strs(out@) =~= head + info_items(dv.take(0)));
    while i < c.directives.len()
        invariant
            i <= c.directives@.len(),
            dv == c@.directives,
            strs(out@) == head + info_items(dv.take(i as int)),
        decreases c.directives.len() - i,
    {
        assert(dv.take(i + 1).drop_last() =~= dv.take(i as int));
        assert(dv.take(i + 1).last() == c.directives@[i as int]@);
        let ghost before = strs(out@);
        let item: Option<Vec<char>> = match &c.directives[i] {
            Directive::Cwd(p) => {
                let mut l = chars_of("Cwd: ");
                push_all(&mut l, &chars_of_string(p));
                Some(l)
            },
            Directive::Env(k, v, h) => {
                let mut l = chars_of("Env: ");
                push_all(&mut l, &chars_of_string(k));
                push_all(&mut l, &chars_of("="));
                if *h {
                    push_all(&mut l, &chars_of("********"));
                } else {
                    push_all(&mut l, &chars_of_string(v));
                }
                Some(l)
            },
            Directive::Privileged(b) => {
                if *b {
                    Some(chars_of("Privileged: Yes"))
                } else {
                    None
                }
            },
            Directive::Validate(t, r) => {
                let mut l = chars_of("Validate ");
                push_all(&mut l, &chars_of_string(t));
                push_all(&mut l, &chars_of(": "));
                push_all(&mut l, &chars_of_string(r));
                Some(l)
            },
            _ => None,
        };
        match item {
            Some(l) => {
                out.push(string_of(&l));
                assert(strs(out@) =~= before.push(l@));
            },
            None => {},
        }
        assert(strs(out@) =~= head + info_items(dv.take(i + 1)));
        i += 1;
    }
    assert(dv.take(c.directives@.len() as int) =~= dv);
    out
}

/// The lines of the details pane (see `details_spec`).
pub fn details(c: &Command) -> (r: Vec<String>)
    ensures
        strs(r@) == details_spec(c@),
{
    proof {
        lemma_commands_view(c.children@);
    }
    let mut out: Vec<String> = Vec::new();
    let mut first = if c.children.len() > 0 {
        chars_of("Group: ")
    } else {
        chars_of("Command: ")
    };
    push_all(&mut first, &chars_of_string(&c.name));
    out.push(string_of(&first));
    out.push(String::new());
    let ghost a = strs(out@);
    match crate::help::HelpFormatter::extract_description(&c.directives) {
        Some(d) => {
            out.push(String::from_str("Description:"));
            let mut l = chars_of("  ");
            push_all(&mut l, &chars_of_string(d));
            out.push(string_of(&l));
            out.push(String::new());
        },
        None => {},
    }
    let ghost b = strs(out@);
    if c.children.len() > 0 {
        let mut names: Vec<String> = Vec::new();
        let ghost kv = c@.children;
        let mut j: usize = 0;
        while j < c.children.len()
            invariant
                j <= c.children@.len(),
                kv == c@.children,
                kv == commands_view(c.children@),
                kv.len() == c.children@.len(),
                forall|m: int| 0 <= m < kv.len() ==> #[trigger] kv[m] == c.children@[m]@,
                strs(names@) == kv.take(j as int).map_values(|k: CommandV| k.name),
            decreases c.children.len() - j,
        {
            let ghost nb = strs(names@);
            names.push(c.children[j].name.clone());
            assert(strs(names@) =~= nb.push(kv[j as int].name));
            assert(kv.take(j + 1).map_values(|k: CommandV| k.name) =~= kv.take(j as int).map_values(
                |k: CommandV| k.name,
            ).push(kv[j as int].name));
            j += 1;
        }
        assert(kv.take(c.children@.len() as int) =~= kv);
        out.push(String::from_str("Subcommands:"));
        let mut l = chars_of("  ");
        push_all(&mut l, &crate::runtime::join_strings_vec(&names, ", "));
        out.push(string_of(&l));
        out.push(String::new());
    }
    let ghost cc = strs(out@);
    push_section(&mut out, "Dependencies:", dependency_items(&c.directives));
    let mut vars: Vec<String> = Vec::new();
    let ghost lv = c@.local_variables;
    let mut j: usize = 0;
    while j < c.local_variables.len()
        invariant
            j <= c.local_variables@.len(),
            lv == c@.local_variables,
            strs(vars@) == lv.take(j as int).map_values(|b: (Seq<char>, Seq<char>)| b.0 + " = "@ + b.1),
        decreases c.local_variables.len() - j,
    {
        let ghost vb = strs(vars@);
        let mut l = chars_of_string(&c.local_variables[j].name);
        push_all(&mut l, &chars_of(" = "));
        push_all(&mut l, &chars_of_string(&c.local_variables[j].value));
        vars.push(string_of(&l));
        assert(lv[j as int] == c.local_variables@[j as int]@);
        assert(strs(vars@) =~= vb.push(lv[j as int].0 + " = "@ + lv[j as int].1));
        assert(lv.take(j + 1).map_values(|b: (Seq<char>, Seq<char>)| b.0 + " = "@ + b.1) =~= lv.take(
            j as int,
        ).map_values(|b: (Seq<char>, Seq<char>)| b.0 + " = "@ + b.1).push(lv[j as int].0 + " = "@ + lv[j as int].1));
        j += 1;
    }
    assert(lv.take(c.local_variables@.len() as int) =~= lv);
    push_section(&mut out, "Variables:", vars);
    push_section(&mut out, "Info:", info_list(c));
    assert(strs(out@) =~= details_spec(c@));
    out
}

} // verus!
