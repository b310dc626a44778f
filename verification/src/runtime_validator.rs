//! Validation of command arguments and environment variables against the
//! rules of `validate` directives: regular expressions (`/pattern/flags`)
//! and membership lists (`in ["a", "b"]`).

use vstd::prelude::*;
use crate::ast::{ArgMap, BindingV, Variable, assoc_get};
use crate::template::{TemplateContext, TemplateProcessor, context_map, process_spec};
use crate::text::{
    chars_of, chars_of_string, join, push_all, replace, replace_chars, slice_chars, split, split_chars,
    string_of, trim, trim_chars, unquote, unquote_chars,
};

verus! {

/// Validator for runtime parameters.
pub struct RuntimeValidator;

/// Whether a regular expression built from `pattern` (case-insensitive
/// when `ci`) fails to build, and the error's text.
pub uninterp spec fn regex_build_error(pattern: Seq<char>, ci: bool) -> Option<Seq<char>>;

/// Whether the regular expression built from `pattern` (case-insensitive
/// when `ci`) matches somewhere in `text`.
pub uninterp spec fn regex_matches(pattern: Seq<char>, ci: bool, text: Seq<char>) -> bool;

/// `regex::RegexBuilder::new(pattern).case_insensitive(ci).build()`, then
/// `Regex::is_match(text)`. Claimed: the build fails exactly where
/// `regex_build_error` names an error, with that error's text, and the
/// match result is `regex_matches`. (`Regex::new(p)` is the same build
/// with `ci` false.)
#[verifier::external_body]
fn regex_is_match(pattern: &str, ci: bool, text: &str) -> (r: Result<bool, String>)
    ensures
        match r {
            Ok(b) => regex_build_error(pattern@, ci) is None && b == regex_matches(pattern@, ci, text@),
            Err(e) => regex_build_error(pattern@, ci) == Some(e@),
        },
{
    match regex::RegexBuilder::new(pattern).case_insensitive(ci).build() {
        Ok(re) => Ok(re.is_match(text)),
        Err(e) => Err(e.to_string()),
    }
}

/// The value of the first binding named `n`.
pub open spec fn find_binding(bs: Seq<BindingV>, n: Seq<char>) -> Option<Seq<char>>
    decreases bs.len(),
{
    if bs.len() == 0 {
        None
    } else if bs[0].0 == n {
        Some(bs[0].1)
    } else {
        find_binding(bs.drop_first(), n)
    }
}

/// The value a validation target names: `$NAME` is looked up in the
/// command's environment, then the system environment, then the parent
/// and the global variables; any other name is an argument.
pub open spec fn target_spec(
    name: Seq<char>,
    args: Seq<(Seq<char>, Seq<char>)>,
    env: Seq<(Seq<char>, Seq<char>)>,
    sys: Seq<(Seq<char>, Seq<char>)>,
    parents: Seq<BindingV>,
    globals: Seq<BindingV>,
) -> Option<Seq<char>> {
    if name.len() > 0 && name[0] == '$' {
        let n = name.drop_first();
        match assoc_get(env, n) {
            Some(v) => Some(v),
            None => match assoc_get(sys, n) {
                Some(v) => Some(v),
                None => match find_binding(parents, n) {
                    Some(v) => Some(v),
                    None => find_binding(globals, n),
                },
            },
        }
    } else {
        assoc_get(args, name)
    }
}

/// The allowed values of a membership list: the pieces between commas,
/// trimmed and unquoted, without the empty ones.
pub open spec fn allowed_of(pieces: Seq<Seq<char>>) -> Seq<Seq<char>>
    decreases pieces.len(),
{
    if pieces.len() == 0 {
        Seq::empty()
    } else {
        let rest = allowed_of(pieces.drop_first());
        let t = unquote(trim(pieces[0]));
        if t.len() > 0 {
            seq![t] + rest
        } else {
            rest
        }
    }
}

/// The list of a membership rule `in [a, b]` or `in (a, b)`, if the rule
/// is one.
pub open spec fn membership_spec(p: Seq<char>) -> Option<Seq<Seq<char>>> {
    if "in "@.is_prefix_of(p) {
        let l = trim(p.skip(3));
        if l.len() >= 2 && ((l[0] == '[' && l.last() == ']') || (l[0] == '(' && l.last() == ')')) {
            Some(allowed_of(split(l.subrange(1, l.len() - 1), ',')))
        } else {
            None
        }
    } else {
        None
    }
}

/// The position of the first `/` at or after `i` that no backslash
/// escapes (`escaped` says whether the character at `i` is escaped).
pub open spec fn closing_slash(t: Seq<char>, i: int, escaped: bool) -> Option<int>
    decreases t.len() - i,
{
    if i < 0 || i >= t.len() {
        None
    } else if escaped {
        closing_slash(t, i + 1, false)
    } else if t[i] == '\\' {
        closing_slash(t, i + 1, true)
    } else if t[i] == '/' {
        Some(i)
    } else {
        closing_slash(t, i + 1, false)
    }
}

/// The regular expression a rule gives, whether it is case-insensitive,
/// and whether it was written between slashes: `/pattern/flags` gives the
/// pattern with `\/` unescaped, case-insensitive where the flags hold `i`;
/// anything else is taken whole.
pub open spec fn regex_parts(p: Seq<char>) -> (Seq<char>, bool, bool) {
    if p.len() > 1 && p[0] == '/' {
        match closing_slash(p, 1, false) {
            Some(e) => (replace(p.subrange(1, e), "\\/"@, "/"@), trim(p.skip(e + 1)).contains('i'), true),
            None => (p, false, false),
        }
    } else {
        (p, false, false)
    }
}

/// The outcome of one rule for a target value, with the rule already
/// processed as a template and trimmed (`p`).
pub open spec fn rule_outcome(
    name: Seq<char>,
    value: Seq<char>,
    p: Seq<char>,
    path: Seq<char>,
) -> Result<(), Seq<char>> {
    match membership_spec(p) {
        Some(allowed) => if allowed.contains(value) {
            Ok(())
        } else {
            Err(
                "❌ Validation error in command 'nest "@ + path + "':\n   Target '"@ + name
                    + "' with value '"@ + value + "' is not in allowed list: ["@ + join(allowed, ", "@)
                    + "]"@,
            )
        },
        None => {
            let (pat, ci, slashed) = regex_parts(p);
            match regex_build_error(pat, ci) {
                Some(e) => if slashed {
                    Err(
                        "Invalid regex pattern in validation rule for '"@ + name + "': '"@ + p
                            + "'. Error: "@ + e,
                    )
                } else {
                    Err("Invalid regex pattern: "@ + p + ". Error: "@ + e)
                },
                None => if regex_matches(pat, ci, value) {
                    Ok(())
                } else {
                    Err(
                        "❌ Validation error in command 'nest "@ + path + "':\n   "@ + (if name.len() > 0
                            && name[0] == '$' {
                            "Environment variable"@
                        } else {
                            "Parameter"@
                        }) + " '"@ + name + "' with value '"@ + value + "' does not match pattern '"@ + p
                            + "'"@,
                    )
                },
            }
        },
    }
}

/// The outcome of validating rules `rules` in order: the first failure, or
/// success.
pub open spec fn validate_spec(
    rules: Seq<(Seq<char>, Seq<char>)>,
    args: Seq<(Seq<char>, Seq<char>)>,
    env: Seq<(Seq<char>, Seq<char>)>,
    sys: Seq<(Seq<char>, Seq<char>)>,
    parents: Seq<BindingV>,
    globals: Seq<BindingV>,
    vars: Seq<(Seq<char>, Seq<char>)>,
    parent_args: Seq<(Seq<char>, Seq<char>)>,
    path: Seq<char>,
    now: Seq<char>,
    user: Seq<char>,
) -> Result<(), Seq<char>>
    decreases rules.len(),
{
    if rules.len() == 0 {
        Ok(())
    } else {
        let (name, rule) = rules[0];
        let p = trim(process_spec(rule, args, parent_args, vars, now, user));
        match target_spec(name, args, env, sys, parents, globals) {
            None => Err(
                "Validation error: target '"@ + name + "' not found in arguments or environment"@,
            ),
            Some(v) => match rule_outcome(name, v, p, path) {
                Err(e) => Err(e),
                Ok(()) => validate_spec(
                    rules.drop_first(),
                    args,
                    env,
                    sys,
                    parents,
                    globals,
                    vars,
                    parent_args,
                    path,
                    now,
                    user,
                ),
            },
        }
    }
}

/// Finds the first variable named `n`.
fn find_variable(vs: &[Variable], n: &Vec<char>) -> (r: Option<String>)
    ensures
        crate::ast::opt_view(r) == find_binding(vs@.map_values(|v: Variable| v@), n@),
{
    let ghost bv = vs@.map_values(|v: Variable| v@);
    let mut i: usize = 0;
    assert(bv.skip(0) =~= bv);
    while i < vs.len()
        invariant
            i <= vs@.len(),
            bv == vs@.map_values(|v: Variable| v@),
            find_binding(bv, n@) == find_binding(bv.skip(i as int), n@),
        decreases vs.len() - i,
    {
        assert(bv.skip(i as int).drop_first() =~= bv.skip(i + 1));
        assert(bv.skip(i as int)[0] == bv[i as int]);
        if crate::text::eq(&chars_of_string(&vs[i].name), n) {
            return Some(vs[i].value.clone());
        }
        i += 1;
    }
    assert(bv.skip(i as int) =~= Seq::<BindingV>::empty());
    None
}

/// The allowed values of a membership list.
fn allowed_values(content: &Vec<char>) -> (out: Vec<Vec<char>>)
    ensures
        out@.map_values(|x: Vec<char>| x@) == allowed_of(split(content@, ',')),
{
    let pieces = split_chars(content, ',');
    let ghost pv = pieces@.map_values(|x: Vec<char>| x@);
    let mut out: Vec<Vec<char>> = Vec::new();
    let mut k: usize = pieces.len();
    assert(pv.skip(pv.len() as int) =~= Seq::<Seq<char>>::empty());
    while k > 0
        invariant
            k <= pieces@.len(),
            pv == pieces@.map_values(|x: Vec<char>| x@),
            out@.map_values(|x: Vec<char>| x@) == allowed_of(pv.skip(k as int)),
        decreases k,
    {
        k -= 1;
        let ghost before = out@.map_values(|x: Vec<char>| x@);
        let t = unquote_chars(&trim_chars(&pieces[k]));
        assert(pv.skip(k as int).drop_first() =~= pv.skip(k + 1));
        assert(pv.skip(k as int)[0] == pv[k as int]);
        if t.len() > 0 {
            out.insert(0, t);
            assert(out@.map_values(|x: Vec<char>| x@) =~= seq![t@] + before);
        }
    }
    assert(pv.skip(0) =~= pv);
    out
}

/// The membership list of a rule, if it is one.
fn membership(p: &Vec<char>) -> (r: Option<Vec<Vec<char>>>)
    ensures
        match r {
            Some(v) => membership_spec(p@) == Some(v@.map_values(|x: Vec<char>| x@)),
            None => membership_spec(p@) is None,
        },
{
    proof {
        reveal_strlit("in ");
    }
    if !crate::text::starts_with(p, &chars_of("in ")) {
        return None;
    }
    let l = trim_chars(&slice_chars(p, 3, p.len()));
    assert(p@.subrange(3, p@.len() as int) =~= p@.skip(3));
    if l.len() >= 2 && ((l[0] == '[' && l[l.len() - 1] == ']') || (l[0] == '(' && l[l.len() - 1] == ')')) {
        let content = slice_chars(&l, 1, l.len() - 1);
        Some(allowed_values(&content))
    } else {
        None
    }
}

/// The closing slash of a `/pattern/` rule.
fn find_closing_slash(t: &Vec<char>) -> (r: Option<usize>)
    ensures
        match r {
            Some(e) => closing_slash(t@, 1, false) == Some(e as int) && 1 <= e < t@.len(),
            None => closing_slash(t@, 1, false) is None,
        },
{
    let mut i: usize = 1;
    let mut escaped = false;
    if t.len() < 1 {
        return None;
    }
    while i < t.len()
        invariant
            1 <= i <= t@.len(),
            closing_slash(t@, 1, false) == closing_slash(t@, i as int, escaped),
        decreases t.len() - i,
    {
        if escaped {
            escaped = false;
        } else if t[i] == '\\' {
            escaped = true;
        } else if t[i] == '/' {
            return Some(i);
        }
        i += 1;
    }
    None
}

/// The text of a membership list in an error message.
fn join_allowed(items: &Vec<Vec<char>>) -> (out: Vec<char>)
    ensures
        out@ == join(items@.map_values(|x: Vec<char>| x@), ", "@),
{
    crate::text::join_chars(items, &chars_of(", "))
}

/// Tests whether the texts hold `v`.
fn holds(items: &Vec<Vec<char>>, v: &Vec<char>) -> (b: bool)
    ensures
        b == items@.map_values(|x: Vec<char>| x@).contains(v@),
{
    let ghost iv = items@.map_values(|x: Vec<char>| x@);
    let mut i: usize = 0;
    while i < items.len()
        invariant
            i <= items@.len(),
            iv == items@.map_values(|x: Vec<char>| x@),
            forall|j: int| 0 <= j < i ==> iv[j] != v@,
        decreases items.len() - i,
    {
        if crate::text::eq(&items[i], v) {
            assert(iv[i as int] == v@);
            return true;
        }
        i += 1;
    }
    false
}

/// Checks one rule, already processed and trimmed, for a target value.
fn check_rule(name: &Vec<char>, value: &Vec<char>, p: &Vec<char>, path: &Vec<char>) -> (r: Result<(), String>)
    ensures
        match r {
            Ok(()) => rule_outcome(name@, value@, p@, path@) is Ok,
            Err(m) => rule_outcome(name@, value@, p@, path@) == Err::<(), Seq<char>>(m@),
        },
{
    match membership(p) {
        Some(allowed) => {
            if holds(&allowed, value) {
                return Ok(());
            }
            let mut m = chars_of("❌ Validation error in command 'nest ");
            push_all(&mut m, path);
            push_all(&mut m, &chars_of("':\n   Target '"));
            push_all(&mut m, name);
            push_all(&mut m, &chars_of("' with value '"));
            push_all(&mut m, value);
            push_all(&mut m, &chars_of("' is not in allowed list: ["));
            push_all(&mut m, &join_allowed(&allowed));
            push_all(&mut m, &chars_of("]"));
            return Err(string_of(&m));
        },
        None => {},
    }
    let mut pat = p.clone();
    let mut ci = false;
    let mut slashed = false;
    if p.len() > 1 && p[0] == '/' {
        match find_closing_slash(p) {
            Some(e) => {
                pat = replace_chars(&slice_chars(p, 1, e), &chars_of("\\/"), &chars_of("/"));
                let flags = trim_chars(&slice_chars(p, e + 1, p.len()));
                assert(p@.subrange(e + 1, p@.len() as int) =~= p@.skip(e + 1));
                ci = crate::text::contains_char(&flags, 'i');
                slashed = true;
            },
            None => {},
        }
    }
    assert(regex_parts(p@) == (pat@, ci, slashed));
    let ps = string_of(&pat);
    let vs = string_of(value);
    match regex_is_match(ps.as_str(), ci, vs.as_str()) {
        Err(e) => {
            let mut m = if slashed {
                let mut m = chars_of("Invalid regex pattern in validation rule for '");
                push_all(&mut m, name);
                push_all(&mut m, &chars_of("': '"));
                push_all(&mut m, p);
                push_all(&mut m, &chars_of("'. Error: "));
                m
            } else {
                let mut m = chars_of("Invalid regex pattern: ");
                push_all(&mut m, p);
                push_all(&mut m, &chars_of(". Error: "));
                m
            };
            push_all(&mut m, &chars_of_string(&e));
            Err(string_of(&m))
        },
        Ok(true) => Ok(()),
        Ok(false) => {
            let mut m = chars_of("❌ Validation error in command 'nest ");
            push_all(&mut m, path);
            push_all(&mut m, &chars_of("':\n   "));
            if name.len() > 0 && name[0] == '$' {
                push_all(&mut m, &chars_of("Environment variable"));
            } else {
                push_all(&mut m, &chars_of("Parameter"));
            }
            push_all(&mut m, &chars_of(" '"));
            push_all(&mut m, name);
            push_all(&mut m, &chars_of("' with value '"));
            push_all(&mut m, value);
            push_all(&mut m, &chars_of("' does not match pattern '"));
            push_all(&mut m, p);
            push_all(&mut m, &chars_of("'"));
            Err(string_of(&m))
        },
    }
}

impl RuntimeValidator {
    /// The value that a validation target names (see `target_spec`).
    fn target_value(
        name: &Vec<char>,
        args: &ArgMap,
        env_vars: &ArgMap,
        system: &ArgMap,
        tpl_context: &TemplateContext,
    ) -> (r: Option<String>)
        ensures
            crate::ast::opt_view(r) == target_spec(
                name@,
                args.entries_view(),
                env_vars.entries_view(),
                system.entries_view(),
                tpl_context.parent_variables@.map_values(|v: Variable| v@),
                tpl_context.global_variables@.map_values(|v: Variable| v@),
            ),
    {
        if name.len() > 0 && name[0] == '$' {
            let n = slice_chars(name, 1, name.len());
            assert(n@ =~= name@.drop_first());
            let ns = string_of(&n);
            match env_vars.get(ns.as_str()) {
                Some(v) => return Some(v.clone()),
                None => {},
            }
            match system.get(ns.as_str()) {
                Some(v) => return Some(v.clone()),
                None => {},
            }
            match find_variable(tpl_context.parent_variables, &n) {
                Some(v) => return Some(v),
                None => {},
            }
            find_variable(tpl_context.global_variables, &n)
        } else {
            let ns = string_of(name);
            match args.get(ns.as_str()) {
                Some(v) => Some(v.clone()),
                None => None,
            }
        }
    }

    /// Validates arguments and environment variables against the rules of
    /// `validate` directives (target, rule), in order; each rule is first
    /// processed as a template. `system` is the system environment; `now`
    /// and `user` stand for `{{now}}` and `{{user}}`. The first failure is
    /// returned.
    pub fn validate(
        validate_directives: &[(String, String)],
        args: &ArgMap,
        env_vars: &ArgMap,
        system: &ArgMap,
        tpl_context: &TemplateContext,
        command_path: &[String],
        parent_args: &ArgMap,
        now: &str,
        user: &str,
    ) -> (r: Result<(), String>)
        ensures
            ({
                let spec = validate_spec(
                    validate_directives@.map_values(|d: (String, String)| (d.0@, d.1@)),
                    args.entries_view(),
                    env_vars.entries_view(),
                    system.entries_view(),
                    tpl_context.parent_variables@.map_values(|v: Variable| v@),
                    tpl_context.global_variables@.map_values(|v: Variable| v@),
                    context_map(*tpl_context),
                    parent_args.entries_view(),
                    join(command_path@.map_values(|s: String| s@), " "@),
                    now@,
                    user@,
                );
                match r {
                    Ok(()) => spec is Ok,
                    Err(m) => spec == Err::<(), Seq<char>>(m@),
                }
            }),
    {
        let ghost rules = validate_directives@.map_values(|d: (String, String)| (d.0@, d.1@));
        let ghost pv = tpl_context.parent_variables@.map_values(|v: Variable| v@);
        let ghost gv = tpl_context.global_variables@.map_values(|v: Variable| v@);
        let vars = TemplateProcessor::build_var_map(tpl_context);
        let path = crate::runtime::join_strings_vec(command_path, " ");
        let mut i: usize = 0;
        assert(rules.skip(0) =~= rules);
        while i < validate_directives.len()
            invariant
                i <= validate_directives@.len(),
                rules == validate_directives@.map_values(|d: (String, String)| (d.0@, d.1@)),
                pv == tpl_context.parent_variables@.map_values(|v: Variable| v@),
                gv == tpl_context.global_variables@.map_values(|v: Variable| v@),
                vars.entries_view() == context_map(*tpl_context),
                path@ == join(command_path@.map_values(|s: String| s@), " "@),
                validate_spec(
                    rules,
                    args.entries_view(),
                    env_vars.entries_view(),
                    system.entries_view(),
                    pv,
                    gv,
                    context_map(*tpl_context),
                    parent_args.entries_view(),
                    path@,
                    now@,
                    user@,
                ) == validate_spec(
                    rules.skip(i as int),
                    args.entries_view(),
                    env_vars.entries_view(),
                    system.entries_view(),
                    pv,
                    gv,
                    context_map(*tpl_context),
                    parent_args.entries_view(),
                    path@,
                    now@,
                    user@,
                ),
            decreases validate_directives.len() - i,
        {
            assert(rules.skip(i as int).drop_first() =~= rules.skip(i + 1));
            assert(rules.skip(i as int)[0] == rules[i as int]);
            let name = chars_of_string(&validate_directives[i].0);
            let processed = TemplateProcessor::process_vars(
                validate_directives[i].1.as_str(),
                args,
                parent_args,
                &vars,
                now,
                user,
            );
            let p = trim_chars(&chars_of_string(&processed));
            match Self::target_value(&name, args, env_vars, system, tpl_context) {
                None => {
                    let mut m = chars_of("Validation error: target '");
                    push_all(&mut m, &name);
                    push_all(&mut m, &chars_of("' not found in arguments or environment"));
                    return Err(string_of(&m));
                },
                Some(v) => {
                    let vc = chars_of_string(&v);
                    match check_rule(&name, &vc, &p, &path) {
                        Err(e) => return Err(e),
                        Ok(()) => {},
                    }
                },
            }
            i += 1;
        }
        assert(rules.skip(i as int) =~= Seq::<(Seq<char>, Seq<char>)>::empty());
        Ok(())
    }
}

} // verus!
