//! Template processing: placeholders in scripts (`{{param}}`, `{{VAR}}`,
//! `{{CONST}}`, `{{now}}`, `{{user}}`), their modifiers (`{{var|sep:","}}`,
//! `{{var|rep:"a"=>"b"}}`, `{{var|copy}}`), and function calls
//! (`{{ func(arg="value") }}`).

use vstd::prelude::*;
use crate::ast::{ArgMap, Constant, Variable, assoc_get};
use crate::env::insert_all;
use crate::text::{
    chars_of, chars_of_string, contains_sub, find_char, find_sub, first_pos, is_first_sub,
    push_all, replace, replace_chars, slice_chars, string_of, trim, trim_chars, unquote,
};

verus! {

/// Context for template processing: the variables and constants in scope.
pub struct TemplateContext<'a> {
    pub global_variables: &'a [Variable],
    pub global_constants: &'a [Constant],
    pub local_variables: &'a [Variable],
    pub local_constants: &'a [Constant],
    pub parent_variables: &'a [Variable],
    pub parent_constants: &'a [Constant],
}

/// Processes templates by replacing placeholders with values.
pub struct TemplateProcessor;

/// A modifier value, trimmed and without one pair of surrounding quotes.
pub open spec fn modifier_value_spec(v: Seq<char>) -> Seq<char> {
    unquote(trim(v))
}

/// The `from` and `to` of a `rep` modifier `"from"=>"to"`.
pub open spec fn rep_spec(m: Seq<char>) -> Option<(Seq<char>, Seq<char>)> {
    if contains_sub(m, "=>"@) {
        let a = choose|i: int| is_first_sub(m, "=>"@, i);
        Some((modifier_value_spec(trim(m.take(a))), modifier_value_spec(trim(m.skip(a + 2)))))
    } else {
        None
    }
}

/// The value that `name` takes in a placeholder: from the arguments, then
/// the parent arguments, then the variables and constants.
pub open spec fn lookup3(
    args: Seq<(Seq<char>, Seq<char>)>,
    parents: Seq<(Seq<char>, Seq<char>)>,
    vars: Seq<(Seq<char>, Seq<char>)>,
    name: Seq<char>,
) -> Option<Seq<char>> {
    match assoc_get(args, name) {
        Some(v) => Some(v),
        None => match assoc_get(parents, name) {
            Some(v) => Some(v),
            None => assoc_get(vars, name),
        },
    }
}

/// The value `v` of variable `name` with the modifier `m` applied: `copy`
/// turns `true` into the flag `--name` and `false` into nothing; `sep:X`
/// puts `X` in place of each space; `rep:"a"=>"b"` puts `b` in place of
/// each `a`; other modifiers leave the value.
pub open spec fn modify_spec(v: Seq<char>, name: Seq<char>, m: Seq<char>) -> Seq<char> {
    if m == "copy"@ {
        if v == "true"@ {
            "--"@ + name
        } else if "--"@.is_prefix_of(v) {
            v
        } else if v == "false"@ {
            Seq::empty()
        } else {
            v
        }
    } else if "sep:"@.is_prefix_of(m) {
        replace(v, " "@, modifier_value_spec(m.skip(4)))
    } else if "rep:"@.is_prefix_of(m) {
        match rep_spec(m.skip(4)) {
            Some(ft) => replace(v, ft.0, ft.1),
            None => v,
        }
    } else {
        v
    }
}

/// What the placeholder with content `c` is replaced with; an unknown
/// variable leaves the placeholder (trimmed).
pub open spec fn placeholder_spec(
    c: Seq<char>,
    args: Seq<(Seq<char>, Seq<char>)>,
    parents: Seq<(Seq<char>, Seq<char>)>,
    vars: Seq<(Seq<char>, Seq<char>)>,
) -> Seq<char> {
    let t = trim(c);
    if t.contains('|') {
        let p = first_pos(t, '|');
        let name = trim(t.take(p));
        let m = trim(t.skip(p + 1));
        match lookup3(args, parents, vars, name) {
            Some(v) => modify_spec(v, name, m),
            None => "{{"@ + t + "}}"@,
        }
    } else {
        match lookup3(args, parents, vars, t) {
            Some(v) => if "--"@.is_prefix_of(v) {
                "true"@
            } else {
                v
            },
            None => "{{"@ + t + "}}"@,
        }
    }
}

/// The position of the first `}}` in `t`, or -1.
pub open spec fn close_braces(t: Seq<char>, i: int) -> int
    decreases t.len() - i,
{
    if i < 0 || i + 1 >= t.len() {
        -1
    } else if t[i] == '}' && t[i + 1] == '}' {
        i
    } else {
        close_braces(t, i + 1)
    }
}

/// The script with each `{{...}}` placeholder replaced; an unclosed `{{`
/// keeps the rest as it is.
pub open spec fn placeholders_spec(
    s: Seq<char>,
    args: Seq<(Seq<char>, Seq<char>)>,
    parents: Seq<(Seq<char>, Seq<char>)>,
    vars: Seq<(Seq<char>, Seq<char>)>,
) -> Seq<char>
    decreases s.len(),
{
    if s.len() == 0 {
        Seq::empty()
    } else if s.len() >= 2 && s[0] == '{' && s[1] == '{' {
        let t = s.skip(2);
        let i = close_braces(t, 0);
        if 0 <= i && i + 2 <= t.len() {
            placeholder_spec(t.take(i), args, parents, vars) + placeholders_spec(
                t.skip(i + 2),
                args,
                parents,
                vars,
            )
        } else {
            "{{"@ + t
        }
    } else {
        seq![s[0]] + placeholders_spec(s.drop_first(), args, parents, vars)
    }
}

proof fn lemma_close_braces_bound(t: Seq<char>, i: int)
    ensures
        close_braces(t, i) == -1 || (i <= close_braces(t, i) && close_braces(t, i) + 2 <= t.len()
            && 0 <= close_braces(t, i)),
    decreases t.len() - i,
{
    if !(i < 0 || i + 1 >= t.len()) && !(t[i] == '}' && t[i + 1] == '}') {
        lemma_close_braces_bound(t, i + 1);
    }
}

/// The first occurrence is unique.
proof fn lemma_first_sub_unique(s: Seq<char>, p: Seq<char>, i: int, j: int)
    requires
        is_first_sub(s, p, i),
        is_first_sub(s, p, j),
    ensures
        i == j,
{
}

impl TemplateProcessor {
    /// Parses a modifier value, removing quotes if present.
    pub fn parse_modifier_value(value: &str) -> (s: String)
        ensures
            s@ == modifier_value_spec(value@),
    {
        let t = crate::text::trimmed(value);
        string_of(&crate::text::unquote_chars(&t))
    }

    /// Parses a `rep` modifier `"from"=>"to"`.
    pub fn parse_rep_modifier(modifier: &str) -> (r: Option<(String, String)>)
        ensures
            match r {
                Some(p) => rep_spec(modifier@) == Some((p.0@, p.1@)),
                None => rep_spec(modifier@) is None,
            },
    {
        let m = chars_of(modifier);
        proof {
            reveal_strlit("=>");
        }
        match find_sub(&m, &chars_of("=>")) {
            Some(a) => {
                proof {
                    let c = choose|i: int| is_first_sub(m@, "=>"@, i);
                    lemma_first_sub_unique(m@, "=>"@, c, a as int);
                }
                assert(a + 2 <= m.len());
                let from = trim_chars(&slice_chars(&m, 0, a));
                let rest = slice_chars(&m, a + 2, m.len());
                assert(rest@ == m@.skip(a + 2));
                let to = trim_chars(&rest);
                let fs = string_of(&from);
                let ts = string_of(&to);
                Some((Self::parse_modifier_value(fs.as_str()), Self::parse_modifier_value(ts.as_str())))
            },
            None => None,
        }
    }
}

/// The value of `name` among the arguments, parent arguments and variables.
fn lookup_value(args: &ArgMap, parents: &ArgMap, vars: &ArgMap, name: &Vec<char>) -> (r: Option<
    Vec<char>,
>)
    ensures
        match r {
            Some(v) => lookup3(
                args.entries_view(),
                parents.entries_view(),
                vars.entries_view(),
                name@,
            ) == Some(v@),
            None => lookup3(
                args.entries_view(),
                parents.entries_view(),
                vars.entries_view(),
                name@,
            ) is None,
        },
{
    let n = string_of(name);
    match args.get(n.as_str()) {
        Some(v) => Some(chars_of_string(v)),
        None => match parents.get(n.as_str()) {
            Some(v) => Some(chars_of_string(v)),
            None => match vars.get(n.as_str()) {
                Some(v) => Some(chars_of_string(v)),
                None => None,
            },
        },
    }
}

/// The value `v` of variable `name` with the modifier `m` applied.
fn modify_value(v: &Vec<char>, name: &Vec<char>, m: &Vec<char>) -> (out: Vec<char>)
    ensures
        out@ == modify_spec(v@, name@, m@),
{
    proof {
        reveal_strlit("sep:");
        reveal_strlit("rep:");
    }
    if crate::text::eq(m, &chars_of("copy")) {
        if crate::text::eq(v, &chars_of("true")) {
            let mut o = chars_of("--");
            push_all(&mut o, name);
            return o;
        } else if crate::text::starts_with(v, &chars_of("--")) {
            return v.clone();
        } else if crate::text::eq(v, &chars_of("false")) {
            return Vec::new();
        } else {
            return v.clone();
        }
    }
    if crate::text::starts_with(m, &chars_of("sep:")) {
        let rest = slice_chars(m, 4, m.len());
        assert(rest@ == m@.skip(4));
        let rs = string_of(&rest);
        let sep = TemplateProcessor::parse_modifier_value(rs.as_str());
        return replace_chars(v, &chars_of(" "), &chars_of_string(&sep));
    }
    if crate::text::starts_with(m, &chars_of("rep:")) {
        let rest = slice_chars(m, 4, m.len());
        assert(rest@ == m@.skip(4));
        let rs = string_of(&rest);
        match TemplateProcessor::parse_rep_modifier(rs.as_str()) {
            Some((f, t)) => {
                return replace_chars(v, &chars_of_string(&f), &chars_of_string(&t));
            },
            None => {
                return v.clone();
            },
        }
    }
    v.clone()
}

/// What the placeholder with content `c` is replaced with.
fn replace_placeholder(c: &Vec<char>, args: &ArgMap, parents: &ArgMap, vars: &ArgMap) -> (out: Vec<
    char,
>)
    ensures
        out@ == placeholder_spec(c@, args.entries_view(), parents.entries_view(), vars.entries_view()),
{
    let t = trim_chars(c);
    let keep = || -> (o: Vec<char>)
        ensures
            o@ == "{{"@ + t@ + "}}"@,
        {
            let mut o = chars_of("{{");
            push_all(&mut o, &t);
            push_all(&mut o, &chars_of("}}"));
            o
        };
    match find_char(&t, '|') {
        Some(p) => {
            assert(t@.contains('|')) by {
                assert(t@[p as int] == '|');
            }
            let name = trim_chars(&slice_chars(&t, 0, p));
            let mrest = slice_chars(&t, p + 1, t.len());
            assert(mrest@ == t@.skip(p + 1));
            let m = trim_chars(&mrest);
            match lookup_value(args, parents, vars, &name) {
                Some(v) => modify_value(&v, &name, &m),
                None => keep(),
            }
        },
        None => {
            match lookup_value(args, parents, vars, &t) {
                Some(v) => {
                    if crate::text::starts_with(&v, &chars_of("--")) {
                        chars_of("true")
                    } else {
                        v
                    }
                },
                None => keep(),
            }
        },
    }
}

impl TemplateProcessor {
    /// Replaces each `{{...}}` placeholder of the script: a known name
    /// (looked up in the arguments, then the parent arguments, then the
    /// variables and constants) gives its value, with its modifier applied
    /// (a flag value `--x` standing alone gives `true`); an unknown one stays.
    pub fn process_all_placeholders(script: &str, args: &ArgMap, parents: &ArgMap, vars: &ArgMap) -> (r:
        String)
        ensures
            r@ == placeholders_spec(
                script@,
                args.entries_view(),
                parents.entries_view(),
                vars.entries_view(),
            ),
    {
        let s = chars_of(script);
        let ghost a = args.entries_view();
        let ghost pa = parents.entries_view();
        let ghost va = vars.entries_view();
        let mut out: Vec<char> = Vec::new();
        let mut i: usize = 0;
        assert(s@.skip(0) =~= s@);
        assert(out@ =~= Seq::<char>::empty());
        while i < s.len()
            invariant
                i <= s.len(),
                s@ == script@,
                a == args.entries_view(),
                pa == parents.entries_view(),
                va == vars.entries_view(),
                placeholders_spec(script@, a, pa, va) == out@ + placeholders_spec(
                    s@.skip(i as int),
                    a,
                    pa,
                    va,
                ),
            decreases s.len() - i,
        {
            let ghost rest = s@.skip(i as int);
            let ghost before = out@;
            assert(rest[0] == s[i as int]);
            if s[i] == '{' && i + 1 < s.len() && s[i + 1] == '{' {
                assert(rest[1] == s[i + 1]);
                let start = i + 2;
                let ghost t = rest.skip(2);
                assert(t =~= s@.skip(start as int));
                let mut j: usize = start;
                let mut found = false;
                while !found && s.len() - j > 1
                    invariant
                        start <= j <= s.len(),
                        t =~= s@.skip(start as int),
                        !found ==> close_braces(t, 0) == close_braces(t, j - start),
                        found ==> close_braces(t, 0) == j - start && j + 1 < s.len(),
                    decreases s.len() - j, !found as int,
                {
                    assert(t[j - start] == s[j as int]);
                    assert(t[j + 1 - start] == s[j + 1]);
                    if s[j] == '}' && s[j + 1] == '}' {
                        found = true;
                    } else {
                        j = j + 1;
                    }
                }
                proof {
                    lemma_close_braces_bound(t, 0);
                }
                if found {
                    let content = slice_chars(&s, start, j);
                    assert(content@ == t.take(j - start));
                    let rep = replace_placeholder(&content, args, parents, vars);
                    push_all(&mut out, &rep);
                    assert(t.skip(j - start + 2) =~= s@.skip(j + 2));
                    i = j + 2;
                } else {
                    assert(close_braces(t, j - start) == -1);
                    let tail = slice_chars(&s, start, s.len());
                    assert(tail@ == t);
                    push_all(&mut out, &chars_of("{{"));
                    push_all(&mut out, &tail);
                    assert(s@.skip(s.len() as int) =~= Seq::<char>::empty());
                    i = s.len();
                    assert(out@ =~= before + ("{{"@ + t));
                }
            } else {
                out.push(s[i]);
                assert(out@ =~= before + seq![rest[0]]);
                assert(rest.drop_first() =~= s@.skip(i + 1));
                i = i + 1;
            }
        }
        assert(s@.skip(s.len() as int) =~= Seq::<char>::empty());
        assert(out@ + Seq::<char>::empty() =~= out@);
        string_of(&out)
    }
}

/// The variables and constants of a context as one map, later entries
/// overriding earlier ones: global constants, global variables, parent
/// constants, parent variables, local constants, local variables.
pub open spec fn var_map_spec(
    gc: Seq<(Seq<char>, Seq<char>)>,
    gv: Seq<(Seq<char>, Seq<char>)>,
    pc: Seq<(Seq<char>, Seq<char>)>,
    pv: Seq<(Seq<char>, Seq<char>)>,
    lc: Seq<(Seq<char>, Seq<char>)>,
    lv: Seq<(Seq<char>, Seq<char>)>,
) -> Seq<(Seq<char>, Seq<char>)> {
    insert_all(
        insert_all(
            insert_all(insert_all(insert_all(insert_all(Seq::empty(), gc), gv), pc), pv),
            lc,
        ),
        lv,
    )
}

/// The variable map of a template context.
pub open spec fn context_map(ctx: TemplateContext) -> Seq<(Seq<char>, Seq<char>)> {
    var_map_spec(
        ctx.global_constants@.map_values(|c: Constant| c@),
        ctx.global_variables@.map_values(|v: Variable| v@),
        ctx.parent_constants@.map_values(|c: Constant| c@),
        ctx.parent_variables@.map_values(|v: Variable| v@),
        ctx.local_constants@.map_values(|c: Constant| c@),
        ctx.local_variables@.map_values(|v: Variable| v@),
    )
}

/// The processed script: placeholders replaced, `$*` replaced by the
/// wildcard arguments, `{{now}}` and `{{user}}` replaced by `now` and
/// `user` unless a variable of that name exists, and
/// `{{SYSTEM_ERROR_MESSAGE}}` replaced by the error message argument (or
/// removed).
pub open spec fn process_spec(
    script: Seq<char>,
    args: Seq<(Seq<char>, Seq<char>)>,
    parents: Seq<(Seq<char>, Seq<char>)>,
    vars: Seq<(Seq<char>, Seq<char>)>,
    now: Seq<char>,
    user: Seq<char>,
) -> Seq<char> {
    let p1 = placeholders_spec(script, args, parents, vars);
    let p2 = match assoc_get(args, "*"@) {
        Some(w) => replace(p1, "$*"@, w),
        None => p1,
    };
    let p3 = if assoc_get(vars, "now"@) is None { replace(p2, "{{now}}"@, now) } else { p2 };
    let p4 = if assoc_get(vars, "user"@) is None { replace(p3, "{{user}}"@, user) } else { p3 };
    let e = match assoc_get(args, "SYSTEM_ERROR_MESSAGE"@) {
        Some(m) => m,
        None => Seq::empty(),
    };
    replace(p4, "{{SYSTEM_ERROR_MESSAGE}}"@, e)
}

/// Adds the variables to `m` in order.
fn add_variables(m: &mut ArgMap, vs: &[Variable])
    ensures
        final(m).entries_view() == insert_all(
            old(m).entries_view(),
            vs@.map_values(|v: Variable| v@),
        ),
{
    let ghost vv = vs@.map_values(|v: Variable| v@);
    let ghost m0 = m.entries_view();
    let mut i: usize = 0;
    assert(vv.take(0) =~= Seq::<(Seq<char>, Seq<char>)>::empty());
    while i < vs.len()
        invariant
            i <= vs@.len(),
            vv == vs@.map_values(|v: Variable| v@),
            m.entries_view() == insert_all(m0, vv.take(i as int)),
        decreases vs.len() - i,
    {
        assert(vv.take(i + 1).drop_last() =~= vv.take(i as int));
        assert(vv.take(i + 1).last() == vs@[i as int]@);
        m.insert(vs[i].name.clone(), vs[i].value.clone());
        i += 1;
    }
    assert(vv.take(vs@.len() as int) =~= vv);
}

/// Adds the constants to `m` in order.
fn add_constants(m: &mut ArgMap, cs: &[Constant])
    ensures
        final(m).entries_view() == insert_all(
            old(m).entries_view(),
            cs@.map_values(|c: Constant| c@),
        ),
{
    let ghost cv = cs@.map_values(|c: Constant| c@);
    let ghost m0 = m.entries_view();
    let mut i: usize = 0;
    assert(cv.take(0) =~= Seq::<(Seq<char>, Seq<char>)>::empty());
    while i < cs.len()
        invariant
            i <= cs@.len(),
            cv == cs@.map_values(|c: Constant| c@),
            m.entries_view() == insert_all(m0, cv.take(i as int)),
        decreases cs.len() - i,
    {
        assert(cv.take(i + 1).drop_last() =~= cv.take(i as int));
        assert(cv.take(i + 1).last() == cs@[i as int]@);
        m.insert(cs[i].name.clone(), cs[i].value.clone());
        i += 1;
    }
    assert(cv.take(cs@.len() as int) =~= cv);
}

impl TemplateProcessor {
    /// The variable map of a template context.
    pub fn build_var_map(context: &TemplateContext) -> (m: ArgMap)
        ensures
            m.entries_view() == context_map(*context),
    {
        let mut m = ArgMap::new();
        add_constants(&mut m, context.global_constants);
        add_variables(&mut m, context.global_variables);
        add_constants(&mut m, context.parent_constants);
        add_variables(&mut m, context.parent_variables);
        add_constants(&mut m, context.local_constants);
        add_variables(&mut m, context.local_variables);
        m
    }

    /// Processes a script against a variable map already built from a
    /// template context.
    pub fn process_vars(
        script: &str,
        args: &ArgMap,
        parent_args: &ArgMap,
        vars: &ArgMap,
        now: &str,
        user: &str,
    ) -> (r: String)
        ensures
            r@ == process_spec(
                script@,
                args.entries_view(),
                parent_args.entries_view(),
                vars.entries_view(),
                now@,
                user@,
            ),
    {
        let p1 = Self::process_all_placeholders(script, args, parent_args, vars);
        let mut cur = crate::text::chars_of_string(&p1);
        match args.get("*") {
            Some(w) => {
                cur = replace_chars(&cur, &chars_of("$*"), &chars_of_string(w));
            },
            None => {},
        }
        if !vars.contains_key("now") {
            cur = replace_chars(&cur, &chars_of("{{now}}"), &chars_of(now));
        }
        if !vars.contains_key("user") {
            cur = replace_chars(&cur, &chars_of("{{user}}"), &chars_of(user));
        }
        let e = match args.get("SYSTEM_ERROR_MESSAGE") {
            Some(m) => chars_of_string(m),
            None => Vec::new(),
        };
        cur = replace_chars(&cur, &chars_of("{{SYSTEM_ERROR_MESSAGE}}"), &e);
        string_of(&cur)
    }

    /// Processes a script template by replacing placeholders with values:
    /// parameters (from `args`, then `parent_args`) take priority over local,
    /// parent and global variables and constants; `{{now}}` is `now` (the
    /// caller reads the clock) and `{{user}}` is `user`, unless variables of
    /// those names exist.
    pub fn process(
        script: &str,
        args: &ArgMap,
        context: &TemplateContext,
        parent_args: &ArgMap,
        now: &str,
        user: &str,
    ) -> (r: String)
        ensures
            r@ == process_spec(
                script@,
                args.entries_view(),
                parent_args.entries_view(),
                context_map(*context),
                now@,
                user@,
            ),
    {
        let vars = Self::build_var_map(context);
        Self::process_vars(script, args, parent_args, &vars, now, user)
    }
}

/// After inserting the pairs `kvs` in order, a key takes the value of its
/// last pair in `kvs`, or keeps its earlier value.
pub proof fn lemma_insert_all_get(
    m: Seq<(Seq<char>, Seq<char>)>,
    kvs: Seq<(Seq<char>, Seq<char>)>,
    k: Seq<char>,
)
    ensures
        (forall|j: int| 0 <= j < kvs.len() ==> #[trigger] kvs[j].0 != k) ==> assoc_get(
            insert_all(m, kvs),
            k,
        ) == assoc_get(m, k),
        forall|i: int|
            0 <= i < kvs.len() && kvs[i].0 == k && (forall|j: int|
                i < j < kvs.len() ==> #[trigger] kvs[j].0 != k) ==> assoc_get(insert_all(m, kvs), k)
                == Some(#[trigger] kvs[i].1),
    decreases kvs.len(),
{
    if kvs.len() > 0 {
        let init = kvs.drop_last();
        lemma_insert_all_get(m, init, k);
        crate::ast::lemma_assoc_get_insert(insert_all(m, init), kvs.last().0, kvs.last().1, k);
        if forall|j: int| 0 <= j < kvs.len() ==> #[trigger] kvs[j].0 != k {
            assert forall|j: int| 0 <= j < init.len() implies #[trigger] init[j].0 != k by {
                assert(init[j] == kvs[j]);
            }
        }
        assert forall|i: int|
            0 <= i < kvs.len() && kvs[i].0 == k && (forall|j: int|
                i < j < kvs.len() ==> #[trigger] kvs[j].0 != k) implies assoc_get(
            insert_all(m, kvs),
            k,
        ) == Some(#[trigger] kvs[i].1) by {
            if i < kvs.len() - 1 {
                assert(kvs[kvs.len() - 1].0 != k);
                assert(init[i] == kvs[i]);
                assert forall|j: int| i < j < init.len() implies #[trigger] init[j].0 != k by {
                    assert(init[j] == kvs[j]);
                }
            }
        }
    }
}

/// The value of the last pair of `kvs` named `k`.
pub open spec fn last_value(kvs: Seq<(Seq<char>, Seq<char>)>, k: Seq<char>) -> Option<Seq<char>>
    decreases kvs.len(),
{
    if kvs.len() == 0 {
        None
    } else if kvs.last().0 == k {
        Some(kvs.last().1)
    } else {
        last_value(kvs.drop_last(), k)
    }
}

/// The first value that is there among `vs`.
pub open spec fn first_value(vs: Seq<Option<Seq<char>>>) -> Option<Seq<char>>
    decreases vs.len(),
{
    if vs.len() == 0 {
        None
    } else if vs[0] is Some {
        vs[0]
    } else {
        first_value(vs.drop_first())
    }
}

/// After inserting the pairs `kvs`, a key has the value of its last pair
/// there, else the value it had.
proof fn lemma_insert_all_last(m: Seq<(Seq<char>, Seq<char>)>, kvs: Seq<(Seq<char>, Seq<char>)>, k: Seq<char>)
    ensures
        assoc_get(insert_all(m, kvs), k) == match last_value(kvs, k) {
            Some(v) => Some(v),
            None => assoc_get(m, k),
        },
    decreases kvs.len(),
{
    if kvs.len() > 0 {
        lemma_insert_all_last(m, kvs.drop_last(), k);
        crate::ast::lemma_assoc_get_insert(insert_all(m, kvs.drop_last()), kvs.last().0, kvs.last().1, k);
    }
}

/// Law (lookup priority): a placeholder's name is looked up in the
/// arguments, then the parent's arguments, then the local variables, the
/// local constants, the parent's variables, the parent's constants, the
/// global variables and the global constants; the first of these eight
/// sources that defines the name gives its value, and within a source its
/// last definition does.
pub proof fn lemma_lookup_priority(
    args: Seq<(Seq<char>, Seq<char>)>,
    parents: Seq<(Seq<char>, Seq<char>)>,
    gc: Seq<(Seq<char>, Seq<char>)>,
    gv: Seq<(Seq<char>, Seq<char>)>,
    pc: Seq<(Seq<char>, Seq<char>)>,
    pv: Seq<(Seq<char>, Seq<char>)>,
    lc: Seq<(Seq<char>, Seq<char>)>,
    lv: Seq<(Seq<char>, Seq<char>)>,
    k: Seq<char>,
)
    ensures
        lookup3(args, parents, var_map_spec(gc, gv, pc, pv, lc, lv), k) == first_value(
            seq![
                assoc_get(args, k),
                assoc_get(parents, k),
                last_value(lv, k),
                last_value(lc, k),
                last_value(pv, k),
                last_value(pc, k),
                last_value(gv, k),
                last_value(gc, k),
            ],
        ),
{
    let m0 = Seq::<(Seq<char>, Seq<char>)>::empty();
    let m1 = insert_all(m0, gc);
    let m2 = insert_all(m1, gv);
    let m3 = insert_all(m2, pc);
    let m4 = insert_all(m3, pv);
    let m5 = insert_all(m4, lc);
    lemma_insert_all_last(m0, gc, k);
    lemma_insert_all_last(m1, gv, k);
    lemma_insert_all_last(m2, pc, k);
    lemma_insert_all_last(m3, pv, k);
    lemma_insert_all_last(m4, lc, k);
    lemma_insert_all_last(m5, lv, k);
    let vs = seq![
        assoc_get(args, k),
        assoc_get(parents, k),
        last_value(lv, k),
        last_value(lc, k),
        last_value(pv, k),
        last_value(pc, k),
        last_value(gv, k),
        last_value(gc, k),
    ];
    reveal_with_fuel(first_value, 9);
    assert(vs.drop_first().drop_first().drop_first().drop_first().drop_first().drop_first().drop_first().drop_first()
        =~= Seq::<Option<Seq<char>>>::empty());
}

/// Replacing text that starts with a character `s` lacks leaves `s` as it
/// is.
proof fn lemma_replace_absent(s: Seq<char>, from: Seq<char>, to: Seq<char>)
    requires
        from.len() > 0,
        !s.contains(from[0]),
    ensures
        replace(s, from, to) == s,
    decreases s.len(),
{
    if s.len() > 0 {
        assert(!from.is_prefix_of(s)) by {
            if from.is_prefix_of(s) {
                assert(s[0] == from[0]);
            }
        }
        assert forall|i: int| 0 <= i < s.drop_first().len() implies s.drop_first()[i] != from[0] by {
            assert(s.drop_first()[i] == s[i + 1]);
        }
        lemma_replace_absent(s.drop_first(), from, to);
        assert(seq![s[0]] + s.drop_first() =~= s);
    }
}

/// The first `}}` of `k` followed by `}}`, where `k` has no `}`, is right
/// after `k`.
proof fn lemma_close_after(k: Seq<char>, i: int)
    requires
        0 <= i <= k.len(),
        !k.contains('}'),
    ensures
        close_braces(k + "}}"@, i) == k.len(),
    decreases k.len() - i,
{
    reveal_strlit("}}");
    let t = k + "}}"@;
    if i < k.len() {
        assert(t[i] == k[i]);
        assert(t[i] != '}') by {
            if t[i] == '}' {
                assert(k.contains('}'));
            }
        }
        lemma_close_after(k, i + 1);
    } else {
        assert(t[i] == '}' && t[i + 1] == '}');
    }
}

/// Law (lookup priority over processing): a script that is just the
/// placeholder `{{k}}` (a trimmed name without `|` or `}`, other than
/// `now`, `user`, `SYSTEM_ERROR_MESSAGE`) processes to the value of `k`
/// from the first of the eight sources that defines it, in the order of
/// `lemma_lookup_priority`, where that value holds no `{` and no `$` and is
/// not a flag (`--...`).
pub proof fn lemma_process_priority(
    k: Seq<char>,
    v: Seq<char>,
    args: Seq<(Seq<char>, Seq<char>)>,
    parents: Seq<(Seq<char>, Seq<char>)>,
    gc: Seq<(Seq<char>, Seq<char>)>,
    gv: Seq<(Seq<char>, Seq<char>)>,
    pc: Seq<(Seq<char>, Seq<char>)>,
    pv: Seq<(Seq<char>, Seq<char>)>,
    lc: Seq<(Seq<char>, Seq<char>)>,
    lv: Seq<(Seq<char>, Seq<char>)>,
    now: Seq<char>,
    user: Seq<char>,
)
    requires
        trim(k) == k,
        !k.contains('|'),
        !k.contains('}'),
        first_value(
            seq![
                assoc_get(args, k),
                assoc_get(parents, k),
                last_value(lv, k),
                last_value(lc, k),
                last_value(pv, k),
                last_value(pc, k),
                last_value(gv, k),
                last_value(gc, k),
            ],
        ) == Some(v),
        !v.contains('{'),
        !v.contains('$'),
        !"--"@.is_prefix_of(v),
    ensures
        process_spec("{{"@ + k + "}}"@, args, parents, var_map_spec(gc, gv, pc, pv, lc, lv), now, user) == v,
{
    reveal_strlit("{{");
    reveal_strlit("}}");
    reveal_strlit("$*");
    reveal_strlit("{{now}}");
    reveal_strlit("{{user}}");
    reveal_strlit("{{SYSTEM_ERROR_MESSAGE}}");
    let vars = var_map_spec(gc, gv, pc, pv, lc, lv);
    lemma_lookup_priority(args, parents, gc, gv, pc, pv, lc, lv, k);
    let s = "{{"@ + k + "}}"@;
    let t = s.skip(2);
    assert(t =~= k + "}}"@);
    lemma_close_after(k, 0);
    assert(t.take(k.len() as int) =~= k);
    assert(t.skip(k.len() as int + 2) =~= Seq::<char>::empty());
    assert(placeholder_spec(k, args, parents, vars) == v);
    assert(s.len() >= 2 && s[0] == '{' && s[1] == '{');
    assert(close_braces(t, 0) == k.len());
    assert(placeholders_spec(Seq::<char>::empty(), args, parents, vars) == Seq::<char>::empty());
    assert(placeholders_spec(s, args, parents, vars) == placeholder_spec(t.take(k.len() as int), args, parents, vars)
        + placeholders_spec(t.skip(k.len() as int + 2), args, parents, vars));
    assert(placeholders_spec(s, args, parents, vars) =~= v);
    lemma_replace_absent(v, "$*"@, Seq::empty());
    match assoc_get(args, "*"@) {
        Some(w) => lemma_replace_absent(v, "$*"@, w),
        None => {},
    }
    lemma_replace_absent(v, "{{now}}"@, now);
    lemma_replace_absent(v, "{{user}}"@, user);
    let e = match assoc_get(args, "SYSTEM_ERROR_MESSAGE"@) {
        Some(m) => m,
        None => Seq::empty(),
    };
    lemma_replace_absent(v, "{{SYSTEM_ERROR_MESSAGE}}"@, e);
}

/// Law (placeholder priority): a plain placeholder `{{name}}` whose name is
/// an argument gives the argument's value (unless it is a flag), whatever
/// the parent arguments, variables and constants hold.
pub proof fn lemma_argument_priority(
    name: Seq<char>,
    v: Seq<char>,
    args: Seq<(Seq<char>, Seq<char>)>,
    parents: Seq<(Seq<char>, Seq<char>)>,
    vars: Seq<(Seq<char>, Seq<char>)>,
)
    requires
        assoc_get(args, name) == Some(v),
        trim(name) == name,
        !name.contains('|'),
        !"--"@.is_prefix_of(v),
    ensures
        placeholder_spec(name, args, parents, vars) == v,
{
}

/// Law (scope priority): a local variable overrides any global or parent
/// variable or constant of its name; the last definition of the name among
/// the local variables wins.
pub proof fn lemma_local_variable_wins(ctx: TemplateContext, i: int)
    requires
        0 <= i < ctx.local_variables@.len(),
        forall|j: int|
            i < j < ctx.local_variables@.len() ==> #[trigger] ctx.local_variables@[j].name@
                != ctx.local_variables@[i].name@,
    ensures
        assoc_get(context_map(ctx), ctx.local_variables@[i].name@) == Some(
            ctx.local_variables@[i].value@,
        ),
{
    let lv = ctx.local_variables@.map_values(|v: Variable| v@);
    let k = ctx.local_variables@[i].name@;
    assert(lv[i] == (k, ctx.local_variables@[i].value@));
    assert forall|j: int| i < j < lv.len() implies #[trigger] lv[j].0 != k by {
        assert(lv[j] == ctx.local_variables@[j]@);
    }
    let before = insert_all(
        insert_all(
            insert_all(
                insert_all(
                    insert_all(Seq::empty(), ctx.global_constants@.map_values(|c: Constant| c@)),
                    ctx.global_variables@.map_values(|v: Variable| v@),
                ),
                ctx.parent_constants@.map_values(|c: Constant| c@),
            ),
            ctx.parent_variables@.map_values(|v: Variable| v@),
        ),
        ctx.local_constants@.map_values(|c: Constant| c@),
    );
    lemma_insert_all_get(before, lv, k);
    assert(lv[i].0 == k);
    assert(assoc_get(insert_all(before, lv), k) == Some(lv[i].1));
    assert(context_map(ctx) == insert_all(before, lv));
}

/// Resolves the function calls of templates (`{{ func(arg="value") }}`).
pub trait FunctionResolver {
    /// `r` is an outcome that calling function `func_name` with `args` may
    /// give: its value (none for a function that is not found or returns
    /// nothing), or an error message. Unless an implementation says more,
    /// any outcome may come.
    open spec fn gives(
        &self,
        func_name: Seq<char>,
        args: Seq<(Seq<char>, Seq<char>)>,
        r: Result<Option<Seq<char>>, Seq<char>>,
    ) -> bool {
        true
    }

    /// Calls function `func_name` with `args`.
    fn resolve(&self, func_name: &str, args: &ArgMap) -> (r: Result<Option<String>, String>)
        ensures
            self.gives(func_name@, args.entries_view(), resolve_view(r)),
    ;
}

/// The model of a resolver's outcome.
pub open spec fn resolve_view(r: Result<Option<String>, String>) -> Result<Option<Seq<char>>, Seq<char>> {
    match r {
        Ok(o) => Ok(crate::ast::opt_view(o)),
        Err(e) => Err(e@),
    }
}

/// The values `vs` are outcomes of the first `vs.len()` calls of `calls`,
/// each call answered by `resolver` without an error.
pub open spec fn answered<R: FunctionResolver>(
    resolver: &R,
    calls: Seq<(Seq<char>, Seq<(Seq<char>, Seq<char>)>)>,
    vs: Seq<Option<Seq<char>>>,
) -> bool {
    &&& vs.len() <= calls.len()
    &&& forall|i: int| 0 <= i < vs.len() ==> #[trigger] resolver.gives(calls[i].0, calls[i].1, Ok(vs[i]))
}

/// The script with each `{{ func(args) }}` template replaced, in order, by
/// the values `rs`, where a call without a value (none, or `rs` used up)
/// keeps its template (trimmed) as other `{{...}}` templates do; an
/// unclosed `{{` ends the script with a single `{`.
pub open spec fn calls_spec(s: Seq<char>, rs: Seq<Option<Seq<char>>>) -> Seq<char>
    decreases s.len(),
{
    if s.len() == 0 {
        Seq::empty()
    } else if s.len() >= 2 && s[0] == '{' && s[1] == '{' {
        let t = s.skip(2);
        let i = close_braces(t, 0);
        if 0 <= i && i + 2 <= t.len() {
            let e = trim(t.take(i));
            if e.contains('(') && e.contains(')') && crate::executor::call_spec(e) is Some {
                (if rs.len() > 0 && rs[0] is Some {
                    rs[0]->0
                } else {
                    "{{"@ + e + "}}"@
                }) + calls_spec(
                    t.skip(i + 2),
                    if rs.len() > 0 { rs.drop_first() } else { rs },
                )
            } else {
                "{{"@ + e + "}}"@ + calls_spec(t.skip(i + 2), rs)
            }
        } else {
            seq!['{']
        }
    } else {
        seq![s[0]] + calls_spec(s.drop_first(), rs)
    }
}

/// The calls `{{ func(args) }}` of a script, in order: each call's
/// function name and arguments.
pub open spec fn calls_in(s: Seq<char>) -> Seq<(Seq<char>, Seq<(Seq<char>, Seq<char>)>)>
    decreases s.len(),
{
    if s.len() == 0 {
        Seq::empty()
    } else if s.len() >= 2 && s[0] == '{' && s[1] == '{' {
        let t = s.skip(2);
        let i = close_braces(t, 0);
        if 0 <= i && i + 2 <= t.len() {
            let e = trim(t.take(i));
            if e.contains('(') && e.contains(')') && crate::executor::call_spec(e) is Some {
                seq![crate::executor::call_spec(e).unwrap()] + calls_in(t.skip(i + 2))
            } else {
                calls_in(t.skip(i + 2))
            }
        } else {
            Seq::empty()
        }
    } else {
        calls_in(s.drop_first())
    }
}

/// What a scan of a script finds at position `i`: a `{{...}}` template
/// closed at `j` (its content trimmed, and the call it makes if it is one),
/// an unclosed `{{`, or another character.
enum TemplateAt {
    Closed(usize, Vec<char>, Option<(String, ArgMap)>),
    Unclosed,
    Plain,
}

impl TemplateProcessor {
    /// What the script holds at position `i`.
    fn template_at(s: &Vec<char>, i: usize) -> (r: TemplateAt)
        requires
            i < s@.len(),
        ensures
            ({
                let rest = s@.skip(i as int);
                match r {
                    TemplateAt::Plain => !(rest.len() >= 2 && rest[0] == '{' && rest[1] == '{'),
                    TemplateAt::Unclosed => rest.len() >= 2 && rest[0] == '{' && rest[1] == '{' && !(0
                        <= close_braces(rest.skip(2), 0) && close_braces(rest.skip(2), 0) + 2 <= rest.skip(
                        2,
                    ).len()),
                    TemplateAt::Closed(j, e, c) => {
                        let t = rest.skip(2);
                        let k = close_braces(t, 0);
                        &&& rest.len() >= 2 && rest[0] == '{' && rest[1] == '{'
                        &&& 0 <= k && k + 2 <= t.len()
                        &&& j == i + 2 + k
                        &&& j + 2 <= s@.len()
                        &&& t.skip(k + 2) =~= s@.skip(j + 2)
                        &&& e@ == trim(t.take(k))
                        &&& match c {
                            Some(p) => e@.contains('(') && e@.contains(')') && crate::executor::call_spec(e@)
                                == Some((p.0@, p.1.entries_view())),
                            None => !(e@.contains('(') && e@.contains(')') && crate::executor::call_spec(
                                e@,
                            ) is Some),
                        }
                    },
                }
            }),
    {
        let ghost rest = s@.skip(i as int);
        assert(rest[0] == s[i as int]);
        if !(s[i] == '{' && s.len() - i > 1 && s[i + 1] == '{') {
            return TemplateAt::Plain;
        }
        assert(rest[1] == s[i + 1]);
        let start = i + 2;
        let ghost t = rest.skip(2);
        assert(t =~= s@.skip(start as int));
        let mut j: usize = start;
        let mut found = false;
        while !found && s.len() - j > 1
            invariant
                start <= j <= s.len(),
                t =~= s@.skip(start as int),
                !found ==> close_braces(t, 0) == close_braces(t, j - start),
                found ==> close_braces(t, 0) == j - start && j + 1 < s.len(),
            decreases s.len() - j, !found as int,
        {
            assert(t[j - start] == s[j as int]);
            assert(t[j + 1 - start] == s[j + 1]);
            if s[j] == '}' && s[j + 1] == '}' {
                found = true;
            } else {
                j = j + 1;
            }
        }
        proof {
            lemma_close_braces_bound(t, 0);
        }
        if !found {
            return TemplateAt::Unclosed;
        }
        let content = slice_chars(s, start, j);
        assert(content@ == t.take(j - start));
        let e = trim_chars(&content);
        let es = string_of(&e);
        assert(t.skip(j - start + 2) =~= s@.skip(j + 2));
        if crate::text::contains_char(&e, '(') && crate::text::contains_char(&e, ')') {
            match crate::executor::CommandExecutor::parse_command_call(es.as_str()) {
                Some(p) => return TemplateAt::Closed(j, e, Some(p)),
                None => {},
            }
        }
        TemplateAt::Closed(j, e, None)
    }

    /// The calls `{{ func(args) }}` of a script, in order (see `calls_in`).
    pub fn function_calls(script: &str) -> (r: Vec<(String, ArgMap)>)
        ensures
            r@.map_values(|c: (String, ArgMap)| (c.0@, c.1.entries_view())) == calls_in(script@),
    {
        let s = chars_of(script);
        let mut out: Vec<(String, ArgMap)> = Vec::new();
        let mut i: usize = 0;
        assert(s@.skip(0) =~= s@);
        assert(out@.map_values(|c: (String, ArgMap)| (c.0@, c.1.entries_view())) + calls_in(s@) =~= calls_in(
            s@,
        ));
        while i < s.len()
            invariant
                i <= s.len(),
                s@ == script@,
                calls_in(s@) == out@.map_values(|c: (String, ArgMap)| (c.0@, c.1.entries_view())) + calls_in(
                    s@.skip(i as int),
                ),
            decreases s.len() - i,
        {
            let ghost rest = s@.skip(i as int);
            let ghost before = out@.map_values(|c: (String, ArgMap)| (c.0@, c.1.entries_view()));
            match Self::template_at(&s, i) {
                TemplateAt::Plain => {
                    assert(rest.drop_first() =~= s@.skip(i + 1));
                    i = i + 1;
                },
                TemplateAt::Unclosed => {
                    assert(calls_in(rest) =~= Seq::<(Seq<char>, Seq<(Seq<char>, Seq<char>)>)>::empty());
                    assert(s@.skip(s.len() as int) =~= Seq::<char>::empty());
                    assert(before + calls_in(rest) =~= before + calls_in(s@.skip(s.len() as int)));
                    i = s.len();
                },
                TemplateAt::Closed(j, _e, c) => {
                    match c {
                        Some(p) => {
                            let ghost pv = (p.0@, p.1.entries_view());
                            out.push(p);
                            assert(out@.map_values(|c: (String, ArgMap)| (c.0@, c.1.entries_view())) =~= before.push(
                                pv,
                            ));
                            assert(before.push(pv) + calls_in(s@.skip(j + 2)) =~= before + (seq![pv] + calls_in(
                                s@.skip(j + 2),
                            )));
                        },
                        None => {},
                    }
                    i = j + 2;
                },
            }
        }
        assert(s@.skip(i as int) =~= Seq::<char>::empty());
        assert(out@.map_values(|c: (String, ArgMap)| (c.0@, c.1.entries_view())) + Seq::<
            (Seq<char>, Seq<(Seq<char>, Seq<char>)>),
        >::empty() =~= out@.map_values(|c: (String, ArgMap)| (c.0@, c.1.entries_view())));
        out
    }

    /// The script with its calls `{{ func(args) }}` replaced, in order, by
    /// `values` (see `calls_spec`).
    pub fn substitute_calls(script: &str, values: &[Option<String>]) -> (r: String)
        ensures
            r@ == calls_spec(script@, values@.map_values(|v: Option<String>| crate::ast::opt_view(v))),
    {
        let s = chars_of(script);
        let ghost vv = values@.map_values(|v: Option<String>| crate::ast::opt_view(v));
        let mut out: Vec<char> = Vec::new();
        let mut i: usize = 0;
        let mut k: usize = 0;
        assert(s@.skip(0) =~= s@);
        assert(vv.skip(0) =~= vv);
        assert(out@ + calls_spec(s@, vv) =~= calls_spec(s@, vv));
        while i < s.len()
            invariant
                i <= s.len(),
                k <= vv.len(),
                s@ == script@,
                vv == values@.map_values(|v: Option<String>| crate::ast::opt_view(v)),
                calls_spec(s@, vv) == out@ + calls_spec(s@.skip(i as int), vv.skip(k as int)),
            decreases s.len() - i,
        {
            let ghost rest = s@.skip(i as int);
            let ghost before = out@;
            let ghost rv = vv.skip(k as int);
            match Self::template_at(&s, i) {
                TemplateAt::Plain => {
                    out.push(s[i]);
                    assert(rest[0] == s[i as int]);
                    assert(rest.drop_first() =~= s@.skip(i + 1));
                    assert(out@ =~= before + seq![rest[0]]);
                    i = i + 1;
                },
                TemplateAt::Unclosed => {
                    out.push('{');
                    assert(s@.skip(s.len() as int) =~= Seq::<char>::empty());
                    assert(out@ =~= before + seq!['{']);
                    assert(out@ + calls_spec(s@.skip(s.len() as int), rv) =~= out@);
                    i = s.len();
                },
                TemplateAt::Closed(j, e, c) => {
                    match c {
                        Some(_) => {
                            if k < values.len() {
                                assert(rv[0] == vv[k as int]);
                                assert(rv.drop_first() =~= vv.skip(k + 1));
                                match &values[k] {
                                    Some(v) => push_all(&mut out, &chars_of_string(v)),
                                    None => {
                                        push_all(&mut out, &chars_of("{{"));
                                        push_all(&mut out, &e);
                                        push_all(&mut out, &chars_of("}}"));
                                    },
                                }
                                k = k + 1;
                            } else {
                                assert(rv.len() == 0);
                                push_all(&mut out, &chars_of("{{"));
                                push_all(&mut out, &e);
                                push_all(&mut out, &chars_of("}}"));
                            }
                        },
                        None => {
                            push_all(&mut out, &chars_of("{{"));
                            push_all(&mut out, &e);
                            push_all(&mut out, &chars_of("}}"));
                        },
                    }
                    i = j + 2;
                },
            }
        }
        assert(s@.skip(i as int) =~= Seq::<char>::empty());
        assert(out@ + Seq::<char>::empty() =~= out@);
        string_of(&out)
    }

    /// Processes function calls in templates like `{{ func() }}` or
    /// `{{ func(arg="value") }}`: the resolver is asked for each call in
    /// order, and each call is replaced by the value it returns (keeping its
    /// template where it returns none); the first error of the resolver is
    /// returned as it is.
    pub fn process_function_calls<R: FunctionResolver>(script: &str, resolver: &R) -> (r: Result<
        String,
        String,
    >)
        ensures
            match r {
                Ok(out) => exists|vs: Seq<Option<Seq<char>>>|
                    #![trigger answered(resolver, calls_in(script@), vs)]
                    answered(resolver, calls_in(script@), vs) && vs.len() == calls_in(script@).len() && out@
                        == calls_spec(script@, vs),
                Err(e) => exists|vs: Seq<Option<Seq<char>>>|
                    #![trigger answered(resolver, calls_in(script@), vs)]
                    answered(resolver, calls_in(script@), vs) && vs.len() < calls_in(script@).len()
                        && resolver.gives(
                        calls_in(script@)[vs.len() as int].0,
                        calls_in(script@)[vs.len() as int].1,
                        Err(e@),
                    ),
            },
            calls_in(script@).len() == 0 ==> (r matches Ok(out) && out@ == calls_spec(
                script@,
                Seq::empty(),
            )),
    {
        let calls = Self::function_calls(script);
        let ghost cv = calls_in(script@);
        let mut values: Vec<Option<String>> = Vec::new();
        let mut i: usize = 0;
        while i < calls.len()
            invariant
                i <= calls@.len(),
                values@.len() == i,
                calls@.map_values(|c: (String, ArgMap)| (c.0@, c.1.entries_view())) == cv,
                cv == calls_in(script@),
                answered(resolver, cv, values@.map_values(|v: Option<String>| crate::ast::opt_view(v))),
            decreases calls.len() - i,
        {
            let ghost before = values@.map_values(|v: Option<String>| crate::ast::opt_view(v));
            assert(cv[i as int] == (calls@[i as int].0@, calls@[i as int].1.entries_view()));
            match resolver.resolve(calls[i].0.as_str(), &calls[i].1) {
                Ok(v) => {
                    values.push(v);
                    let ghost after = values@.map_values(|v: Option<String>| crate::ast::opt_view(v));
                    assert(after =~= before.push(after[i as int]));
                    assert forall|j: int| 0 <= j < after.len() implies #[trigger] resolver.gives(
                        cv[j].0,
                        cv[j].1,
                        Ok(after[j]),
                    ) by {
                        if j < i {
                            assert(after[j] == before[j]);
                        }
                    }
                },
                Err(e) => {
                    assert(answered(resolver, cv, before));
                    return Err(e);
                },
            }
            i += 1;
        }
        let ghost vv = values@.map_values(|v: Option<String>| crate::ast::opt_view(v));
        if calls.len() == 0 {
            assert(vv =~= Seq::<Option<Seq<char>>>::empty());
        }
        let out = Self::substitute_calls(script, values.as_slice());
        assert(out@ == calls_spec(script@, vv));
        assert(answered(resolver, cv, vv));
        Ok(out)
    }
}

/// Replacing spaces by a text without spaces leaves no space.
proof fn lemma_replace_spaces_gone(v: Seq<char>, x: Seq<char>)
    requires
        !x.contains(' '),
    ensures
        !replace(v, " "@, x).contains(' '),
    decreases v.len(),
{
    reveal_strlit(" ");
    let r = replace(v, " "@, x);
    if " "@.is_prefix_of(v) {
        lemma_replace_spaces_gone(v.skip(1), x);
        let t = replace(v.skip(1), " "@, x);
        assert(r == x + t);
        if r.contains(' ') {
            let k = choose|k: int| 0 <= k < r.len() && r[k] == ' ';
            if k < x.len() {
                assert(x[k] == ' ');
            } else {
                assert(t[k - x.len()] == ' ');
            }
        }
    } else if v.len() > 0 {
        lemma_replace_spaces_gone(v.drop_first(), x);
        let t = replace(v.drop_first(), " "@, x);
        assert(v[0] != ' ') by {
            if v[0] == ' ' {
                assert(v.take(1) =~= " "@);
            }
        }
        assert(r == seq![v[0]] + t);
        if r.contains(' ') {
            let k = choose|k: int| 0 <= k < r.len() && r[k] == ' ';
            if k > 0 {
                assert(t[k - 1] == ' ');
            }
        }
    }
}

/// Replacing spaces in a text that has none leaves it as it is.
proof fn lemma_replace_no_spaces(v: Seq<char>, x: Seq<char>)
    requires
        !v.contains(' '),
    ensures
        replace(v, " "@, x) == v,
    decreases v.len(),
{
    reveal_strlit(" ");
    if v.len() > 0 {
        assert(v[0] != ' ');
        assert(!" "@.is_prefix_of(v)) by {
            if " "@.is_prefix_of(v) {
                assert(v[0] == " "@[0]);
            }
        }
        assert(!v.drop_first().contains(' ')) by {
            if v.drop_first().contains(' ') {
                let k = choose|k: int| 0 <= k < v.drop_first().len() && v.drop_first()[k] == ' ';
                assert(v[k + 1] == ' ');
            }
        }
        lemma_replace_no_spaces(v.drop_first(), x);
        assert(seq![v[0]] + v.drop_first() =~= v);
    }
}

/// Law (the `sep` modifier): `{{name|sep:X}}` gives the value with every
/// space replaced by the separator `X` (unquoted): exactly
/// `replace(v, " ", X)`; so no space is left where `X` has none, and a
/// value without spaces comes out unchanged, whatever `X` is.
pub proof fn lemma_sep_modifier(v: Seq<char>, name: Seq<char>, x: Seq<char>)
    ensures
        modify_spec(v, name, "sep:"@ + x) == replace(v, " "@, modifier_value_spec(x)),
        !modifier_value_spec(x).contains(' ') ==> !modify_spec(v, name, "sep:"@ + x).contains(' '),
        !v.contains(' ') ==> modify_spec(v, name, "sep:"@ + x) == v,
{
    reveal_strlit("sep:");
    reveal_strlit("copy");
    let m = "sep:"@ + x;
    assert("sep:"@.is_prefix_of(m)) by {
        assert(m.take(4) =~= "sep:"@);
    }
    assert(m != "copy"@) by {
        assert(m[0] == 's');
    }
    assert(m.skip(4) =~= x);
    if !modifier_value_spec(x).contains(' ') {
        lemma_replace_spaces_gone(v, modifier_value_spec(x));
    }
    if !v.contains(' ') {
        lemma_replace_no_spaces(v, modifier_value_spec(x));
    }
}

/// Trimming the end never lengthens a text.
proof fn lemma_trim_end_no_longer(s: Seq<char>)
    ensures
        crate::text::trim_end(s).len() <= s.len(),
    decreases s.len(),
{
    if s.len() > 0 && crate::text::is_ws(s.last()) {
        lemma_trim_end_no_longer(s.drop_last());
    }
}

/// Law (the `sep` modifier in a placeholder): the placeholder
/// `{{name|sep:X}}` of a variable whose value is `v` is replaced with `v`
/// with every space replaced by `X` (unquoted), where `name` is a name
/// without `|` and without surrounding white space, and `X` does not end
/// with white space.
pub proof fn lemma_sep_placeholder(
    n: Seq<char>,
    x: Seq<char>,
    v: Seq<char>,
    args: Seq<(Seq<char>, Seq<char>)>,
    parents: Seq<(Seq<char>, Seq<char>)>,
    vars: Seq<(Seq<char>, Seq<char>)>,
)
    requires
        n.len() > 0,
        trim(n) == n,
        !n.contains('|'),
        x.len() > 0,
        !crate::text::is_ws(x.last()),
        lookup3(args, parents, vars, n) == Some(v),
    ensures
        placeholder_spec(n + "|sep:"@ + x, args, parents, vars) == replace(v, " "@, modifier_value_spec(x)),
{
    reveal_strlit("|sep:");
    reveal_strlit("sep:");
    let c = n + "|sep:"@ + x;
    let m = "sep:"@ + x;
    assert(!crate::text::is_ws(n[0])) by {
        if crate::text::is_ws(n[0]) {
            assert(crate::text::trim_start(n) == crate::text::trim_start(n.drop_first()));
            crate::text::lemma_trim_start_len(n.drop_first());
            lemma_trim_end_no_longer(crate::text::trim_start(n));
        }
    }
    assert(c[0] == n[0]);
    assert(c.last() == x.last());
    assert(crate::text::trim_start(c) == c);
    assert(crate::text::trim_end(c) == c);
    assert(trim(c) == c);
    assert(c[n.len() as int] == '|');
    assert(c.contains('|'));
    crate::text::lemma_first_pos(c, '|');
    let p = first_pos(c, '|');
    assert(p == n.len()) by {
        if p < n.len() {
            assert(n[p] == c[p]);
            assert(n.contains('|'));
        } else if p > n.len() {
            assert(c[n.len() as int] != '|');
        }
    }
    assert(c.take(p) =~= n);
    assert(c.skip(p + 1) =~= m);
    assert(m.last() == x.last());
    assert(m[0] == 's');
    assert(crate::text::trim_start(m) == m);
    assert(crate::text::trim_end(m) == m);
    lemma_sep_modifier(v, n, x);
}

/// Law (the `copy` modifier): `{{name|copy}}` turns `true` into the flag
/// `--name`, `false` into nothing, and leaves any other value (a flag
/// `--...` among them) as it is.
pub proof fn lemma_copy_modifier(v: Seq<char>, name: Seq<char>)
    ensures
        v == "true"@ ==> modify_spec(v, name, "copy"@) == "--"@ + name,
        v == "false"@ ==> modify_spec(v, name, "copy"@) == Seq::<char>::empty(),
        v != "true"@ && v != "false"@ ==> modify_spec(v, name, "copy"@) == v,
{
    reveal_strlit("true");
    reveal_strlit("false");
    reveal_strlit("--");
    if v == "false"@ {
        assert(!"--"@.is_prefix_of(v)) by {
            if "--"@.is_prefix_of(v) {
                assert(v[0] == "--"@[0]);
            }
        }
    }
}

} // verus!
