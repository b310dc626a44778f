//! Runtime type validation for command arguments: each argument must match
//! the declared type of its parameter before a command runs.

use vstd::prelude::*;
use crate::ast::{ArgMap, Parameter, ParameterV, ParamKind, Value, ValueV, assoc_get};
use crate::text::{chars_of, chars_of_string, push_all, string_of, trim, trim_chars, split, join};

verus! {

/// What `str::to_lowercase` gives for a text.
pub uninterp spec fn lowercase(s: Seq<char>) -> Seq<char>;

/// Every character is an ASCII lower-case letter or digit.
pub open spec fn ascii_lower(s: Seq<char>) -> bool {
    forall|i: int| 0 <= i < s.len() ==> ('a' <= #[trigger] s[i] <= 'z' || '0' <= s[i] <= '9')
}

/// Every character is ASCII.
pub open spec fn ascii_text(s: Seq<char>) -> bool {
    forall|i: int| 0 <= i < s.len() ==> (#[trigger] s[i] as u32) < 128
}

/// The ASCII lower-case mapping: `A` to `Z` become `a` to `z`, other
/// characters stay.
pub open spec fn ascii_lowercase(s: Seq<char>) -> Seq<char> {
    s.map_values(|c: char| if 'A' <= c <= 'Z' { ((c as u32) + 32) as char } else { c })
}

/// The ASCII upper-case mapping: `a` to `z` become `A` to `Z`, other
/// characters stay.
pub open spec fn ascii_uppercase(s: Seq<char>) -> Seq<char> {
    s.map_values(|c: char| if 'a' <= c <= 'z' { ((c as u32) - 32) as char } else { c })
}

/// `str::to_lowercase`: the text in lower case (Unicode mapping). Claimed:
/// the text is `lowercase` of the argument; an ASCII text gets the ASCII
/// lower-case mapping, so a text of ASCII lower-case letters and digits
/// comes back as it is.
#[verifier::external_body]
pub(crate) fn to_lowercase(s: &str) -> (r: String)
    ensures
        r@ == lowercase(s@),
        ascii_text(s@) ==> r@ == ascii_lowercase(s@),
        ascii_lower(s@) ==> r@ == s@,
{
    s.to_lowercase()
}

/// What `str::to_uppercase` gives for a text.
pub uninterp spec fn uppercase(s: Seq<char>) -> Seq<char>;

/// `str::to_uppercase`: the text in upper case (Unicode mapping). Claimed:
/// the text is `uppercase` of the argument, and an ASCII text gets the
/// ASCII upper-case mapping.
#[verifier::external_body]
pub(crate) fn to_uppercase(s: &str) -> (r: String)
    ensures
        r@ == uppercase(s@),
        ascii_text(s@) ==> r@ == ascii_uppercase(s@),
{
    s.to_uppercase()
}

/// The text of an array argument: trimmed, and without one pair of
/// surrounding quotes.
pub open spec fn array_text(v: Seq<char>) -> Seq<char> {
    let t = trim(v);
    if t.len() >= 2 && ((t[0] == '"' && t.last() == '"') || (t[0] == '\'' && t.last() == '\'')) {
        t.subrange(1, t.len() - 1)
    } else {
        t
    }
}

/// A boolean word, once lowered: `true`, `false`, `1` or `0`.
pub open spec fn bool_word(l: Seq<char>) -> bool {
    l == "true"@ || l == "false"@ || l == "1"@ || l == "0"@
}

/// Whether the (lowered) text is a boolean word (see `bool_word`).
pub fn is_bool_word(lowered: &str) -> (b: bool)
    ensures
        b == bool_word(lowered@),
{
    let l = chars_of(lowered);
    crate::text::eq(&l, &chars_of("true")) || crate::text::eq(&l, &chars_of("false")) || crate::text::eq(
        &l,
        &chars_of("1"),
    ) || crate::text::eq(&l, &chars_of("0"))
}

/// The default value is an empty array.
pub open spec fn empty_array_default(p: ParameterV) -> bool {
    p.default matches Some(ValueV::Array(a)) && a.len() == 0
}

/// What validating the argument `v` of parameter `p` gives: the value to
/// use, or the message of the error.
pub open spec fn validate_spec(v: Seq<char>, p: ParameterV) -> Result<Seq<char>, Seq<char>> {
    validate_with(lowercase(v), v, p)
}

/// What validating an ASCII argument gives: as `validate_spec`, with the
/// ASCII lower-case mapping as its lower case (so `TRUE` is a boolean).
pub open spec fn validate_ascii(v: Seq<char>, p: ParameterV) -> Result<Seq<char>, Seq<char>> {
    validate_with(ascii_lowercase(v), v, p)
}

/// Validation of the argument `v` of parameter `p`, where `lowered` is `v`
/// in lower case.
pub open spec fn validate_with(lowered: Seq<char>, v: Seq<char>, p: ParameterV) -> Result<
    Seq<char>,
    Seq<char>,
> {
    let t = p.param_type;
    if t == "str"@ {
        Ok(v)
    } else if t == "bool"@ {
        if bool_word(lowered) || "--"@.is_prefix_of(v) {
            Ok(v)
        } else {
            Err(
                "Invalid boolean value '"@ + v + "' for parameter '"@ + p.name
                    + "'. Expected 'true' or 'false'."@,
            )
        }
    } else if t == "num"@ {
        if crate::text::float_literal(v) {
            Ok(v)
        } else {
            Err(
                "Invalid number '"@ + v + "' for parameter '"@ + p.name
                    + "'. Expected a numeric value (e.g., 42, 3.14, -10)."@,
            )
        }
    } else if t == "arr"@ {
        let u = array_text(v);
        if u.len() == 0 {
            if p.kind is Wildcard || empty_array_default(p) {
                Ok(Seq::empty())
            } else {
                Err(
                    "Empty array value for parameter '"@ + p.name
                        + "'. Provide comma-separated values (e.g., 'a,b,c')."@,
                )
            }
        } else {
            Ok(u)
        }
    } else {
        Err("Unknown parameter type '"@ + t + "' for parameter '"@ + p.name + "'"@)
    }
}

/// Validates that a string value matches the expected parameter type:
/// `str` takes anything; `bool` takes `true`, `false`, `1`, `0` (in any
/// case) or a flag; `num` takes what parses as a number; `arr` takes
/// comma-separated values, with surrounding quotes removed (empty only for
/// wildcards and parameters whose default is `[]`).
pub fn validate_argument_type(value: &str, param: &Parameter) -> (r: Result<String, String>)
    ensures
        match r {
            Ok(s) => validate_spec(value@, param@) == Ok::<Seq<char>, Seq<char>>(s@),
            Err(m) => validate_spec(value@, param@) == Err::<Seq<char>, Seq<char>>(m@),
        },
        ascii_text(value@) ==> validate_spec(value@, param@) == validate_ascii(value@, param@),
{
    let t = chars_of_string(&param.param_type);
    let v = chars_of(value);
    let name = chars_of_string(&param.name);
    if crate::text::eq(&t, &chars_of("str")) {
        return Ok(string_of(&v));
    }
    if crate::text::eq(&t, &chars_of("bool")) {
        let lower = to_lowercase(value);
        if is_bool_word(lower.as_str()) || crate::text::starts_with(&v, &chars_of("--")) {
            return Ok(string_of(&v));
        }
        let mut m = chars_of("Invalid boolean value '");
        push_all(&mut m, &v);
        push_all(&mut m, &chars_of("' for parameter '"));
        push_all(&mut m, &name);
        push_all(&mut m, &chars_of("'. Expected 'true' or 'false'."));
        return Err(string_of(&m));
    }
    if crate::text::eq(&t, &chars_of("num")) {
        if crate::text::is_float_literal(&v) {
            return Ok(string_of(&v));
        }
        let mut m = chars_of("Invalid number '");
        push_all(&mut m, &v);
        push_all(&mut m, &chars_of("' for parameter '"));
        push_all(&mut m, &name);
        push_all(&mut m, &chars_of("'. Expected a numeric value (e.g., 42, 3.14, -10)."));
        return Err(string_of(&m));
    }
    if crate::text::eq(&t, &chars_of("arr")) {
        let tr = trim_chars(&v);
        let u = if tr.len() >= 2 && ((tr[0] == '"' && tr[tr.len() - 1] == '"') || (tr[0] == '\''
            && tr[tr.len() - 1] == '\'')) {
            crate::text::slice_chars(&tr, 1, tr.len() - 1)
        } else {
            tr
        };
        if u.len() == 0 {
            let wildcard = match &param.kind {
                ParamKind::Wildcard { .. } => true,
                ParamKind::Normal => false,
            };
            let empty_default = match &param.default {
                Some(Value::Array(a)) => a.len() == 0,
                _ => false,
            };
            if wildcard || empty_default {
                return Ok(String::new());
            }
            let mut m = chars_of("Empty array value for parameter '");
            push_all(&mut m, &name);
            push_all(&mut m, &chars_of("'. Provide comma-separated values (e.g., 'a,b,c')."));
            return Err(string_of(&m));
        }
        return Ok(string_of(&u));
    }
    let mut m = chars_of("Unknown parameter type '");
    push_all(&mut m, &t);
    push_all(&mut m, &chars_of("' for parameter '"));
    push_all(&mut m, &name);
    push_all(&mut m, &chars_of("'"));
    Err(string_of(&m))
}

/// The texts of the pieces of `value` between commas, trimmed, without the
/// empty ones.
pub open spec fn array_items_of(pieces: Seq<Seq<char>>) -> Seq<Seq<char>>
    decreases pieces.len(),
{
    if pieces.len() == 0 {
        Seq::empty()
    } else {
        let rest = array_items_of(pieces.drop_first());
        let t = trim(pieces[0]);
        if t.len() > 0 {
            seq![t] + rest
        } else {
            rest
        }
    }
}

/// Parses a comma-separated array argument into its trimmed, nonempty
/// items.
pub fn parse_array(value: &str) -> (out: Vec<String>)
    ensures
        out@.map_values(|s: String| s@) == if trim(value@).len() == 0 {
            Seq::<Seq<char>>::empty()
        } else {
            array_items_of(split(value@, ','))
        },
{
    let v = chars_of(value);
    let mut out: Vec<String> = Vec::new();
    if trim_chars(&v).len() == 0 {
        assert(out@.map_values(|s: String| s@) =~= Seq::<Seq<char>>::empty());
        return out;
    }
    let pieces = crate::text::split_chars(&v, ',');
    let ghost pv = pieces@.map_values(|x: Vec<char>| x@);
    let mut i: usize = pieces.len();
    let mut rev: Vec<String> = Vec::new();
    // Collect from the back so that each step prepends one item.
    assert(pv.skip(i as int) =~= Seq::<Seq<char>>::empty());
    assert(rev@.map_values(|s: String| s@) =~= Seq::<Seq<char>>::empty());
    while i > 0
        invariant
            i <= pieces.len(),
            pv == pieces@.map_values(|x: Vec<char>| x@),
            rev@.map_values(|s: String| s@).reverse() == array_items_of(pv.skip(i as int)),
        decreases i,
    {
        let ghost before = rev@.map_values(|s: String| s@);
        let t = trim_chars(&pieces[i - 1]);
        assert(pv.skip(i - 1).drop_first() =~= pv.skip(i as int));
        assert(pv.skip(i - 1)[0] == pieces@[i - 1]@);
        if t.len() > 0 {
            rev.push(string_of(&t));
            assert(rev@.map_values(|s: String| s@) =~= before.push(t@));
            assert(before.push(t@).reverse() =~= seq![t@] + before.reverse());
        }
        i -= 1;
    }
    let mut j: usize = rev.len();
    let ghost rv = rev@.map_values(|s: String| s@);
    assert(out@.map_values(|s: String| s@) =~= rv.reverse().take(0));
    while j > 0
        invariant
            j <= rev.len(),
            rv == rev@.map_values(|s: String| s@),
            out@.map_values(|s: String| s@) == rv.reverse().take(rev.len() - j),
        decreases j,
    {
        let ghost before = out@.map_values(|s: String| s@);
        let s = rev[j - 1].clone();
        assert(s@ == rv[j - 1]);
        assert(rv.reverse()[rev.len() - j] == rv[j - 1]);
        out.push(s);
        assert(out@.map_values(|s: String| s@) =~= before.push(rv[j - 1]));
        assert(out@.map_values(|s: String| s@) =~= rv.reverse().take(rev.len() - j + 1));
        j -= 1;
    }
    assert(rv.reverse().take(rev.len() as int) =~= rv.reverse());
    assert(pv.skip(0) =~= pv);
    out
}

/// Formats an array for display in error messages: `[a, b, c]`, or `[]`.
pub fn format_array_for_display(items: &[String]) -> (s: String)
    ensures
        s@ == "["@ + join(items@.map_values(|x: String| x@), ", "@) + "]"@,
{
    let mut out = chars_of("[");
    let sep = chars_of(", ");
    let mut i: usize = 0;
    let ghost iv = items@.map_values(|x: String| x@);
    while i < items.len()
        invariant
            i <= items@.len(),
            iv == items@.map_values(|x: String| x@),
            sep@ == ", "@,
            out@ == "["@ + join(iv.take(i as int), ", "@),
        decreases items.len() - i,
    {
        let ghost before = out@;
        if i > 0 {
            push_all(&mut out, &sep);
        }
        push_all(&mut out, &chars_of_string(&items[i]));
        assert(iv.take(i + 1).drop_last() =~= iv.take(i as int));
        assert(iv.take(i + 1).last() == items@[i as int]@);
        i += 1;
    }
    assert(iv.take(items@.len() as int) =~= iv);
    push_all(&mut out, &chars_of("]"));
    string_of(&out)
}

/// The position of the first parameter named `n`, or -1.
pub open spec fn find_param(ps: Seq<ParameterV>, n: Seq<char>) -> int
    decreases ps.len(),
{
    if ps.len() == 0 {
        -1
    } else if ps[0].name == n {
        0
    } else {
        let r = find_param(ps.drop_first(), n);
        if r < 0 {
            -1
        } else {
            r + 1
        }
    }
}

/// The message for an argument of the wrong type.
pub open spec fn type_error_msg(cmd: Seq<char>, m: Seq<char>) -> Seq<char> {
    "❌ Type validation error in command 'nest "@ + cmd + "':\n   "@ + m
}

/// The message for a missing required parameter.
pub open spec fn missing_msg(name: Seq<char>, cmd: Seq<char>) -> Seq<char> {
    "❌ Missing required parameter '"@ + name + "' for command 'nest "@ + cmd + "'"@
}

/// The arguments `args` checked in order against their parameters, added
/// to the validated arguments `ok` and the error messages `errs`.
pub open spec fn check_args(
    args: Seq<(Seq<char>, Seq<char>)>,
    ps: Seq<ParameterV>,
    cmd: Seq<char>,
    ok: Seq<(Seq<char>, Seq<char>)>,
    errs: Seq<Seq<char>>,
) -> (Seq<(Seq<char>, Seq<char>)>, Seq<Seq<char>>)
    decreases args.len(),
{
    if args.len() == 0 {
        (ok, errs)
    } else {
        let (n, v) = args[0];
        let i = find_param(ps, n);
        let (ok1, errs1) = if 0 <= i < ps.len() {
            match validate_spec(v, ps[i]) {
                Ok(x) => (crate::ast::assoc_insert(ok, n, x), errs),
                Err(m) => (ok, errs.push(type_error_msg(cmd, m))),
            }
        } else {
            (ok, errs)
        };
        check_args(args.drop_first(), ps, cmd, ok1, errs1)
    }
}

/// The messages for the required parameters (no default) that have no
/// argument.
pub open spec fn missing_params(
    ps: Seq<ParameterV>,
    args: Seq<(Seq<char>, Seq<char>)>,
    ok: Seq<(Seq<char>, Seq<char>)>,
    cmd: Seq<char>,
) -> Seq<Seq<char>>
    decreases ps.len(),
{
    if ps.len() == 0 {
        Seq::empty()
    } else {
        let p = ps[0];
        let rest = missing_params(ps.drop_first(), args, ok, cmd);
        if p.default is None && assoc_get(args, p.name) is None && assoc_get(ok, p.name) is None {
            seq![missing_msg(p.name, cmd)] + rest
        } else {
            rest
        }
    }
}

/// Checking the arguments only adds error messages.
proof fn lemma_check_args_errs_grow(
    args: Seq<(Seq<char>, Seq<char>)>,
    ps: Seq<ParameterV>,
    cmd: Seq<char>,
    ok: Seq<(Seq<char>, Seq<char>)>,
    errs: Seq<Seq<char>>,
)
    ensures
        errs.len() <= check_args(args, ps, cmd, ok, errs).1.len(),
    decreases args.len(),
{
    if args.len() > 0 {
        let (n, v) = args[0];
        let i = find_param(ps, n);
        let (ok1, errs1) = if 0 <= i < ps.len() {
            match validate_spec(v, ps[i]) {
                Ok(x) => (crate::ast::assoc_insert(ok, n, x), errs),
                Err(m) => (ok, errs.push(type_error_msg(cmd, m))),
            }
        } else {
            (ok, errs)
        };
        lemma_check_args_errs_grow(args.drop_first(), ps, cmd, ok1, errs1);
    }
}

/// Law (argument types): when checking the arguments reports no error,
/// each argument of a declared parameter has a value of that parameter's
/// type.
pub proof fn lemma_no_errors_means_all_valid(
    args: Seq<(Seq<char>, Seq<char>)>,
    ps: Seq<ParameterV>,
    cmd: Seq<char>,
    ok: Seq<(Seq<char>, Seq<char>)>,
    errs: Seq<Seq<char>>,
)
    requires
        check_args(args, ps, cmd, ok, errs).1.len() == 0,
    ensures
        errs.len() == 0,
        forall|j: int|
            0 <= j < args.len() && 0 <= #[trigger] find_param(ps, args[j].0) < ps.len() ==> validate_spec(
                args[j].1,
                ps[find_param(ps, args[j].0)],
            ) is Ok,
    decreases args.len(),
{
    lemma_check_args_errs_grow(args, ps, cmd, ok, errs);
    if args.len() > 0 {
        let (n, v) = args[0];
        let i = find_param(ps, n);
        let (ok1, errs1) = if 0 <= i < ps.len() {
            match validate_spec(v, ps[i]) {
                Ok(x) => (crate::ast::assoc_insert(ok, n, x), errs),
                Err(m) => (ok, errs.push(type_error_msg(cmd, m))),
            }
        } else {
            (ok, errs)
        };
        lemma_no_errors_means_all_valid(args.drop_first(), ps, cmd, ok1, errs1);
        assert forall|j: int|
            0 <= j < args.len() && 0 <= #[trigger] find_param(ps, args[j].0) < ps.len() implies validate_spec(
                args[j].1,
                ps[find_param(ps, args[j].0)],
            ) is Ok by {
            if j > 0 {
                assert(args[j] == args.drop_first()[j - 1]);
            }
        }
    }
}

/// The argument `a` names a declared parameter whose type it does not fit.
pub open spec fn invalid_arg(a: (Seq<char>, Seq<char>), ps: Seq<ParameterV>) -> bool {
    0 <= find_param(ps, a.0) < ps.len() && validate_spec(a.1, ps[find_param(ps, a.0)]) is Err
}

/// No two arguments share a name.
pub open spec fn distinct_names(args: Seq<(Seq<char>, Seq<char>)>) -> bool {
    forall|i: int, j: int| 0 <= i < j < args.len() ==> args[i].0 != args[j].0
}

/// The validated value of the argument named `k`: its value checked
/// against the parameter of that name, where it has one.
pub open spec fn validated_value(
    args: Seq<(Seq<char>, Seq<char>)>,
    ps: Seq<ParameterV>,
    k: Seq<char>,
) -> Option<Seq<char>> {
    match assoc_get(args, k) {
        Some(v) => if 0 <= find_param(ps, k) < ps.len() {
            match validate_spec(v, ps[find_param(ps, k)]) {
                Ok(x) => Some(x),
                Err(_) => None,
            }
        } else {
            None
        },
        None => None,
    }
}

/// Checking the arguments reports an error exactly where some argument
/// does not fit its parameter.
proof fn lemma_check_args_errs_iff(
    args: Seq<(Seq<char>, Seq<char>)>,
    ps: Seq<ParameterV>,
    cmd: Seq<char>,
    ok: Seq<(Seq<char>, Seq<char>)>,
    errs: Seq<Seq<char>>,
)
    ensures
        (check_args(args, ps, cmd, ok, errs).1.len() > errs.len()) == exists|j: int|
            0 <= j < args.len() && #[trigger] invalid_arg(args[j], ps),
    decreases args.len(),
{
    if args.len() > 0 {
        let (n, v) = args[0];
        let i = find_param(ps, n);
        let (ok1, errs1) = if 0 <= i < ps.len() {
            match validate_spec(v, ps[i]) {
                Ok(x) => (crate::ast::assoc_insert(ok, n, x), errs),
                Err(m) => (ok, errs.push(type_error_msg(cmd, m))),
            }
        } else {
            (ok, errs)
        };
        lemma_check_args_errs_iff(args.drop_first(), ps, cmd, ok1, errs1);
        lemma_check_args_errs_grow(args.drop_first(), ps, cmd, ok1, errs1);
        assert(check_args(args, ps, cmd, ok, errs) == check_args(args.drop_first(), ps, cmd, ok1, errs1));
        assert(invalid_arg(args[0], ps) == (0 <= i < ps.len() && validate_spec(v, ps[i]) is Err));
        assert(invalid_arg(args[0], ps) ==> errs1.len() == errs.len() + 1);
        assert(!invalid_arg(args[0], ps) ==> errs1 == errs);
        if exists|j: int| 0 <= j < args.drop_first().len() && #[trigger] invalid_arg(args.drop_first()[j], ps) {
            let j = choose|j: int| 0 <= j < args.drop_first().len() && #[trigger] invalid_arg(args.drop_first()[j], ps);
            assert(args[j + 1] == args.drop_first()[j]);
            assert(invalid_arg(args[j + 1], ps));
        }
        if exists|j: int| 0 <= j < args.len() && #[trigger] invalid_arg(args[j], ps) {
            let j = choose|j: int| 0 <= j < args.len() && #[trigger] invalid_arg(args[j], ps);
            if j > 0 {
                assert(args.drop_first()[j - 1] == args[j]);
            }
        }
    }
}

/// With no error, each argument name gets its validated value (see
/// `validated_value`), and other names keep what `ok` gave them.
proof fn lemma_check_args_values(
    args: Seq<(Seq<char>, Seq<char>)>,
    ps: Seq<ParameterV>,
    cmd: Seq<char>,
    ok: Seq<(Seq<char>, Seq<char>)>,
    errs: Seq<Seq<char>>,
    k: Seq<char>,
)
    requires
        distinct_names(args),
        check_args(args, ps, cmd, ok, errs).1.len() == 0,
    ensures
        assoc_get(check_args(args, ps, cmd, ok, errs).0, k) == if assoc_get(args, k) is Some && 0 <= find_param(
            ps,
            k,
        ) < ps.len() {
            validated_value(args, ps, k)
        } else {
            assoc_get(ok, k)
        },
    decreases args.len(),
{
    if args.len() > 0 {
        let (n, v) = args[0];
        let i = find_param(ps, n);
        let (ok1, errs1) = if 0 <= i < ps.len() {
            match validate_spec(v, ps[i]) {
                Ok(x) => (crate::ast::assoc_insert(ok, n, x), errs),
                Err(m) => (ok, errs.push(type_error_msg(cmd, m))),
            }
        } else {
            (ok, errs)
        };
        let rest = args.drop_first();
        assert(distinct_names(rest)) by {
            assert forall|a: int, b: int| 0 <= a < b < rest.len() implies rest[a].0 != rest[b].0 by {
                assert(rest[a] == args[a + 1] && rest[b] == args[b + 1]);
            }
        }
        lemma_check_args_errs_grow(rest, ps, cmd, ok1, errs1);
        assert(check_args(args, ps, cmd, ok, errs) == check_args(rest, ps, cmd, ok1, errs1));
        assert(errs1.len() == 0);
        lemma_check_args_values(rest, ps, cmd, ok1, errs1, k);
        if 0 <= i < ps.len() {
            match validate_spec(v, ps[i]) {
                Ok(x) => crate::ast::lemma_assoc_get_insert(ok, n, x, k),
                Err(_) => {},
            }
        }
        if k == n {
            assert(assoc_get(rest, n) is None) by {
                lemma_assoc_get_absent(rest, n);
                assert forall|j: int| 0 <= j < rest.len() implies rest[j].0 != n by {
                    assert(rest[j] == args[j + 1]);
                }
            }
        }
    }
}

/// A key that no entry has gets nothing.
proof fn lemma_assoc_get_absent(entries: Seq<(Seq<char>, Seq<char>)>, k: Seq<char>)
    requires
        forall|j: int| 0 <= j < entries.len() ==> entries[j].0 != k,
    ensures
        assoc_get(entries, k) is None,
    decreases entries.len(),
{
    if entries.len() > 0 {
        assert forall|j: int| 0 <= j < entries.drop_first().len() implies entries.drop_first()[j].0 != k by {
            assert(entries.drop_first()[j] == entries[j + 1]);
        }
        lemma_assoc_get_absent(entries.drop_first(), k);
    }
}

/// A key that gets a value in the checked arguments is an argument's name
/// or already had a value in `ok`.
proof fn lemma_check_args_keys(
    args: Seq<(Seq<char>, Seq<char>)>,
    ps: Seq<ParameterV>,
    cmd: Seq<char>,
    ok: Seq<(Seq<char>, Seq<char>)>,
    errs: Seq<Seq<char>>,
    k: Seq<char>,
)
    ensures
        assoc_get(check_args(args, ps, cmd, ok, errs).0, k) is Some ==> assoc_get(args, k) is Some || assoc_get(
            ok,
            k,
        ) is Some,
    decreases args.len(),
{
    if args.len() > 0 {
        let (n, v) = args[0];
        let i = find_param(ps, n);
        let (ok1, errs1) = if 0 <= i < ps.len() {
            match validate_spec(v, ps[i]) {
                Ok(x) => (crate::ast::assoc_insert(ok, n, x), errs),
                Err(m) => (ok, errs.push(type_error_msg(cmd, m))),
            }
        } else {
            (ok, errs)
        };
        lemma_check_args_keys(args.drop_first(), ps, cmd, ok1, errs1, k);
        if 0 <= i < ps.len() {
            match validate_spec(v, ps[i]) {
                Ok(x) => crate::ast::lemma_assoc_get_insert(ok, n, x, k),
                Err(_) => {},
            }
        }
    }
}

/// The required parameters reported missing are there exactly where some
/// parameter without a default has no argument and no checked value.
proof fn lemma_missing_iff(
    ps: Seq<ParameterV>,
    args: Seq<(Seq<char>, Seq<char>)>,
    ok: Seq<(Seq<char>, Seq<char>)>,
    cmd: Seq<char>,
)
    ensures
        (missing_params(ps, args, ok, cmd).len() > 0) == exists|i: int|
            0 <= i < ps.len() && (#[trigger] ps[i]).default is None && assoc_get(args, ps[i].name) is None
                && assoc_get(ok, ps[i].name) is None,
    decreases ps.len(),
{
    if ps.len() > 0 {
        lemma_missing_iff(ps.drop_first(), args, ok, cmd);
        if exists|i: int|
            0 <= i < ps.drop_first().len() && (#[trigger] ps.drop_first()[i]).default is None && assoc_get(
                args,
                ps.drop_first()[i].name,
            ) is None && assoc_get(ok, ps.drop_first()[i].name) is None {
            let i = choose|i: int|
                0 <= i < ps.drop_first().len() && (#[trigger] ps.drop_first()[i]).default is None && assoc_get(
                    args,
                    ps.drop_first()[i].name,
                ) is None && assoc_get(ok, ps.drop_first()[i].name) is None;
            assert(ps[i + 1] == ps.drop_first()[i]);
        }
        if exists|i: int|
            0 <= i < ps.len() && (#[trigger] ps[i]).default is None && assoc_get(args, ps[i].name) is None
                && assoc_get(ok, ps[i].name) is None {
            let i = choose|i: int|
                0 <= i < ps.len() && (#[trigger] ps[i]).default is None && assoc_get(args, ps[i].name) is None
                    && assoc_get(ok, ps[i].name) is None;
            if i > 0 {
                assert(ps.drop_first()[i - 1] == ps[i]);
            }
        }
    }
}

/// Law (validated arguments): when validation succeeds, the validated
/// arguments give each argument that names a parameter its value checked
/// against that parameter, and nothing to any other name (an argument that
/// names no parameter is dropped).
pub proof fn lemma_validated_arguments(
    args: Seq<(Seq<char>, Seq<char>)>,
    ps: Seq<ParameterV>,
    cmd: Seq<char>,
    k: Seq<char>,
)
    requires
        distinct_names(args),
        check_args(args, ps, cmd, Seq::empty(), Seq::empty()).1.len() == 0,
    ensures
        assoc_get(check_args(args, ps, cmd, Seq::empty(), Seq::empty()).0, k) == validated_value(args, ps, k),
{
    lemma_check_args_values(args, ps, cmd, Seq::empty(), Seq::empty(), k);
}

/// Law (when validation fails): validation reports errors exactly where
/// some argument that names a parameter does not fit its type, or some
/// parameter without a default has no argument.
pub proof fn lemma_validation_fails_iff(args: Seq<(Seq<char>, Seq<char>)>, ps: Seq<ParameterV>, cmd: Seq<char>)
    ensures
        ({
            let (ok, errs) = check_args(args, ps, cmd, Seq::empty(), Seq::empty());
            (errs + missing_params(ps, args, ok, cmd)).len() > 0 <==> (exists|j: int|
                0 <= j < args.len() && #[trigger] invalid_arg(args[j], ps)) || (exists|i: int|
                0 <= i < ps.len() && (#[trigger] ps[i]).default is None && assoc_get(args, ps[i].name) is None)
        }),
{
    let (ok, errs) = check_args(args, ps, cmd, Seq::empty(), Seq::empty());
    lemma_check_args_errs_iff(args, ps, cmd, Seq::empty(), Seq::empty());
    lemma_missing_iff(ps, args, ok, cmd);
    assert forall|i: int| 0 <= i < ps.len() && assoc_get(args, (#[trigger] ps[i]).name) is None implies assoc_get(
        ok,
        ps[i].name,
    ) is None by {
        lemma_check_args_keys(args, ps, cmd, Seq::empty(), Seq::empty(), ps[i].name);
    }
}

/// Law (required parameters): when no required parameter is reported
/// missing, each parameter without a default has an argument.
pub proof fn lemma_no_missing_means_all_given(
    ps: Seq<ParameterV>,
    args: Seq<(Seq<char>, Seq<char>)>,
    ok: Seq<(Seq<char>, Seq<char>)>,
    cmd: Seq<char>,
)
    requires
        missing_params(ps, args, ok, cmd).len() == 0,
    ensures
        forall|i: int|
            0 <= i < ps.len() && (#[trigger] ps[i]).default is None ==> assoc_get(args, ps[i].name) is Some
                || assoc_get(ok, ps[i].name) is Some,
    decreases ps.len(),
{
    if ps.len() > 0 {
        lemma_no_missing_means_all_given(ps.drop_first(), args, ok, cmd);
        assert forall|i: int|
            0 <= i < ps.len() && (#[trigger] ps[i]).default is None implies assoc_get(args, ps[i].name) is Some
                || assoc_get(ok, ps[i].name) is Some by {
            if i > 0 {
                assert(ps[i] == ps.drop_first()[i - 1]);
            }
        }
    }
}

/// The position of the first parameter named `name`.
fn find_parameter(parameters: &[Parameter], name: &String) -> (r: Option<usize>)
    ensures
        match r {
            Some(i) => i == find_param(parameters@.map_values(|p: Parameter| p@), name@) && i
                < parameters@.len(),
            None => find_param(parameters@.map_values(|p: Parameter| p@), name@) == -1,
        },
{
    let ghost pv = parameters@.map_values(|p: Parameter| p@);
    let mut i: usize = 0;
    assert(pv.skip(0) =~= pv);
    while i < parameters.len()
        invariant
            i <= parameters@.len(),
            pv == parameters@.map_values(|p: Parameter| p@),
            forall|j: int| 0 <= j < i ==> pv[j].name != name@,
            find_param(pv, name@) == if find_param(pv.skip(i as int), name@) < 0 {
                -1
            } else {
                find_param(pv.skip(i as int), name@) + i
            },
        decreases parameters.len() - i,
    {
        assert(pv.skip(i as int)[0] == pv[i as int]);
        assert(pv.skip(i as int).drop_first() =~= pv.skip(i + 1));
        if parameters[i].name == *name {
            return Some(i);
        }
        i += 1;
    }
    assert(pv.skip(i as int) =~= Seq::<ParameterV>::empty());
    None
}

/// Validates all arguments against their parameter definitions: each
/// argument whose parameter is declared must match its type, and each
/// parameter without a default must have an argument. Gives the validated
/// arguments, or all the error messages.
pub fn validate_all_arguments(args: &ArgMap, parameters: &[Parameter], command_path: &[String]) -> (r:
    Result<ArgMap, Vec<String>>)
    ensures
        ({
            let ps = parameters@.map_values(|p: Parameter| p@);
            let cmd = join(command_path@.map_values(|s: String| s@), " "@);
            let (ok, errs) = check_args(args.entries_view(), ps, cmd, Seq::empty(), Seq::empty());
            let all = errs + missing_params(ps, args.entries_view(), ok, cmd);
            match r {
                Ok(m) => all.len() == 0 && m.entries_view() == ok,
                Err(es) => all.len() > 0 && es@.map_values(|s: String| s@) == all,
            }
        }),
        ({
            let ps = parameters@.map_values(|p: Parameter| p@);
            let av = args.entries_view();
            forall|i: int|
                0 <= i < av.len() && ascii_text(av[i].1) && 0 <= #[trigger] find_param(ps, av[i].0)
                    < ps.len() ==> validate_spec(av[i].1, ps[find_param(ps, av[i].0)])
                    == validate_ascii(av[i].1, ps[find_param(ps, av[i].0)])
        }),
{
    let ghost ps = parameters@.map_values(|p: Parameter| p@);
    let ghost av = args.entries_view();
    let mut cmdv: Vec<char> = Vec::new();
    let sp = chars_of(" ");
    let mut k: usize = 0;
    let ghost cps = command_path@.map_values(|s: String| s@);
    while k < command_path.len()
        invariant
            k <= command_path@.len(),
            cps == command_path@.map_values(|s: String| s@),
            sp@ == " "@,
            cmdv@ == join(cps.take(k as int), " "@),
        decreases command_path.len() - k,
    {
        if k > 0 {
            push_all(&mut cmdv, &sp);
        }
        push_all(&mut cmdv, &chars_of_string(&command_path[k]));
        assert(cps.take(k + 1).drop_last() =~= cps.take(k as int));
        k += 1;
    }
    assert(cps.take(command_path@.len() as int) =~= cps);
    let ghost cmd = cmdv@;
    let mut validated = ArgMap::new();
    let mut errors: Vec<String> = Vec::new();
    let n = args.len();
    let mut i: usize = 0;
    assert(av.skip(0) =~= av);
    assert(errors@.map_values(|s: String| s@) =~= Seq::<Seq<char>>::empty());
    while i < n
        invariant
            n == av.len(),
            av == args.entries_view(),
            ps == parameters@.map_values(|p: Parameter| p@),
            cmd == cmdv@,
            i <= n,
            check_args(av, ps, cmd, Seq::empty(), Seq::empty()) == check_args(
                av.skip(i as int),
                ps,
                cmd,
                validated.entries_view(),
                errors@.map_values(|s: String| s@),
            ),
            forall|m: int|
                0 <= m < i && ascii_text(av[m].1) && 0 <= #[trigger] find_param(ps, av[m].0)
                    < ps.len() ==> validate_spec(av[m].1, ps[find_param(ps, av[m].0)])
                    == validate_ascii(av[m].1, ps[find_param(ps, av[m].0)]),
        decreases n - i,
    {
        let name = args.key_at(i);
        let value = args.value_at(i);
        assert(av.skip(i as int)[0] == av[i as int]);
        assert(av.skip(i as int).drop_first() =~= av.skip(i + 1));
        match find_parameter(parameters, name) {
            Some(j) => {
                assert(ps[j as int] == parameters@[j as int]@);
                assert(0 <= find_param(ps, av[i as int].0) < ps.len());
                match validate_argument_type(value.as_str(), &parameters[j]) {
                    Ok(x) => {
                        validated.insert(name.clone(), x);
                    },
                    Err(m) => {
                        let ghost before = errors@.map_values(|s: String| s@);
                        let mut msg = chars_of("❌ Type validation error in command 'nest ");
                        push_all(&mut msg, &cmdv);
                        push_all(&mut msg, &chars_of("':\n   "));
                        push_all(&mut msg, &chars_of_string(&m));
                        errors.push(string_of(&msg));
                        assert(errors@.map_values(|s: String| s@) =~= before.push(
                            type_error_msg(cmd, m@),
                        ));
                    },
                }
            },
            None => {},
        }
        i += 1;
    }
    assert(av.skip(n as int) =~= Seq::<(Seq<char>, Seq<char>)>::empty());
    let ghost errs1 = errors@.map_values(|s: String| s@);
    let ghost ok = validated.entries_view();
    let mut missing: Vec<String> = Vec::new();
    let mut q: usize = parameters.len();
    assert(ps.skip(q as int) =~= Seq::<ParameterV>::empty());
    assert(missing@.map_values(|s: String| s@).reverse() =~= Seq::<Seq<char>>::empty());
    while q > 0
        invariant
            q <= parameters@.len(),
            ps == parameters@.map_values(|p: Parameter| p@),
            av == args.entries_view(),
            ok == validated.entries_view(),
            cmd == cmdv@,
            missing@.map_values(|s: String| s@).reverse() == missing_params(
                ps.skip(q as int),
                av,
                ok,
                cmd,
            ),
        decreases q,
    {
        let p = &parameters[q - 1];
        assert(ps.skip(q - 1)[0] == p@);
        assert(ps.skip(q - 1).drop_first() =~= ps.skip(q as int));
        let ghost before = missing@.map_values(|s: String| s@);
        if p.default.is_none() && !args.contains_key(p.name.as_str()) && !validated.contains_key(
            p.name.as_str(),
        ) {
            let mut msg = chars_of("❌ Missing required parameter '");
            push_all(&mut msg, &chars_of_string(&p.name));
            push_all(&mut msg, &chars_of("' for command 'nest "));
            push_all(&mut msg, &cmdv);
            push_all(&mut msg, &chars_of("'"));
            missing.push(string_of(&msg));
            assert(missing@.map_values(|s: String| s@) =~= before.push(missing_msg(p.name@, cmd)));
            assert(before.push(missing_msg(p.name@, cmd)).reverse() =~= seq![missing_msg(p.name@, cmd)]
                + before.reverse());
        }
        q -= 1;
    }
    assert(ps.skip(0) =~= ps);
    let mut m = missing.len();
    let ghost mv = missing@.map_values(|s: String| s@);
    while m > 0
        invariant
            m <= missing@.len(),
            mv == missing@.map_values(|s: String| s@),
            errors@.map_values(|s: String| s@) == errs1 + mv.reverse().take(missing@.len() - m),
        decreases m,
    {
        let ghost before = errors@.map_values(|s: String| s@);
        let s = missing[m - 1].clone();
        assert(s@ == mv[m - 1]);
        assert(mv.reverse()[missing@.len() - m] == mv[m - 1]);
        errors.push(s);
        assert(errors@.map_values(|s: String| s@) =~= before.push(mv[m - 1]));
        assert(mv.reverse().take(missing@.len() - m + 1) =~= mv.reverse().take(missing@.len() - m).push(mv[m - 1]));
        assert(errors@.map_values(|s: String| s@) =~= errs1 + mv.reverse().take(missing@.len() - m + 1));
        m -= 1;
    }
    assert(mv.reverse().take(missing@.len() as int) =~= mv.reverse());
    if errors.len() == 0 {
        Ok(validated)
    } else {
        Err(errors)
    }
}

} // verus!
