//! The entries that `logs` directives write: a JSON line, or a block of
//! text, for each run of a command.

use vstd::prelude::*;
use crate::ast::ArgMap;
use crate::template::{TemplateProcessor, process_spec};
use crate::text::{chars_of, chars_of_string, join, push_all, string_of};
use serde_json::Value;

verus! {

/// A value of a field of a JSON log entry.
#[derive(Debug)]
pub enum JsonField {
    Null,
    Bool(bool),
    Text(String),
    /// An object whose values are strings, its pairs in order.
    Strings(Vec<(String, String)>),
}

/// The model of a field's value.
pub enum JsonFieldV {
    Null,
    Bool(bool),
    Text(Seq<char>),
    Strings(Seq<(Seq<char>, Seq<char>)>),
}

/// The model of pairs of strings.
pub open spec fn pairs_view(v: Seq<(String, String)>) -> Seq<(Seq<char>, Seq<char>)> {
    v.map_values(|p: (String, String)| (p.0@, p.1@))
}

impl View for JsonField {
    type V = JsonFieldV;

    open spec fn view(&self) -> JsonFieldV {
        match self {
            JsonField::Null => JsonFieldV::Null,
            JsonField::Bool(b) => JsonFieldV::Bool(*b),
            JsonField::Text(s) => JsonFieldV::Text(s@),
            JsonField::Strings(v) => JsonFieldV::Strings(pairs_view(v@)),
        }
    }
}

/// The model of the fields of an object.
pub open spec fn fields_view(v: Seq<(String, JsonField)>) -> Seq<(Seq<char>, JsonFieldV)> {
    v.map_values(|p: (String, JsonField)| (p.0@, p.1@))
}

/// The text `serde_json` writes for the object with these fields.
pub uninterp spec fn json_text(fields: Seq<(Seq<char>, JsonFieldV)>) -> Seq<char>;

/// `serde_json::Value::Object` made of the fields (each value converted to
/// the `serde_json::Value` of the same kind) and written with `to_string`.
/// Claimed: the text is `json_text` of the fields.
#[verifier::external_body]
fn json_object_text(fields: &Vec<(String, JsonField)>) -> (r: String)
    ensures
        r@ == json_text(fields_view(fields@)),
{
    let mut m = serde_json::Map::new();
    for (k, f) in fields.iter() {
        let v = match f {
            JsonField::Null => Value::Null,
            JsonField::Bool(b) => Value::Bool(*b),
            JsonField::Text(t) => Value::from(t.as_str()),
            JsonField::Strings(ps) => Value::Object(ps.iter().map(|(a, b)| (a.clone(), Value::from(b.as_str()))).collect()),
        };
        m.insert(k.clone(), v);
    }
    Value::Object(m).to_string()
}

/// The fields of a JSON log entry: `timestamp`, `command`, `args` (an
/// object of strings), `success`, and `error` (a string, or `null`).
pub open spec fn log_json_fields(
    timestamp: Seq<char>,
    command: Seq<char>,
    args: Seq<(Seq<char>, Seq<char>)>,
    success: bool,
    error: Option<Seq<char>>,
) -> Seq<(Seq<char>, JsonFieldV)> {
    seq![
        ("timestamp"@, JsonFieldV::Text(timestamp)),
        ("command"@, JsonFieldV::Text(command)),
        ("args"@, JsonFieldV::Strings(args)),
        ("success"@, JsonFieldV::Bool(success)),
        ("error"@, match error {
            Some(e) => JsonFieldV::Text(e),
            None => JsonFieldV::Null,
        }),
    ]
}

/// The model of an optional string slice.
pub open spec fn str_opt(o: Option<&str>) -> Option<Seq<char>> {
    match o {
        Some(s) => Some(s@),
        None => None,
    }
}

/// The pairs of a map, in order.
fn arg_pairs(args: &ArgMap) -> (v: Vec<(String, String)>)
    ensures
        pairs_view(v@) == args.entries_view(),
{
    let ghost ev = args.entries_view();
    let mut v: Vec<(String, String)> = Vec::new();
    let mut i: usize = 0;
    while i < args.len()
        invariant
            i <= ev.len(),
            ev == args.entries_view(),
            pairs_view(v@) == ev.take(i as int),
        decreases ev.len() - i,
    {
        let ghost before = pairs_view(v@);
        v.push((args.key_at(i).clone(), args.value_at(i).clone()));
        assert(pairs_view(v@) =~= before.push(ev[i as int]));
        assert(ev.take(i + 1) =~= ev.take(i as int).push(ev[i as int]));
        i += 1;
    }
    assert(ev.take(ev.len() as int) =~= ev);
    v
}

/// The fields of the JSON log entry of a run (see `log_json_fields`).
pub fn log_json_object(
    timestamp: &str,
    command: &str,
    args: &ArgMap,
    success: bool,
    error: Option<&str>,
) -> (r: Vec<(String, JsonField)>)
    ensures
        fields_view(r@) == log_json_fields(timestamp@, command@, args.entries_view(), success, str_opt(error)),
{
    let mut r: Vec<(String, JsonField)> = Vec::new();
    r.push(("timestamp".to_string(), JsonField::Text(timestamp.to_string())));
    r.push(("command".to_string(), JsonField::Text(command.to_string())));
    r.push(("args".to_string(), JsonField::Strings(arg_pairs(args))));
    r.push(("success".to_string(), JsonField::Bool(success)));
    let e = match error {
        Some(m) => JsonField::Text(m.to_string()),
        None => JsonField::Null,
    };
    r.push(("error".to_string(), e));
    proof {
        reveal_strlit("timestamp");
        reveal_strlit("command");
        reveal_strlit("args");
        reveal_strlit("success");
        reveal_strlit("error");
    }
    assert(fields_view(r@) =~= log_json_fields(timestamp@, command@, args.entries_view(), success, str_opt(error)));
    r
}

/// The name of the command in a log entry.
pub open spec fn log_command_name(path: Option<Seq<Seq<char>>>) -> Seq<char> {
    match path {
        Some(p) => join(p, " "@),
        None => "unknown"@,
    }
}

/// The text of a `txt` log entry.
pub open spec fn txt_entry(
    timestamp: Seq<char>,
    name: Seq<char>,
    args: Seq<(Seq<char>, Seq<char>)>,
    result: Result<(), Seq<char>>,
) -> Seq<char> {
    let head = "["@ + timestamp + "] Command: "@ + name + "\n"@;
    let a = if args.len() > 0 {
        "  Args: "@ + join(args.map_values(|kv: (Seq<char>, Seq<char>)| kv.0 + "="@ + kv.1), ", "@) + "\n"@
    } else {
        Seq::empty()
    };
    let status = "  Status: "@ + (if result is Ok {
        "SUCCESS"@
    } else {
        "FAILED"@
    }) + "\n"@;
    let err = match result {
        Err(e) => "  Error: "@ + e + "\n"@,
        Ok(()) => Seq::empty(),
    };
    head + a + status + err + "\n"@
}

/// The text a log entry appends to the log file: a JSON line for `json`,
/// a block of lines for `txt`; any other format is refused.
pub open spec fn log_entry_spec(
    format: Seq<char>,
    path: Option<Seq<Seq<char>>>,
    args: Seq<(Seq<char>, Seq<char>)>,
    result: Result<(), Seq<char>>,
    timestamp: Seq<char>,
) -> Result<Seq<char>, Seq<char>> {
    let name = log_command_name(path);
    if format == "json"@ {
        Ok(
            json_text(
                log_json_fields(
                    timestamp,
                    name,
                    args,
                    result is Ok,
                    match result {
                        Err(e) => Some(e),
                        Ok(()) => None,
                    },
                ),
            ) + "\n"@,
        )
    } else if format == "txt"@ {
        Ok(txt_entry(timestamp, name, args, result))
    } else {
        Err("Unknown log format: "@ + format)
    }
}

/// The model of an outcome.
pub open spec fn result_view(r: Result<(), String>) -> Result<(), Seq<char>> {
    match r {
        Ok(()) => Ok(()),
        Err(e) => Err(e@),
    }
}

/// The text of the arguments of a `txt` entry.
fn args_text(args: &ArgMap) -> (out: Vec<char>)
    ensures
        out@ == join(args.entries_view().map_values(|kv: (Seq<char>, Seq<char>)| kv.0 + "="@ + kv.1), ", "@),
{
    let ghost ev = args.entries_view();
    let mut parts: Vec<Vec<char>> = Vec::new();
    let mut i: usize = 0;
    while i < args.len()
        invariant
            i <= ev.len(),
            ev == args.entries_view(),
            parts@.map_values(|x: Vec<char>| x@) == ev.take(i as int).map_values(
                |kv: (Seq<char>, Seq<char>)| kv.0 + "="@ + kv.1,
            ),
        decreases ev.len() - i,
    {
        let ghost before = parts@.map_values(|x: Vec<char>| x@);
        let mut t = chars_of_string(args.key_at(i));
        push_all(&mut t, &chars_of("="));
        push_all(&mut t, &chars_of_string(args.value_at(i)));
        parts.push(t);
        assert(parts@.map_values(|x: Vec<char>| x@) =~= before.push(ev[i as int].0 + "="@ + ev[i as int].1));
        assert(ev.take(i + 1).map_values(|kv: (Seq<char>, Seq<char>)| kv.0 + "="@ + kv.1) =~= ev.take(
            i as int,
        ).map_values(|kv: (Seq<char>, Seq<char>)| kv.0 + "="@ + kv.1).push(ev[i as int].0 + "="@ + ev[i as int].1));
        i += 1;
    }
    assert(ev.take(ev.len() as int) =~= ev);
    crate::text::join_chars(&parts, &chars_of(", "))
}

/// The text that a log entry for the run of the command at `command_path`
/// with `args`, ending with `result` at `timestamp`, appends to the log
/// file (see `log_entry_spec`).
pub fn log_entry(
    log_format: &str,
    command_path: Option<&[String]>,
    args: &ArgMap,
    result: &Result<(), String>,
    timestamp: &str,
) -> (r: Result<String, String>)
    ensures
        ({
            let path = match command_path {
                Some(p) => Some(p@.map_values(|s: String| s@)),
                None => None,
            };
            match r {
                Ok(t) => log_entry_spec(log_format@, path, args.entries_view(), result_view(*result), timestamp@)
                    == Ok::<Seq<char>, Seq<char>>(t@),
                Err(m) => log_entry_spec(log_format@, path, args.entries_view(), result_view(*result), timestamp@)
                    == Err::<Seq<char>, Seq<char>>(m@),
            }
        }),
{
    let name = match command_path {
        Some(p) => crate::runtime::join_strings_vec(p, " "),
        None => chars_of("unknown"),
    };
    let f = chars_of(log_format);
    if crate::text::eq(&f, &chars_of("json")) {
        let ns = string_of(&name);
        let fields = match result {
            Ok(()) => log_json_object(timestamp, ns.as_str(), args, true, None),
            Err(e) => log_json_object(timestamp, ns.as_str(), args, false, Some(e.as_str())),
        };
        let line = json_object_text(&fields);
        let mut t = chars_of_string(&line);
        t.push('\n');
        proof {
            reveal_strlit("\n");
        }
        assert(t@ =~= line@ + "\n"@);
        return Ok(string_of(&t));
    }
    if crate::text::eq(&f, &chars_of("txt")) {
        let mut t = chars_of("[");
        push_all(&mut t, &chars_of(timestamp));
        push_all(&mut t, &chars_of("] Command: "));
        push_all(&mut t, &name);
        push_all(&mut t, &chars_of("\n"));
        if args.len() > 0 {
            push_all(&mut t, &chars_of("  Args: "));
            push_all(&mut t, &args_text(args));
            push_all(&mut t, &chars_of("\n"));
        }
        push_all(&mut t, &chars_of("  Status: "));
        match result {
            Ok(()) => push_all(&mut t, &chars_of("SUCCESS")),
            Err(_) => push_all(&mut t, &chars_of("FAILED")),
        }
        push_all(&mut t, &chars_of("\n"));
        match result {
            Err(e) => {
                push_all(&mut t, &chars_of("  Error: "));
                push_all(&mut t, &chars_of_string(e));
                push_all(&mut t, &chars_of("\n"));
            },
            Ok(()) => {},
        }
        push_all(&mut t, &chars_of("\n"));
        assert(t@ =~= txt_entry(timestamp@, name@, args.entries_view(), result_view(*result)));
        return Ok(string_of(&t));
    }
    let mut m = chars_of("Unknown log format: ");
    push_all(&mut m, &f);
    Err(string_of(&m))
}

/// The path of a log file, processed as a template with the command's
/// arguments (and no variables).
pub fn log_path(path: &str, args: &ArgMap, now: &str, user: &str) -> (p: String)
    ensures
        p@ == process_spec(path@, args.entries_view(), Seq::empty(), Seq::empty(), now@, user@),
{
    let empty = ArgMap::new();
    TemplateProcessor::process_vars(path, args, &empty, &empty, now, user)
}

} // verus!
