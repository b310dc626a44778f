//! The JSON view of the parsed commands (`--show json`): the layout of each
//! command as a JSON value, and the pretty text that `serde_json` writes
//! for it.

use vstd::prelude::*;
use crate::ast::{
    Command, CommandV, DependencyV, Directive, DirectiveV, ParamKind, ParamKindV, Parameter,
    ParameterV, Value, ValueV, commands_view, lemma_commands_view, opt_view,
    strings_view,
};
use crate::merge::{cmd_depth, lemma_kids_depth};
use vstd::string::StringExecFns;
use serde_json::Value as Json;

verus! {

/// A JSON value.
pub enum JsonValueV {
    Null,
    Bool(bool),
    Number(nat),
    Text(Seq<char>),
    Array(Seq<JsonValueV>),
    /// The fields of an object, in order.
    Object(Seq<(Seq<char>, JsonValueV)>),
}

/// The text `serde_json::to_string_pretty` writes for a JSON value.
pub uninterp spec fn json_pretty_text(v: JsonValueV) -> Seq<char>;

/// A string as a JSON text, or `null` for none.
pub open spec fn opt_text_json(o: Option<Seq<char>>) -> JsonValueV {
    match o {
        Some(s) => JsonValueV::Text(s),
        None => JsonValueV::Null,
    }
}

/// Strings as an array of texts.
pub open spec fn texts_json(v: Seq<Seq<char>>) -> JsonValueV {
    JsonValueV::Array(v.map_values(|s: Seq<char>| JsonValueV::Text(s)))
}

/// A literal value: strings and numbers as texts (a number as it was
/// written), booleans as booleans, arrays as arrays of texts.
pub open spec fn value_json(v: ValueV) -> JsonValueV {
    match v {
        ValueV::Str(s) => JsonValueV::Text(s),
        ValueV::Bool(b) => JsonValueV::Bool(b),
        ValueV::Number(n) => JsonValueV::Text(n),
        ValueV::Array(xs) => texts_json(xs),
    }
}

/// A parameter: `name`, `type`, `named`, `alias` and `default`, and for a
/// wildcard also `wildcard` (true) and `count` (a number, or `null`).
pub open spec fn parameter_json(p: ParameterV) -> JsonValueV {
    JsonValueV::Object(
        seq![
            ("name"@, JsonValueV::Text(p.name)),
            ("type"@, JsonValueV::Text(p.param_type)),
            ("named"@, JsonValueV::Bool(p.is_named)),
            ("alias"@, opt_text_json(p.alias)),
            ("default"@, match p.default {
                Some(v) => value_json(v),
                None => JsonValueV::Null,
            }),
        ] + match p.kind {
            ParamKindV::Wildcard { count, .. } => seq![
                ("wildcard"@, JsonValueV::Bool(true)),
                ("count"@, match count {
                    Some(n) => JsonValueV::Number(n),
                    None => JsonValueV::Null,
                }),
            ],
            ParamKindV::Normal => Seq::empty(),
        },
    )
}

/// A script of a command: `script`, `os` (or `null`) and `hide`.
pub open spec fn script_json(s: Seq<char>, os: Option<Seq<char>>, hide: bool) -> JsonValueV {
    JsonValueV::Object(
        seq![
            ("script"@, JsonValueV::Text(s)),
            ("os"@, opt_text_json(os)),
            ("hide"@, JsonValueV::Bool(hide)),
        ],
    )
}

/// An object with one field.
pub open spec fn single_json(key: Seq<char>, v: JsonValueV) -> JsonValueV {
    JsonValueV::Object(seq![(key, v)])
}

/// A directive: an object whose one field is named after the directive.
/// An environment variable reads `NAME=value`, with ` (hidden)` after a
/// hidden one; a log `path (format)`; a validation `target: rule`;
/// dependencies are the object of `commands` (their paths) and `parallel`.
pub open spec fn directive_json(d: DirectiveV) -> JsonValueV {
    match d {
        DirectiveV::Desc(s) => single_json("desc"@, JsonValueV::Text(s)),
        DirectiveV::Cwd(s) => single_json("cwd"@, JsonValueV::Text(s)),
        DirectiveV::Env(k, v, h) => single_json(
            "env"@,
            JsonValueV::Text(
                k + "="@ + v + if h {
                    " (hidden)"@
                } else {
                    Seq::empty()
                },
            ),
        ),
        DirectiveV::EnvFile(p, _) => single_json("env_file"@, JsonValueV::Text(p)),
        DirectiveV::Script(s, os, h) => single_json("script"@, script_json(s, os, h)),
        DirectiveV::Before(s, os, h) => single_json("before"@, script_json(s, os, h)),
        DirectiveV::After(s, os, h) => single_json("after"@, script_json(s, os, h)),
        DirectiveV::Fallback(s, os, h) => single_json("fallback"@, script_json(s, os, h)),
        DirectiveV::Finally(s, os, h) => single_json("finally"@, script_json(s, os, h)),
        DirectiveV::Depends(deps, parallel) => single_json(
            "depends"@,
            JsonValueV::Object(
                seq![
                    ("commands"@, texts_json(deps.map_values(|d: DependencyV| d.command_path))),
                    ("parallel"@, JsonValueV::Bool(parallel)),
                ],
            ),
        ),
        DirectiveV::Privileged(b) => single_json("privileged"@, JsonValueV::Bool(b)),
        DirectiveV::RequireConfirm(m) => single_json("require_confirm"@, JsonValueV::Text(m)),
        DirectiveV::Logs(p, f) => single_json("logs"@, JsonValueV::Text(p + " ("@ + f + ")"@)),
        DirectiveV::Validate(t, r) => single_json("validate"@, JsonValueV::Text(t + ": "@ + r)),
        DirectiveV::Watch(ws) => single_json("watch"@, texts_json(ws)),
    }
}

/// A command: `name`, `parameters`, `directives` and `children`.
pub open spec fn command_json(c: CommandV) -> JsonValueV
    decreases c, 0nat,
{
    JsonValueV::Object(
        seq![
            ("name"@, JsonValueV::Text(c.name)),
            ("parameters"@, JsonValueV::Array(c.parameters.map_values(|p: ParameterV| parameter_json(p)))),
            ("directives"@, JsonValueV::Array(c.directives.map_values(|d: DirectiveV| directive_json(d)))),
            ("children"@, JsonValueV::Array(commands_json(c.children))),
        ],
    )
}

/// The commands, each as `command_json` gives it.
pub open spec fn commands_json(cs: Seq<CommandV>) -> Seq<JsonValueV>
    decreases cs, 1nat,
{
    if cs.len() == 0 {
        Seq::empty()
    } else {
        seq![command_json(cs[0])] + commands_json(cs.subrange(1, cs.len() as int))
    }
}

/// The `k`-th entry is the `k`-th command's.
pub proof fn lemma_commands_json(cs: Seq<CommandV>)
    ensures
        commands_json(cs).len() == cs.len(),
        forall|k: int| 0 <= k < cs.len() ==> #[trigger] commands_json(cs)[k] == command_json(cs[k]),
    decreases cs.len(),
{
    if cs.len() > 0 {
        let rest = cs.subrange(1, cs.len() as int);
        lemma_commands_json(rest);
        assert forall|k: int| 0 <= k < cs.len() implies #[trigger] commands_json(cs)[k]
            == command_json(cs[k]) by {
            if k > 0 {
                assert(commands_json(cs)[k] == commands_json(rest)[k - 1]);
                assert(rest[k - 1] == cs[k]);
            }
        }
    }
}

/// A node of a JSON document: arrays and objects refer to the nodes of
/// their items by position.
enum JsonNode {
    Null,
    Bool(bool),
    Number(usize),
    Text(String),
    Array(Vec<usize>),
    Object(Vec<(String, usize)>),
}

/// The model of a node.
enum JsonNodeV {
    Null,
    Bool(bool),
    Number(nat),
    Text(Seq<char>),
    Array(Seq<int>),
    Object(Seq<(Seq<char>, int)>),
}

impl View for JsonNode {
    type V = JsonNodeV;

    closed spec fn view(&self) -> JsonNodeV {
        match self {
            JsonNode::Null => JsonNodeV::Null,
            JsonNode::Bool(b) => JsonNodeV::Bool(*b),
            JsonNode::Number(n) => JsonNodeV::Number(*n as nat),
            JsonNode::Text(s) => JsonNodeV::Text(s@),
            JsonNode::Array(ix) => JsonNodeV::Array(ix@.map_values(|i: usize| i as int)),
            JsonNode::Object(ps) => JsonNodeV::Object(
                ps@.map_values(|p: (String, usize)| (p.0@, p.1 as int)),
            ),
        }
    }
}

/// A node at position `i` refers only to nodes before it.
spec fn refers_back(n: JsonNodeV, i: int) -> bool {
    match n {
        JsonNodeV::Array(ix) => forall|k: int| 0 <= k < ix.len() ==> 0 <= #[trigger] ix[k] < i,
        JsonNodeV::Object(ps) => forall|k: int| 0 <= k < ps.len() ==> 0 <= #[trigger] ps[k].1 < i,
        _ => true,
    }
}

/// Every node refers only to nodes before it.
spec fn nodes_wf(ns: Seq<JsonNodeV>) -> bool {
    forall|i: int| 0 <= i < ns.len() ==> refers_back(#[trigger] ns[i], i)
}

/// The value of the node at position `i`.
spec fn node_value(ns: Seq<JsonNodeV>, i: int) -> JsonValueV
    decreases i + 1, 0int,
{
    if 0 <= i < ns.len() {
        match ns[i] {
            JsonNodeV::Null => JsonValueV::Null,
            JsonNodeV::Bool(b) => JsonValueV::Bool(b),
            JsonNodeV::Number(n) => JsonValueV::Number(n),
            JsonNodeV::Text(s) => JsonValueV::Text(s),
            JsonNodeV::Array(ix) => JsonValueV::Array(items_value(ns, ix, i)),
            JsonNodeV::Object(ps) => JsonValueV::Object(fields_value(ns, ps, i)),
        }
    } else {
        JsonValueV::Null
    }
}

/// The values of the nodes at the given positions, each below `bound`.
spec fn items_value(ns: Seq<JsonNodeV>, ix: Seq<int>, bound: int) -> Seq<JsonValueV>
    decreases bound, ix.len(),
{
    if ix.len() == 0 {
        Seq::empty()
    } else {
        let j = ix.last();
        items_value(ns, ix.drop_last(), bound).push(
            if 0 <= j < bound {
                node_value(ns, j)
            } else {
                JsonValueV::Null
            },
        )
    }
}

/// The fields whose values are the nodes at the given positions, each below `bound`.
spec fn fields_value(ns: Seq<JsonNodeV>, ps: Seq<(Seq<char>, int)>, bound: int) -> Seq<
    (Seq<char>, JsonValueV),
>
    decreases bound, ps.len(),
{
    if ps.len() == 0 {
        Seq::empty()
    } else {
        let j = ps.last().1;
        fields_value(ns, ps.drop_last(), bound).push(
            (
                ps.last().0,
                if 0 <= j < bound {
                    node_value(ns, j)
                } else {
                    JsonValueV::Null
                },
            ),
        )
    }
}

proof fn lemma_items_value(ns: Seq<JsonNodeV>, ix: Seq<int>, bound: int)
    requires
        forall|k: int| 0 <= k < ix.len() ==> 0 <= #[trigger] ix[k] < bound,
    ensures
        items_value(ns, ix, bound) == ix.map_values(|j: int| node_value(ns, j)),
    decreases ix.len(),
{
    if ix.len() > 0 {
        lemma_items_value(ns, ix.drop_last(), bound);
        assert(items_value(ns, ix, bound) =~= ix.map_values(|j: int| node_value(ns, j)));
    } else {
        assert(items_value(ns, ix, bound) =~= ix.map_values(|j: int| node_value(ns, j)));
    }
}

proof fn lemma_fields_value(ns: Seq<JsonNodeV>, ps: Seq<(Seq<char>, int)>, bound: int)
    requires
        forall|k: int| 0 <= k < ps.len() ==> 0 <= #[trigger] ps[k].1 < bound,
    ensures
        fields_value(ns, ps, bound) == ps.map_values(
            |p: (Seq<char>, int)| (p.0, node_value(ns, p.1)),
        ),
    decreases ps.len(),
{
    if ps.len() > 0 {
        lemma_fields_value(ns, ps.drop_last(), bound);
    }
    assert(fields_value(ns, ps, bound) =~= ps.map_values(
        |p: (Seq<char>, int)| (p.0, node_value(ns, p.1)),
    ));
}

/// `b` is `a` with nodes added after it.
spec fn extends(a: Seq<JsonNodeV>, b: Seq<JsonNodeV>) -> bool {
    a.len() <= b.len() && b.subrange(0, a.len() as int) == a
}

/// Adding nodes after a well-formed document keeps the value of each of
/// its nodes.
proof fn lemma_frame(a: Seq<JsonNodeV>, b: Seq<JsonNodeV>, j: int)
    requires
        nodes_wf(a),
        extends(a, b),
        0 <= j < a.len(),
    ensures
        node_value(b, j) == node_value(a, j),
    decreases j,
{
    assert(b[j] == b.subrange(0, a.len() as int)[j]);
    assert(refers_back(a[j], j));
    match a[j] {
        JsonNodeV::Array(ix) => {
            lemma_items_value(a, ix, j);
            lemma_items_value(b, ix, j);
            assert forall|k: int| 0 <= k < ix.len() implies node_value(b, #[trigger] ix[k])
                == node_value(a, ix[k]) by {
                lemma_frame(a, b, ix[k]);
            }
            assert(ix.map_values(|i: int| node_value(b, i)) =~= ix.map_values(
                |i: int| node_value(a, i),
            ));
        },
        JsonNodeV::Object(ps) => {
            lemma_fields_value(a, ps, j);
            lemma_fields_value(b, ps, j);
            assert forall|k: int| 0 <= k < ps.len() implies node_value(b, #[trigger] ps[k].1)
                == node_value(a, ps[k].1) by {
                lemma_frame(a, b, ps[k].1);
            }
            assert(ps.map_values(|p: (Seq<char>, int)| (p.0, node_value(b, p.1))) =~= ps.map_values(
                |p: (Seq<char>, int)| (p.0, node_value(a, p.1)),
            ));
        },
        _ => {},
    }
}

/// A JSON document built node by node; its value is that of its last node.
struct JsonDoc {
    nodes: Vec<JsonNode>,
}

impl JsonDoc {
    spec fn nodes_v(&self) -> Seq<JsonNodeV> {
        self.nodes@.map_values(|n: JsonNode| n@)
    }

    spec fn at(&self, i: int) -> JsonValueV {
        node_value(self.nodes_v(), i)
    }

    spec fn wf(&self) -> bool {
        nodes_wf(self.nodes_v())
    }

    /// What `d` keeps of `self`: its nodes, and so their values.
    spec fn kept_by(&self, d: &JsonDoc) -> bool {
        &&& d.wf()
        &&& self.nodes_v().len() <= d.nodes_v().len()
        &&& forall|j: int| 0 <= j < self.nodes_v().len() ==> #[trigger] d.at(j) == self.at(j)
    }

    fn new() -> (d: JsonDoc)
        ensures
            d.wf(),
            d.nodes_v().len() == 0,
    {
        let d = JsonDoc { nodes: Vec::new() };
        assert(d.nodes_v() =~= Seq::<JsonNodeV>::empty());
        d
    }

    /// Adds a node; it becomes the last one.
    fn add(&mut self, n: JsonNode) -> (i: usize)
        requires
            old(self).wf(),
            refers_back(n@, old(self).nodes_v().len() as int),
        ensures
            final(self).nodes_v() == old(self).nodes_v().push(n@),
            i == old(self).nodes_v().len(),
            old(self).kept_by(final(self)),
    {
        let ghost a = self.nodes_v();
        let i = self.nodes.len();
        self.nodes.push(n);
        proof {
            let b = self.nodes_v();
            assert(b =~= a.push(n@));
            assert(b.subrange(0, a.len() as int) =~= a);
            assert forall|j: int| 0 <= j < b.len() implies refers_back(#[trigger] b[j], j) by {
                if j < a.len() {
                    assert(b[j] == a[j]);
                }
            }
            assert forall|j: int| 0 <= j < a.len() implies #[trigger] node_value(b, j)
                == node_value(a, j) by {
                lemma_frame(a, b, j);
            }
        }
        i
    }
}

impl View for JsonDoc {
    type V = JsonValueV;

    closed spec fn view(&self) -> JsonValueV {
        node_value(self.nodes_v(), self.nodes_v().len() - 1)
    }
}

/// `b` keeps what `a` holds, and its node `i` has the value `v`.
spec fn built(a: JsonDoc, b: JsonDoc, i: usize, v: JsonValueV) -> bool {
    &&& a.kept_by(&b)
    &&& (i as int) < b.nodes_v().len()
    &&& b.at(i as int) == v
}

/// The key of a field, and the position of its value.
fn field(key: &str, i: usize) -> (p: (String, usize))
    ensures
        p.0@ == key@,
        p.1 == i,
{
    (String::from_str(key), i)
}

fn add_leaf(doc: &mut JsonDoc, n: JsonNode) -> (i: usize)
    requires
        old(doc).wf(),
        !(n is Array),
        !(n is Object),
    ensures
        built(*old(doc), *final(doc), i, node_value(seq![n@], 0)),
{
    let ghost a = doc.nodes_v();
    let ghost nv = n@;
    let i = doc.add(n);
    proof {
        assert(doc.nodes_v()[i as int] == nv);
    }
    i
}

fn add_text(doc: &mut JsonDoc, s: &String) -> (i: usize)
    requires
        old(doc).wf(),
    ensures
        built(*old(doc), *final(doc), i, JsonValueV::Text(s@)),
{
    add_leaf(doc, JsonNode::Text(s.clone()))
}

fn add_opt_text(doc: &mut JsonDoc, o: &Option<String>) -> (i: usize)
    requires
        old(doc).wf(),
    ensures
        built(*old(doc), *final(doc), i, opt_text_json(opt_view(*o))),
{
    match o {
        Some(s) => add_text(doc, s),
        None => add_leaf(doc, JsonNode::Null),
    }
}

/// Adds an array of the nodes at the given positions.
fn add_array(doc: &mut JsonDoc, ix: Vec<usize>) -> (i: usize)
    requires
        old(doc).wf(),
        forall|k: int| 0 <= k < ix@.len() ==> (#[trigger] ix@[k] as int) < old(doc).nodes_v().len(),
    ensures
        built(
            *old(doc),
            *final(doc),
            i,
            JsonValueV::Array(ix@.map_values(|j: usize| old(doc).at(j as int))),
        ),
        i as int == final(doc).nodes_v().len() - 1,
{
    let ghost a = *doc;
    let ghost ixv = ix@.map_values(|j: usize| j as int);
    let ghost want = ix@.map_values(|j: usize| a.at(j as int));
    let n = JsonNode::Array(ix);
    assert(n@ == JsonNodeV::Array(ixv));
    let i = doc.add(n);
    proof {
        let ns = doc.nodes_v();
        assert(ns[i as int] == JsonNodeV::Array(ixv));
        lemma_items_value(ns, ixv, i as int);
        assert forall|k: int| 0 <= k < ixv.len() implies node_value(ns, #[trigger] ixv[k])
            == want[k] by {
            assert(doc.at(ixv[k]) == a.at(ixv[k]));
        }
        assert(ixv.map_values(|j: int| node_value(ns, j)) =~= want);
    }
    i
}

/// Adds an object of the given keys, each with the node at its position.
fn add_object(doc: &mut JsonDoc, ps: Vec<(String, usize)>) -> (i: usize)
    requires
        old(doc).wf(),
        forall|k: int| 0 <= k < ps@.len() ==> (#[trigger] ps@[k].1 as int) < old(doc).nodes_v().len(),
    ensures
        built(
            *old(doc),
            *final(doc),
            i,
            JsonValueV::Object(ps@.map_values(|p: (String, usize)| (p.0@, old(doc).at(p.1 as int)))),
        ),
{
    let ghost a = *doc;
    let ghost psv = ps@.map_values(|p: (String, usize)| (p.0@, p.1 as int));
    let ghost want = ps@.map_values(|p: (String, usize)| (p.0@, a.at(p.1 as int)));
    let n = JsonNode::Object(ps);
    assert(n@ == JsonNodeV::Object(psv));
    let i = doc.add(n);
    proof {
        let ns = doc.nodes_v();
        assert(ns[i as int] == JsonNodeV::Object(psv));
        lemma_fields_value(ns, psv, i as int);
        assert forall|k: int| 0 <= k < psv.len() implies node_value(ns, #[trigger] psv[k].1)
            == a.at(psv[k].1) by {
            assert(doc.at(psv[k].1) == a.at(psv[k].1));
        }
        assert(psv.map_values(|p: (Seq<char>, int)| (p.0, node_value(ns, p.1))) =~= want);
    }
    i
}

/// Adds the object with one field.
fn add_single(doc: &mut JsonDoc, key: &str, v: usize) -> (i: usize)
    requires
        old(doc).wf(),
        (v as int) < old(doc).nodes_v().len(),
    ensures
        built(*old(doc), *final(doc), i, single_json(key@, old(doc).at(v as int))),
{
    let mut ps: Vec<(String, usize)> = Vec::new();
    ps.push(field(key, v));
    let ghost a = *doc;
    let i = add_object(doc, ps);
    proof {
        assert(ps@.map_values(|p: (String, usize)| (p.0@, a.at(p.1 as int))) =~= seq![
            (key@, a.at(v as int)),
        ]);
    }
    i
}

/// Adds an array of texts.
fn add_texts(doc: &mut JsonDoc, v: &Vec<String>) -> (i: usize)
    requires
        old(doc).wf(),
    ensures
        built(*old(doc), *final(doc), i, texts_json(strings_view(v@))),
{
    let ghost a = *doc;
    let mut ix: Vec<usize> = Vec::new();
    let mut k: usize = 0;
    while k < v.len()
        invariant
            k <= v@.len(),
            ix@.len() == k,
            a.kept_by(doc),
            forall|m: int| 0 <= m < k ==> (#[trigger] ix@[m] as int) < doc.nodes_v().len() && doc.at(
                ix@[m] as int,
            ) == JsonValueV::Text(v@[m]@),
        decreases v.len() - k,
    {
        let ghost d0 = *doc;
        let t = add_text(doc, &v[k]);
        ix.push(t);
        k += 1;
    }
    let ghost d1 = *doc;
    let i = add_array(doc, ix);
    proof {
        assert(ix@.map_values(|j: usize| d1.at(j as int)) =~= strings_view(v@).map_values(
            |s: Seq<char>| JsonValueV::Text(s),
        ));
    }
    i
}

fn add_value(doc: &mut JsonDoc, v: &Value) -> (i: usize)
    requires
        old(doc).wf(),
    ensures
        built(*old(doc), *final(doc), i, value_json(v@)),
{
    match v {
        Value::String(s) => add_text(doc, s),
        Value::Bool(b) => add_leaf(doc, JsonNode::Bool(*b)),
        Value::Number(n) => add_text(doc, n),
        Value::Array(xs) => add_texts(doc, xs),
    }
}

fn add_parameter(doc: &mut JsonDoc, p: &Parameter) -> (i: usize)
    requires
        old(doc).wf(),
    ensures
        built(*old(doc), *final(doc), i, parameter_json(p@)),
{
    let ghost a = *doc;
    let n = add_text(doc, &p.name);
    let t = add_text(doc, &p.param_type);
    let b = add_leaf(doc, JsonNode::Bool(p.is_named));
    let al = add_opt_text(doc, &p.alias);
    let d = match &p.default {
        Some(v) => add_value(doc, v),
        None => add_leaf(doc, JsonNode::Null),
    };
    let mut ps: Vec<(String, usize)> = Vec::new();
    ps.push(field("name", n));
    ps.push(field("type", t));
    ps.push(field("named", b));
    ps.push(field("alias", al));
    ps.push(field("default", d));
    match &p.kind {
        ParamKind::Wildcard { count, .. } => {
            let w = add_leaf(doc, JsonNode::Bool(true));
            let c = match count {
                Some(k) => add_leaf(doc, JsonNode::Number(*k)),
                None => add_leaf(doc, JsonNode::Null),
            };
            ps.push(field("wildcard", w));
            ps.push(field("count", c));
        },
        ParamKind::Normal => {},
    }
    let ghost d1 = *doc;
    let i = add_object(doc, ps);
    proof {
        let pv = p@;
        let got = ps@.map_values(|q: (String, usize)| (q.0@, d1.at(q.1 as int)));
        assert(got =~= match parameter_json(pv) {
            JsonValueV::Object(f) => f,
            _ => Seq::empty(),
        });
    }
    i
}

fn add_script(doc: &mut JsonDoc, s: &String, os: &Option<String>, hide: bool) -> (i: usize)
    requires
        old(doc).wf(),
    ensures
        built(*old(doc), *final(doc), i, script_json(s@, opt_view(*os), hide)),
{
    let t = add_text(doc, s);
    let o = add_opt_text(doc, os);
    let h = add_leaf(doc, JsonNode::Bool(hide));
    let mut ps: Vec<(String, usize)> = Vec::new();
    ps.push(field("script", t));
    ps.push(field("os", o));
    ps.push(field("hide", h));
    let ghost d1 = *doc;
    let i = add_object(doc, ps);
    proof {
        assert(ps@.map_values(|q: (String, usize)| (q.0@, d1.at(q.1 as int))) =~= seq![
            ("script"@, JsonValueV::Text(s@)),
            ("os"@, opt_text_json(opt_view(*os))),
            ("hide"@, JsonValueV::Bool(hide)),
        ]);
    }
    i
}

fn add_directive(doc: &mut JsonDoc, d: &Directive) -> (i: usize)
    requires
        old(doc).wf(),
    ensures
        built(*old(doc), *final(doc), i, directive_json(d@)),
{
    match d {
        Directive::Desc(s) => {
            let v = add_text(doc, s);
            add_single(doc, "desc", v)
        },
        Directive::Cwd(s) => {
            let v = add_text(doc, s);
            add_single(doc, "cwd", v)
        },
        Directive::Env(k, val, h) => {
            let mut t = k.clone();
            t.append("=");
            t.append(val.as_str());
            if *h {
                t.append(" (hidden)");
            }
            proof {
                if !*h {
                    assert(t@ =~= k@ + "="@ + val@ + Seq::<char>::empty());
                }
            }
            let v = add_text(doc, &t);
            add_single(doc, "env", v)
        },
        Directive::EnvFile(p, _) => {
            let v = add_text(doc, p);
            add_single(doc, "env_file", v)
        },
        Directive::Script(s, os, h) => {
            let v = add_script(doc, s, os, *h);
            add_single(doc, "script", v)
        },
        Directive::Before(s, os, h) => {
            let v = add_script(doc, s, os, *h);
            add_single(doc, "before", v)
        },
        Directive::After(s, os, h) => {
            let v = add_script(doc, s, os, *h);
            add_single(doc, "after", v)
        },
        Directive::Fallback(s, os, h) => {
            let v = add_script(doc, s, os, *h);
            add_single(doc, "fallback", v)
        },
        Directive::Finally(s, os, h) => {
            let v = add_script(doc, s, os, *h);
            add_single(doc, "finally", v)
        },
        Directive::Depends(deps, parallel) => {
            let mut paths: Vec<String> = Vec::new();
            let mut k: usize = 0;
            while k < deps.len()
                invariant
                    k <= deps@.len(),
                    strings_view(paths@) == deps@.take(k as int).map_values(
                        |x: crate::ast::Dependency| x@.command_path,
                    ),
                decreases deps.len() - k,
            {
                let ghost before = strings_view(paths@);
                paths.push(deps[k].command_path.clone());
                assert(strings_view(paths@) =~= before.push(deps@[k as int]@.command_path));
                assert(deps@.take(k + 1).map_values(|x: crate::ast::Dependency| x@.command_path)
                    =~= deps@.take(k as int).map_values(
                    |x: crate::ast::Dependency| x@.command_path,
                ).push(deps@[k as int]@.command_path));
                k += 1;
            }
            proof {
                assert(deps@.take(deps@.len() as int) =~= deps@);
                assert(deps@.map_values(|x: crate::ast::Dependency| x@.command_path) =~= deps@.map_values(
                    |x: crate::ast::Dependency| x@,
                ).map_values(|dv: DependencyV| dv.command_path));
            }
            let ghost a = *doc;
            let c = add_texts(doc, &paths);
            let pl = add_leaf(doc, JsonNode::Bool(*parallel));
            let mut ps: Vec<(String, usize)> = Vec::new();
            ps.push(field("commands", c));
            ps.push(field("parallel", pl));
            let ghost d1 = *doc;
            let o = add_object(doc, ps);
            proof {
                assert(ps@.map_values(|q: (String, usize)| (q.0@, d1.at(q.1 as int))) =~= seq![
                    ("commands"@, texts_json(strings_view(paths@))),
                    ("parallel"@, JsonValueV::Bool(*parallel)),
                ]);
            }
            add_single(doc, "depends", o)
        },
        Directive::Privileged(b) => {
            let v = add_leaf(doc, JsonNode::Bool(*b));
            add_single(doc, "privileged", v)
        },
        Directive::RequireConfirm(m) => {
            let v = add_text(doc, m);
            add_single(doc, "require_confirm", v)
        },
        Directive::Logs(p, f) => {
            let mut t = p.clone();
            t.append(" (");
            t.append(f.as_str());
            t.append(")");
            let v = add_text(doc, &t);
            add_single(doc, "logs", v)
        },
        Directive::Validate(tg, r) => {
            let mut t = tg.clone();
            t.append(": ");
            t.append(r.as_str());
            let v = add_text(doc, &t);
            add_single(doc, "validate", v)
        },
        Directive::Watch(ws) => {
            let v = add_texts(doc, ws);
            add_single(doc, "watch", v)
        },
    }
}

fn add_command(doc: &mut JsonDoc, c: &Command) -> (i: usize)
    requires
        old(doc).wf(),
    ensures
        built(*old(doc), *final(doc), i, command_json(c@)),
    decreases cmd_depth(c@),
{
    let ghost a = *doc;
    let ghost cv = c@;
    let n = add_text(doc, &c.name);
    // parameters
    let mut pix: Vec<usize> = Vec::new();
    let mut k: usize = 0;
    while k < c.parameters.len()
        invariant
            k <= c.parameters@.len(),
            pix@.len() == k,
            a.kept_by(doc),
            (n as int) < doc.nodes_v().len(),
            doc.at(n as int) == JsonValueV::Text(cv.name),
            cv == c@,
            forall|m: int| 0 <= m < k ==> (#[trigger] pix@[m] as int) < doc.nodes_v().len()
                && doc.at(pix@[m] as int) == parameter_json(cv.parameters[m]),
        decreases c.parameters.len() - k,
    {
        let t = add_parameter(doc, &c.parameters[k]);
        pix.push(t);
        k += 1;
    }
    let ghost d1 = *doc;
    let pa = add_array(doc, pix);
    assert(pix@.map_values(|j: usize| d1.at(j as int)) =~= cv.parameters.map_values(
        |p: ParameterV| parameter_json(p),
    ));
    // directives
    let mut dix: Vec<usize> = Vec::new();
    let mut k: usize = 0;
    while k < c.directives.len()
        invariant
            k <= c.directives@.len(),
            dix@.len() == k,
            a.kept_by(doc),
            (n as int) < doc.nodes_v().len(),
            doc.at(n as int) == JsonValueV::Text(cv.name),
            (pa as int) < doc.nodes_v().len(),
            doc.at(pa as int) == JsonValueV::Array(
                cv.parameters.map_values(|p: ParameterV| parameter_json(p)),
            ),
            cv == c@,
            forall|m: int| 0 <= m < k ==> (#[trigger] dix@[m] as int) < doc.nodes_v().len()
                && doc.at(dix@[m] as int) == directive_json(cv.directives[m]),
        decreases c.directives.len() - k,
    {
        let t = add_directive(doc, &c.directives[k]);
        dix.push(t);
        k += 1;
    }
    let ghost d2 = *doc;
    let da = add_array(doc, dix);
    assert(dix@.map_values(|j: usize| d2.at(j as int)) =~= cv.directives.map_values(
        |d: DirectiveV| directive_json(d),
    ));
    // children
    let ghost kv = commands_view(c.children@);
    proof {
        lemma_commands_view(c.children@);
        assert(kv =~= cv.children);
        lemma_kids_depth(kv, 0);
        lemma_commands_json(kv);
    }
    let mut kix: Vec<usize> = Vec::new();
    let mut k: usize = 0;
    while k < c.children.len()
        invariant
            k <= c.children@.len(),
            kix@.len() == k,
            a.kept_by(doc),
            (n as int) < doc.nodes_v().len(),
            doc.at(n as int) == JsonValueV::Text(cv.name),
            (pa as int) < doc.nodes_v().len(),
            doc.at(pa as int) == JsonValueV::Array(
                cv.parameters.map_values(|p: ParameterV| parameter_json(p)),
            ),
            (da as int) < doc.nodes_v().len(),
            doc.at(da as int) == JsonValueV::Array(
                cv.directives.map_values(|d: DirectiveV| directive_json(d)),
            ),
            cv == c@,
            kv == cv.children,
            kv.len() == c.children@.len(),
            forall|j: int| 0 <= j < kv.len() ==> #[trigger] kv[j] == c.children@[j]@,
            forall|j: int| 0 <= j < kv.len() ==> #[trigger] cmd_depth(kv[j]) < cmd_depth(cv),
            forall|m: int| 0 <= m < k ==> (#[trigger] kix@[m] as int) < doc.nodes_v().len()
                && doc.at(kix@[m] as int) == command_json(kv[m]),
        decreases c.children.len() - k,
    {
        assert(cmd_depth(kv[k as int]) < cmd_depth(cv));
        let t = add_command(doc, &c.children[k]);
        kix.push(t);
        k += 1;
    }
    let ghost d3 = *doc;
    let ka = add_array(doc, kix);
    assert(kix@.map_values(|j: usize| d3.at(j as int)) =~= commands_json(kv));
    let mut ps: Vec<(String, usize)> = Vec::new();
    ps.push(field("name", n));
    ps.push(field("parameters", pa));
    ps.push(field("directives", da));
    ps.push(field("children", ka));
    let ghost d4 = *doc;
    let i = add_object(doc, ps);
    proof {
        assert(ps@.map_values(|q: (String, usize)| (q.0@, d4.at(q.1 as int))) =~= seq![
            ("name"@, JsonValueV::Text(cv.name)),
            ("parameters"@, JsonValueV::Array(cv.parameters.map_values(|p: ParameterV| parameter_json(p)))),
            ("directives"@, JsonValueV::Array(cv.directives.map_values(|d: DirectiveV| directive_json(d)))),
            ("children"@, JsonValueV::Array(commands_json(cv.children))),
        ]);
    }
    i
}

/// The `--show json` text of the commands: `serde_json`'s pretty text of
/// the array of their `command_json` values.
pub fn commands_json_text(commands: &[Command]) -> (s: String)
    ensures
        s@ == json_pretty_text(JsonValueV::Array(commands_json(commands_view(commands@)))),
{
    let mut doc = JsonDoc::new();
    let ghost kv = commands_view(commands@);
    proof {
        lemma_commands_view(commands@);
        lemma_commands_json(kv);
    }
    let mut ix: Vec<usize> = Vec::new();
    let mut k: usize = 0;
    while k < commands.len()
        invariant
            k <= commands@.len(),
            ix@.len() == k,
            doc.wf(),
            kv == commands_view(commands@),
            kv.len() == commands@.len(),
            forall|j: int| 0 <= j < kv.len() ==> #[trigger] kv[j] == commands@[j]@,
            forall|m: int| 0 <= m < k ==> (#[trigger] ix@[m] as int) < doc.nodes_v().len()
                && doc.at(ix@[m] as int) == command_json(kv[m]),
        decreases commands.len() - k,
    {
        let t = add_command(&mut doc, &commands[k]);
        ix.push(t);
        k += 1;
    }
    let ghost d1 = doc;
    let i = add_array(&mut doc, ix);
    proof {
        assert(ix@.map_values(|j: usize| d1.at(j as int)) =~= commands_json(kv));
        assert(i as int == doc.nodes_v().len() - 1);
    }
    json_pretty_string(&doc)
}

/// Builds the `serde_json::Value` of each node in order (an array or an
/// object made of the values already built for the nodes it refers to)
/// and writes the last one with `serde_json::to_string_pretty`.
/// Claimed: the text is `json_pretty_text` of the document's value.
#[verifier::external_body]
fn json_pretty_string(doc: &JsonDoc) -> (s: String)
    requires
        doc.wf(),
    ensures
        s@ == json_pretty_text(doc@),
{
    let mut built: Vec<Json> = Vec::new();
    for n in doc.nodes.iter() {
        built.push(match n {
            JsonNode::Null => Json::Null,
            JsonNode::Bool(b) => Json::Bool(*b),
            JsonNode::Number(k) => Json::from(*k),
            JsonNode::Text(t) => Json::from(t.as_str()),
            JsonNode::Array(ix) => Json::Array(ix.iter().map(|i| built[*i].clone()).collect()),
            JsonNode::Object(ps) => Json::Object(ps.iter().map(|(k, i)| (k.clone(), built[*i].clone())).collect()),
        });
    }
    serde_json::to_string_pretty(&built.pop().unwrap_or_default()).unwrap_or_default()
}

} // verus!
