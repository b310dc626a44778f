//! The command-line arguments that a command accepts, derived from its
//! parameters: named parameters become `--name` options (booleans as flags
//! that may take `true`/`false`), the others positional arguments numbered
//! from 1, and wildcards positional segments of several values. A group
//! with a `default` subcommand also accepts that subcommand's arguments.

use vstd::prelude::*;
use crate::ast::{Command, CommandV, ParamKind, ParamKindV, Parameter, ParameterV, ValueV, assoc_get};
use crate::cli::{CliGenerator, default_pos};
use crate::text::{chars_of, chars_of_string, nat_text, push_all, string_of, usize_text};

verus! {

/// How an argument takes its values.
#[derive(Debug, Clone, Copy)]
pub enum ArgShape {
    /// `--name`, `--name true` or `--name false`.
    BoolFlag,
    /// `--name value`.
    Value,
    /// One positional value.
    Positional,
    /// A wildcard segment of exactly this many values.
    WildcardExact(usize),
    /// A wildcard segment of one or more values; when it is the last
    /// positional argument (`true`) it also takes the rest of the line.
    WildcardRest(bool),
}

/// A command-line argument: its identifier (also its long name for
/// options), its short name, its position (for positional arguments),
/// whether it is required, how it takes values, and its help text.
#[derive(Debug)]
pub struct ArgSpec {
    pub id: String,
    pub short: Option<char>,
    pub index: Option<usize>,
    pub required: bool,
    pub shape: ArgShape,
    pub help: String,
}

/// The model of an argument's shape.
pub enum ShapeV {
    BoolFlag,
    Value,
    Positional,
    Exact(nat),
    Rest(bool),
}

/// The model of an argument.
pub struct ArgSpecV {
    pub id: Seq<char>,
    pub short: Option<char>,
    pub index: Option<nat>,
    pub required: bool,
    pub shape: ShapeV,
    pub help: Seq<char>,
}

impl View for ArgSpec {
    type V = ArgSpecV;

    open spec fn view(&self) -> ArgSpecV {
        ArgSpecV {
            id: self.id@,
            short: self.short,
            index: match self.index {
                Some(i) => Some(i as nat),
                None => None,
            },
            required: self.required,
            shape: match self.shape {
                ArgShape::BoolFlag => ShapeV::BoolFlag,
                ArgShape::Value => ShapeV::Value,
                ArgShape::Positional => ShapeV::Positional,
                ArgShape::WildcardExact(n) => ShapeV::Exact(n as nat),
                ArgShape::WildcardRest(b) => ShapeV::Rest(b),
            },
            help: self.help@,
        }
    }
}

/// The models of the arguments.
pub open spec fn specs_view(s: Seq<ArgSpec>) -> Seq<ArgSpecV> {
    s.map_values(|a: ArgSpec| a@)
}

/// The short name an alias gives: its first character.
pub open spec fn short_of(alias: Option<Seq<char>>) -> Option<char> {
    match alias {
        Some(a) => if a.len() > 0 {
            Some(a[0])
        } else {
            None
        },
        None => None,
    }
}

/// The option for a named parameter, with identifier `id`.
pub open spec fn named_spec(p: ParameterV, id: Seq<char>) -> ArgSpecV {
    if p.param_type == "bool"@ {
        ArgSpecV {
            id,
            short: short_of(p.alias),
            index: None,
            required: false,
            shape: ShapeV::BoolFlag,
            help: "Flag: "@ + p.name + " (true/false, or use without value for true)"@,
        }
    } else if p.default is Some {
        ArgSpecV {
            id,
            short: short_of(p.alias),
            index: None,
            required: false,
            shape: ShapeV::Value,
            help: "Parameter: "@ + p.name + " ("@ + p.param_type + ")"@,
        }
    } else {
        ArgSpecV {
            id,
            short: short_of(p.alias),
            index: None,
            required: true,
            shape: ShapeV::Value,
            help: "Required parameter: "@ + p.name + " ("@ + p.param_type + ")"@,
        }
    }
}

/// The positional argument for a parameter at position `index`.
pub open spec fn positional_spec(p: ParameterV, index: nat) -> ArgSpecV {
    ArgSpecV {
        id: p.name,
        short: None,
        index: Some(index),
        required: p.default is None,
        shape: ShapeV::Positional,
        help: if p.param_type == "bool"@ {
            "Positional argument: "@ + p.name + " (bool)"@
        } else if p.default is Some {
            "Positional argument: "@ + p.name + " ("@ + p.param_type + ")"@
        } else {
            "Required positional argument: "@ + p.name + " ("@ + p.param_type + ")"@
        },
    }
}

/// The positional segment for a wildcard parameter at position `index`
/// (`last` when no positional parameter follows it).
pub open spec fn wildcard_spec(p: ParameterV, index: nat, last: bool) -> ArgSpecV {
    let count = match p.kind {
        ParamKindV::Wildcard { name: _, count } => count,
        ParamKindV::Normal => None,
    };
    match count {
        Some(n) => ArgSpecV {
            id: p.name,
            short: None,
            index: Some(index),
            required: false,
            shape: ShapeV::Exact(n),
            help: "Wildcard positional segment '"@ + p.name + "' capturing exactly "@ + nat_text(n)
                + " argument(s)"@,
        },
        None => ArgSpecV {
            id: p.name,
            short: None,
            index: Some(index),
            required: false,
            shape: ShapeV::Rest(last),
            help: "Wildcard positional segment '"@ + p.name + (if last {
                "' capturing remaining arguments"@
            } else {
                "' capturing one or more arguments"@
            }),
        },
    }
}

/// The parameters that are not named, in order.
pub open spec fn unnamed(ps: Seq<ParameterV>) -> Seq<ParameterV>
    decreases ps.len(),
{
    if ps.len() == 0 {
        Seq::empty()
    } else {
        let rest = unnamed(ps.drop_first());
        if ps[0].is_named {
            rest
        } else {
            seq![ps[0]] + rest
        }
    }
}

/// The identifier of a named parameter: the one reserved in `ids`, else
/// its name.
pub open spec fn id_of(ids: Option<Seq<(Seq<char>, Seq<char>)>>, n: Seq<char>) -> Seq<char> {
    match ids {
        Some(m) => match assoc_get(m, n) {
            Some(v) => v,
            None => n,
        },
        None => n,
    }
}

/// The options of the named parameters, in order.
pub open spec fn named_specs(ps: Seq<ParameterV>, ids: Option<Seq<(Seq<char>, Seq<char>)>>) -> Seq<ArgSpecV>
    decreases ps.len(),
{
    if ps.len() == 0 {
        Seq::empty()
    } else {
        let rest = named_specs(ps.drop_first(), ids);
        if ps[0].is_named {
            seq![named_spec(ps[0], id_of(ids, ps[0].name))] + rest
        } else {
            rest
        }
    }
}

/// The positional arguments of the unnamed parameters `pp`, numbered from
/// `index`; wildcards become segments when `segments` holds.
pub open spec fn positional_specs(pp: Seq<ParameterV>, index: nat, segments: bool) -> Seq<ArgSpecV>
    decreases pp.len(),
{
    if pp.len() == 0 {
        Seq::empty()
    } else {
        let s = if segments && pp[0].kind is Wildcard {
            wildcard_spec(pp[0], index, pp.len() == 1)
        } else {
            positional_spec(pp[0], index)
        };
        seq![s] + positional_specs(pp.drop_first(), index + 1, segments)
    }
}

/// The arguments of a command's own parameters: the named ones, then the
/// positional ones numbered from 1.
pub open spec fn param_specs(ps: Seq<ParameterV>) -> Seq<ArgSpecV> {
    named_specs(ps, None) + positional_specs(unnamed(ps), 1, true)
}

/// The arguments that a group takes for its `default` subcommand (none
/// where it has no such child): the named ones with their reserved
/// identifiers, then all others as plain positional arguments.
pub open spec fn default_specs(c: CommandV, ids: Seq<(Seq<char>, Seq<char>)>) -> Seq<ArgSpecV> {
    let i = default_pos(c.children);
    if c.children.len() > 0 && 0 <= i < c.children.len() {
        let ps = c.children[i].parameters;
        named_specs(ps, Some(ids)) + positional_specs(unnamed(ps), 1, false)
    } else {
        Seq::empty()
    }
}

/// `"a" + b + "c"` as text.
fn text3(a: &str, b: &Vec<char>, c: &str) -> (out: Vec<char>)
    ensures
        out@ == a@ + b@ + c@,
{
    let mut m = chars_of(a);
    push_all(&mut m, b);
    push_all(&mut m, &chars_of(c));
    m
}

/// `"a" + b + " (" + t + ")"` as text.
fn typed_help(a: &str, name: &Vec<char>, t: &Vec<char>) -> (out: Vec<char>)
    ensures
        out@ == a@ + name@ + " ("@ + t@ + ")"@,
{
    let mut m = chars_of(a);
    push_all(&mut m, name);
    push_all(&mut m, &chars_of(" ("));
    push_all(&mut m, t);
    push_all(&mut m, &chars_of(")"));
    m
}

/// The short name an alias gives.
fn short_name(alias: &Option<String>) -> (r: Option<char>)
    ensures
        r == short_of(crate::ast::opt_view(*alias)),
{
    match alias {
        Some(a) => {
            let v = chars_of_string(a);
            if v.len() > 0 {
                Some(v[0])
            } else {
                None
            }
        },
        None => None,
    }
}

/// Tests whether the parameter's type is `bool`.
fn is_bool(p: &Parameter) -> (b: bool)
    ensures
        b == (p@.param_type == "bool"@),
{
    crate::text::eq(&chars_of_string(&p.param_type), &chars_of("bool"))
}

impl CliGenerator {
    /// The option for a named parameter, with identifier `param_id`.
    pub fn parameter_to_arg_with_id(param: &Parameter, param_id: &str) -> (a: ArgSpec)
        ensures
            a@ == named_spec(param@, param_id@),
    {
        let name = chars_of_string(&param.name);
        let t = chars_of_string(&param.param_type);
        let short = short_name(&param.alias);
        if is_bool(param) {
            ArgSpec {
                id: String::from_str(param_id),
                short,
                index: None,
                required: false,
                shape: ArgShape::BoolFlag,
                help: string_of(&text3("Flag: ", &name, " (true/false, or use without value for true)")),
            }
        } else if param.default.is_some() {
            ArgSpec {
                id: String::from_str(param_id),
                short,
                index: None,
                required: false,
                shape: ArgShape::Value,
                help: string_of(&typed_help("Parameter: ", &name, &t)),
            }
        } else {
            ArgSpec {
                id: String::from_str(param_id),
                short,
                index: None,
                required: true,
                shape: ArgShape::Value,
                help: string_of(&typed_help("Required parameter: ", &name, &t)),
            }
        }
    }

    /// The positional argument for a parameter at position `index`.
    pub fn parameter_to_arg_positional(param: &Parameter, index: usize) -> (a: ArgSpec)
        ensures
            a@ == positional_spec(param@, index as nat),
    {
        let name = chars_of_string(&param.name);
        let t = chars_of_string(&param.param_type);
        let help = if is_bool(param) {
            text3("Positional argument: ", &name, " (bool)")
        } else if param.default.is_some() {
            typed_help("Positional argument: ", &name, &t)
        } else {
            typed_help("Required positional argument: ", &name, &t)
        };
        ArgSpec {
            id: param.name.clone(),
            short: None,
            index: Some(index),
            required: param.default.is_none(),
            shape: ArgShape::Positional,
            help: string_of(&help),
        }
    }

    /// The positional segment for a wildcard parameter.
    fn wildcard_arg(param: &Parameter, index: usize, last: bool) -> (a: ArgSpec)
        ensures
            a@ == wildcard_spec(param@, index as nat, last),
    {
        let name = chars_of_string(&param.name);
        let count = match &param.kind {
            ParamKind::Wildcard { name: _, count } => *count,
            ParamKind::Normal => None,
        };
        match count {
            Some(n) => {
                let mut h = text3("Wildcard positional segment '", &name, "' capturing exactly ");
                push_all(&mut h, &usize_text(n));
                push_all(&mut h, &chars_of(" argument(s)"));
                ArgSpec {
                    id: param.name.clone(),
                    short: None,
                    index: Some(index),
                    required: false,
                    shape: ArgShape::WildcardExact(n),
                    help: string_of(&h),
                }
            },
            None => {
                let h = if last {
                    text3("Wildcard positional segment '", &name, "' capturing remaining arguments")
                } else {
                    text3("Wildcard positional segment '", &name, "' capturing one or more arguments")
                };
                ArgSpec {
                    id: param.name.clone(),
                    short: None,
                    index: Some(index),
                    required: false,
                    shape: ArgShape::WildcardRest(last),
                    help: string_of(&h),
                }
            },
        }
    }

    /// The options of the named parameters (with the reserved identifiers
    /// where `reserved`), appended to `out`.
    fn push_named(&self, out: &mut Vec<ArgSpec>, ps: &Vec<Parameter>, reserved: bool)
        ensures
            specs_view(final(out)@) == specs_view(old(out)@) + named_specs(
                ps@.map_values(|p: Parameter| p@),
                if reserved {
                    Some(self.param_ids_v())
                } else {
                    None
                },
            ),
    {
        let ghost pv = ps@.map_values(|p: Parameter| p@);
        let ghost ids = if reserved {
            Some(self.param_ids_v())
        } else {
            None
        };
        let ghost o0 = specs_view(out@);
        let mut k: usize = ps.len();
        let mut tail: Vec<ArgSpec> = Vec::new();
        assert(pv.skip(pv.len() as int) =~= Seq::<ParameterV>::empty());
        while k > 0
            invariant
                k <= pv.len(),
                pv == ps@.map_values(|p: Parameter| p@),
                specs_view(tail@) == named_specs(pv.skip(k as int), ids),
                ids == if reserved {
                    Some(self.param_ids_v())
                } else {
                    None
                },
            decreases k,
        {
            k -= 1;
            let ghost before = specs_view(tail@);
            assert(pv.skip(k as int).drop_first() =~= pv.skip(k + 1));
            assert(pv.skip(k as int)[0] == pv[k as int]);
            let p = &ps[k];
            if p.is_named {
                let id = if reserved {
                    self.get_param_id(p.name.as_str())
                } else {
                    p.name.clone()
                };
                let a = Self::parameter_to_arg_with_id(p, id.as_str());
                tail.insert(0, a);
                assert(specs_view(tail@) =~= seq![named_spec(pv[k as int], id_of(ids, pv[k as int].name))]
                    + before);
            }
        }
        assert(pv.skip(0) =~= pv);
        let ghost t = specs_view(tail@);
        let mut j: usize = 0;
        let n = tail.len();
        while j < n
            invariant
                j <= n,
                n == t.len(),
                tail@.len() == n,
                forall|x: int| 0 <= x < n ==> #[trigger] tail@[x]@ == t[x],
                specs_view(out@) == o0 + t.take(j as int),
            decreases n - j,
        {
            let ghost before = specs_view(out@);
            let a = copy_spec(&tail[j]);
            out.push(a);
            assert(specs_view(out@) =~= before.push(t[j as int]));
            assert(t.take(j + 1) =~= t.take(j as int).push(t[j as int]));
            j += 1;
        }
        assert(t.take(n as int) =~= t);
    }

    /// The positional arguments of the unnamed parameters, numbered from 1,
    /// appended to `out`.
    fn push_positional(out: &mut Vec<ArgSpec>, ps: &Vec<Parameter>, segments: bool)
        requires
            ps@.len() < usize::MAX,
        ensures
            specs_view(final(out)@) == specs_view(old(out)@) + positional_specs(
                unnamed(ps@.map_values(|p: Parameter| p@)),
                1,
                segments,
            ),
    {
        let ghost pv = ps@.map_values(|p: Parameter| p@);
        let ghost o0 = specs_view(out@);
        let mut index: usize = 1;
        let mut i: usize = 0;
        assert(pv.skip(0) =~= pv);
        while i < ps.len()
            invariant
                i <= pv.len(),
                pv.len() < usize::MAX,
                pv == ps@.map_values(|p: Parameter| p@),
                1 <= index <= i + 1,
                o0 + positional_specs(unnamed(pv), 1, segments) == specs_view(out@) + positional_specs(
                    unnamed(pv.skip(i as int)),
                    index as nat,
                    segments,
                ),
            decreases pv.len() - i,
        {
            assert(pv.skip(i as int).drop_first() =~= pv.skip(i + 1));
            assert(pv.skip(i as int)[0] == pv[i as int]);
            let p = &ps[i];
            if !p.is_named {
                let rest_unnamed = Self::has_unnamed_after(ps, i + 1);
                let ghost before = specs_view(out@);
                let is_wild = match &p.kind {
                    ParamKind::Wildcard { .. } => true,
                    ParamKind::Normal => false,
                };
                let a = if segments && is_wild {
                    Self::wildcard_arg(p, index, !rest_unnamed)
                } else {
                    Self::parameter_to_arg_positional(p, index)
                };
                proof {
                    lemma_unnamed_empty(pv.skip(i + 1));
                }
                out.push(a);
                assert(specs_view(out@) =~= before.push(a@));
                let ghost u = unnamed(pv.skip(i + 1));
                assert(unnamed(pv.skip(i as int)) == seq![pv[i as int]] + u);
                assert((seq![pv[i as int]] + u)[0] == pv[i as int]);
                assert((seq![pv[i as int]] + u).drop_first() =~= u);
                assert(positional_specs(seq![pv[i as int]] + u, index as nat, segments) == seq![a@]
                    + positional_specs(u, (index + 1) as nat, segments));
                assert(before.push(a@) + positional_specs(unnamed(pv.skip(i + 1)), (index + 1) as nat, segments)
                    =~= before + positional_specs(unnamed(pv.skip(i as int)), index as nat, segments));
                index += 1;
            }
            i += 1;
        }
        assert(pv.skip(i as int) =~= Seq::<ParameterV>::empty());
        assert(specs_view(out@) + Seq::<ArgSpecV>::empty() =~= specs_view(out@));
    }

    /// Whether some parameter from position `from` on is not named.
    fn has_unnamed_after(ps: &Vec<Parameter>, from: usize) -> (b: bool)
        requires
            from <= ps@.len(),
        ensures
            b == (unnamed(ps@.map_values(|p: Parameter| p@).skip(from as int)).len() > 0),
    {
        let ghost pv = ps@.map_values(|p: Parameter| p@);
        let mut k: usize = ps.len();
        assert(pv.skip(pv.len() as int) =~= Seq::<ParameterV>::empty());
        while k > from
            invariant
                from <= k <= pv.len(),
                pv == ps@.map_values(|p: Parameter| p@),
                unnamed(pv.skip(k as int)).len() == 0,
            decreases k,
        {
            k -= 1;
            assert(pv.skip(k as int).drop_first() =~= pv.skip(k + 1));
            assert(pv.skip(k as int)[0] == pv[k as int]);
            if !ps[k].is_named {
                proof {
                    lemma_unnamed_nonempty_from(pv, from as int, k as int);
                }
                return true;
            }
        }
        false
    }

    /// The arguments of a command's own parameters (see `param_specs`).
    pub fn add_parameters(parameters: &Vec<Parameter>) -> (r: Vec<ArgSpec>)
        requires
            parameters@.len() < usize::MAX,
        ensures
            specs_view(r@) == param_specs(parameters@.map_values(|p: Parameter| p@)),
    {
        let mut out: Vec<ArgSpec> = Vec::new();
        let ghost pv = parameters@.map_values(|p: Parameter| p@);
        for_named_plain(&mut out, parameters);
        Self::push_positional(&mut out, parameters, true);
        assert(Seq::<ArgSpecV>::empty() + named_specs(pv, None) =~= named_specs(pv, None));
        out
    }

    /// The arguments a group takes for its `default` subcommand (see
    /// `default_specs`).
    pub fn add_default_args_if_needed(&self, command: &Command) -> (r: Vec<ArgSpec>)
        requires
            forall|i: int| 0 <= i < command.children@.len() ==> #[trigger] command.children@[i].parameters@.len()
                < usize::MAX,
        ensures
            specs_view(r@) == default_specs(command@, self.param_ids_v()),
    {
        let mut out: Vec<ArgSpec> = Vec::new();
        if command.children.len() == 0 {
            assert(specs_view(out@) =~= Seq::<ArgSpecV>::empty());
            return out;
        }
        match crate::cli::default_child(command) {
            Some(k) => {
                let d = &command.children[k];
                proof {
                    crate::ast::lemma_commands_view(command.children@);
                }
                assert(command@.children[k as int] == d@);
                let ghost pv = d.parameters@.map_values(|p: Parameter| p@);
                assert(d@.parameters == pv);
                self.push_named(&mut out, &d.parameters, true);
                Self::push_positional(&mut out, &d.parameters, false);
                assert(Seq::<ArgSpecV>::empty() + named_specs(pv, Some(self.param_ids_v())) =~= named_specs(
                    pv,
                    Some(self.param_ids_v()),
                ));
            },
            None => {
                assert(specs_view(out@) =~= Seq::<ArgSpecV>::empty());
            },
        }
        out
    }

    /// All the arguments of a command: those of its own parameters, then
    /// those it takes for its `default` subcommand.
    pub fn command_args(&self, command: &Command) -> (r: Vec<ArgSpec>)
        requires
            command.parameters@.len() < usize::MAX,
            forall|i: int| 0 <= i < command.children@.len() ==> #[trigger] command.children@[i].parameters@.len()
                < usize::MAX,
        ensures
            specs_view(r@) == param_specs(command@.parameters) + default_specs(command@, self.param_ids_v()),
    {
        let mut a = Self::add_parameters(&command.parameters);
        let mut b = self.add_default_args_if_needed(command);
        let ghost av = specs_view(a@);
        let ghost bv = specs_view(b@);
        a.append(&mut b);
        assert(specs_view(a@) =~= av + bv);
        a
    }
}

/// The options of the named parameters under their own names, appended to
/// `out`.
fn for_named_plain(out: &mut Vec<ArgSpec>, ps: &Vec<Parameter>)
    ensures
        specs_view(final(out)@) == specs_view(old(out)@) + named_specs(ps@.map_values(|p: Parameter| p@), None),
{
    let ghost pv = ps@.map_values(|p: Parameter| p@);
    let ghost o0 = specs_view(out@);
    let mut i: usize = 0;
    assert(pv.skip(0) =~= pv);
    assert(o0 + Seq::<ArgSpecV>::empty() =~= o0);
    while i < ps.len()
        invariant
            i <= pv.len(),
            pv == ps@.map_values(|p: Parameter| p@),
            o0 + named_specs(pv, None) == specs_view(out@) + named_specs(pv.skip(i as int), None),
        decreases pv.len() - i,
    {
        assert(pv.skip(i as int).drop_first() =~= pv.skip(i + 1));
        assert(pv.skip(i as int)[0] == pv[i as int]);
        let p = &ps[i];
        if p.is_named {
            let ghost before = specs_view(out@);
            let a = CliGenerator::parameter_to_arg_with_id(p, p.name.as_str());
            out.push(a);
            assert(specs_view(out@) =~= before.push(a@));
            assert(before.push(a@) + named_specs(pv.skip(i + 1), None) =~= before + named_specs(
                pv.skip(i as int),
                None,
            ));
        }
        i += 1;
    }
    assert(pv.skip(i as int) =~= Seq::<ParameterV>::empty());
    assert(specs_view(out@) + Seq::<ArgSpecV>::empty() =~= specs_view(out@));
}

/// A copy of an argument.
fn copy_spec(a: &ArgSpec) -> (c: ArgSpec)
    ensures
        c@ == a@,
{
    ArgSpec {
        id: a.id.clone(),
        short: a.short,
        index: a.index,
        required: a.required,
        shape: a.shape,
        help: a.help.clone(),
    }
}

/// Nothing unnamed is left where the rest is empty.
proof fn lemma_unnamed_empty(ps: Seq<ParameterV>)
    ensures
        ps.len() == 0 ==> unnamed(ps).len() == 0,
{
}

/// An unnamed parameter at `k` makes what follows `from` hold one.
proof fn lemma_unnamed_nonempty_from(pv: Seq<ParameterV>, from: int, k: int)
    requires
        0 <= from <= k < pv.len(),
        !pv[k].is_named,
    ensures
        unnamed(pv.skip(from)).len() > 0,
    decreases k - from,
{
    assert(pv.skip(from)[0] == pv[from]);
    assert(pv.skip(from).drop_first() =~= pv.skip(from + 1));
    if from < k {
        lemma_unnamed_nonempty_from(pv, from + 1, k);
    }
}

} // verus!
