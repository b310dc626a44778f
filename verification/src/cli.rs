//! The command-line front end's view of the parsed configuration: the
//! parameters of default subcommands, and the lookups it shares with the
//! runtime.

use vstd::prelude::*;
use crate::ast::{
    ArgMap, BindingV, Command, CommandV, Constant, Directive, Function, FunctionV, Parameter,
    ParameterV, Value, Variable, commands_view, lemma_commands_view, value_text_of,
};
use crate::directives::HostOs;
use crate::ast::{assoc_get, assoc_insert};
use crate::cli_args::{ArgShape, ArgSpec, ArgSpecV, specs_view};
use crate::text::{chars_of, chars_of_string, join, join_chars, string_of};
use vstd::string::StringExecFns;
use crate::runtime::{
    all_consts, all_env, all_vars, dir_entries_view, find_path, function_pos, parent_dirs,
    parents_of,
};

verus! {

/// Generates a command-line interface from parsed commands.
pub struct CliGenerator {
    commands: Vec<Command>,
    variables: Vec<Variable>,
    constants: Vec<Constant>,
    functions: Vec<Function>,
    default_param_ids: ArgMap,
}

/// The position of the first child named `default`, or -1.
pub open spec fn default_pos(cs: Seq<CommandV>) -> int
    decreases cs.len(),
{
    if cs.len() == 0 {
        -1
    } else if cs[0].name == "default"@ {
        0
    } else {
        let r = default_pos(cs.drop_first());
        if r < 0 {
            -1
        } else {
            r + 1
        }
    }
}

/// The names of the parameters of each top-level command's default
/// subcommand (its first child named `default`), in order.
pub open spec fn default_param_names(cs: Seq<CommandV>) -> Seq<Seq<char>>
    decreases cs.len(),
{
    if cs.len() == 0 {
        Seq::empty()
    } else {
        let rest = default_param_names(cs.drop_last());
        let kids = cs.last().children;
        let i = default_pos(kids);
        if 0 <= i < kids.len() {
            rest + kids[i].parameters.map_values(|p: ParameterV| p.name)
        } else {
            rest
        }
    }
}

/// The identifiers, each name mapped to itself, in order of first insertion.
pub open spec fn ids_of(names: Seq<Seq<char>>) -> Seq<(Seq<char>, Seq<char>)>
    decreases names.len(),
{
    if names.len() == 0 {
        Seq::empty()
    } else {
        crate::ast::assoc_insert(ids_of(names.drop_last()), names.last(), names.last())
    }
}

/// The first child named `default`.
pub(crate) fn default_child(c: &Command) -> (r: Option<usize>)
    ensures
        match r {
            Some(i) => i as int == default_pos(c@.children) && i < c.children@.len(),
            None => default_pos(c@.children) == -1,
        },
{
    let ghost kv = c@.children;
    proof {
        lemma_commands_view(c.children@);
    }
    let d = String::from_str(crate::constants::default_subcommand());
    let mut i: usize = 0;
    assert(kv.skip(0) =~= kv);
    while i < c.children.len()
        invariant
            i <= c.children@.len(),
            kv == c@.children,
            kv == commands_view(c.children@),
            kv.len() == c.children@.len(),
            forall|j: int| 0 <= j < kv.len() ==> #[trigger] kv[j] == c.children@[j]@,
            d@ == "default"@,
            default_pos(kv) == if default_pos(kv.skip(i as int)) < 0 {
                -1
            } else {
                default_pos(kv.skip(i as int)) + i
            },
        decreases c.children.len() - i,
    {
        assert(kv.skip(i as int)[0] == kv[i as int]);
        assert(kv.skip(i as int).drop_first() =~= kv.skip(i + 1));
        if c.children[i].name == d {
            return Some(i);
        }
        i += 1;
    }
    assert(kv.skip(i as int) =~= Seq::<CommandV>::empty());
    None
}

impl CliGenerator {
    /// The commands.
    pub closed spec fn commands_v(&self) -> Seq<CommandV> {
        commands_view(self.commands@)
    }

    /// The functions.
    pub closed spec fn functions_v(&self) -> Seq<FunctionV> {
        self.functions@.map_values(|f: Function| f@)
    }

    /// The identifiers reserved for the parameters of default subcommands.
    pub closed spec fn param_ids_v(&self) -> Seq<(Seq<char>, Seq<char>)> {
        self.default_param_ids.entries_view()
    }

    /// The identifiers of the parameters of default subcommands, each
    /// parameter name mapped to itself.
    pub fn preallocate_default_param_ids(commands: &Vec<Command>) -> (m: ArgMap)
        ensures
            m.entries_view() == ids_of(default_param_names(commands_view(commands@))),
    {
        let ghost cv = commands_view(commands@);
        proof {
            lemma_commands_view(commands@);
        }
        let mut ids = ArgMap::new();
        let mut i: usize = 0;
        assert(cv.take(0) =~= Seq::<CommandV>::empty());
        while i < commands.len()
            invariant
                i <= commands@.len(),
                cv == commands_view(commands@),
                cv.len() == commands@.len(),
                forall|j: int| 0 <= j < cv.len() ==> #[trigger] cv[j] == commands@[j]@,
                ids.entries_view() == ids_of(default_param_names(cv.take(i as int))),
            decreases commands.len() - i,
        {
            assert(cv.take(i + 1).drop_last() =~= cv.take(i as int));
            assert(cv.take(i + 1).last() == commands@[i as int]@);
            let c = &commands[i];
            match default_child(c) {
                Some(k) => {
                    let d = &c.children[k];
                    proof {
                        lemma_commands_view(c.children@);
                    }
                    assert(c@.children[k as int] == d@);
                    let ghost names0 = default_param_names(cv.take(i as int));
                    let ghost pn = d@.parameters.map_values(|p: ParameterV| p.name);
                    let mut j: usize = 0;
                    assert(names0 + pn.take(0) =~= names0);
                    while j < d.parameters.len()
                        invariant
                            j <= d.parameters@.len(),
                            pn == d@.parameters.map_values(|p: ParameterV| p.name),
                            ids.entries_view() == ids_of(names0 + pn.take(j as int)),
                        decreases d.parameters.len() - j,
                    {
                        let n = d.parameters[j].name.clone();
                        let n2 = d.parameters[j].name.clone();
                        assert(pn[j as int] == d.parameters@[j as int]@.name);
                        ids.insert(n, n2);
                        assert((names0 + pn.take(j + 1)).drop_last() =~= names0 + pn.take(j as int));
                        assert((names0 + pn.take(j + 1)).last() == pn[j as int]);
                        j += 1;
                    }
                    assert(pn.take(d.parameters@.len() as int) =~= pn);
                },
                None => {},
            }
            i += 1;
        }
        assert(cv.take(commands@.len() as int) =~= cv);
        ids
    }

    /// Creates a CLI generator from parsed commands, variables, constants and
    /// functions.
    pub fn new(
        commands: Vec<Command>,
        variables: Vec<Variable>,
        constants: Vec<Constant>,
        functions: Vec<Function>,
    ) -> (g: CliGenerator)
        ensures
            g.commands_v() == commands_view(commands@),
            g.functions_v() == functions@.map_values(|f: Function| f@),
            g.param_ids_v() == ids_of(default_param_names(commands_view(commands@))),
    {
        let default_param_ids = Self::preallocate_default_param_ids(&commands);
        CliGenerator { commands, variables, constants, functions, default_param_ids }
    }

    /// The identifier of a parameter: the reserved one of a default
    /// subcommand's parameter, else the name itself (both are the name).
    pub fn get_param_id(&self, param_name: &str) -> (id: String)
        ensures
            id@ == match crate::ast::assoc_get(self.param_ids_v(), param_name@) {
                Some(v) => v,
                None => param_name@,
            },
    {
        match self.default_param_ids.get(param_name) {
            Some(v) => v.clone(),
            None => String::from_str(param_name),
        }
    }

    /// The text of a value (arrays joined with spaces).
    pub fn value_to_string(&self, value: &Value) -> (r: Option<String>)
        ensures
            r matches Some(s) && s@ == value_text_of(value@),
    {
        Some(value.to_string_unquoted())
    }

    /// Finds a command by its path.
    pub fn find_command(&self, path: &[String]) -> (r: Option<&Command>)
        ensures
            match r {
                Some(c) => find_path(self.commands_v(), path@.map_values(|s: String| s@)) == Some(c@),
                None => find_path(self.commands_v(), path@.map_values(|s: String| s@)) is None,
            },
    {
        crate::runtime::find_command_in(&self.commands, path)
    }

    /// The variables and constants of the parents of the command at `path`.
    pub fn collect_parent_variables(&self, command_path: &[String]) -> (r: (Vec<Variable>, Vec<Constant>))
        ensures
            ({
                let ps = parents_of(self.commands_v(), command_path@.map_values(|s: String| s@));
                r.0@.map_values(|v: Variable| v@) == all_vars(ps) && r.1@.map_values(
                    |c: Constant| c@,
                ) == all_consts(ps)
            }),
    {
        crate::runtime::collect_parent_variables_in(&self.commands, command_path)
    }

    /// The inheritable directives of the parents of the command at `path`.
    pub fn collect_parent_directives(&self, command_path: &[String], host: &HostOs) -> (r: Vec<
        (String, String, bool),
    >)
        ensures
            dir_entries_view(r@) == parent_dirs(
                parents_of(self.commands_v(), command_path@.map_values(|s: String| s@)),
                host.os@,
                host.unix,
            ),
    {
        crate::runtime::collect_parent_directives_in(&self.commands, command_path, host)
    }

    /// The environment directives of the parents of the command at `path`.
    pub fn collect_parent_env_directives(&self, command_path: &[String]) -> (r: Vec<Directive>)
        ensures
            r@.map_values(|d: Directive| d@) == all_env(
                parents_of(self.commands_v(), command_path@.map_values(|s: String| s@)),
            ),
    {
        crate::runtime::collect_parent_env_directives_in(&self.commands, command_path)
    }

    /// Finds a function by its name.
    pub fn find_function(&self, name: &str) -> (r: Option<&Function>)
        ensures
            ({
                let i = function_pos(self.functions_v(), name@);
                match r {
                    Some(f) => 0 <= i < self.functions_v().len() && f@ == self.functions_v()[i],
                    None => i == -1,
                }
            }),
    {
        crate::runtime::find_function_in(&self.functions, name)
    }

    /// Whether the command has a default subcommand.
    pub fn has_default_command(&self, command: &Command) -> (b: bool)
        ensures
            b == exists|i: int|
                0 <= i < command@.children.len() && #[trigger] command@.children[i].name
                    == "default"@,
    {
        crate::runtime::has_default_child(command)
    }
}

/// The command a call runs: the command at `path`, or, when it has a
/// `default` child, the command at `path` followed by `default`.
pub open spec fn call_path_spec(cs: Seq<CommandV>, path: Seq<Seq<char>>) -> Option<Seq<Seq<char>>> {
    match find_path(cs, path) {
        None => None,
        Some(c) => if (exists|i: int| 0 <= i < c.children.len() && #[trigger] c.children[i].name == "default"@)
            && find_path(cs, path.push("default"@)) is Some {
            Some(path.push("default"@))
        } else {
            Some(path)
        },
    }
}

/// The models of the values given for each argument.
pub open spec fn given_view(given: Seq<Option<Vec<String>>>) -> Seq<Option<Seq<Seq<char>>>> {
    given.map_values(|o: Option<Vec<String>>| match o {
        Some(v) => Some(crate::ast::strings_view(v@)),
        None => None,
    })
}

/// The arguments the first `n` of `specs` were given, in order: an
/// argument given values takes them joined by spaces under its name, and a
/// wildcard argument also under `*`.
pub open spec fn given_args(
    specs: Seq<ArgSpecV>,
    given: Seq<Option<Seq<Seq<char>>>>,
    n: int,
) -> Seq<(Seq<char>, Seq<char>)>
    decreases n,
{
    if n <= 0 {
        Seq::empty()
    } else {
        let m = given_args(specs, given, n - 1);
        match given[n - 1] {
            None => m,
            Some(vals) => {
                let t = join(vals, " "@);
                let m1 = assoc_insert(m, specs[n - 1].id, t);
                if specs[n - 1].shape is Exact || specs[n - 1].shape is Rest {
                    assoc_insert(m1, "*"@, t)
                } else {
                    m1
                }
            },
        }
    }
}

/// The arguments with the defaults of the first `n` parameters added for
/// those not given.
pub open spec fn with_defaults(
    ps: Seq<ParameterV>,
    m: Seq<(Seq<char>, Seq<char>)>,
    n: int,
) -> Seq<(Seq<char>, Seq<char>)>
    decreases n,
{
    if n <= 0 {
        m
    } else {
        let m1 = with_defaults(ps, m, n - 1);
        let p = ps[n - 1];
        match p.default {
            Some(v) => if assoc_get(m1, p.name) is None {
                assoc_insert(m1, p.name, value_text_of(v))
            } else {
                m1
            },
            None => m1,
        }
    }
}

/// The arguments of a call of `target`: those given (see `given_args`),
/// then `*` as empty text if the target takes a wildcard and got none,
/// then the defaults of its parameters that were not given.
pub open spec fn call_args_spec(
    target: CommandV,
    specs: Seq<ArgSpecV>,
    given: Seq<Option<Seq<Seq<char>>>>,
) -> Seq<(Seq<char>, Seq<char>)> {
    let m = given_args(specs, given, specs.len() as int);
    let m1 = if target.has_wildcard && assoc_get(m, "*"@) is None {
        assoc_insert(m, "*"@, Seq::empty())
    } else {
        m
    };
    with_defaults(target.parameters, m1, target.parameters.len() as int)
}

/// A copy of the strings.
fn copy_strings(v: &Vec<String>) -> (r: Vec<String>)
    ensures
        crate::ast::strings_view(r@) == crate::ast::strings_view(v@),
{
    let mut r: Vec<String> = Vec::new();
    let mut i: usize = 0;
    while i < v.len()
        invariant
            i <= v@.len(),
            crate::ast::strings_view(r@) == crate::ast::strings_view(v@).take(i as int),
        decreases v.len() - i,
    {
        let ghost before = crate::ast::strings_view(r@);
        let e = v[i].clone();
        assert(e@ == v@[i as int]@);
        r.push(e);
        assert(crate::ast::strings_view(r@) =~= before.push(v@[i as int]@));
        assert(crate::ast::strings_view(r@) =~= crate::ast::strings_view(v@).take(i + 1));
        i += 1;
    }
    assert(crate::ast::strings_view(v@).take(v@.len() as int) =~= crate::ast::strings_view(v@));
    r
}

impl CliGenerator {
    /// The call a command line makes: from the path of subcommands it
    /// names and the values it gave for each of `specs` (the arguments of
    /// the command at `path`), the path of the command to run (see
    /// `call_path_spec`) and its arguments (see `call_args_spec`); nothing
    /// when no command is at `path`.
    pub fn chosen_call(
        &self,
        path: &Vec<String>,
        specs: &Vec<ArgSpec>,
        given: &Vec<Option<Vec<String>>>,
    ) -> (r: Option<(Vec<String>, ArgMap)>)
        requires
            specs@.len() == given@.len(),
        ensures
            match r {
                None => call_path_spec(self.commands_v(), crate::ast::strings_view(path@)) is None,
                Some((p, m)) => {
                    &&& call_path_spec(self.commands_v(), crate::ast::strings_view(path@)) == Some(
                        crate::ast::strings_view(p@),
                    )
                    &&& find_path(self.commands_v(), crate::ast::strings_view(p@)) matches Some(t)
                        && m.entries_view() == call_args_spec(
                        t,
                        specs_view(specs@),
                        given_view(given@),
                    )
                },
            },
    {
        let ghost cs = self.commands_v();
        let ghost pv = crate::ast::strings_view(path@);
        assert(path@.map_values(|s: String| s@) == pv);
        let c = match self.find_command(path.as_slice()) {
            Some(c) => c,
            None => return None,
        };
        let mut p = copy_strings(path);
        if self.has_default_command(c) {
            let mut d = copy_strings(path);
            d.push(String::from_str(crate::constants::default_subcommand()));
            assert(crate::ast::strings_view(d@) =~= pv.push("default"@));
            assert(d@.map_values(|s: String| s@) == crate::ast::strings_view(d@));
            match self.find_command(d.as_slice()) {
                Some(_) => {
                    p = d;
                },
                None => {},
            }
        }
        assert(p@.map_values(|s: String| s@) == crate::ast::strings_view(p@));
        let target = match self.find_command(p.as_slice()) {
            Some(t) => t,
            None => {
                return None;
            },
        };
        let ghost sv = specs_view(specs@);
        let ghost gv = given_view(given@);
        let mut args = ArgMap::new();
        let star = String::from_str("*");
        let sp = chars_of(" ");
        let mut i: usize = 0;
        while i < specs.len()
            invariant
                i <= specs@.len(),
                specs@.len() == given@.len(),
                sv == specs_view(specs@),
                gv == given_view(given@),
                star@ == "*"@,
                sp@ == " "@,
                args.entries_view() == given_args(sv, gv, i as int),
            decreases specs.len() - i,
        {
            assert(sv[i as int] == specs@[i as int]@);
            assert(gv[i as int] == match given@[i as int] {
                Some(v) => Some(crate::ast::strings_view(v@)),
                None => None,
            });
            match &given[i] {
                None => {},
                Some(vals) => {
                    let mut parts: Vec<Vec<char>> = Vec::new();
                    let mut k: usize = 0;
                    while k < vals.len()
                        invariant
                            k <= vals@.len(),
                            parts@.map_values(|x: Vec<char>| x@) == crate::ast::strings_view(
                                vals@,
                            ).take(k as int),
                        decreases vals.len() - k,
                    {
                        let ghost before = parts@.map_values(|x: Vec<char>| x@);
                        let e = chars_of_string(&vals[k]);
                        parts.push(e);
                        assert(parts@.map_values(|x: Vec<char>| x@) =~= before.push(vals@[k as int]@));
                        assert(parts@.map_values(|x: Vec<char>| x@) =~= crate::ast::strings_view(
                            vals@,
                        ).take(k + 1));
                        k += 1;
                    }
                    assert(crate::ast::strings_view(vals@).take(vals@.len() as int)
                        =~= crate::ast::strings_view(vals@));
                    let t = string_of(&join_chars(&parts, &sp));
                    args.insert(specs[i].id.clone(), t.clone());
                    let wild = match specs[i].shape {
                        ArgShape::WildcardExact(_) => true,
                        ArgShape::WildcardRest(_) => true,
                        _ => false,
                    };
                    if wild {
                        args.insert(star.clone(), t);
                    }
                },
            }
            i += 1;
        }
        if target.has_wildcard && !args.contains_key("*") {
            proof {
                reveal_strlit("*");
            }
            args.insert(star.clone(), String::new());
        }
        let ghost m1 = args.entries_view();
        let ghost tv = target@;
        let mut q: usize = 0;
        while q < target.parameters.len()
            invariant
                q <= target.parameters@.len(),
                tv == target@,
                args.entries_view() == with_defaults(tv.parameters, m1, q as int),
            decreases target.parameters.len() - q,
        {
            let prm = &target.parameters[q];
            assert(tv.parameters[q as int] == prm@);
            if !args.contains_key(prm.name.as_str()) {
                match &prm.default {
                    Some(v) => {
                        args.insert(prm.name.clone(), v.to_string_unquoted());
                    },
                    None => {},
                }
            }
            q += 1;
        }
        Some((p, args))
    }
}

} // verus!
