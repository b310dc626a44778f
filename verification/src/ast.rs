//! The abstract syntax tree of a Nestfile, and the ordered string map that
//! carries named arguments.

use vstd::prelude::*;

verus! {

/// A variable (`var NAME = value`); it can be redefined.
#[derive(Debug)]
pub struct Variable {
    pub name: String,
    pub value: String,
}

/// A constant (`const NAME = value`); it cannot be redefined.
#[derive(Debug)]
pub struct Constant {
    pub name: String,
    pub value: String,
}

/// A literal value in a Nestfile (parameter defaults and directive values).
#[derive(Debug)]
pub enum Value {
    String(String),
    Bool(bool),
    /// A numeric literal, kept as it was written.
    Number(String),
    Array(Vec<String>),
}

/// The kind of a command parameter.
#[derive(Debug)]
pub enum ParamKind {
    Normal,
    /// `*`, `*name`, `*[N]` or `*name[N]`.
    Wildcard { name: Option<String>, count: Option<usize> },
}

/// A command or function parameter: `[!]name|alias: type [= default]`.
#[derive(Debug)]
pub struct Parameter {
    pub name: String,
    pub alias: Option<String>,
    pub param_type: String,
    pub default: Option<Value>,
    pub is_named: bool,
    pub kind: ParamKind,
}

/// An ordered map from names to values; each name occurs at most once and
/// a name keeps the position at which it was first inserted.
#[derive(Debug)]
pub struct ArgMap {
    entries: Vec<(String, String)>,
}

/// A dependency of a command: `path` or `path(name="value", ...)`.
#[derive(Debug)]
pub struct Dependency {
    pub command_path: String,
    pub args: ArgMap,
}

/// A directive of a command.
#[derive(Debug)]
pub enum Directive {
    Desc(String),
    Cwd(String),
    /// `env: NAME=value`, with the hide flag.
    Env(String, String, bool),
    /// `env: path/to/.env`, with the hide flag.
    EnvFile(String, bool),
    /// Script text, required operating system, hide flag.
    Script(String, Option<String>, bool),
    Before(String, Option<String>, bool),
    After(String, Option<String>, bool),
    Fallback(String, Option<String>, bool),
    Finally(String, Option<String>, bool),
    /// Dependencies, and whether they run in parallel.
    Depends(Vec<Dependency>, bool),
    Privileged(bool),
    RequireConfirm(String),
    /// Log path and log format.
    Logs(String, String),
    /// Validation target and rule.
    Validate(String, String),
    Watch(Vec<String>),
}

/// A command definition, possibly with nested child commands.
#[derive(Debug)]
pub struct Command {
    pub name: String,
    pub parameters: Vec<Parameter>,
    pub directives: Vec<Directive>,
    pub children: Vec<Command>,
    pub has_wildcard: bool,
    pub local_variables: Vec<Variable>,
    pub local_constants: Vec<Constant>,
    pub source_file: Option<String>,
}

/// A reusable function (`function name(params):` followed by a body).
#[derive(Debug)]
pub struct Function {
    pub name: String,
    pub parameters: Vec<Parameter>,
    pub body: String,
    pub local_variables: Vec<Variable>,
}

/// The mathematical model of a `Value`.
pub enum ValueV {
    Str(Seq<char>),
    Bool(bool),
    Number(Seq<char>),
    Array(Seq<Seq<char>>),
}

/// The mathematical model of a `ParamKind`.
pub enum ParamKindV {
    Normal,
    Wildcard { name: Option<Seq<char>>, count: Option<nat> },
}

/// The mathematical model of a `Parameter`.
pub struct ParameterV {
    pub name: Seq<char>,
    pub alias: Option<Seq<char>>,
    pub param_type: Seq<char>,
    pub default: Option<ValueV>,
    pub is_named: bool,
    pub kind: ParamKindV,
}

/// The mathematical model of a `Dependency`.
pub struct DependencyV {
    pub command_path: Seq<char>,
    pub args: Seq<(Seq<char>, Seq<char>)>,
}

/// The mathematical model of a `Directive`.
pub enum DirectiveV {
    Desc(Seq<char>),
    Cwd(Seq<char>),
    Env(Seq<char>, Seq<char>, bool),
    EnvFile(Seq<char>, bool),
    Script(Seq<char>, Option<Seq<char>>, bool),
    Before(Seq<char>, Option<Seq<char>>, bool),
    After(Seq<char>, Option<Seq<char>>, bool),
    Fallback(Seq<char>, Option<Seq<char>>, bool),
    Finally(Seq<char>, Option<Seq<char>>, bool),
    Depends(Seq<DependencyV>, bool),
    Privileged(bool),
    RequireConfirm(Seq<char>),
    Logs(Seq<char>, Seq<char>),
    Validate(Seq<char>, Seq<char>),
    Watch(Seq<Seq<char>>),
}

/// The mathematical model of a `Variable` or a `Constant`: name and value.
pub type BindingV = (Seq<char>, Seq<char>);

/// The mathematical model of a `Command`.
pub struct CommandV {
    pub name: Seq<char>,
    pub parameters: Seq<ParameterV>,
    pub directives: Seq<DirectiveV>,
    pub children: Seq<CommandV>,
    pub has_wildcard: bool,
    pub local_variables: Seq<BindingV>,
    pub local_constants: Seq<BindingV>,
    pub source_file: Option<Seq<char>>,
}

/// The mathematical model of a `Function`.
pub struct FunctionV {
    pub name: Seq<char>,
    pub parameters: Seq<ParameterV>,
    pub body: Seq<char>,
    pub local_variables: Seq<BindingV>,
}

/// The characters of each string.
pub open spec fn strings_view(v: Seq<String>) -> Seq<Seq<char>> {
    v.map_values(|s: String| s@)
}

/// The characters of an optional string.
pub open spec fn opt_view(o: Option<String>) -> Option<Seq<char>> {
    match o {
        Some(s) => Some(s@),
        None => None,
    }
}

impl View for Variable {
    type V = BindingV;

    open spec fn view(&self) -> BindingV {
        (self.name@, self.value@)
    }
}

impl View for Constant {
    type V = BindingV;

    open spec fn view(&self) -> BindingV {
        (self.name@, self.value@)
    }
}

impl View for Value {
    type V = ValueV;

    open spec fn view(&self) -> ValueV {
        match self {
            Value::String(s) => ValueV::Str(s@),
            Value::Bool(b) => ValueV::Bool(*b),
            Value::Number(n) => ValueV::Number(n@),
            Value::Array(a) => ValueV::Array(strings_view(a@)),
        }
    }
}

impl View for ParamKind {
    type V = ParamKindV;

    open spec fn view(&self) -> ParamKindV {
        match self {
            ParamKind::Normal => ParamKindV::Normal,
            ParamKind::Wildcard { name, count } => ParamKindV::Wildcard {
                name: opt_view(*name),
                count: match count {
                    Some(n) => Some(*n as nat),
                    None => None,
                },
            },
        }
    }
}

impl View for Parameter {
    type V = ParameterV;

    open spec fn view(&self) -> ParameterV {
        ParameterV {
            name: self.name@,
            alias: opt_view(self.alias),
            param_type: self.param_type@,
            default: match self.default {
                Some(v) => Some(v@),
                None => None,
            },
            is_named: self.is_named,
            kind: self.kind@,
        }
    }
}

impl View for Dependency {
    type V = DependencyV;

    open spec fn view(&self) -> DependencyV {
        DependencyV { command_path: self.command_path@, args: self.args.entries_view() }
    }
}

impl View for Directive {
    type V = DirectiveV;

    open spec fn view(&self) -> DirectiveV {
        match self {
            Directive::Desc(s) => DirectiveV::Desc(s@),
            Directive::Cwd(s) => DirectiveV::Cwd(s@),
            Directive::Env(k, v, h) => DirectiveV::Env(k@, v@, *h),
            Directive::EnvFile(p, h) => DirectiveV::EnvFile(p@, *h),
            Directive::Script(s, os, h) => DirectiveV::Script(s@, opt_view(*os), *h),
            Directive::Before(s, os, h) => DirectiveV::Before(s@, opt_view(*os), *h),
            Directive::After(s, os, h) => DirectiveV::After(s@, opt_view(*os), *h),
            Directive::Fallback(s, os, h) => DirectiveV::Fallback(s@, opt_view(*os), *h),
            Directive::Finally(s, os, h) => DirectiveV::Finally(s@, opt_view(*os), *h),
            Directive::Depends(d, p) => DirectiveV::Depends(d@.map_values(|x: Dependency| x@), *p),
            Directive::Privileged(b) => DirectiveV::Privileged(*b),
            Directive::RequireConfirm(m) => DirectiveV::RequireConfirm(m@),
            Directive::Logs(p, f) => DirectiveV::Logs(p@, f@),
            Directive::Validate(t, r) => DirectiveV::Validate(t@, r@),
            Directive::Watch(w) => DirectiveV::Watch(strings_view(w@)),
        }
    }
}

/// The model of a command.
pub open spec fn command_view(c: Command) -> CommandV
    decreases c,
{
    CommandV {
        name: c.name@,
        parameters: c.parameters@.map_values(|p: Parameter| p@),
        directives: c.directives@.map_values(|d: Directive| d@),
        children: commands_view(c.children@),
        has_wildcard: c.has_wildcard,
        local_variables: c.local_variables@.map_values(|v: Variable| v@),
        local_constants: c.local_constants@.map_values(|v: Constant| v@),
        source_file: opt_view(c.source_file),
    }
}

/// The models of a sequence of commands.
pub open spec fn commands_view(cs: Seq<Command>) -> Seq<CommandV>
    decreases cs,
{
    if cs.len() == 0 {
        Seq::empty()
    } else {
        seq![command_view(cs[0])] + commands_view(cs.subrange(1, cs.len() as int))
    }
}

impl View for Command {
    type V = CommandV;

    open spec fn view(&self) -> CommandV {
        command_view(*self)
    }
}

impl Default for Command {
    /// A command with no name, parameters, directives or children.
    fn default() -> (c: Command)
        ensures
            c@ == (CommandV {
                name: Seq::empty(),
                parameters: Seq::empty(),
                directives: Seq::empty(),
                children: Seq::empty(),
                has_wildcard: false,
                local_variables: Seq::empty(),
                local_constants: Seq::empty(),
                source_file: None,
            }),
    {
        let c = Command {
            name: String::new(),
            parameters: Vec::new(),
            directives: Vec::new(),
            children: Vec::new(),
            has_wildcard: false,
            local_variables: Vec::new(),
            local_constants: Vec::new(),
            source_file: None,
        };
        assert(c@.parameters =~= Seq::<ParameterV>::empty());
        assert(c@.directives =~= Seq::<DirectiveV>::empty());
        assert(c@.children =~= Seq::<CommandV>::empty());
        assert(c@.local_variables =~= Seq::<BindingV>::empty());
        assert(c@.local_constants =~= Seq::<BindingV>::empty());
        c
    }
}

impl View for Function {
    type V = FunctionV;

    open spec fn view(&self) -> FunctionV {
        FunctionV {
            name: self.name@,
            parameters: self.parameters@.map_values(|p: Parameter| p@),
            body: self.body@,
            local_variables: self.local_variables@.map_values(|v: Variable| v@),
        }
    }
}

/// The value stored under `key` in an association list (first match).
pub open spec fn assoc_get(entries: Seq<(Seq<char>, Seq<char>)>, key: Seq<char>) -> Option<Seq<char>>
    decreases entries.len(),
{
    if entries.len() == 0 {
        None
    } else if entries[0].0 == key {
        Some(entries[0].1)
    } else {
        assoc_get(entries.drop_first(), key)
    }
}

/// The keys of an association list, in order.
pub open spec fn assoc_keys(entries: Seq<(Seq<char>, Seq<char>)>) -> Seq<Seq<char>> {
    entries.map_values(|e: (Seq<char>, Seq<char>)| e.0)
}

/// No key occurs twice.
pub open spec fn assoc_unique(entries: Seq<(Seq<char>, Seq<char>)>) -> bool {
    forall|i: int, j: int|
        0 <= i < entries.len() && 0 <= j < entries.len() && i != j ==> entries[i].0 != entries[j].0
}

/// The association list after setting `key` to `value`: the value is
/// replaced in place where the key is present, appended otherwise.
pub open spec fn assoc_insert(
    entries: Seq<(Seq<char>, Seq<char>)>,
    key: Seq<char>,
    value: Seq<char>,
) -> Seq<(Seq<char>, Seq<char>)>
    decreases entries.len(),
{
    if entries.len() == 0 {
        seq![(key, value)]
    } else if entries[0].0 == key {
        seq![(key, value)] + entries.drop_first()
    } else {
        seq![entries[0]] + assoc_insert(entries.drop_first(), key, value)
    }
}

impl ArgMap {
    /// The entries as pairs of character sequences, in order.
    pub closed spec fn entries_view(&self) -> Seq<(Seq<char>, Seq<char>)> {
        self.entries@.map_values(|e: (String, String)| (e.0@, e.1@))
    }

    /// The value for `key`, if any.
    pub open spec fn get_spec(&self, key: Seq<char>) -> Option<Seq<char>> {
        assoc_get(self.entries_view(), key)
    }

    /// Each key occurs once.
    pub open spec fn wf(&self) -> bool {
        assoc_unique(self.entries_view())
    }

    pub proof fn lemma_wf(&self)
        ensures
            self.wf() <==> assoc_unique(self.entries_view()),
    {
    }

    /// An empty map.
    pub fn new() -> (m: ArgMap)
        ensures
            m.entries_view() == Seq::<(Seq<char>, Seq<char>)>::empty(),
            m.wf(),
    {
        let m = ArgMap { entries: Vec::new() };
        assert(m.entries_view() =~= Seq::<(Seq<char>, Seq<char>)>::empty());
        m
    }

    /// The number of entries.
    pub fn len(&self) -> (n: usize)
        ensures
            n == self.entries_view().len(),
    {
        self.entries.len()
    }

    /// Tests whether the map is empty.
    pub fn is_empty(&self) -> (b: bool)
        ensures
            b == (self.entries_view().len() == 0),
    {
        self.entries.len() == 0
    }

    /// The key of entry `i`.
    pub fn key_at(&self, i: usize) -> (k: &String)
        requires
            i < self.entries_view().len(),
        ensures
            k@ == self.entries_view()[i as int].0,
    {
        &self.entries[i].0
    }

    /// The value of entry `i`.
    pub fn value_at(&self, i: usize) -> (v: &String)
        requires
            i < self.entries_view().len(),
        ensures
            v@ == self.entries_view()[i as int].1,
    {
        &self.entries[i].1
    }

    /// The value stored under `key`.
    pub fn get(&self, key: &str) -> (r: Option<&String>)
        ensures
            match r {
                Some(v) => self.get_spec(key@) == Some(v@),
                None => self.get_spec(key@) is None,
            },
    {
        let ghost ev = self.entries_view();
        let key_s = String::from_str(key);
        let mut i: usize = 0;
        assert(ev.skip(0) == ev);
        while i < self.entries.len()
            invariant
                i <= self.entries@.len(),
                key_s@ == key@,
                ev == self.entries_view(),
                ev.len() == self.entries@.len(),
                assoc_get(ev, key@) == assoc_get(ev.skip(i as int), key@),
            decreases self.entries.len() - i,
        {
            assert(ev.skip(i as int).drop_first() == ev.skip(i + 1));
            assert(ev.skip(i as int)[0] == ev[i as int]);
            if self.entries[i].0 == key_s {
                return Some(&self.entries[i].1);
            }
            i += 1;
        }
        None
    }

    /// Tests whether `key` has a value.
    pub fn contains_key(&self, key: &str) -> (b: bool)
        ensures
            b == self.get_spec(key@) is Some,
    {
        match self.get(key) {
            Some(_) => true,
            None => false,
        }
    }

    /// A copy of the map.
    pub fn copy(&self) -> (r: ArgMap)
        ensures
            r.entries_view() == self.entries_view(),
    {
        let mut entries: Vec<(String, String)> = Vec::new();
        let mut i: usize = 0;
        while i < self.entries.len()
            invariant
                i <= self.entries@.len(),
                entries@.len() == i,
                forall|j: int|
                    0 <= j < i ==> (#[trigger] entries@[j]).0@ == self.entries@[j].0@
                        && entries@[j].1@ == self.entries@[j].1@,
            decreases self.entries.len() - i,
        {
            let k = self.entries[i].0.clone();
            let v = self.entries[i].1.clone();
            entries.push((k, v));
            i += 1;
        }
        let r = ArgMap { entries };
        assert(r.entries_view() =~= self.entries_view());
        r
    }

    /// Replaces the value of entry `i`.
    pub fn set_value_at(&mut self, i: usize, value: String)
        requires
            i < old(self).entries_view().len(),
        ensures
            final(self).entries_view() == old(self).entries_view().update(
                i as int,
                (old(self).entries_view()[i as int].0, value@),
            ),
    {
        let ghost ev = self.entries_view();
        let k = self.entries[i].0.clone();
        self.entries.set(i, (k, value));
        assert(self.entries_view() =~= ev.update(i as int, (ev[i as int].0, value@)));
    }

    /// Sets `key` to `value` (as `HashMap::insert`, keeping the first
    /// position of the key).
    pub fn insert(&mut self, key: String, value: String)
        ensures
            final(self).entries_view() == assoc_insert(old(self).entries_view(), key@, value@),
    {
        let ghost ev = self.entries_view();
        let mut i: usize = 0;
        while i < self.entries.len()
            invariant
                i <= self.entries@.len(),
                ev == self.entries_view(),
                self.entries@ == old(self).entries@,
                ev == old(self).entries_view(),
                forall|j: int| 0 <= j < i ==> ev[j].0 != key@,
            decreases self.entries.len() - i,
        {
            if self.entries[i].0 == key {
                let ghost before = self.entries@;
                self.entries.set(i, (key, value));
                proof {
                    lemma_assoc_insert_at(ev, key@, value@, i as int);
                    assert(self.entries_view() =~= ev.update(i as int, (key@, value@)));
                }
                return;
            }
            i += 1;
        }
        self.entries.push((key, value));
        proof {
            lemma_assoc_insert_absent(ev, key@, value@);
            assert(self.entries_view() =~= ev.push((key@, value@)));
        }
    }
}

/// Inserting a key found at position `i` replaces that entry.
pub proof fn lemma_assoc_insert_at(
    entries: Seq<(Seq<char>, Seq<char>)>,
    key: Seq<char>,
    value: Seq<char>,
    i: int,
)
    requires
        0 <= i < entries.len(),
        entries[i].0 == key,
        forall|j: int| 0 <= j < i ==> entries[j].0 != key,
    ensures
        assoc_insert(entries, key, value) == entries.update(i, (key, value)),
    decreases i,
{
    if i == 0 {
        assert(seq![(key, value)] + entries.drop_first() =~= entries.update(0, (key, value)));
    } else {
        lemma_assoc_insert_at(entries.drop_first(), key, value, i - 1);
        assert(seq![entries[0]] + entries.drop_first().update(i - 1, (key, value))
            =~= entries.update(i, (key, value)));
    }
}

/// Inserting an absent key appends it.
pub proof fn lemma_assoc_insert_absent(
    entries: Seq<(Seq<char>, Seq<char>)>,
    key: Seq<char>,
    value: Seq<char>,
)
    requires
        forall|j: int| 0 <= j < entries.len() ==> entries[j].0 != key,
    ensures
        assoc_insert(entries, key, value) == entries.push((key, value)),
    decreases entries.len(),
{
    if entries.len() == 0 {
        assert(seq![(key, value)] =~= entries.push((key, value)));
    } else {
        lemma_assoc_insert_absent(entries.drop_first(), key, value);
        assert(seq![entries[0]] + entries.drop_first().push((key, value))
            =~= entries.push((key, value)));
    }
}

/// The given strings joined with a separator.
pub fn join_strings(parts: &Vec<String>, sep: &Vec<char>) -> (out: Vec<char>)
    ensures
        out@ == crate::text::join(strings_view(parts@), sep@),
{
    let mut vs: Vec<Vec<char>> = Vec::new();
    let mut i: usize = 0;
    while i < parts.len()
        invariant
            i <= parts.len(),
            vs@.len() == i,
            forall|j: int| 0 <= j < i ==> #[trigger] vs@[j]@ == parts@[j]@,
        decreases parts.len() - i,
    {
        let v = crate::text::chars_of(parts[i].as_str());
        vs.push(v);
        i += 1;
    }
    assert(vs@.map_values(|x: Vec<char>| x@) =~= strings_view(parts@));
    crate::text::join_chars(&vs, sep)
}

impl Value {
    /// The text of the value: strings and numbers as written, booleans as
    /// `true`/`false`, arrays joined by spaces.
    pub fn to_string_unquoted(&self) -> (s: String)
        ensures
            s@ == value_text_of(self@),
    {
        match self {
            Value::String(s) => s.clone(),
            Value::Bool(b) => if *b {
                String::from_str("true")
            } else {
                String::from_str("false")
            },
            Value::Number(n) => n.clone(),
            Value::Array(a) => {
                let sp = vec![' '];
                assert(sp@ == seq![' ']);
                let j = join_strings(a, &sp);
                crate::text::string_of(&j)
            },
        }
    }
}

/// The text of a value as variables and directives hold it: strings and
/// numbers as written, booleans as `true`/`false`, arrays joined by spaces.
pub open spec fn value_text_of(v: ValueV) -> Seq<char> {
    match v {
        ValueV::Str(s) => s,
        ValueV::Bool(b) => if b {
            "true"@
        } else {
            "false"@
        },
        ValueV::Number(n) => n,
        ValueV::Array(a) => crate::text::join(a, seq![' ']),
    }
}

/// The models of a sequence of commands are the models of its commands.
pub proof fn lemma_commands_view(cs: Seq<Command>)
    ensures
        commands_view(cs).len() == cs.len(),
        forall|i: int| 0 <= i < cs.len() ==> #[trigger] commands_view(cs)[i] == command_view(cs[i]),
    decreases cs.len(),
{
    if cs.len() > 0 {
        let rest = cs.subrange(1, cs.len() as int);
        lemma_commands_view(rest);
        assert forall|i: int| 0 <= i < cs.len() implies #[trigger] commands_view(cs)[i]
            == command_view(cs[i]) by {
            if i > 0 {
                assert(commands_view(cs)[i] == commands_view(rest)[i - 1]);
                assert(rest[i - 1] == cs[i]);
            }
        }
    }
}

/// Appending a command appends its model.
pub proof fn lemma_commands_view_push(cs: Seq<Command>, c: Command)
    ensures
        commands_view(cs.push(c)) == commands_view(cs).push(command_view(c)),
{
    lemma_commands_view(cs);
    lemma_commands_view(cs.push(c));
    assert(commands_view(cs.push(c)) =~= commands_view(cs).push(command_view(c)));
}

/// Reading a key after setting one.
pub proof fn lemma_assoc_get_insert(
    entries: Seq<(Seq<char>, Seq<char>)>,
    key: Seq<char>,
    value: Seq<char>,
    k: Seq<char>,
)
    ensures
        assoc_get(assoc_insert(entries, key, value), k) == if k == key {
            Some(value)
        } else {
            assoc_get(entries, k)
        },
    decreases entries.len(),
{
    let ins = assoc_insert(entries, key, value);
    if entries.len() == 0 {
        assert(ins =~= seq![(key, value)]);
        assert(ins.drop_first() =~= Seq::<(Seq<char>, Seq<char>)>::empty());
        assert(assoc_get(ins.drop_first(), k) == None::<Seq<char>>);
    } else if entries[0].0 == key {
        assert(ins =~= seq![(key, value)] + entries.drop_first());
        assert(ins[0] == (key, value));
        assert(ins.drop_first() =~= entries.drop_first());
    } else {
        lemma_assoc_get_insert(entries.drop_first(), key, value, k);
        assert(ins =~= seq![entries[0]] + assoc_insert(entries.drop_first(), key, value));
        assert(ins[0] == entries[0]);
        assert(ins.drop_first() =~= assoc_insert(entries.drop_first(), key, value));
    }
}

} // verus!
