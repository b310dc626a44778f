//! Merging of commands that share a name ("last wins").
//!
//! A command defined more than once (for instance when another file is brought in) is
//! merged into its first definition: the later directives replace earlier
//! ones of the same kind, children are merged recursively, a later
//! parameter list replaces the earlier one, and later local variables and
//! constants redefine earlier ones of the same name. The merged commands
//! keep the order in which their names first occur.

use vstd::prelude::*;
use crate::ast::{
    BindingV, Command, CommandV, Constant, Directive, DirectiveV, Parameter, ParameterV,
    Variable, command_view, commands_view, lemma_commands_view, lemma_commands_view_push,
};
use indexmap::IndexMap;

verus! {

/// The ordered map of `indexmap`, used here from command names to their
/// positions among the merged commands.
#[verifier::external_type_specification]
#[verifier::external_body]
#[verifier::reject_recursive_types(K)]
#[verifier::reject_recursive_types(V)]
#[verifier::reject_recursive_types(S)]
pub struct ExIndexMap<K, V, S>(IndexMap<K, V, S>);

/// The entries of a name index, in their order: each key with its value.
pub uninterp spec fn index_entries(m: IndexMap<String, usize>) -> Seq<(Seq<char>, usize)>;

/// `IndexMap::new`: a map without entries.
#[verifier::external_body]
fn index_new() -> (m: IndexMap<String, usize>)
    ensures
        index_entries(m) == Seq::<(Seq<char>, usize)>::empty(),
{
    IndexMap::new()
}

/// `IndexMap::get`: the value stored for `key`, if an entry has that key.
#[verifier::external_body]
fn index_get(m: &IndexMap<String, usize>, key: &String) -> (r: Option<usize>)
    ensures
        r matches Some(v) ==> exists|i: int|
            0 <= i < index_entries(*m).len() && #[trigger] index_entries(*m)[i] == (key@, v),
        r is None ==> forall|i: int|
            0 <= i < index_entries(*m).len() ==> #[trigger] index_entries(*m)[i].0 != key@,
{
    m.get(key).copied()
}

/// `IndexMap::insert`: an entry with `key` gets `value` in its place;
/// otherwise the pair is appended.
#[verifier::external_body]
fn index_insert(m: &mut IndexMap<String, usize>, key: String, value: usize)
    ensures
        forall|i: int|
            0 <= i < index_entries(*old(m)).len() && #[trigger] index_entries(*old(m))[i].0
                == key@ ==> index_entries(*final(m)) == index_entries(*old(m)).update(
                i,
                (key@, value),
            ),
        (forall|i: int|
            0 <= i < index_entries(*old(m)).len() ==> #[trigger] index_entries(*old(m))[i].0
                != key@) ==> index_entries(*final(m)) == index_entries(*old(m)).push(
            (key@, value),
        ),
{
    m.insert(key, value);
}

/// An override directive `n` replaces the existing directive `d`: both are
/// scripts, descriptions, working directories, log settings or dependency
/// lists, or both set the same environment variable.
pub open spec fn replaces(d: DirectiveV, n: DirectiveV) -> bool {
    ||| (d is Script && n is Script)
    ||| (d is Desc && n is Desc)
    ||| (d is Cwd && n is Cwd)
    ||| (d is Logs && n is Logs)
    ||| (d is Depends && n is Depends)
    ||| (d is Env && n is Env && d->Env_0 == n->Env_0)
}

/// The directives of `s` that `n` does not replace, in order.
pub open spec fn kept_directives(s: Seq<DirectiveV>, n: DirectiveV) -> Seq<DirectiveV>
    decreases s.len(),
{
    if s.len() == 0 {
        s
    } else {
        let rest = kept_directives(s.drop_first(), n);
        if replaces(s[0], n) {
            rest
        } else {
            seq![s[0]] + rest
        }
    }
}

/// The directives after applying the override directive `n`.
pub open spec fn apply_directive(s: Seq<DirectiveV>, n: DirectiveV) -> Seq<DirectiveV> {
    kept_directives(s, n).push(n)
}

/// The directives `b` after applying the override directives `o` in order.
pub open spec fn merge_directives(b: Seq<DirectiveV>, o: Seq<DirectiveV>) -> Seq<DirectiveV>
    decreases o.len(),
{
    if o.len() == 0 {
        b
    } else {
        merge_directives(apply_directive(b, o[0]), o.drop_first())
    }
}

/// The bindings `b` after redefining each of `o` in order.
pub open spec fn redefine_all(b: Seq<BindingV>, o: Seq<BindingV>) -> Seq<BindingV>
    decreases o.len(),
{
    if o.len() == 0 {
        b
    } else {
        redefine_all(crate::parser::redefine(b, o[0]), o.drop_first())
    }
}

/// The nesting depth of a command: one more than that of its children.
pub open spec fn cmd_depth(c: CommandV) -> nat
    decreases c, 0nat,
{
    1 + kids_depth(c.children)
}

/// The greatest nesting depth among the commands (0 for none).
pub open spec fn kids_depth(cs: Seq<CommandV>) -> nat
    decreases cs, 1nat,
{
    if cs.len() == 0 {
        0
    } else {
        let a = cmd_depth(cs[0]);
        let b = kids_depth(cs.subrange(1, cs.len() as int));
        if a >= b {
            a
        } else {
            b
        }
    }
}

/// Every command is nested at most `d` deep.
pub open spec fn bounded(cs: Seq<CommandV>, d: nat) -> bool {
    forall|i: int| 0 <= i < cs.len() ==> #[trigger] cmd_depth(cs[i]) <= d
}

/// The position of the first command named `n`, or -1.
pub open spec fn name_pos(cs: Seq<CommandV>, n: Seq<char>) -> int
    decreases cs.len(),
{
    if cs.len() == 0 {
        -1
    } else if cs[0].name == n {
        0
    } else {
        let r = name_pos(cs.drop_first(), n);
        if r < 0 {
            -1
        } else {
            r + 1
        }
    }
}

/// No two commands share a name.
pub open spec fn unique_names(cs: Seq<CommandV>) -> bool {
    forall|i: int, j: int|
        0 <= i < cs.len() && 0 <= j < cs.len() && i != j ==> #[trigger] cs[i].name != #[trigger] cs[j].name
}

/// The commands `cs` merged into `acc` in order, with depth budget `d`.
pub open spec fn merge_from(cs: Seq<CommandV>, d: nat, acc: Seq<CommandV>) -> Seq<CommandV>
    decreases d, cs.len(), 2nat,
{
    if cs.len() == 0 {
        acc
    } else {
        merge_from(cs.drop_first(), d, merge_into(acc, cs[0], d))
    }
}

/// `acc` after merging `c`: into the command of the same name, or appended.
pub open spec fn merge_into(acc: Seq<CommandV>, c: CommandV, d: nat) -> Seq<CommandV>
    decreases d, 0nat, 1nat,
{
    let i = name_pos(acc, c.name);
    if 0 <= i < acc.len() {
        acc.update(i, merge_one(acc[i], c, d))
    } else {
        acc.push(c)
    }
}

/// The command `b` with the later definition `o` merged into it.
pub open spec fn merge_one(b: CommandV, o: CommandV, d: nat) -> CommandV
    decreases d, 0nat, 0nat,
{
    if d == 0 {
        b
    } else {
        CommandV {
            directives: merge_directives(b.directives, o.directives),
            children: merge_from(b.children + o.children, (d - 1) as nat, Seq::empty()),
            parameters: if o.parameters.len() > 0 {
                o.parameters
            } else {
                b.parameters
            },
            local_variables: redefine_all(b.local_variables, o.local_variables),
            local_constants: redefine_all(b.local_constants, o.local_constants),
            ..b
        }
    }
}

/// The commands merged by name, each later definition into the first one.
pub open spec fn merge_spec(cs: Seq<CommandV>) -> Seq<CommandV> {
    merge_from(cs, kids_depth(cs), Seq::empty())
}

/// Each command is at most as deep as the deepest of the sequence, and a
/// bound on each bounds the deepest.
pub proof fn lemma_kids_depth(cs: Seq<CommandV>, d: nat)
    ensures
        forall|i: int| 0 <= i < cs.len() ==> #[trigger] cmd_depth(cs[i]) <= kids_depth(cs),
        bounded(cs, d) ==> kids_depth(cs) <= d,
        bounded(cs, kids_depth(cs)),
    decreases cs.len(),
{
    if cs.len() > 0 {
        let rest = cs.subrange(1, cs.len() as int);
        lemma_kids_depth(rest, d);
        assert forall|i: int| 0 <= i < cs.len() implies #[trigger] cmd_depth(cs[i]) <= kids_depth(
            cs,
        ) by {
            if i > 0 {
                assert(cs[i] == rest[i - 1]);
            }
        }
        if bounded(cs, d) {
            assert forall|i: int| 0 <= i < rest.len() implies #[trigger] cmd_depth(rest[i]) <= d by {
                assert(rest[i] == cs[i + 1]);
            }
            assert(cmd_depth(cs[0]) <= d);
            assert(kids_depth(rest) <= d);
        }
    }
}

/// With unique names, the command named `n` is found where it stands; a
/// name that no command has is not found.
pub proof fn lemma_name_pos(cs: Seq<CommandV>, n: Seq<char>)
    ensures
        -1 <= name_pos(cs, n) < cs.len(),
        name_pos(cs, n) >= 0 ==> cs[name_pos(cs, n)].name == n,
        (forall|i: int| 0 <= i < cs.len() ==> #[trigger] cs[i].name != n) <==> name_pos(cs, n) == -1,
        forall|i: int|
            unique_names(cs) && 0 <= i < cs.len() && #[trigger] cs[i].name == n ==> name_pos(cs, n)
                == i,
    decreases cs.len(),
{
    if cs.len() > 0 {
        let rest = cs.drop_first();
        lemma_name_pos(rest, n);
        if forall|i: int| 0 <= i < cs.len() ==> #[trigger] cs[i].name != n {
            assert forall|i: int| 0 <= i < rest.len() implies #[trigger] rest[i].name != n by {
                assert(rest[i] == cs[i + 1]);
            }
        }
        assert forall|i: int|
            unique_names(cs) && 0 <= i < cs.len() && #[trigger] cs[i].name == n implies name_pos(
                cs,
                n,
            ) == i by {
            if i > 0 {
                assert(cs[0].name != cs[i].name);
                assert(rest[i - 1] == cs[i]);
                assert forall|a: int, b: int|
                    0 <= a < rest.len() && 0 <= b < rest.len() && a != b implies #[trigger] rest[a].name
                    != #[trigger] rest[b].name by {
                    assert(rest[a] == cs[a + 1] && rest[b] == cs[b + 1]);
                }
            }
        }
        let r = name_pos(rest, n);
        if r >= 0 {
            assert(cs[r + 1] == rest[r]);
        }
        if name_pos(cs, n) == -1 {
            assert forall|i: int| 0 <= i < cs.len() implies #[trigger] cs[i].name != n by {
                if i > 0 {
                    assert(cs[i] == rest[i - 1]);
                }
            }
        }
    }
}

/// Tests whether the override directive `n` replaces `d`.
pub fn directive_replaces(d: &Directive, n: &Directive) -> (b: bool)
    ensures
        b == replaces(d@, n@),
{
    match (d, n) {
        (Directive::Script(..), Directive::Script(..)) => true,
        (Directive::Desc(_), Directive::Desc(_)) => true,
        (Directive::Cwd(_), Directive::Cwd(_)) => true,
        (Directive::Logs(..), Directive::Logs(..)) => true,
        (Directive::Depends(..), Directive::Depends(..)) => true,
        (Directive::Env(k1, _, _), Directive::Env(k2, _, _)) => *k1 == *k2,
        _ => false,
    }
}

/// The directives of `s` that `n` does not replace, in order.
pub fn keep_directives(s: Vec<Directive>, n: &Directive) -> (out: Vec<Directive>)
    ensures
        out@.map_values(|x: Directive| x@) == kept_directives(s@.map_values(|x: Directive| x@), n@),
{
    let ghost sv = s@.map_values(|x: Directive| x@);
    let mut rest = s;
    let mut out: Vec<Directive> = Vec::new();
    assert(out@.map_values(|x: Directive| x@) =~= Seq::<DirectiveV>::empty());
    while rest.len() > 0
        invariant
            kept_directives(sv, n@) == out@.map_values(|x: Directive| x@) + kept_directives(
                rest@.map_values(|x: Directive| x@),
                n@,
            ),
        decreases rest.len(),
    {
        let ghost rv = rest@.map_values(|x: Directive| x@);
        let ghost ov = out@.map_values(|x: Directive| x@);
        let d = rest.remove(0);
        assert(rest@.map_values(|x: Directive| x@) =~= rv.drop_first());
        assert(rv[0] == d@);
        if !directive_replaces(&d, n) {
            out.push(d);
            assert(out@.map_values(|x: Directive| x@) =~= ov.push(d@));
            assert(ov.push(d@) + kept_directives(rv.drop_first(), n@) =~= ov + (seq![d@]
                + kept_directives(rv.drop_first(), n@)));
        }
    }
    assert(kept_directives(rest@.map_values(|x: Directive| x@), n@) =~= Seq::<DirectiveV>::empty());
    assert(out@.map_values(|x: Directive| x@) + Seq::<DirectiveV>::empty() =~= out@.map_values(
        |x: Directive| x@,
    ));
    out
}

/// The directives `b` after applying the override directives `o` in order:
/// each replaces those of its kind (for `env`, of its variable), then is
/// appended.
pub fn merge_directive_lists(b: Vec<Directive>, o: Vec<Directive>) -> (out: Vec<Directive>)
    ensures
        out@.map_values(|x: Directive| x@) == merge_directives(
            b@.map_values(|x: Directive| x@),
            o@.map_values(|x: Directive| x@),
        ),
{
    let ghost target = merge_directives(
        b@.map_values(|x: Directive| x@),
        o@.map_values(|x: Directive| x@),
    );
    let mut acc = b;
    let mut rest = o;
    while rest.len() > 0
        invariant
            target == merge_directives(
                acc@.map_values(|x: Directive| x@),
                rest@.map_values(|x: Directive| x@),
            ),
        decreases rest.len(),
    {
        let ghost rv = rest@.map_values(|x: Directive| x@);
        let n = rest.remove(0);
        assert(rest@.map_values(|x: Directive| x@) =~= rv.drop_first());
        let mut kept = keep_directives(acc, &n);
        let ghost kv = kept@.map_values(|x: Directive| x@);
        kept.push(n);
        assert(kept@.map_values(|x: Directive| x@) =~= kv.push(rv[0]));
        acc = kept;
    }
    acc
}

/// Removes the constants named like `c` and appends `c`.
pub fn redefine_constant(consts: &mut Vec<Constant>, c: Constant)
    ensures
        final(consts)@.map_values(|v: Constant| v@) == crate::parser::redefine(
            old(consts)@.map_values(|v: Constant| v@),
            c@,
        ),
{
    let ghost sv = consts@.map_values(|v: Constant| v@);
    let mut rest: Vec<Constant> = Vec::new();
    std::mem::swap(&mut rest, consts);
    let mut i: usize = 0;
    let len = rest.len();
    let mut kept: Vec<Constant> = Vec::new();
    assert(kept@.map_values(|v: Constant| v@) =~= crate::parser::without_name(sv.take(0), c@.0));
    while i < len
        invariant
            len == rest.len(),
            sv == rest@.map_values(|v: Constant| v@),
            i <= len,
            kept@.map_values(|v: Constant| v@) == crate::parser::without_name(
                sv.take(i as int),
                c@.0,
            ),
        decreases len - i,
    {
        let ghost kv = kept@.map_values(|v: Constant| v@);
        assert(sv.take(i + 1).drop_last() =~= sv.take(i as int));
        if rest[i].name != c.name {
            let x = Constant { name: rest[i].name.clone(), value: rest[i].value.clone() };
            kept.push(x);
            assert(kept@.map_values(|v: Constant| v@) =~= kv.push(sv[i as int]));
        }
        i += 1;
    }
    assert(sv.take(len as int) =~= sv);
    let ghost kv = kept@.map_values(|v: Constant| v@);
    kept.push(c);
    assert(kept@.map_values(|v: Constant| v@) =~= kv.push(c@));
    *consts = kept;
}

/// The variables `b` after redefining each of `o` in order.
pub fn redefine_variables(b: &mut Vec<Variable>, o: Vec<Variable>)
    ensures
        final(b)@.map_values(|v: Variable| v@) == redefine_all(
            old(b)@.map_values(|v: Variable| v@),
            o@.map_values(|v: Variable| v@),
        ),
{
    let ghost target = redefine_all(
        b@.map_values(|v: Variable| v@),
        o@.map_values(|v: Variable| v@),
    );
    let mut rest = o;
    while rest.len() > 0
        invariant
            target == redefine_all(
                b@.map_values(|v: Variable| v@),
                rest@.map_values(|v: Variable| v@),
            ),
        decreases rest.len(),
    {
        let ghost rv = rest@.map_values(|v: Variable| v@);
        let v = rest.remove(0);
        assert(rest@.map_values(|v: Variable| v@) =~= rv.drop_first());
        crate::parser::redefine_variable(b, v);
    }
}

/// The constants `b` after redefining each of `o` in order.
pub fn redefine_constants(b: &mut Vec<Constant>, o: Vec<Constant>)
    ensures
        final(b)@.map_values(|v: Constant| v@) == redefine_all(
            old(b)@.map_values(|v: Constant| v@),
            o@.map_values(|v: Constant| v@),
        ),
{
    let ghost target = redefine_all(
        b@.map_values(|v: Constant| v@),
        o@.map_values(|v: Constant| v@),
    );
    let mut rest = o;
    while rest.len() > 0
        invariant
            target == redefine_all(
                b@.map_values(|v: Constant| v@),
                rest@.map_values(|v: Constant| v@),
            ),
        decreases rest.len(),
    {
        let ghost rv = rest@.map_values(|v: Constant| v@);
        let v = rest.remove(0);
        assert(rest@.map_values(|v: Constant| v@) =~= rv.drop_first());
        redefine_constant(b, v);
    }
}

/// Merges the later definition `over` into `base` (depth budget `d`).
fn merge_single_command(base: Command, over: Command, Ghost(d): Ghost<nat>) -> (out: Command)
    requires
        cmd_depth(base@) <= d,
        cmd_depth(over@) <= d,
    ensures
        out@ == merge_one(base@, over@, d),
        cmd_depth(out@) <= d,
    decreases d, 0nat,
{
    let Command {
        name,
        parameters,
        directives,
        children,
        has_wildcard,
        local_variables,
        local_constants,
        source_file,
    } = base;
    let Command {
        name: _,
        parameters: o_params,
        directives: o_dirs,
        children: o_children,
        has_wildcard: _,
        local_variables: o_vars,
        local_constants: o_consts,
        source_file: _,
    } = over;
    let ghost bc = commands_view(children@);
    let ghost oc = commands_view(o_children@);
    let dirs = merge_directive_lists(directives, o_dirs);
    let mut kids = children;
    let mut others = o_children;
    kids.append(&mut others);
    proof {
        lemma_commands_view(children@);
        lemma_commands_view(o_children@);
        lemma_commands_view(kids@);
        assert(commands_view(kids@) =~= bc + oc);
        lemma_kids_depth(bc, d);
        lemma_kids_depth(oc, d);
        assert(bounded(commands_view(kids@), (d - 1) as nat)) by {
            assert forall|i: int| 0 <= i < commands_view(kids@).len() implies #[trigger] cmd_depth(
                commands_view(kids@)[i],
            ) <= (d - 1) as nat by {
                if i < bc.len() {
                    assert(commands_view(kids@)[i] == bc[i]);
                } else {
                    assert(commands_view(kids@)[i] == oc[i - bc.len()]);
                }
            }
        }
    }
    let merged_kids = merge_with(kids, Ghost((d - 1) as nat));
    let params = if o_params.len() > 0 {
        o_params
    } else {
        parameters
    };
    let mut vars = local_variables;
    redefine_variables(&mut vars, o_vars);
    let mut consts = local_constants;
    redefine_constants(&mut consts, o_consts);
    let out = Command {
        name,
        parameters: params,
        directives: dirs,
        children: merged_kids,
        has_wildcard,
        local_variables: vars,
        local_constants: consts,
        source_file,
    };
    proof {
        lemma_kids_depth(commands_view(merged_kids@), (d - 1) as nat);
    }
    out
}

/// Merges the commands by name with depth budget `d`.
fn merge_with(cs: Vec<Command>, Ghost(d): Ghost<nat>) -> (out: Vec<Command>)
    requires
        bounded(commands_view(cs@), d),
    ensures
        commands_view(out@) == merge_from(commands_view(cs@), d, Seq::empty()),
        bounded(commands_view(out@), d),
        unique_names(commands_view(out@)),
    decreases d, 1nat,
{
    let ghost target = merge_from(commands_view(cs@), d, Seq::empty());
    let mut out: Vec<Command> = Vec::new();
    let mut index = index_new();
    let mut rest = cs;
    assert(commands_view(out@) =~= Seq::<CommandV>::empty());
    while rest.len() > 0
        invariant
            target == merge_from(commands_view(rest@), d, commands_view(out@)),
            bounded(commands_view(rest@), d),
            bounded(commands_view(out@), d),
            unique_names(commands_view(out@)),
            index_entries(index).len() == out@.len(),
            forall|i: int|
                0 <= i < out@.len() ==> #[trigger] index_entries(index)[i] == (
                    commands_view(out@)[i].name,
                    i as usize,
                ),
        decreases rest.len(),
    {
        let ghost rv = commands_view(rest@);
        let ghost ov = commands_view(out@);
        proof {
            lemma_commands_view(rest@);
            lemma_commands_view(out@);
        }
        let c = rest.remove(0);
        proof {
            lemma_commands_view(rest@);
            assert(commands_view(rest@) =~= rv.drop_first());
            assert(rv[0] == c@);
            assert(cmd_depth(rv[0]) <= d);
            assert(bounded(commands_view(rest@), d)) by {
                assert forall|i: int| 0 <= i < commands_view(rest@).len() implies #[trigger] cmd_depth(
                    commands_view(rest@)[i],
                ) <= d by {
                    assert(commands_view(rest@)[i] == rv[i + 1]);
                }
            }
            lemma_name_pos(ov, c@.name);
            assert(merge_from(rv, d, ov) == merge_from(rv.drop_first(), d, merge_into(ov, rv[0], d)));
        }
        let ghost nxt = merge_into(ov, rv[0], d);
        match index_get(&index, &c.name) {
            Some(i) => {
                let ghost k = choose|k: int|
                    0 <= k < index_entries(index).len() && #[trigger] index_entries(index)[k] == (
                        c.name@,
                        i,
                    );
                assert(index_entries(index)[k] == (ov[k].name, k as usize));
                assert(0 <= k < out.len());
                assert((k as usize) as int == k);
                assert(i == k as usize);
                assert(k == i);
                assert(name_pos(ov, c@.name) == i);
                let b = out.remove(i);
                assert(b@ == ov[i as int]);
                let merged = merge_single_command(b, c, Ghost(d));
                out.insert(i, merged);
                proof {
                    lemma_commands_view(out@);
                    assert(commands_view(out@) =~= ov.update(i as int, merged@));
                    assert(merge_into(ov, rv[0], d) == ov.update(i as int, merge_one(ov[i as int], rv[0], d)));
                    assert(commands_view(out@) == nxt);
                }
            },
            None => {
                let nm = c.name.clone();
                assert(forall|j: int| 0 <= j < ov.len() ==> #[trigger] ov[j].name != c@.name) by {
                    assert forall|j: int| 0 <= j < ov.len() implies #[trigger] ov[j].name != c@.name by {
                        assert(index_entries(index)[j].0 == ov[j].name);
                    }
                }
                let ghost cc = c;
                let ghost oseq = out@;
                out.push(c);
                let pos = out.len() - 1;
                index_insert(&mut index, nm, pos);
                proof {
                    lemma_commands_view_push(oseq, cc);
                    assert(out@ == oseq.push(cc));
                    assert(commands_view(out@) == ov.push(cc@));
                    assert(name_pos(ov, cc@.name) == -1);
                    assert(commands_view(out@) == nxt);
                }
            },
        }
    }
    out
}

/// Merges commands that share a name, each later definition into the
/// first one, in the order in which the names first occur.
pub fn merge_resolved(cs: Vec<Command>) -> (out: Vec<Command>)
    ensures
        commands_view(out@) == merge_spec(commands_view(cs@)),
{
    proof {
        lemma_kids_depth(commands_view(cs@), 0);
    }
    merge_with(cs, Ghost(kids_depth(commands_view(cs@))))
}

/// What `Path::parent` gives for a path, as text, under the path rules of
/// the platform the program is built for.
pub uninterp spec fn path_parent_of(p: Seq<char>) -> Option<Seq<char>>;

/// `Path::parent` of `p`, as text: the contract says only that the answer
/// is the one named by `path_parent_of` for this text.
#[verifier::external_body]
pub(crate) fn path_parent(p: &String) -> (r: Option<String>)
    ensures
        crate::ast::opt_view(r) == path_parent_of(p@),
{
    match std::path::Path::new(p).parent() {
        Some(x) => Some(x.to_string_lossy().into_owned()),
        None => None,
    }
}

/// What `Path::is_relative` gives for a path, under the path rules of the
/// platform the program is built for (on Unix: it does not start with `/`).
pub uninterp spec fn path_relative(p: Seq<char>) -> bool;

/// What `Path::join` gives for `base` and `p`, as text, under the path
/// rules of the platform the program is built for.
pub uninterp spec fn path_joined(base: Seq<char>, p: Seq<char>) -> Seq<char>;

/// `Path::is_relative` of `p`: the contract says only that the answer is
/// the one named by `path_relative` for this text; the platform's rules are
/// not written out.
#[verifier::external_body]
fn path_is_relative(p: &String) -> (r: bool)
    ensures
        r == path_relative(p@),
{
    std::path::Path::new(p).is_relative()
}

/// `Path::join` of `base` and `p`, as text: the contract says only that
/// the text is the one named by `path_joined` for these two texts.
#[verifier::external_body]
pub(crate) fn path_join(base: &String, p: &String) -> (r: String)
    ensures
        r@ == path_joined(base@, p@),
{
    std::path::Path::new(base).join(p).to_string_lossy().into_owned()
}

/// The path `p` resolved against `base`: joined to it where `p` is
/// relative, `p` itself otherwise.
pub open spec fn resolved_path(p: Seq<char>, base: Seq<char>) -> Seq<char> {
    if path_relative(p) {
        path_joined(base, p)
    } else {
        p
    }
}

/// A directive with the path of a working-directory, env-file or log
/// directive resolved against `base`; other directives as they are.
pub open spec fn resolved_directive(d: DirectiveV, base: Seq<char>) -> DirectiveV {
    match d {
        DirectiveV::Cwd(p) => DirectiveV::Cwd(resolved_path(p, base)),
        DirectiveV::EnvFile(p, h) => DirectiveV::EnvFile(resolved_path(p, base), h),
        DirectiveV::Logs(p, f) => DirectiveV::Logs(resolved_path(p, base), f),
        _ => d,
    }
}

/// `b` differs from `a` at most in the path that a working-directory,
/// env-file or log directive names.
pub open spec fn path_only_changed(a: DirectiveV, b: DirectiveV) -> bool {
    match a {
        DirectiveV::Cwd(_) => b is Cwd,
        DirectiveV::EnvFile(_, h) => b is EnvFile && b->EnvFile_1 == h,
        DirectiveV::Logs(_, f) => b is Logs && b->Logs_1 == f,
        _ => b == a,
    }
}

/// The directives differ at most in such paths.
pub open spec fn dirs_path_only(a: Seq<DirectiveV>, b: Seq<DirectiveV>) -> bool {
    a.len() == b.len() && forall|i: int| 0 <= i < a.len() ==> #[trigger] path_only_changed(a[i], b[i])
}

/// The directory of a command's source file, against which its relative
/// paths are resolved.
pub open spec fn base_of(source_file: Option<Seq<char>>) -> Option<Seq<char>> {
    match source_file {
        Some(f) => path_parent_of(f),
        None => None,
    }
}

/// The directives with their paths resolved against `base`, where there
/// is one.
pub open spec fn dirs_resolved(ds: Seq<DirectiveV>, base: Option<Seq<char>>) -> Seq<DirectiveV> {
    match base {
        Some(b) => ds.map_values(|d: DirectiveV| resolved_directive(d, b)),
        None => ds,
    }
}

/// The command `b` is `a` with the paths of its working-directory,
/// env-file and log directives resolved against the directory of its
/// source file (see `resolved_directive`), and so are its children.
pub open spec fn cmd_resolved(a: CommandV, b: CommandV) -> bool
    decreases a, 0nat,
{
    &&& b.name == a.name
    &&& b.parameters == a.parameters
    &&& b.directives == dirs_resolved(a.directives, base_of(a.source_file))
    &&& dirs_path_only(a.directives, b.directives)
    &&& (a.source_file is None ==> b.directives == a.directives)
    &&& b.has_wildcard == a.has_wildcard
    &&& b.local_variables == a.local_variables
    &&& b.local_constants == a.local_constants
    &&& b.source_file == a.source_file
    &&& cmds_resolved(a.children, b.children)
}

/// The commands `b` are `a`, each resolved as `cmd_resolved` says, one for one.
pub open spec fn cmds_resolved(a: Seq<CommandV>, b: Seq<CommandV>) -> bool
    decreases a, 1nat,
{
    a.len() == b.len() && (a.len() > 0 ==> cmd_resolved(a[0], b[0]) && cmds_resolved(
        a.subrange(1, a.len() as int),
        b.subrange(1, b.len() as int),
    ))
}

/// Commands related one for one are related as sequences.
pub proof fn lemma_paths_pointwise(a: Seq<CommandV>, b: Seq<CommandV>)
    requires
        a.len() == b.len(),
        forall|i: int| 0 <= i < a.len() ==> #[trigger] cmd_resolved(a[i], b[i]),
    ensures
        cmds_resolved(a, b),
    decreases a.len(),
{
    if a.len() > 0 {
        let ar = a.subrange(1, a.len() as int);
        let br = b.subrange(1, b.len() as int);
        assert forall|i: int| 0 <= i < ar.len() implies #[trigger] cmd_resolved(ar[i], br[i]) by {
            assert(ar[i] == a[i + 1] && br[i] == b[i + 1]);
        }
        lemma_paths_pointwise(ar, br);
        assert(cmd_resolved(a[0], b[0]));
    }
}

/// Resolves the path of a working-directory, env-file or log directive
/// against `base` where it is relative.
fn resolve_directive_path(d: Directive, base: &String) -> (out: Directive)
    ensures
        path_only_changed(d@, out@),
        out@ == resolved_directive(d@, base@),
{
    match d {
        Directive::Cwd(p) => Directive::Cwd(resolve_path_string(p, base)),
        Directive::EnvFile(p, h) => Directive::EnvFile(resolve_path_string(p, base), h),
        Directive::Logs(p, f) => Directive::Logs(resolve_path_string(p, base), f),
        other => other,
    }
}

/// The path `p` joined to `base` where `p` is relative; `p` otherwise.
fn resolve_path_string(p: String, base: &String) -> (out: String)
    ensures
        out@ == resolved_path(p@, base@),
{
    if path_is_relative(&p) {
        path_join(base, &p)
    } else {
        p
    }
}

/// Resolves relative paths in the directives of each command that records
/// its source file, against that file's directory, and in their children.
fn resolve_relative_paths(cs: Vec<Command>) -> (out: Vec<Command>)
    ensures
        cmds_resolved(commands_view(cs@), commands_view(out@)),
    decreases kids_depth(commands_view(cs@)),
{
    let ghost cv = commands_view(cs@);
    proof {
        lemma_commands_view(cs@);
        lemma_kids_depth(cv, 0);
    }
    let mut rest = cs;
    let mut out: Vec<Command> = Vec::new();
    let ghost mut done: int = 0;
    while rest.len() > 0
        invariant
            cv == commands_view(cs@),
            cv.len() == done + rest@.len(),
            0 <= done <= cv.len(),
            out@.len() == done,
            forall|i: int| 0 <= i < rest@.len() ==> #[trigger] rest@[i]@ == cv[done + i],
            forall|i: int| 0 <= i < done ==> #[trigger] cmd_resolved(cv[i], out@[i]@),
            forall|i: int| 0 <= i < cv.len() ==> #[trigger] cmd_depth(cv[i]) <= kids_depth(cv),
        decreases rest.len(),
    {
        let ghost rs = rest@;
        let c = rest.remove(0);
        assert(c@ == cv[done]);
        assert forall|i: int| 0 <= i < rest@.len() implies #[trigger] rest@[i]@ == cv[done + 1 + i] by {
            assert(rest@[i] == rs[i + 1]);
        }
        let Command {
            name,
            parameters,
            directives,
            children,
            has_wildcard,
            local_variables,
            local_constants,
            source_file,
        } = c;
        proof {
            assert(cmd_depth(cv[done]) <= kids_depth(cv));
            assert(kids_depth(commands_view(children@)) < kids_depth(cv));
        }
        let kids = resolve_relative_paths(children);
        let mut dirs: Vec<Directive> = Vec::new();
        let mut base: Option<String> = None;
        match &source_file {
            Some(sf) => {
                base = path_parent(sf);
            },
            None => {},
        }
        let mut src_dirs = directives;
        let ghost dv = src_dirs@.map_values(|x: Directive| x@);
        let n = src_dirs.len();
        let mut k: usize = 0;
        while src_dirs.len() > 0
            invariant
                dv.len() == n,
                k + src_dirs@.len() == n,
                dirs@.len() == k,
                forall|i: int| 0 <= i < src_dirs@.len() ==> #[trigger] src_dirs@[i]@ == dv[k + i],
                forall|i: int| 0 <= i < k ==> #[trigger] path_only_changed(dv[i], dirs@[i]@),
                source_file is None ==> forall|i: int| 0 <= i < k ==> #[trigger] dirs@[i]@ == dv[i],
                source_file is None ==> base is None,
                crate::ast::opt_view(base) == base_of(crate::ast::opt_view(source_file)),
                forall|i: int|
                    0 <= i < k ==> #[trigger] dirs@[i]@ == match crate::ast::opt_view(base) {
                        Some(b) => resolved_directive(dv[i], b),
                        None => dv[i],
                    },
            decreases src_dirs.len(),
        {
            let ghost sd = src_dirs@;
            let d = src_dirs.remove(0);
            assert(d@ == dv[k as int]);
            assert forall|i: int| 0 <= i < src_dirs@.len() implies #[trigger] src_dirs@[i]@ == dv[k
                + 1 + i] by {
                assert(src_dirs@[i] == sd[i + 1]);
            }
            let nd = match &base {
                Some(b) => resolve_directive_path(d, b),
                None => d,
            };
            dirs.push(nd);
            k = k + 1;
        }
        let ghost dirs_v = dirs@.map_values(|x: Directive| x@);
        assert(dirs_path_only(dv, dirs_v)) by {
            assert forall|i: int| 0 <= i < dv.len() implies #[trigger] path_only_changed(dv[i], dirs_v[i]) by {
                assert(dirs_v[i] == dirs@[i]@);
            }
        }
        if source_file.is_none() {
            assert(dirs_v =~= dv);
        }
        assert(dirs_v =~= dirs_resolved(dv, base_of(crate::ast::opt_view(source_file))));
        let nc = Command {
            name,
            parameters,
            directives: dirs,
            children: kids,
            has_wildcard,
            local_variables,
            local_constants,
            source_file,
        };
        assert(cmd_resolved(cv[done], nc@));
        out.push(nc);
        proof {
            done = done + 1;
        }
    }
    proof {
        lemma_commands_view(out@);
        assert forall|i: int| 0 <= i < cv.len() implies #[trigger] cmd_resolved(
            cv[i],
            commands_view(out@)[i],
        ) by {
            assert(commands_view(out@)[i] == out@[i]@);
        }
        lemma_paths_pointwise(cv, commands_view(out@));
    }
    out
}

/// Merges a list of commands, applying the "last wins" strategy to
/// duplicates: relative paths are first resolved against each command's
/// source file, then commands of the same name are merged.
pub fn merge_commands(commands: Vec<Command>) -> (out: Vec<Command>)
    ensures
        exists|r: Seq<CommandV>|
            cmds_resolved(commands_view(commands@), r) && commands_view(out@) == merge_spec(r),
{
    let resolved = resolve_relative_paths(commands);
    let out = merge_resolved(resolved);
    assert(cmds_resolved(commands_view(commands@), commands_view(resolved@)));
    out
}

/// The names of the commands, in order.
pub open spec fn names_of(cs: Seq<CommandV>) -> Seq<Seq<char>> {
    cs.map_values(|c: CommandV| c.name)
}

/// The names `ns` added in order to `acc`, each only where `acc` does not
/// hold it yet.
pub open spec fn first_occurrences(acc: Seq<Seq<char>>, ns: Seq<Seq<char>>) -> Seq<Seq<char>>
    decreases ns.len(),
{
    if ns.len() == 0 {
        acc
    } else {
        let acc1 = if acc.contains(ns[0]) { acc } else { acc.push(ns[0]) };
        first_occurrences(acc1, ns.drop_first())
    }
}

/// Merging one command keeps the names unique and adds its name where it is
/// new.
proof fn lemma_merge_into_names(acc: Seq<CommandV>, c: CommandV, d: nat)
    requires
        unique_names(acc),
    ensures
        unique_names(merge_into(acc, c, d)),
        names_of(merge_into(acc, c, d)) == if names_of(acc).contains(c.name) {
            names_of(acc)
        } else {
            names_of(acc).push(c.name)
        },
{
    lemma_name_pos(acc, c.name);
    let i = name_pos(acc, c.name);
    let r = merge_into(acc, c, d);
    if 0 <= i < acc.len() {
        assert(merge_one(acc[i], c, d).name == acc[i].name);
        assert(names_of(acc)[i] == c.name);
        assert(names_of(r) =~= names_of(acc));
        assert forall|a: int, b: int| 0 <= a < r.len() && 0 <= b < r.len() && a != b implies #[trigger] r[a].name
            != #[trigger] r[b].name by {
            assert(r[a].name == acc[a].name && r[b].name == acc[b].name);
        }
    } else {
        if names_of(acc).contains(c.name) {
            let j = choose|j: int| 0 <= j < names_of(acc).len() && names_of(acc)[j] == c.name;
            assert(acc[j].name == c.name);
        }
        assert(names_of(r) =~= names_of(acc).push(c.name));
        assert forall|a: int, b: int| 0 <= a < r.len() && 0 <= b < r.len() && a != b implies #[trigger] r[a].name
            != #[trigger] r[b].name by {
            if a < acc.len() && b < acc.len() {
                assert(r[a] == acc[a] && r[b] == acc[b]);
            } else if a < acc.len() {
                assert(r[a] == acc[a]);
            } else if b < acc.len() {
                assert(r[b] == acc[b]);
            }
        }
    }
}

/// Merging keeps one command per name, in the order in which the names
/// first occur.
pub proof fn lemma_merge_from_names(cs: Seq<CommandV>, d: nat, acc: Seq<CommandV>)
    requires
        unique_names(acc),
    ensures
        unique_names(merge_from(cs, d, acc)),
        names_of(merge_from(cs, d, acc)) == first_occurrences(names_of(acc), names_of(cs)),
    decreases cs.len(),
{
    if cs.len() > 0 {
        lemma_merge_into_names(acc, cs[0], d);
        lemma_merge_from_names(cs.drop_first(), d, merge_into(acc, cs[0], d));
        assert(names_of(cs.drop_first()) =~= names_of(cs).drop_first());
    }
}

/// Law: the merged commands have pairwise different names, namely the names
/// of the given commands in the order of their first occurrence.
pub proof fn lemma_merge_names(cs: Seq<CommandV>)
    ensures
        unique_names(merge_spec(cs)),
        names_of(merge_spec(cs)) == first_occurrences(Seq::empty(), names_of(cs)),
{
    assert(names_of(Seq::<CommandV>::empty()) =~= Seq::<Seq<char>>::empty());
    lemma_merge_from_names(cs, kids_depth(cs), Seq::empty());
}

/// The descriptions among the directives, in order.
pub open spec fn descs(s: Seq<DirectiveV>) -> Seq<Seq<char>>
    decreases s.len(),
{
    if s.len() == 0 {
        Seq::empty()
    } else if s[0] is Desc {
        seq![s[0]->Desc_0] + descs(s.drop_first())
    } else {
        descs(s.drop_first())
    }
}

proof fn lemma_descs_push(s: Seq<DirectiveV>, n: DirectiveV)
    ensures
        n is Desc ==> descs(s.push(n)) == descs(s).push(n->Desc_0),
        !(n is Desc) ==> descs(s.push(n)) == descs(s),
    decreases s.len(),
{
    let x = s.push(n);
    if s.len() > 0 {
        lemma_descs_push(s.drop_first(), n);
        assert(x.drop_first() =~= s.drop_first().push(n));
        assert(x[0] == s[0]);
        if s[0] is Desc {
            assert(descs(x) == seq![s[0]->Desc_0] + descs(s.drop_first().push(n)));
            if n is Desc {
                assert(seq![s[0]->Desc_0] + descs(s.drop_first()).push(n->Desc_0) =~= (seq![
                    s[0]->Desc_0,
                ] + descs(s.drop_first())).push(n->Desc_0));
            }
        } else {
            assert(descs(x) == descs(s.drop_first().push(n)));
        }
    } else {
        assert(x.drop_first() =~= Seq::<DirectiveV>::empty());
        assert(x[0] == n);
        assert(descs(x.drop_first()) == Seq::<Seq<char>>::empty());
        if n is Desc {
            assert(descs(x) == seq![n->Desc_0] + descs(x.drop_first()));
            assert(seq![n->Desc_0] + Seq::<Seq<char>>::empty() =~= Seq::<Seq<char>>::empty().push(
                n->Desc_0,
            ));
        }
    }
}

proof fn lemma_descs_kept(s: Seq<DirectiveV>, n: DirectiveV)
    ensures
        descs(kept_directives(s, n)) == if n is Desc {
            Seq::<Seq<char>>::empty()
        } else {
            descs(s)
        },
    decreases s.len(),
{
    if s.len() > 0 {
        lemma_descs_kept(s.drop_first(), n);
        let rest = kept_directives(s.drop_first(), n);
        if !replaces(s[0], n) {
            assert((seq![s[0]] + rest).drop_first() =~= rest);
        }
    }
}

/// The descriptions after applying override directives to `b`.
proof fn lemma_descs_merge(b: Seq<DirectiveV>, o: Seq<DirectiveV>)
    ensures
        descs(o).len() > 0 ==> descs(merge_directives(b, o)) == seq![descs(o).last()],
        descs(o).len() == 0 ==> descs(merge_directives(b, o)) == descs(b),
    decreases o.len(),
{
    if o.len() > 0 {
        let b1 = apply_directive(b, o[0]);
        lemma_descs_kept(b, o[0]);
        lemma_descs_push(kept_directives(b, o[0]), o[0]);
        lemma_descs_merge(b1, o.drop_first());
        if o[0] is Desc {
            assert(descs(b1) =~= seq![o[0]->Desc_0]);
            if descs(o.drop_first()).len() == 0 {
                assert(descs(o) =~= seq![o[0]->Desc_0]);
            } else {
                assert(descs(o) =~= seq![o[0]->Desc_0] + descs(o.drop_first()));
            }
        }
    }
}

/// Law ("last wins" for descriptions): when the later definition of a
/// command has a description, the merged command has that description
/// alone, the last one given; otherwise it keeps the earlier ones.
pub proof fn lemma_merge_desc_last_wins(b: CommandV, o: CommandV, d: nat)
    requires
        d > 0,
    ensures
        descs(o.directives).len() > 0 ==> descs(merge_one(b, o, d).directives) == seq![
            descs(o.directives).last(),
        ],
        descs(o.directives).len() == 0 ==> descs(merge_one(b, o, d).directives) == descs(
            b.directives,
        ),
{
    lemma_descs_merge(b.directives, o.directives);
}

/// Law (merging a later definition into an earlier one): the parameters
/// are replaced completely when the later definition has any; the
/// children of both are merged by name (one child per name, in the order
/// of first definition); a later local variable or constant replaces an
/// earlier one of the same name.
pub proof fn lemma_merge_one_rules(b: CommandV, o: CommandV, d: nat)
    requires
        d > 0,
    ensures
        merge_one(b, o, d).parameters == if o.parameters.len() > 0 {
            o.parameters
        } else {
            b.parameters
        },
        merge_one(b, o, d).name == b.name,
        unique_names(merge_one(b, o, d).children),
        names_of(merge_one(b, o, d).children) == first_occurrences(
            Seq::empty(),
            names_of(b.children + o.children),
        ),
        merge_one(b, o, d).local_variables == redefine_all(b.local_variables, o.local_variables),
        merge_one(b, o, d).local_constants == redefine_all(b.local_constants, o.local_constants),
{
    assert(names_of(Seq::<CommandV>::empty()) =~= Seq::<Seq<char>>::empty());
    lemma_merge_from_names(b.children + o.children, (d - 1) as nat, Seq::empty());
}

/// A directive that `n` does not replace stays after `n` is applied.
proof fn lemma_kept_stays(s: Seq<DirectiveV>, n: DirectiveV, d: DirectiveV)
    requires
        s.contains(d),
        !replaces(d, n),
    ensures
        apply_directive(s, n).contains(d),
        kept_directives(s, n).contains(d),
    decreases s.len(),
{
    let k = kept_directives(s, n);
    if s[0] == d {
        assert(k[0] == d);
    } else {
        let j = choose|j: int| 0 <= j < s.len() && s[j] == d;
        assert(s.drop_first()[j - 1] == d);
        lemma_kept_stays(s.drop_first(), n, d);
        let r = kept_directives(s.drop_first(), n);
        let q = choose|q: int| 0 <= q < r.len() && r[q] == d;
        if replaces(s[0], n) {
            assert(k == r);
        } else {
            assert(k == seq![s[0]] + r);
            assert(k[q + 1] == d);
        }
    }
    assert(apply_directive(s, n)[apply_directive(s, n).len() - 1] == n);
    let k2 = kept_directives(s, n);
    let q2 = choose|q: int| 0 <= q < k2.len() && k2[q] == d;
    assert(apply_directive(s, n)[q2] == d);
}

/// Law (merging keeps other environment variables): after a later
/// definition's directives are merged into a command's, each `env`
/// directive of the command that sets a variable the later definition
/// does not set is still there; the later definition replaces only the
/// `env` directives of the variables it sets.
pub proof fn lemma_merge_keeps_other_env(
    b: Seq<DirectiveV>,
    o: Seq<DirectiveV>,
    k: Seq<char>,
    v: Seq<char>,
    h: bool,
)
    requires
        b.contains(DirectiveV::Env(k, v, h)),
        forall|i: int| 0 <= i < o.len() ==> !(#[trigger] o[i] matches DirectiveV::Env(k2, _, _) && k2 == k),
    ensures
        merge_directives(b, o).contains(DirectiveV::Env(k, v, h)),
    decreases o.len(),
{
    if o.len() > 0 {
        let d = DirectiveV::Env(k, v, h);
        assert(!(o[0] matches DirectiveV::Env(k2, _, _) && k2 == k));
        assert(!replaces(d, o[0]));
        lemma_kept_stays(b, o[0], d);
        assert forall|i: int| 0 <= i < o.drop_first().len() implies !(#[trigger] o.drop_first()[i] matches DirectiveV::Env(
            k2,
            _,
            _,
        ) && k2 == k) by {
            assert(o.drop_first()[i] == o[i + 1]);
        }
        lemma_merge_keeps_other_env(apply_directive(b, o[0]), o.drop_first(), k, v, h);
    }
}

/// Law (merging two definitions of a command keeps its other environment
/// variables): a command defined twice under one name merges into one
/// command, and an `env` directive of the first definition for a variable
/// the second does not set is among its directives.
pub proof fn lemma_merge_two_keeps_env(a: CommandV, b: CommandV, k: Seq<char>, v: Seq<char>, h: bool)
    requires
        a.name == b.name,
        a.directives.contains(DirectiveV::Env(k, v, h)),
        forall|i: int|
            0 <= i < b.directives.len() ==> !(#[trigger] b.directives[i] matches DirectiveV::Env(k2, _, _)
                && k2 == k),
    ensures
        merge_spec(seq![a, b]).len() == 1,
        merge_spec(seq![a, b])[0].directives.contains(DirectiveV::Env(k, v, h)),
{
    let cs = seq![a, b];
    let d = kids_depth(cs);
    lemma_kids_depth(cs, 0);
    assert(cmd_depth(cs[0]) <= d);
    assert(d >= 1);
    let e = Seq::<CommandV>::empty();
    assert(name_pos(e, a.name) == -1);
    let acc1 = merge_into(e, a, d);
    assert(acc1 =~= seq![a]);
    assert(cs.drop_first() =~= seq![b]);
    assert(name_pos(seq![a], b.name) == 0);
    let acc2 = merge_into(acc1, b, d);
    assert(acc2 =~= seq![merge_one(a, b, d)]);
    assert(seq![b].drop_first() =~= e);
    assert(merge_from(seq![b], d, acc1) == merge_from(e, d, acc2));
    assert(merge_from(cs, d, e) == merge_from(cs.drop_first(), d, acc1));
    lemma_merge_keeps_other_env(a.directives, b.directives, k, v, h);
}

/// Every script of `s` is one of `o`.
pub open spec fn scripts_from(s: Seq<DirectiveV>, o: Seq<DirectiveV>) -> bool {
    forall|j: int| 0 <= j < s.len() && (#[trigger] s[j]) is Script ==> o.contains(s[j])
}

/// What is kept is among what there was, and a script drops every script.
proof fn lemma_kept_from(s: Seq<DirectiveV>, n: DirectiveV)
    ensures
        forall|j: int| 0 <= j < kept_directives(s, n).len() ==> s.contains(#[trigger] kept_directives(s, n)[j]),
        n is Script ==> forall|j: int|
            0 <= j < kept_directives(s, n).len() ==> !(#[trigger] kept_directives(s, n)[j] is Script),
    decreases s.len(),
{
    if s.len() > 0 {
        lemma_kept_from(s.drop_first(), n);
        let r = kept_directives(s.drop_first(), n);
        let k = kept_directives(s, n);
        assert forall|j: int| 0 <= j < k.len() implies s.contains(#[trigger] k[j]) by {
            if replaces(s[0], n) {
                assert(k == r);
                assert(s.drop_first().contains(k[j]));
                let q = choose|q: int| 0 <= q < s.drop_first().len() && s.drop_first()[q] == k[j];
                assert(s[q + 1] == k[j]);
            } else {
                assert(k == seq![s[0]] + r);
                if j == 0 {
                    assert(s[0] == k[0]);
                } else {
                    assert(k[j] == r[j - 1]);
                    assert(s.drop_first().contains(k[j]));
                    let q = choose|q: int| 0 <= q < s.drop_first().len() && s.drop_first()[q] == k[j];
                    assert(s[q + 1] == k[j]);
                }
            }
        }
        if n is Script {
            assert forall|j: int| 0 <= j < k.len() implies !(#[trigger] k[j] is Script) by {
                if !replaces(s[0], n) {
                    assert(k == seq![s[0]] + r);
                    if j > 0 {
                        assert(k[j] == r[j - 1]);
                    }
                } else {
                    assert(k == r);
                }
            }
        }
    }
}

proof fn lemma_merge_scripts(b: Seq<DirectiveV>, o: Seq<DirectiveV>, all: Seq<DirectiveV>)
    requires
        forall|k: int| 0 <= k < o.len() ==> all.contains(#[trigger] o[k]),
        scripts_from(b, all) || exists|k: int| 0 <= k < o.len() && (#[trigger] o[k]) is Script,
    ensures
        scripts_from(merge_directives(b, o), all),
    decreases o.len(),
{
    if o.len() > 0 {
        let n = o[0];
        let a = apply_directive(b, n);
        lemma_kept_from(b, n);
        let kd = kept_directives(b, n);
        assert(all.contains(n));
        if n is Script || scripts_from(b, all) {
            assert forall|j: int| 0 <= j < a.len() && (#[trigger] a[j]) is Script implies all.contains(a[j]) by {
                if j < kd.len() {
                    assert(a[j] == kd[j]);
                    assert(b.contains(kd[j]));
                    let q = choose|q: int| 0 <= q < b.len() && b[q] == kd[j];
                    assert(b[q] is Script);
                } else {
                    assert(a[j] == n);
                }
            }
        } else {
            let k = choose|k: int| 0 <= k < o.len() && (#[trigger] o[k]) is Script;
            assert(k > 0);
            assert(o.drop_first()[k - 1] == o[k]);
        }
        assert forall|k: int| 0 <= k < o.drop_first().len() implies all.contains(#[trigger] o.drop_first()[k]) by {
            assert(o.drop_first()[k] == o[k + 1]);
        }
        lemma_merge_scripts(a, o.drop_first(), all);
    }
}

/// Law (the later script wins): when the later definition of a command
/// has a script, every script left after merging is one of the later
/// definition's; none of the first definition's scripts survives.
pub proof fn lemma_later_script_wins(b: Seq<DirectiveV>, o: Seq<DirectiveV>, i: int)
    requires
        0 <= i < o.len(),
        o[i] is Script,
    ensures
        forall|j: int|
            0 <= j < merge_directives(b, o).len() && (#[trigger] merge_directives(b, o)[j]) is Script
                ==> o.contains(merge_directives(b, o)[j]),
{
    assert forall|k: int| 0 <= k < o.len() implies o.contains(#[trigger] o[k]) by {}
    lemma_merge_scripts(b, o, o);
}

} // verus!
