//! The decisions of the interactive command browser: the flat list of all
//! command paths, moving a wrapping selection, the history of command
//! lines (newest first, without repeats, at most fifty), searching the
//! paths, the command line built from the chosen arguments, and the part
//! of a source file that shows a command's definition.

use vstd::prelude::*;
use crate::ast::{ArgMap, Command, CommandV, assoc_get, commands_view, lemma_commands_view};
use crate::merge::cmd_depth;
use crate::text::{chars_of, chars_of_string, contains_sub, is_ws, join, lines, push_all, string_of, trim};

verus! {

/// The paths of the commands and all their descendants, each command
/// before its children, below the parent path `prefix`.
pub open spec fn flat_spec(cs: Seq<CommandV>, prefix: Seq<Seq<char>>) -> Seq<Seq<Seq<char>>>
    decreases cs, 1nat,
{
    if cs.len() == 0 {
        Seq::empty()
    } else {
        flat_one(cs[0], prefix) + flat_spec(cs.subrange(1, cs.len() as int), prefix)
    }
}

/// The path of a command and those of its descendants.
pub open spec fn flat_one(c: CommandV, prefix: Seq<Seq<char>>) -> Seq<Seq<Seq<char>>>
    decreases c, 0nat,
{
    seq![prefix.push(c.name)] + flat_spec(c.children, prefix.push(c.name))
}

/// The paths of the first `n` commands and their descendants.
pub open spec fn flat_prefix(cs: Seq<CommandV>, prefix: Seq<Seq<char>>, n: int) -> Seq<Seq<Seq<char>>>
    decreases n,
{
    if n <= 0 {
        Seq::empty()
    } else {
        flat_prefix(cs, prefix, n - 1) + flat_one(cs[n - 1], prefix)
    }
}

proof fn lemma_flat_prefix_shift(cs: Seq<CommandV>, prefix: Seq<Seq<char>>, n: int)
    requires
        1 <= n <= cs.len(),
    ensures
        flat_prefix(cs, prefix, n) == flat_one(cs[0], prefix) + flat_prefix(
            cs.subrange(1, cs.len() as int),
            prefix,
            n - 1,
        ),
    decreases n,
{
    let rest = cs.subrange(1, cs.len() as int);
    if n == 1 {
        assert(flat_prefix(rest, prefix, 0) == Seq::<Seq<Seq<char>>>::empty());
        assert(flat_prefix(cs, prefix, 0) == Seq::<Seq<Seq<char>>>::empty());
        assert(Seq::<Seq<Seq<char>>>::empty() + flat_one(cs[0], prefix) =~= flat_one(cs[0], prefix)
            + Seq::<Seq<Seq<char>>>::empty());
    } else {
        lemma_flat_prefix_shift(cs, prefix, n - 1);
        assert(rest[n - 2] == cs[n - 1]);
        assert(flat_one(cs[0], prefix) + flat_prefix(rest, prefix, n - 2) + flat_one(cs[n - 1], prefix)
            =~= flat_one(cs[0], prefix) + (flat_prefix(rest, prefix, n - 2) + flat_one(rest[n - 2], prefix)));
    }
}

proof fn lemma_flat_prefix_all(cs: Seq<CommandV>, prefix: Seq<Seq<char>>)
    ensures
        flat_prefix(cs, prefix, cs.len() as int) == flat_spec(cs, prefix),
    decreases cs.len(),
{
    if cs.len() > 0 {
        let rest = cs.subrange(1, cs.len() as int);
        lemma_flat_prefix_all(rest, prefix);
        lemma_flat_prefix_shift(cs, prefix, cs.len() as int);
    }
}

/// The models of paths of strings.
pub open spec fn paths_view(v: Seq<Vec<String>>) -> Seq<Seq<Seq<char>>> {
    v.map_values(|p: Vec<String>| p@.map_values(|s: String| s@))
}

/// Appends the paths of `command` and its descendants, below `prefix`.
fn push_flat(out: &mut Vec<Vec<String>>, command: &Command, prefix: &Vec<String>)
    ensures
        paths_view(final(out)@) == paths_view(old(out)@) + flat_one(command@, prefix@.map_values(|s: String| s@)),
    decreases cmd_depth(command@),
{
    let ghost pv = prefix@.map_values(|s: String| s@);
    let mut here = prefix.clone();
    here.push(command.name.clone());
    assert(here@.map_values(|s: String| s@) =~= pv.push(command@.name));
    let ghost o0 = paths_view(out@);
    out.push(here.clone());
    assert(paths_view(out@) =~= o0.push(pv.push(command@.name)));
    let ghost after_self = paths_view(out@);
    let ghost kv = commands_view(command.children@);
    proof {
        lemma_commands_view(command.children@);
        crate::merge::lemma_kids_depth(kv, 0);
        assert(cmd_depth(command@) == 1 + crate::merge::kids_depth(command@.children));
    }
    let mut i: usize = 0;
    assert(after_self + flat_prefix(kv, pv.push(command@.name), 0) =~= after_self);
    while i < command.children.len()
        invariant
            i <= command.children@.len(),
            kv == commands_view(command.children@),
            kv == command@.children,
            kv.len() == command.children@.len(),
            forall|j: int| 0 <= j < kv.len() ==> #[trigger] kv[j] == command.children@[j]@,
            forall|j: int| 0 <= j < kv.len() ==> #[trigger] cmd_depth(kv[j]) < cmd_depth(command@),
            here@.map_values(|s: String| s@) == pv.push(command@.name),
            paths_view(out@) == after_self + flat_prefix(kv, pv.push(command@.name), i as int),
        decreases command.children.len() - i,
    {
        assert(cmd_depth(kv[i as int]) < cmd_depth(command@));
        push_flat(out, &command.children[i], &here);
        assert(after_self + flat_prefix(kv, pv.push(command@.name), i as int) + flat_one(
            kv[i as int],
            pv.push(command@.name),
        ) =~= after_self + flat_prefix(kv, pv.push(command@.name), i + 1));
        i += 1;
    }
    proof {
        lemma_flat_prefix_all(kv, pv.push(command@.name));
    }
    assert(o0.push(pv.push(command@.name)) + flat_spec(kv, pv.push(command@.name)) =~= o0 + flat_one(
        command@,
        pv,
    ));
}

/// The paths of all commands, each command before its children (the flat
/// view of the browser).
pub fn flat_paths(commands: &Vec<Command>) -> (r: Vec<Vec<String>>)
    ensures
        paths_view(r@) == flat_spec(commands_view(commands@), Seq::empty()),
{
    let ghost cv = commands_view(commands@);
    proof {
        lemma_commands_view(commands@);
    }
    let mut out: Vec<Vec<String>> = Vec::new();
    let prefix: Vec<String> = Vec::new();
    assert(prefix@.map_values(|s: String| s@) =~= Seq::<Seq<char>>::empty());
    let mut i: usize = 0;
    assert(paths_view(out@) =~= flat_prefix(cv, Seq::empty(), 0));
    while i < commands.len()
        invariant
            i <= commands@.len(),
            cv == commands_view(commands@),
            cv.len() == commands@.len(),
            forall|j: int| 0 <= j < cv.len() ==> #[trigger] cv[j] == commands@[j]@,
            prefix@.map_values(|s: String| s@) == Seq::<Seq<char>>::empty(),
            paths_view(out@) == flat_prefix(cv, Seq::empty(), i as int),
        decreases commands.len() - i,
    {
        push_flat(&mut out, &commands[i], &prefix);
        i += 1;
    }
    proof {
        lemma_flat_prefix_all(cv, Seq::empty());
    }
    out
}

/// The selection after moving down a list of `count` items: wrapping to
/// the first after the last; unchanged in an empty list.
pub open spec fn next_spec(selected: Option<usize>, count: usize) -> Option<usize> {
    if count == 0 {
        selected
    } else {
        match selected {
            Some(i) => Some(if i >= count - 1 { 0 } else { (i + 1) as usize }),
            None => Some(0),
        }
    }
}

/// The selection after moving up a list of `count` items: wrapping to the
/// last before the first; unchanged in an empty list.
pub open spec fn previous_spec(selected: Option<usize>, count: usize) -> Option<usize> {
    if count == 0 {
        selected
    } else {
        match selected {
            Some(i) => Some(if i == 0 { (count - 1) as usize } else { (i - 1) as usize }),
            None => Some(0),
        }
    }
}

/// Moves a selection down (see `next_spec`).
pub fn select_next(selected: Option<usize>, count: usize) -> (r: Option<usize>)
    ensures
        r == next_spec(selected, count),
{
    if count == 0 {
        return selected;
    }
    match selected {
        Some(i) => Some(if i >= count - 1 { 0 } else { i + 1 }),
        None => Some(0),
    }
}

/// Moves a selection up (see `previous_spec`).
pub fn select_previous(selected: Option<usize>, count: usize) -> (r: Option<usize>)
    ensures
        r == previous_spec(selected, count),
{
    if count == 0 {
        return selected;
    }
    match selected {
        Some(i) => Some(if i == 0 { count - 1 } else { i - 1 }),
        None => Some(0),
    }
}

/// Moving down and then up a non-empty list comes back to the item where
/// the selection was.
pub proof fn lemma_next_then_previous(i: usize, count: usize)
    requires
        i < count,
    ensures
        previous_spec(next_spec(Some(i), count), count) == Some(i),
{
}

/// The number of command lines the history keeps.
pub const HISTORY_LIMIT: usize = 50;

/// `h` without the first occurrence of `x`.
pub open spec fn remove_first(h: Seq<Seq<char>>, x: Seq<char>) -> Seq<Seq<char>>
    decreases h.len(),
{
    if h.len() == 0 {
        h
    } else if h[0] == x {
        h.drop_first()
    } else {
        seq![h[0]] + remove_first(h.drop_first(), x)
    }
}

/// The history after running the command line `x`: `x` first, then the
/// earlier lines without the first repeat of `x`, at most fifty.
pub open spec fn history_add_spec(h: Seq<Seq<char>>, x: Seq<char>) -> Seq<Seq<char>> {
    let r = seq![x] + remove_first(h, x);
    if r.len() > HISTORY_LIMIT {
        r.drop_last()
    } else {
        r
    }
}

/// The models of strings.
pub open spec fn strs(v: Seq<String>) -> Seq<Seq<char>> {
    v.map_values(|s: String| s@)
}

/// Records a command line in the history (see `history_add_spec`).
pub fn add_history(history: &mut Vec<String>, cmd: String)
    ensures
        strs(final(history)@) == history_add_spec(strs(old(history)@), cmd@),
{
    let ghost h0 = strs(history@);
    let mut i: usize = 0;
    assert(h0.skip(0) =~= h0);
    loop
        invariant_except_break
            i <= history@.len(),
            h0 == strs(history@),
            forall|j: int| 0 <= j < i ==> h0[j] != cmd@,
        ensures
            i <= history@.len(),
            h0 == strs(history@),
            forall|j: int| 0 <= j < i ==> h0[j] != cmd@,
            i < history@.len() ==> h0[i as int] == cmd@,
        decreases history.len() - i,
    {
        if i >= history.len() {
            break;
        }
        if history[i] == cmd {
            break;
        }
        i += 1;
    }
    proof {
        lemma_remove_first(h0, cmd@, i as int);
    }
    if i < history.len() {
        history.remove(i);
        assert(strs(history@) =~= h0.remove(i as int));
    }
    let ghost removed = strs(history@);
    history.insert(0, cmd);
    assert(strs(history@) =~= seq![cmd@] + removed);
    if history.len() > HISTORY_LIMIT {
        history.pop();
        assert(strs(history@) =~= (seq![cmd@] + removed).drop_last());
    }
}

/// Removing the first occurrence, found at `i` (or absent when `i` is the
/// length).
proof fn lemma_remove_first(h: Seq<Seq<char>>, x: Seq<char>, i: int)
    requires
        0 <= i <= h.len(),
        forall|j: int| 0 <= j < i ==> h[j] != x,
        i < h.len() ==> h[i] == x,
    ensures
        remove_first(h, x) == if i < h.len() {
            h.remove(i)
        } else {
            h
        },
    decreases h.len(),
{
    if h.len() > 0 {
        if i == 0 {
            if h.len() > 0 && 0 < h.len() {
                assert(h.drop_first() =~= h.remove(0));
            }
        } else {
            lemma_remove_first(h.drop_first(), x, i - 1);
            if i < h.len() {
                assert(seq![h[0]] + h.drop_first().remove(i - 1) =~= h.remove(i));
            } else {
                assert(seq![h[0]] + h.drop_first() =~= h);
            }
        }
    }
}

/// No line occurs twice in `h`.
pub open spec fn no_repeats(h: Seq<Seq<char>>) -> bool {
    forall|a: int, b: int| 0 <= a < b < h.len() ==> h[a] != h[b]
}

/// Recording a command line keeps the history free of repeats and within
/// its limit, and puts that line first.
pub proof fn lemma_history_add(h: Seq<Seq<char>>, x: Seq<char>)
    requires
        no_repeats(h),
        h.len() <= HISTORY_LIMIT,
    ensures
        no_repeats(history_add_spec(h, x)),
        history_add_spec(h, x).len() <= HISTORY_LIMIT,
        history_add_spec(h, x)[0] == x,
{
    let i = if exists|k: int| 0 <= k < h.len() && h[k] == x {
        choose|k: int| 0 <= k < h.len() && h[k] == x
    } else {
        h.len() as int
    };
    assert forall|j: int| 0 <= j < i implies h[j] != x by {
        if i < h.len() && h[j] == x {
            assert(h[j] == h[i]);
        }
    }
    lemma_remove_first(h, x, i);
    let rest = remove_first(h, x);
    assert(!rest.contains(x)) by {
        if rest.contains(x) {
            let k = choose|k: int| 0 <= k < rest.len() && rest[k] == x;
            if i < h.len() {
                if k < i {
                    assert(rest[k] == h[k]);
                } else {
                    assert(rest[k] == h[k + 1]);
                    assert(h[i] == h[k + 1]);
                }
            }
        }
    }
    assert(no_repeats(rest)) by {
        assert forall|a: int, b: int| 0 <= a < b < rest.len() implies rest[a] != rest[b] by {
            if i < h.len() {
                let ia = if a < i { a } else { a + 1 };
                let ib = if b < i { b } else { b + 1 };
                assert(rest[a] == h[ia]);
                assert(rest[b] == h[ib]);
            }
        }
    }
    let r = seq![x] + rest;
    assert(no_repeats(r)) by {
        assert forall|a: int, b: int| 0 <= a < b < r.len() implies r[a] != r[b] by {
            if a == 0 {
                assert(r[b] == rest[b - 1]);
            } else {
                assert(r[a] == rest[a - 1]);
                assert(r[b] == rest[b - 1]);
            }
        }
    }
    if r.len() > HISTORY_LIMIT {
        let d = r.drop_last();
        assert forall|a: int, b: int| 0 <= a < b < d.len() implies d[a] != d[b] by {
            assert(d[a] == r[a]);
            assert(d[b] == r[b]);
        }
    }
}

/// The history read from its file: the lines, newest (the last) first.
pub fn history_from_file(content: &str) -> (h: Vec<String>)
    ensures
        strs(h@) == lines(content@).reverse(),
{
    let ls = crate::text::lines_chars(&chars_of(content));
    let ghost lv = ls@.map_values(|x: Vec<char>| x@);
    let mut h: Vec<String> = Vec::new();
    let mut k: usize = ls.len();
    while k > 0
        invariant
            k <= ls@.len(),
            lv == ls@.map_values(|x: Vec<char>| x@),
            strs(h@) == lv.skip(k as int).reverse(),
        decreases k,
    {
        k -= 1;
        let ghost before = strs(h@);
        h.push(string_of(&ls[k]));
        assert(strs(h@) =~= before.push(lv[k as int]));
        assert(lv.skip(k as int).reverse() =~= lv.skip(k + 1).reverse().push(lv[k as int]));
    }
    assert(lv.skip(0) =~= lv);
    h
}

/// The text of the history file: the lines, oldest first.
pub fn history_file_text(history: &Vec<String>) -> (t: String)
    ensures
        t@ == join(strs(history@).reverse(), "\n"@),
{
    let ghost hv = strs(history@);
    let mut parts: Vec<Vec<char>> = Vec::new();
    let mut k: usize = history.len();
    while k > 0
        invariant
            k <= history@.len(),
            hv == strs(history@),
            parts@.map_values(|x: Vec<char>| x@) == hv.skip(k as int).reverse(),
        decreases k,
    {
        k -= 1;
        let ghost before = parts@.map_values(|x: Vec<char>| x@);
        parts.push(chars_of_string(&history[k]));
        assert(parts@.map_values(|x: Vec<char>| x@) =~= before.push(hv[k as int]));
        assert(hv.skip(k as int).reverse() =~= hv.skip(k + 1).reverse().push(hv[k as int]));
    }
    assert(hv.skip(0) =~= hv);
    string_of(&crate::text::join_chars(&parts, &chars_of("\n")))
}

proof fn lemma_lines_skip_plain(p: Seq<char>, s: Seq<char>, cur: Seq<char>)
    requires
        !p.contains('\n'),
    ensures
        crate::text::lines_from(p + s, cur) == crate::text::lines_from(s, cur + p),
    decreases p.len(),
{
    if p.len() == 0 {
        assert(p + s =~= s);
        assert(cur + p =~= cur);
    } else {
        assert((p + s)[0] == p[0]);
        assert(p[0] != '\n') by {
            if p[0] == '\n' {
                assert(p.contains('\n'));
            }
        }
        assert((p + s).drop_first() =~= p.drop_first() + s);
        assert(!p.drop_first().contains('\n')) by {
            if p.drop_first().contains('\n') {
                let k = choose|k: int| 0 <= k < p.drop_first().len() && p.drop_first()[k] == '\n';
                assert(p[k + 1] == '\n');
            }
        }
        lemma_lines_skip_plain(p.drop_first(), s, cur.push(p[0]));
        assert(cur.push(p[0]) + p.drop_first() =~= cur + p);
    }
}

proof fn lemma_join_front(parts: Seq<Seq<char>>, sep: Seq<char>)
    requires
        parts.len() >= 2,
    ensures
        join(parts, sep) == parts[0] + sep + join(parts.drop_first(), sep),
    decreases parts.len(),
{
    if parts.len() == 2 {
        assert(parts.drop_first().len() == 1);
        assert(parts.drop_last().len() == 1);
        assert(parts.drop_last()[0] == parts[0]);
        assert(parts.drop_first()[0] == parts.last());
        assert(join(parts.drop_first(), sep) == parts.last());
        assert(join(parts.drop_last(), sep) == parts[0]);
    } else {
        assert(parts.drop_last()[0] == parts[0]);
        assert(parts.drop_first().len() >= 2);
        lemma_join_front(parts.drop_last(), sep);
        assert(parts.drop_last().drop_first() =~= parts.drop_first().drop_last());
        assert(parts.drop_first().last() == parts.last());
        assert(parts[0] + sep + join(parts.drop_first().drop_last(), sep) + sep + parts.last() =~= parts[0]
            + sep + (join(parts.drop_first().drop_last(), sep) + sep + parts.drop_first().last()));
    }
}

/// Lines without line breaks or a closing carriage return, the last of
/// which is not empty, come back from their text joined by line breaks.
proof fn lemma_lines_of_join(parts: Seq<Seq<char>>)
    requires
        forall|i: int| 0 <= i < parts.len() ==> !(#[trigger] parts[i]).contains('\n'),
        forall|i: int| 0 <= i < parts.len() ==> crate::text::strip_cr(#[trigger] parts[i]) == parts[i],
        parts.len() > 0 ==> parts.last().len() > 0,
    ensures
        lines(join(parts, "\n"@)) == parts,
    decreases parts.len(),
{
    reveal_strlit("\n");
    if parts.len() == 0 {
    } else if parts.len() == 1 {
        lemma_lines_skip_plain(parts[0], Seq::empty(), Seq::empty());
        assert(parts[0] + Seq::<char>::empty() =~= parts[0]);
        assert(Seq::<char>::empty() + parts[0] =~= parts[0]);
        assert(crate::text::lines_from(Seq::empty(), parts[0]) =~= seq![parts[0]]);
        assert(seq![parts[0]] =~= parts);
    } else {
        let rest = parts.drop_first();
        lemma_join_front(parts, "\n"@);
        let jr = join(rest, "\n"@);
        assert(parts[0] + "\n"@ + jr =~= parts[0] + ("\n"@ + jr));
        lemma_lines_skip_plain(parts[0], "\n"@ + jr, Seq::empty());
        assert(Seq::<char>::empty() + parts[0] =~= parts[0]);
        assert(("\n"@ + jr)[0] == '\n');
        assert(("\n"@ + jr).drop_first() =~= jr);
        assert forall|i: int| 0 <= i < rest.len() implies !(#[trigger] rest[i]).contains('\n') by {
            assert(rest[i] == parts[i + 1]);
        }
        assert forall|i: int| 0 <= i < rest.len() implies crate::text::strip_cr(#[trigger] rest[i])
            == rest[i] by {
            assert(rest[i] == parts[i + 1]);
        }
        lemma_lines_of_join(rest);
        assert(seq![parts[0]] + rest =~= parts);
    }
}

/// What the history file is written with is read back as the same
/// history, for lines without line breaks or a closing carriage return and
/// a newest line that is not empty.
pub proof fn lemma_history_file_round_trip(h: Seq<Seq<char>>)
    requires
        forall|i: int| 0 <= i < h.len() ==> !(#[trigger] h[i]).contains('\n'),
        forall|i: int| 0 <= i < h.len() ==> crate::text::strip_cr(#[trigger] h[i]) == h[i],
        h.len() > 0 ==> h[0].len() > 0,
    ensures
        lines(join(h.reverse(), "\n"@)).reverse() == h,
{
    let r = h.reverse();
    assert forall|i: int| 0 <= i < r.len() implies !(#[trigger] r[i]).contains('\n') by {
        assert(r[i] == h[h.len() - 1 - i]);
    }
    assert forall|i: int| 0 <= i < r.len() implies crate::text::strip_cr(#[trigger] r[i]) == r[i] by {
        assert(r[i] == h[h.len() - 1 - i]);
    }
    if h.len() > 0 {
        assert(r.last() == h[0]);
    }
    lemma_lines_of_join(r);
    assert(r.reverse() =~= h);
}

/// The positions of the paths that the search query finds (ignoring case);
/// none for an empty query.
pub open spec fn search_spec(paths: Seq<Seq<char>>, query: Seq<char>) -> Seq<int>
    decreases paths.len(),
{
    if query.len() == 0 || paths.len() == 0 {
        Seq::empty()
    } else {
        let rest = search_spec(paths.drop_last(), query);
        if contains_sub(
            crate::type_validator::lowercase(paths.last()),
            crate::type_validator::lowercase(query),
        ) {
            rest.push(paths.len() - 1)
        } else {
            rest
        }
    }
}

/// Searches the displayed paths (see `search_spec`).
pub fn search(paths: &Vec<String>, query: &str) -> (r: Vec<usize>)
    ensures
        r@.map_values(|i: usize| i as int) == search_spec(strs(paths@), query@),
{
    let mut out: Vec<usize> = Vec::new();
    let ghost pv = strs(paths@);
    if query.unicode_len() == 0 {
        assert(out@.map_values(|i: usize| i as int) =~= Seq::<int>::empty());
        return out;
    }
    let q = chars_of_string(&crate::type_validator::to_lowercase(query));
    let mut i: usize = 0;
    assert(pv.take(0) =~= Seq::<Seq<char>>::empty());
    assert(out@.map_values(|i: usize| i as int) =~= Seq::<int>::empty());
    while i < paths.len()
        invariant
            i <= paths@.len(),
            pv == strs(paths@),
            query@.len() > 0,
            q@ == crate::type_validator::lowercase(query@),
            out@.map_values(|i: usize| i as int) == search_spec(pv.take(i as int), query@),
        decreases paths.len() - i,
    {
        let ghost before = out@.map_values(|i: usize| i as int);
        assert(pv.take(i + 1).drop_last() =~= pv.take(i as int));
        assert(pv.take(i + 1).last() == pv[i as int]);
        let p = chars_of_string(&crate::type_validator::to_lowercase(paths[i].as_str()));
        if crate::text::contains(&p, &q) {
            out.push(i);
            assert(out@.map_values(|i: usize| i as int) =~= before.push(i as int));
        }
        i += 1;
    }
    assert(pv.take(paths@.len() as int) =~= pv);
    out
}

/// The arguments part of a command line: for each parameter that has a
/// value, booleans as `--name` when true (a positional one as an empty
/// word), others as `--name value` or `value` when not empty.
pub open spec fn args_line(ps: Seq<crate::ast::ParameterV>, args: Seq<(Seq<char>, Seq<char>)>) -> Seq<char>
    decreases ps.len(),
{
    if ps.len() == 0 {
        Seq::empty()
    } else {
        let rest = args_line(ps.drop_last(), args);
        let p = ps.last();
        let piece = match assoc_get(args, p.name) {
            Some(v) => if p.param_type == "bool"@ {
                if v == "true"@ {
                    " "@ + (if p.is_named {
                        "--"@ + p.name
                    } else {
                        Seq::empty()
                    })
                } else {
                    Seq::empty()
                }
            } else if v.len() > 0 {
                " "@ + (if p.is_named {
                    "--"@ + p.name + " "@ + v
                } else {
                    v
                })
            } else {
                Seq::empty()
            },
            None => Seq::empty(),
        };
        rest + piece
    }
}

/// The command line for the selected command with the chosen arguments:
/// the browsed path then the command's name (in the history view, the
/// name alone), then its arguments.
pub open spec fn command_line_spec(
    path: Seq<Seq<char>>,
    c: CommandV,
    args: Seq<(Seq<char>, Seq<char>)>,
    history_view: bool,
) -> Seq<char> {
    let head = if history_view {
        c.name
    } else {
        let p = join(path, " "@);
        if p.len() > 0 {
            p + " "@ + c.name
        } else {
            c.name
        }
    };
    head + args_line(c.parameters, args)
}

/// Builds the command line (see `command_line_spec`).
pub fn command_line(path: &[String], command: &Command, args: &ArgMap, history_view: bool) -> (s: String)
    ensures
        s@ == command_line_spec(path@.map_values(|x: String| x@), command@, args.entries_view(), history_view),
{
    let mut out = if history_view {
        chars_of_string(&command.name)
    } else {
        let mut p = crate::runtime::join_strings_vec(path, " ");
        if p.len() > 0 {
            p.push(' ');
        }
        push_all(&mut p, &chars_of_string(&command.name));
        proof {
            reveal_strlit(" ");
        }
        p
    };
    let ghost head = out@;
    let ghost pv = command@.parameters;
    let mut i: usize = 0;
    assert(pv.take(0) =~= Seq::<crate::ast::ParameterV>::empty());
    assert(out@ =~= head + args_line(pv.take(0), args.entries_view()));
    while i < command.parameters.len()
        invariant
            i <= command.parameters@.len(),
            pv == command@.parameters,
            pv == command.parameters@.map_values(|p: crate::ast::Parameter| p@),
            out@ == head + args_line(pv.take(i as int), args.entries_view()),
        decreases command.parameters.len() - i,
    {
        assert(pv.take(i + 1).drop_last() =~= pv.take(i as int));
        assert(pv.take(i + 1).last() == command.parameters@[i as int]@);
        let p = &command.parameters[i];
        let ghost before = out@;
        proof {
            reveal_strlit(" ");
        }
        match args.get(p.name.as_str()) {
            Some(v) => {
                let vc = chars_of_string(v);
                if crate::text::eq(&chars_of_string(&p.param_type), &chars_of("bool")) {
                    if crate::text::eq(&vc, &chars_of("true")) {
                        out.push(' ');
                        if p.is_named {
                            push_all(&mut out, &chars_of("--"));
                            push_all(&mut out, &chars_of_string(&p.name));
                        }
                    }
                } else if vc.len() > 0 {
                    out.push(' ');
                    if p.is_named {
                        push_all(&mut out, &chars_of("--"));
                        push_all(&mut out, &chars_of_string(&p.name));
                        out.push(' ');
                        push_all(&mut out, &vc);
                    } else {
                        push_all(&mut out, &vc);
                    }
                }
            },
            None => {},
        }
        assert(out@ =~= before + (args_line(pv.take(i + 1), args.entries_view()).skip(
            args_line(pv.take(i as int), args.entries_view()).len() as int,
        )));
        i += 1;
    }
    assert(pv.take(command.parameters@.len() as int) =~= pv);
    string_of(&out)
}

/// The words of a text: the runs of non-whitespace characters, where
/// `cur` is the word collected so far (as `str::split_whitespace`).
pub open spec fn words_from(s: Seq<char>, cur: Seq<char>) -> Seq<Seq<char>>
    decreases s.len(),
{
    if s.len() == 0 {
        if cur.len() > 0 {
            seq![cur]
        } else {
            Seq::empty()
        }
    } else if is_ws(s[0]) {
        (if cur.len() > 0 {
            seq![cur]
        } else {
            Seq::empty()
        }) + words_from(s.drop_first(), Seq::empty())
    } else {
        words_from(s.drop_first(), cur.push(s[0]))
    }
}

/// The words of a text.
pub open spec fn words(s: Seq<char>) -> Seq<Seq<char>> {
    words_from(s, Seq::empty())
}

/// The words of a text (see `words`).
pub fn split_words(s: &str) -> (r: Vec<Vec<char>>)
    ensures
        r@.map_values(|x: Vec<char>| x@) == words(s@),
{
    let v = chars_of(s);
    let mut out: Vec<Vec<char>> = Vec::new();
    let mut cur: Vec<char> = Vec::new();
    let mut i: usize = 0;
    assert(v@.skip(0) =~= v@);
    assert(out@.map_values(|x: Vec<char>| x@) + words_from(v@, Seq::empty()) =~= words(s@));
    while i < v.len()
        invariant
            i <= v@.len(),
            v@ == s@,
            words(s@) == out@.map_values(|x: Vec<char>| x@) + words_from(v@.skip(i as int), cur@),
        decreases v.len() - i,
    {
        let ghost rest = v@.skip(i as int);
        let ghost before = out@.map_values(|x: Vec<char>| x@);
        assert(rest[0] == v@[i as int]);
        assert(rest.drop_first() =~= v@.skip(i + 1));
        if crate::text::is_whitespace(v[i]) {
            if cur.len() > 0 {
                let ghost c = cur@;
                out.push(cur);
                assert(out@.map_values(|x: Vec<char>| x@) =~= before.push(c));
                assert(before.push(c) + words_from(v@.skip(i + 1), Seq::empty()) =~= before + (seq![c]
                    + words_from(rest.drop_first(), Seq::empty())));
            } else {
                assert(before + words_from(v@.skip(i + 1), Seq::empty()) =~= before + (Seq::<Seq<char>>::empty()
                    + words_from(rest.drop_first(), Seq::empty())));
            }
            cur = Vec::new();
        } else {
            cur.push(v[i]);
        }
        i += 1;
    }
    assert(v@.skip(i as int) =~= Seq::<char>::empty());
    if cur.len() > 0 {
        let ghost before = out@.map_values(|x: Vec<char>| x@);
        let ghost c = cur@;
        out.push(cur);
        assert(out@.map_values(|x: Vec<char>| x@) =~= before + seq![c]);
    } else {
        assert(out@.map_values(|x: Vec<char>| x@) + Seq::<Seq<char>>::empty() =~= out@.map_values(
            |x: Vec<char>| x@,
        ));
    }
    out
}

/// The deepest command that the leading words of a command line name
/// (the later words being its arguments).
pub open spec fn resolve_words(cs: Seq<CommandV>, ws: Seq<Seq<char>>, best: Option<CommandV>) -> Option<CommandV>
    decreases ws.len(),
{
    if ws.len() == 0 {
        best
    } else {
        let i = crate::runtime::first_named(cs, ws[0]);
        if 0 <= i < cs.len() {
            resolve_words(cs[i].children, ws.drop_first(), Some(cs[i]))
        } else {
            best
        }
    }
}

/// The command that a command line from the history names (see
/// `resolve_words`).
pub fn resolve_command_from_string<'a>(commands: &'a Vec<Command>, cmd_str: &str) -> (r: Option<&'a Command>)
    ensures
        match r {
            Some(c) => resolve_words(commands_view(commands@), words(cmd_str@), None) == Some(c@),
            None => resolve_words(commands_view(commands@), words(cmd_str@), None) is None,
        },
{
    let ws = split_words(cmd_str);
    let ghost wv = ws@.map_values(|x: Vec<char>| x@);
    let mut level: &'a Vec<Command> = commands;
    let mut best: Option<&'a Command> = None;
    let mut i: usize = 0;
    assert(wv.skip(0) =~= wv);
    while i < ws.len()
        invariant
            i <= ws@.len(),
            wv == ws@.map_values(|x: Vec<char>| x@),
            wv == words(cmd_str@),
            resolve_words(commands_view(commands@), wv, None) == resolve_words(
                commands_view(level@),
                wv.skip(i as int),
                match best {
                    Some(c) => Some(c@),
                    None => None,
                },
            ),
        decreases ws.len() - i,
    {
        assert(wv.skip(i as int)[0] == wv[i as int]);
        assert(wv.skip(i as int).drop_first() =~= wv.skip(i + 1));
        let name = string_of(&ws[i]);
        match crate::runtime::position_of(level, &name) {
            Some(k) => {
                proof {
                    lemma_commands_view(level@);
                }
                let c: &'a Command = &level[k];
                level = &c.children;
                best = Some(c);
            },
            None => {
                return best;
            },
        }
        i += 1;
    }
    best
}

/// The part of a source file that shows the definition of the command
/// `name`: from the first line that starts (after indentation) with the
/// name, at most twenty lines; a notice where there is none.
pub open spec fn excerpt_spec(content: Seq<char>, name: Seq<char>) -> Seq<char> {
    let ls = lines(content);
    let found = exists|i: int| 0 <= i < ls.len() && #[trigger] name.is_prefix_of(trim(ls[i]));
    if found {
        let start = choose|i: int|
            0 <= i < ls.len() && name.is_prefix_of(trim(ls[i])) && forall|j: int|
                0 <= j < i ==> !#[trigger] name.is_prefix_of(trim(ls[j]));
        let end = if start + 20 < ls.len() { start + 20 } else { ls.len() as int };
        join(ls.subrange(start, end), "\n"@)
    } else {
        "Could not find definition in file."@
    }
}

/// The lines `start..end` of `ls`.
fn slice_lines(ls: &Vec<Vec<char>>, start: usize, end: usize) -> (parts: Vec<Vec<char>>)
    requires
        start <= end <= ls@.len(),
    ensures
        parts@.map_values(|x: Vec<char>| x@) == ls@.map_values(|x: Vec<char>| x@).subrange(
            start as int,
            end as int,
        ),
{
    let ghost lv = ls@.map_values(|x: Vec<char>| x@);
    let mut parts: Vec<Vec<char>> = Vec::new();
    let mut k: usize = start;
    while k < end
        invariant
            start <= k <= end,
            end <= ls@.len(),
            lv == ls@.map_values(|x: Vec<char>| x@),
            parts@.map_values(|x: Vec<char>| x@) == lv.subrange(start as int, k as int),
        decreases end - k,
    {
        let ghost before = parts@.map_values(|x: Vec<char>| x@);
        let line = ls[k].clone();
        assert(line@ == lv[k as int]);
        parts.push(line);
        assert(parts@.map_values(|x: Vec<char>| x@) =~= before.push(lv[k as int]));
        assert(lv.subrange(start as int, k + 1) =~= lv.subrange(start as int, k as int).push(lv[k as int]));
        k += 1;
    }
    parts
}

/// The lines showing a command's definition (see `excerpt_spec`).
pub fn source_excerpt(content: &str, name: &str) -> (s: String)
    ensures
        s@ == excerpt_spec(content@, name@),
{
    let ls = crate::text::lines_chars(&chars_of(content));
    let ghost lv = ls@.map_values(|x: Vec<char>| x@);
    let n = chars_of(name);
    let mut i: usize = 0;
    while i < ls.len()
        invariant
            i <= ls@.len(),
            lv == ls@.map_values(|x: Vec<char>| x@),
            lv == lines(content@),
            n@ == name@,
            forall|j: int| 0 <= j < i ==> !#[trigger] name@.is_prefix_of(trim(lv[j])),
        decreases ls.len() - i,
    {
        let t = crate::text::trim_chars(&ls[i]);
        if crate::text::starts_with(&t, &n) {
            let ghost start = choose|k: int|
                0 <= k < lv.len() && name@.is_prefix_of(trim(lv[k])) && forall|j: int|
                    0 <= j < k ==> !#[trigger] name@.is_prefix_of(trim(lv[j]));
            assert(name@.is_prefix_of(trim(lv[i as int])));
            assert(start == i) by {
                if start < i {
                    assert(!name@.is_prefix_of(trim(lv[start])));
                }
                if start > i {
                    assert(!name@.is_prefix_of(trim(lv[i as int])));
                }
            }
            let end = if ls.len() - i > 20 { i + 20 } else { ls.len() };
            let parts = slice_lines(&ls, i, end);
            assert(parts@.map_values(|x: Vec<char>| x@) == lv.subrange(i as int, end as int));
            return string_of(&crate::text::join_chars(&parts, &chars_of("\n")));
        }
        i += 1;
    }
    String::from_str("Could not find definition in file.")
}

} // verus!
