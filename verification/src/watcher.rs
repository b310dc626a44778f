//! Watch mode: which paths to watch for a command (its `watch` directives
//! and the `--watch` pattern, sorted and without repeats), and when a
//! change is far enough from the last one to run the command again.

use vstd::prelude::*;
use crate::ast::{Command, DirectiveV};
use crate::text::{chars_of, chars_of_string, string_of};

verus! {

/// Configuration for the file watcher.
#[derive(Debug)]
pub struct WatcherConfig {
    /// List of paths or glob patterns to watch
    pub patterns: Vec<String>,
    /// Duration to wait before triggering the callback (debounce)
    pub debounce_ms: u64,
}

impl Default for WatcherConfig {
    fn default() -> (c: Self)
        ensures
            c.patterns@.len() == 0,
            c.debounce_ms == 100,
    {
        WatcherConfig { patterns: Vec::new(), debounce_ms: 100 }
    }
}

/// `a` comes before `b` in the order of `str`: character by character,
/// a proper prefix first.
pub open spec fn text_lt(a: Seq<char>, b: Seq<char>) -> bool
    decreases a.len(),
{
    if a.len() == 0 {
        b.len() > 0
    } else if b.len() == 0 {
        false
    } else if a[0] != b[0] {
        a[0] < b[0]
    } else {
        text_lt(a.drop_first(), b.drop_first())
    }
}

/// The texts are in strictly increasing order.
pub open spec fn strictly_sorted(s: Seq<Seq<char>>) -> bool {
    forall|i: int, j: int| 0 <= i < j < s.len() ==> text_lt(#[trigger] s[i], #[trigger] s[j])
}

/// The patterns of the `watch` directives, in order.
pub open spec fn watch_patterns(ds: Seq<DirectiveV>) -> Seq<Seq<char>>
    decreases ds.len(),
{
    if ds.len() == 0 {
        Seq::empty()
    } else {
        let rest = watch_patterns(ds.drop_last());
        match ds.last() {
            DirectiveV::Watch(ps) => rest + ps,
            _ => rest,
        }
    }
}

/// The patterns to watch: those of the directives, then the one given on
/// the command line.
pub open spec fn all_patterns(ds: Seq<DirectiveV>, cli: Option<Seq<char>>) -> Seq<Seq<char>> {
    match cli {
        Some(p) => watch_patterns(ds).push(p),
        None => watch_patterns(ds),
    }
}

/// The error for watch mode without patterns.
pub open spec fn no_patterns_msg() -> Seq<char> {
    "Watch mode enabled but no patterns specified via --watch or > watch: directive."@
}

/// No text comes before itself.
pub proof fn lemma_text_lt_irreflexive(a: Seq<char>)
    ensures
        !text_lt(a, a),
    decreases a.len(),
{
    if a.len() > 0 {
        lemma_text_lt_irreflexive(a.drop_first());
    }
}

/// The order is transitive.
pub proof fn lemma_text_lt_transitive(a: Seq<char>, b: Seq<char>, c: Seq<char>)
    requires
        text_lt(a, b),
        text_lt(b, c),
    ensures
        text_lt(a, c),
    decreases a.len(),
{
    if a.len() > 0 && b.len() > 0 && c.len() > 0 && a[0] == b[0] && b[0] == c[0] {
        lemma_text_lt_transitive(a.drop_first(), b.drop_first(), c.drop_first());
    }
}

/// Two different texts are ordered one way or the other.
pub proof fn lemma_text_lt_total(a: Seq<char>, b: Seq<char>)
    requires
        a != b,
    ensures
        text_lt(a, b) || text_lt(b, a),
    decreases a.len(),
{
    if a.len() > 0 && b.len() > 0 {
        if a[0] == b[0] {
            if a.drop_first() == b.drop_first() {
                assert(a =~= seq![a[0]] + a.drop_first());
                assert(b =~= seq![b[0]] + b.drop_first());
            }
            lemma_text_lt_total(a.drop_first(), b.drop_first());
        }
    } else if a.len() == 0 && b.len() == 0 {
        assert(a =~= b);
    }
}

/// Tests whether `a` comes before `b`.
fn text_less(a: &Vec<char>, b: &Vec<char>) -> (r: bool)
    ensures
        r == text_lt(a@, b@),
{
    let mut i: usize = 0;
    assert(a@.skip(0) =~= a@);
    assert(b@.skip(0) =~= b@);
    while i < a.len() && i < b.len()
        invariant
            i <= a@.len(),
            i <= b@.len(),
            a@.take(i as int) == b@.take(i as int),
            text_lt(a@, b@) == text_lt(a@.skip(i as int), b@.skip(i as int)),
        decreases a.len() - i,
    {
        assert(a@.skip(i as int)[0] == a@[i as int]);
        assert(b@.skip(i as int)[0] == b@[i as int]);
        if a[i] != b[i] {
            return a[i] < b[i];
        }
        assert(a@.skip(i as int).drop_first() =~= a@.skip(i + 1));
        assert(b@.skip(i as int).drop_first() =~= b@.skip(i + 1));
        assert(a@.take(i + 1) =~= a@.take(i as int).push(a@[i as int]));
        assert(b@.take(i + 1) =~= b@.take(i as int).push(b@[i as int]));
        i += 1;
    }
    i < b.len()
}

/// Tests whether two texts are equal.
fn same_text(a: &Vec<char>, b: &Vec<char>) -> (r: bool)
    ensures
        r == (a@ == b@),
{
    crate::text::eq(a, b)
}

/// Inserts `x` into the strictly sorted `v` unless it is there.
fn insert_sorted(v: &mut Vec<Vec<char>>, x: Vec<char>)
    requires
        strictly_sorted(old(v)@.map_values(|t: Vec<char>| t@)),
    ensures
        strictly_sorted(final(v)@.map_values(|t: Vec<char>| t@)),
        final(v)@.map_values(|t: Vec<char>| t@).to_set() == old(v)@.map_values(|t: Vec<char>| t@).to_set().insert(
            x@,
        ),
{
    let ghost sv = v@.map_values(|t: Vec<char>| t@);
    let mut i: usize = 0;
    let mut done = false;
    while i < v.len() && !done
        invariant
            i <= v@.len(),
            sv == v@.map_values(|t: Vec<char>| t@),
            strictly_sorted(sv),
            forall|k: int| 0 <= k < i ==> text_lt(#[trigger] sv[k], x@),
            done ==> i < v@.len() && text_lt(x@, sv[i as int]),
        decreases v.len() - i, !done as int,
    {
        if same_text(&v[i], &x) {
            assert(sv[i as int] == x@);
            assert(sv.to_set().insert(x@) =~= sv.to_set()) by {
                assert(sv.contains(x@));
            }
            return;
        }
        if text_less(&x, &v[i]) {
            done = true;
        } else {
            proof {
                lemma_text_lt_total(sv[i as int], x@);
            }
            i += 1;
        }
    }
    let ghost xv = x@;
    v.insert(i, x);
    let ghost nv = v@.map_values(|t: Vec<char>| t@);
    assert(nv =~= sv.insert(i as int, xv));
    assert forall|a: int, b: int| 0 <= a < b < nv.len() implies text_lt(#[trigger] nv[a], #[trigger] nv[b]) by {
        if b < i {
            assert(nv[a] == sv[a] && nv[b] == sv[b]);
        } else if b == i {
            assert(nv[a] == sv[a] && nv[b] == xv);
        } else if a == i {
            assert(nv[a] == xv && nv[b] == sv[b - 1]);
            if i < sv.len() {
                if b - 1 > i {
                    lemma_text_lt_transitive(xv, sv[i as int], sv[b - 1]);
                }
            }
        } else if a < i {
            assert(nv[a] == sv[a] && nv[b] == sv[b - 1]);
        } else {
            assert(nv[a] == sv[a - 1] && nv[b] == sv[b - 1]);
        }
    }
    assert(nv.to_set() =~= sv.to_set().insert(xv)) by {
        assert forall|y: Seq<char>| nv.contains(y) <==> sv.to_set().insert(xv).contains(y) by {
            if nv.contains(y) {
                let k = choose|k: int| 0 <= k < nv.len() && nv[k] == y;
                if k < i {
                    assert(sv[k] == y);
                } else if k > i {
                    assert(sv[k - 1] == y);
                }
            }
            if sv.contains(y) {
                let k = choose|k: int| 0 <= k < sv.len() && sv[k] == y;
                if k < i {
                    assert(nv[k] == y);
                } else {
                    assert(nv[k + 1] == y);
                }
            }
            if y == xv {
                assert(nv[i as int] == y);
            }
        }
    }
}

impl WatcherConfig {
    /// The watch configuration of a command, where it is watched: when
    /// `--watch` gives a pattern or the command has `watch` directives, its
    /// patterns (sorted, without repeats) with a debounce of 200 ms, or the
    /// error where there are none; nothing where the command is not
    /// watched.
    pub fn for_command(command: &Command, cli_pattern: Option<String>) -> (r: Option<Result<WatcherConfig, String>>)
        ensures
            ({
                let dv = command@.directives;
                let cli = crate::ast::opt_view(cli_pattern);
                let all = all_patterns(dv, cli);
                match r {
                    None => cli is None && watch_patterns(dv).len() == 0,
                    Some(Err(m)) => (cli is Some || watch_patterns(dv).len() > 0) && all.len() == 0 && m@
                        == no_patterns_msg(),
                    Some(Ok(c)) => {
                        &&& (cli is Some || watch_patterns(dv).len() > 0)
                        &&& strictly_sorted(c.patterns@.map_values(|s: String| s@))
                        &&& c.patterns@.map_values(|s: String| s@).to_set() == all.to_set()
                        &&& c.debounce_ms == 200
                    },
                }
            }),
    {
        let ghost dv = command@.directives;
        let mut pats: Vec<Vec<char>> = Vec::new();
        let ghost mut seen: Seq<Seq<char>> = Seq::empty();
        let mut i: usize = 0;
        assert(dv.take(0) =~= Seq::<DirectiveV>::empty());
        assert(pats@.map_values(|t: Vec<char>| t@).to_set() =~= Set::<Seq<char>>::empty());
        assert(Seq::<Seq<char>>::empty().to_set() =~= Set::<Seq<char>>::empty());
        while i < command.directives.len()
            invariant
                i <= command.directives@.len(),
                dv == command@.directives,
                dv == command.directives@.map_values(|d: crate::ast::Directive| d@),
                strictly_sorted(pats@.map_values(|t: Vec<char>| t@)),
                pats@.map_values(|t: Vec<char>| t@).to_set() == watch_patterns(dv.take(i as int)).to_set(),
            decreases command.directives.len() - i,
        {
            assert(dv.take(i + 1).drop_last() =~= dv.take(i as int));
            assert(dv.take(i + 1).last() == command.directives@[i as int]@);
            match &command.directives[i] {
                crate::ast::Directive::Watch(ps) => {
                    let ghost base = watch_patterns(dv.take(i as int));
                    let ghost pv = ps@.map_values(|s: String| s@);
                    let mut j: usize = 0;
                    assert(base + pv.take(0) =~= base);
                    while j < ps.len()
                        invariant
                            j <= ps@.len(),
                            pv == ps@.map_values(|s: String| s@),
                            strictly_sorted(pats@.map_values(|t: Vec<char>| t@)),
                            pats@.map_values(|t: Vec<char>| t@).to_set() == (base + pv.take(j as int)).to_set(),
                        decreases ps.len() - j,
                    {
                        insert_sorted(&mut pats, chars_of_string(&ps[j]));
                        assert(base + pv.take(j + 1) =~= (base + pv.take(j as int)).push(pv[j as int]));
                        proof {
                            (base + pv.take(j as int)).lemma_push_to_set_commute(pv[j as int]);
                        }
                        j += 1;
                    }
                    assert(pv.take(ps@.len() as int) =~= pv);
                },
                _ => {},
            }
            i += 1;
        }
        assert(dv.take(command.directives@.len() as int) =~= dv);
        let has_directives = pats.len() > 0;
        proof {
            let wp = watch_patterns(dv);
            let pv0 = pats@.map_values(|t: Vec<char>| t@);
            if !has_directives {
                if wp.len() > 0 {
                    assert(wp[0] == wp[0]);
                    assert(wp.contains(wp[0]));
                    assert(wp.to_set().contains(wp[0]));
                    assert(pv0.contains(wp[0]));
                }
            } else {
                assert(pv0[0] == pv0[0]);
                assert(pv0.contains(pv0[0]));
                assert(wp.to_set().contains(pv0[0]));
                assert(wp.contains(pv0[0]));
            }
        }
        let watched = cli_pattern.is_some() || has_directives;
        if !watched {
            return None;
        }
        match cli_pattern {
            Some(p) => {
                let ghost before = watch_patterns(dv);
                insert_sorted(&mut pats, chars_of_string(&p));
                proof {
                    before.lemma_push_to_set_commute(p@);
                }
            },
            None => {},
        }
        if pats.len() == 0 {
            proof {
                let all = all_patterns(dv, crate::ast::opt_view(cli_pattern));
                if all.len() > 0 {
                    assert(all[0] == all[0]);
                    assert(all.contains(all[0]));
                    assert(all.to_set().contains(all[0]));
                    assert(pats@.map_values(|t: Vec<char>| t@).contains(all[0]));
                }
            }
            return Some(Err(String::from_str(
                "Watch mode enabled but no patterns specified via --watch or > watch: directive.",
            )));
        }
        let mut out: Vec<String> = Vec::new();
        let mut k: usize = 0;
        let ghost pv = pats@.map_values(|t: Vec<char>| t@);
        while k < pats.len()
            invariant
                k <= pats@.len(),
                pv == pats@.map_values(|t: Vec<char>| t@),
                out@.map_values(|s: String| s@) == pv.take(k as int),
            decreases pats.len() - k,
        {
            let ghost before = out@.map_values(|s: String| s@);
            out.push(string_of(&pats[k]));
            assert(out@.map_values(|s: String| s@) =~= before.push(pv[k as int]));
            assert(pv.take(k + 1) =~= pv.take(k as int).push(pv[k as int]));
            k += 1;
        }
        assert(pv.take(pats@.len() as int) =~= pv);
        Some(Ok(WatcherConfig { patterns: out, debounce_ms: 200 }))
    }
}

/// A change `elapsed_ms` after the last run counts only when at least the
/// debounce time has passed.
pub fn debounce_allows(elapsed_ms: u128, debounce_ms: u64) -> (b: bool)
    ensures
        b == (elapsed_ms >= debounce_ms),
{
    elapsed_ms >= debounce_ms as u128
}

} // verus!
