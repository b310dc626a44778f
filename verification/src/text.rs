//! Character-level text utilities with their mathematical specifications.
//!
//! Text is handled as sequences of Unicode scalar values (`char`); every
//! operation here is stated over `Seq<char>`.

use vstd::prelude::*;

verus! {

/// The Unicode `White_Space` property, which is what `char::is_whitespace` tests.
pub open spec fn is_ws(c: char) -> bool {
    ||| ('\u{9}' <= c && c <= '\u{d}')
    ||| c == ' '
    ||| c == '\u{85}'
    ||| c == '\u{a0}'
    ||| c == '\u{1680}'
    ||| ('\u{2000}' <= c && c <= '\u{200a}')
    ||| c == '\u{2028}'
    ||| c == '\u{2029}'
    ||| c == '\u{202f}'
    ||| c == '\u{205f}'
    ||| c == '\u{3000}'
}

/// `s` without its leading whitespace.
pub open spec fn trim_start(s: Seq<char>) -> Seq<char>
    decreases s.len(),
{
    if s.len() > 0 && is_ws(s[0]) {
        trim_start(s.drop_first())
    } else {
        s
    }
}

/// `s` without its trailing whitespace.
pub open spec fn trim_end(s: Seq<char>) -> Seq<char>
    decreases s.len(),
{
    if s.len() > 0 && is_ws(s.last()) {
        trim_end(s.drop_last())
    } else {
        s
    }
}

/// `s` without leading and trailing whitespace.
pub open spec fn trim(s: Seq<char>) -> Seq<char> {
    trim_end(trim_start(s))
}

/// `p` occurs in `s` starting at position `i`.
pub open spec fn occurs_at(s: Seq<char>, p: Seq<char>, i: int) -> bool {
    0 <= i && i + p.len() <= s.len() && s.subrange(i, i + p.len()) == p
}

/// `p` occurs somewhere in `s`.
pub open spec fn contains_sub(s: Seq<char>, p: Seq<char>) -> bool {
    exists|i: int| occurs_at(s, p, i)
}

/// `i` is the first position at which `c` occurs in `s`.
pub open spec fn is_first_char(s: Seq<char>, c: char, i: int) -> bool {
    0 <= i < s.len() && s[i] == c && forall|j: int| 0 <= j < i ==> s[j] != c
}

/// The first position of `c` in `s`, or -1.
pub open spec fn first_pos(s: Seq<char>, c: char) -> int
    decreases s.len(),
{
    if s.len() == 0 {
        -1
    } else if s[0] == c {
        0
    } else {
        let r = first_pos(s.drop_first(), c);
        if r < 0 {
            -1
        } else {
            r + 1
        }
    }
}

/// The first position of `c` in `s` is `i` when `c` occurs there and not before.
pub proof fn lemma_first_pos(s: Seq<char>, c: char)
    ensures
        s.contains(c) ==> is_first_char(s, c, first_pos(s, c)),
        !s.contains(c) ==> first_pos(s, c) == -1,
    decreases s.len(),
{
    if s.len() > 0 {
        lemma_first_pos(s.drop_first(), c);
        if s[0] != c {
            if s.contains(c) {
                let j = choose|j: int| 0 <= j < s.len() && s[j] == c;
                assert(s.drop_first()[j - 1] == c);
            }
            if s.drop_first().contains(c) {
                let j = choose|j: int| 0 <= j < s.drop_first().len() && s.drop_first()[j] == c;
                assert(s[j + 1] == c);
            }
            let r = first_pos(s.drop_first(), c);
            if r >= 0 {
                assert forall|j: int| 0 <= j < r + 1 implies s[j] != c by {
                    if j > 0 {
                        assert(s[j] == s.drop_first()[j - 1]);
                    }
                }
            }
        }
    }
}

/// The last position of `c` in `s`, or -1.
pub open spec fn last_pos(s: Seq<char>, c: char) -> int
    decreases s.len(),
{
    if s.len() == 0 {
        -1
    } else if s.last() == c {
        s.len() - 1
    } else {
        last_pos(s.drop_last(), c)
    }
}

/// The last position of `c` in `s` is `i` when `c` occurs there and not after.
pub proof fn lemma_last_pos(s: Seq<char>, c: char, i: int)
    requires
        0 <= i < s.len(),
        s[i] == c,
        forall|j: int| i < j < s.len() ==> s[j] != c,
    ensures
        last_pos(s, c) == i,
    decreases s.len(),
{
    if s.last() != c {
        assert forall|j: int| i < j < s.drop_last().len() implies s.drop_last()[j] != c by {
            assert(s.drop_last()[j] == s[j]);
        }
        lemma_last_pos(s.drop_last(), c, i);
    }
}

/// The first occurrence is unique.
pub proof fn lemma_first_char_unique(s: Seq<char>, c: char, i: int)
    requires
        is_first_char(s, c, i),
    ensures
        first_pos(s, c) == i,
{
    lemma_first_pos(s, c);
    let f = first_pos(s, c);
    if f < i {
        assert(s[f] != c);
    }
    if f > i {
        assert(s[i] != c);
    }
}

/// `i` is the first position at which `p` occurs in `s`.
pub open spec fn is_first_sub(s: Seq<char>, p: Seq<char>, i: int) -> bool {
    occurs_at(s, p, i) && forall|j: int| 0 <= j < i ==> !occurs_at(s, p, j)
}

/// `i` is the last position at which `p` occurs in `s`.
pub open spec fn is_last_sub(s: Seq<char>, p: Seq<char>, i: int) -> bool {
    occurs_at(s, p, i) && forall|j: int| i < j <= s.len() ==> !occurs_at(s, p, j)
}

/// The pieces of `s` between occurrences of `c`, where `cur` is the piece
/// collected so far.
pub open spec fn split_from(s: Seq<char>, c: char, cur: Seq<char>) -> Seq<Seq<char>>
    decreases s.len(),
{
    if s.len() == 0 {
        seq![cur]
    } else if s[0] == c {
        seq![cur] + split_from(s.drop_first(), c, Seq::empty())
    } else {
        split_from(s.drop_first(), c, cur.push(s[0]))
    }
}

/// The pieces of `s` separated by `c` (as `str::split` with a `char`).
pub open spec fn split(s: Seq<char>, c: char) -> Seq<Seq<char>> {
    split_from(s, c, Seq::empty())
}

/// `s` with every non-overlapping occurrence of a non-empty `from`,
/// scanned from the left, replaced by `to`; with an empty `from`, `to` is
/// inserted before every character and at the end (as `str::replace`).
pub open spec fn replace(s: Seq<char>, from: Seq<char>, to: Seq<char>) -> Seq<char>
    decreases s.len(),
{
    if from.len() == 0 {
        if s.len() == 0 {
            to
        } else {
            to + seq![s[0]] + replace(s.drop_first(), from, to)
        }
    } else if from.is_prefix_of(s) {
        to + replace(s.skip(from.len() as int), from, to)
    } else if s.len() == 0 {
        s
    } else {
        seq![s[0]] + replace(s.drop_first(), from, to)
    }
}

/// The pieces joined with `sep` between consecutive pieces.
pub open spec fn join(parts: Seq<Seq<char>>, sep: Seq<char>) -> Seq<char>
    decreases parts.len(),
{
    if parts.len() == 0 {
        Seq::empty()
    } else if parts.len() == 1 {
        parts[0]
    } else {
        join(parts.drop_last(), sep) + sep + parts.last()
    }
}

/// A line without the carriage return that ended it.
pub open spec fn strip_cr(line: Seq<char>) -> Seq<char> {
    if line.len() > 0 && line.last() == '\r' {
        line.drop_last()
    } else {
        line
    }
}

/// The lines of `s`, where `cur` is the line collected so far.
pub open spec fn lines_from(s: Seq<char>, cur: Seq<char>) -> Seq<Seq<char>>
    decreases s.len(),
{
    if s.len() == 0 {
        if cur.len() == 0 {
            Seq::empty()
        } else {
            seq![cur]
        }
    } else if s[0] == '\n' {
        seq![strip_cr(cur)] + lines_from(s.drop_first(), Seq::empty())
    } else {
        lines_from(s.drop_first(), cur.push(s[0]))
    }
}

/// The lines of `s` as `str::lines` yields them: split at `\n`, a `\r`
/// before the `\n` removed, no empty line after a final `\n`.
pub open spec fn lines(s: Seq<char>) -> Seq<Seq<char>> {
    lines_from(s, Seq::empty())
}

/// `s` with surrounding quotes removed when it starts and ends with the
/// same quote character (`"` or `'`) and is at least two characters long;
/// a lone quote character is returned as it is.
pub open spec fn unquote(s: Seq<char>) -> Seq<char> {
    if s.len() >= 2 && ((s[0] == '"' && s.last() == '"') || (s[0] == '\'' && s.last() == '\'')) {
        s.subrange(1, s.len() - 1)
    } else {
        s
    }
}

/// `s` starts and ends with the same quote character.
pub open spec fn is_quoted(s: Seq<char>) -> bool {
    s.len() >= 1 && ((s[0] == '"' && s.last() == '"') || (s[0] == '\'' && s.last() == '\''))
}

/// The characters of a string slice, in order.
pub fn chars_of(s: &str) -> (out: Vec<char>)
    ensures
        out@ == s@,
{
    let mut out: Vec<char> = Vec::new();
    broadcast use vstd::string::group_string_axioms;

    for c in it: s.chars()
        invariant
            out@ == it.seq().take(it.index() as int),
            it.seq() == s@,
    {
        out.push(c);
    }
    out
}

/// The string made of the given characters (`FromIterator<char>` for `String`).
#[verifier::external_body]
pub(crate) fn string_of(v: &Vec<char>) -> (out: String)
    ensures
        out@ == v@,
{
    v.iter().collect()
}

/// Tests whether a character is whitespace.
pub fn is_whitespace(c: char) -> (b: bool)
    ensures
        b == is_ws(c),
{
    ('\u{9}' <= c && c <= '\u{d}') || c == ' ' || c == '\u{85}' || c == '\u{a0}' || c
        == '\u{1680}' || ('\u{2000}' <= c && c <= '\u{200a}') || c == '\u{2028}' || c == '\u{2029}'
        || c == '\u{202f}' || c == '\u{205f}' || c == '\u{3000}'
}

/// The characters of `v` from `a` up to (not including) `b`.
pub fn slice_chars(v: &Vec<char>, a: usize, b: usize) -> (out: Vec<char>)
    requires
        a <= b <= v.len(),
    ensures
        out@ == v@.subrange(a as int, b as int),
{
    let mut out: Vec<char> = Vec::new();
    let mut i = a;
    while i < b
        invariant
            a <= i <= b <= v.len(),
            out@ == v@.subrange(a as int, i as int),
        decreases b - i,
    {
        out.push(v[i]);
        i += 1;
    }
    out
}

/// The concatenation of two character vectors.
pub fn concat(a: &Vec<char>, b: &Vec<char>) -> (out: Vec<char>)
    ensures
        out@ == a@ + b@,
{
    let mut out = a.clone();
    let mut i: usize = 0;
    while i < b.len()
        invariant
            i <= b.len(),
            out@ == a@ + b@.take(i as int),
        decreases b.len() - i,
    {
        out.push(b[i]);
        i += 1;
        assert(b@.take(i as int) == b@.take(i - 1) + seq![b@[i - 1]]);
    }
    assert(b@.take(b.len() as int) == b@);
    out
}

/// Appends the characters of `b` to `a`.
pub fn push_all(a: &mut Vec<char>, b: &Vec<char>)
    ensures
        final(a)@ == old(a)@ + b@,
{
    let mut i: usize = 0;
    while i < b.len()
        invariant
            i <= b.len(),
            a@ == old(a)@ + b@.take(i as int),
        decreases b.len() - i,
    {
        a.push(b[i]);
        i += 1;
        assert(b@.take(i as int) == b@.take(i - 1) + seq![b@[i - 1]]);
    }
    assert(b@.take(b.len() as int) == b@);
}

/// Tests two character vectors for equality.
pub fn eq(a: &Vec<char>, b: &Vec<char>) -> (r: bool)
    ensures
        r == (a@ == b@),
{
    if a.len() != b.len() {
        return false;
    }
    let mut i: usize = 0;
    while i < a.len()
        invariant
            i <= a.len() == b.len(),
            a@.take(i as int) == b@.take(i as int),
        decreases a.len() - i,
    {
        if a[i] != b[i] {
            assert(a@[i as int] != b@[i as int]);
            return false;
        }
        i += 1;
        assert(a@.take(i as int) == a@.take(i - 1) + seq![a@[i - 1]]);
        assert(b@.take(i as int) == b@.take(i - 1) + seq![b@[i - 1]]);
    }
    assert(a@.take(a.len() as int) == a@);
    assert(b@.take(b.len() as int) == b@);
    true
}

proof fn lemma_trim_start_skip(s: Seq<char>, i: int)
    requires
        0 <= i <= s.len(),
        forall|j: int| 0 <= j < i ==> is_ws(s[j]),
    ensures
        trim_start(s) == trim_start(s.skip(i)),
    decreases i,
{
    if i > 0 {
        lemma_trim_start_skip(s, i - 1);
        assert(s.skip(i - 1).drop_first() == s.skip(i));
    } else {
        assert(s.skip(0) == s);
    }
}

/// Trimming the start of a text leaves a suffix of it.
pub proof fn lemma_trim_start_len(s: Seq<char>)
    ensures
        trim_start(s).len() <= s.len(),
        trim_start(s) == s.skip(s.len() - trim_start(s).len()),
    decreases s.len(),
{
    if s.len() > 0 && is_ws(s[0]) {
        lemma_trim_start_len(s.drop_first());
        assert(s.drop_first().skip(s.drop_first().len() - trim_start(s).len()) =~= s.skip(
            s.len() - trim_start(s).len(),
        ));
    } else {
        assert(s.skip(0) =~= s);
    }
}

proof fn lemma_trim_end_take(s: Seq<char>, i: int)
    requires
        0 <= i <= s.len(),
        forall|j: int| i <= j < s.len() ==> is_ws(s[j]),
    ensures
        trim_end(s) == trim_end(s.take(i)),
    decreases s.len() - i,
{
    if i < s.len() {
        lemma_trim_end_take(s, i + 1);
        assert(s.take(i + 1).drop_last() == s.take(i));
    } else {
        assert(s.take(s.len() as int) == s);
    }
}

/// The index of the first non-whitespace character (or the length).
pub fn first_non_ws(v: &Vec<char>) -> (i: usize)
    ensures
        i <= v.len(),
        forall|j: int| 0 <= j < i ==> is_ws(v@[j]),
        i < v.len() ==> !is_ws(v@[i as int]),
        trim_start(v@) == v@.skip(i as int),
{
    let mut i: usize = 0;
    while i < v.len() && is_whitespace(v[i])
        invariant
            i <= v.len(),
            forall|j: int| 0 <= j < i ==> is_ws(v@[j]),
        decreases v.len() - i,
    {
        i += 1;
    }
    proof {
        lemma_trim_start_skip(v@, i as int);
    }
    i
}

/// One past the index of the last non-whitespace character at or after `lo`.
pub fn last_non_ws_end(v: &Vec<char>, lo: usize) -> (e: usize)
    requires
        lo <= v.len(),
    ensures
        lo <= e <= v.len(),
        forall|j: int| e <= j < v.len() ==> is_ws(v@[j]),
        e > lo ==> !is_ws(v@[e - 1]),
{
    let mut e: usize = v.len();
    while e > lo && is_whitespace(v[e - 1])
        invariant
            lo <= e <= v.len(),
            forall|j: int| e <= j < v.len() ==> is_ws(v@[j]),
        decreases e,
    {
        e -= 1;
    }
    e
}

/// `v` without leading and trailing whitespace (as `str::trim`).
pub fn trim_chars(v: &Vec<char>) -> (out: Vec<char>)
    ensures
        out@ == trim(v@),
{
    let a = first_non_ws(v);
    let e = last_non_ws_end(v, a);
    let out = slice_chars(v, a, e);
    proof {
        let t = v@.skip(a as int);
        assert(trim_start(v@) == t);
        assert forall|j: int| (e - a) <= j < t.len() implies is_ws(t[j]) by {
            assert(t[j] == v@[j + a]);
        }
        lemma_trim_end_take(t, e - a);
        assert(t.take(e - a) == v@.subrange(a as int, e as int));
        if e > a {
            assert(t.take(e - a).last() == v@[e - 1]);
        } else {
            assert(t.take(e - a).len() == 0);
        }
    }
    out
}

/// `v` without its leading whitespace (as `str::trim_start`).
pub fn trim_start_chars(v: &Vec<char>) -> (out: Vec<char>)
    ensures
        out@ == trim_start(v@),
{
    let a = first_non_ws(v);
    slice_chars(v, a, v.len())
}

/// `v` without its trailing whitespace (as `str::trim_end`).
pub fn trim_end_chars(v: &Vec<char>) -> (out: Vec<char>)
    ensures
        out@ == trim_end(v@),
{
    let e = last_non_ws_end(v, 0);
    proof {
        lemma_trim_end_take(v@, e as int);
        if e > 0 {
            assert(v@.take(e as int).last() == v@[e - 1]);
        }
    }
    slice_chars(v, 0, e)
}

/// The trimmed characters of a string slice.
pub fn trimmed(s: &str) -> (out: Vec<char>)
    ensures
        out@ == trim(s@),
{
    let v = chars_of(s);
    trim_chars(&v)
}

/// Tests whether `p` occurs in `v` at position `i`.
pub fn matches_at(v: &Vec<char>, p: &Vec<char>, i: usize) -> (r: bool)
    ensures
        r == occurs_at(v@, p@, i as int),
{
    if i > v.len() || p.len() > v.len() - i {
        return false;
    }
    let mut k: usize = 0;
    while k < p.len()
        invariant
            i + p.len() <= v.len(),
            k <= p.len(),
            forall|j: int| 0 <= j < k ==> v@[i + j] == p@[j],
        decreases p.len() - k,
    {
        if v[i + k] != p[k] {
            assert(v@.subrange(i as int, i + p.len())[k as int] != p@[k as int]);
            return false;
        }
        k += 1;
    }
    assert(v@.subrange(i as int, i + p.len()) == p@);
    true
}

/// Tests whether `v` starts with `p`.
pub fn starts_with(v: &Vec<char>, p: &Vec<char>) -> (r: bool)
    ensures
        r == p@.is_prefix_of(v@),
{
    let r = matches_at(v, p, 0);
    proof {
        if r {
            assert(v@.subrange(0, p.len() as int) == v@.take(p.len() as int));
        } else if p.len() <= v.len() {
            assert(v@.subrange(0, p.len() as int) == v@.take(p.len() as int));
        }
    }
    r
}

/// Tests whether `v` ends with `p`.
pub fn ends_with(v: &Vec<char>, p: &Vec<char>) -> (r: bool)
    ensures
        r == p@.is_suffix_of(v@),
{
    if p.len() > v.len() {
        return false;
    }
    let r = matches_at(v, p, v.len() - p.len());
    proof {
        assert(v@.subrange(v.len() - p.len(), v.len() as int) == v@.skip(v.len() - p.len()));
    }
    r
}

/// Tests whether `v` starts with the character `c`.
pub fn starts_with_char(v: &Vec<char>, c: char) -> (r: bool)
    ensures
        r == (v@.len() > 0 && v@[0] == c),
{
    v.len() > 0 && v[0] == c
}

/// Tests whether `v` ends with the character `c`.
pub fn ends_with_char(v: &Vec<char>, c: char) -> (r: bool)
    ensures
        r == (v@.len() > 0 && v@.last() == c),
{
    v.len() > 0 && v[v.len() - 1] == c
}

/// The position of the first occurrence of `c` in `v`.
pub fn find_char(v: &Vec<char>, c: char) -> (r: Option<usize>)
    ensures
        r matches Some(i) ==> is_first_char(v@, c, i as int) && first_pos(v@, c) == i,
        r is None ==> !v@.contains(c) && first_pos(v@, c) == -1,
{
    proof {
        lemma_first_pos(v@, c);
    }
    let mut i: usize = 0;
    while i < v.len()
        invariant
            i <= v.len(),
            forall|j: int| 0 <= j < i ==> v@[j] != c,
        decreases v.len() - i,
    {
        if v[i] == c {
            proof {
                lemma_first_char_unique(v@, c, i as int);
            }
            return Some(i);
        }
        i += 1;
    }
    None
}

/// The position of the last occurrence of `c` in `v`.
pub fn rfind_char(v: &Vec<char>, c: char) -> (r: Option<usize>)
    ensures
        r matches Some(i) ==> i < v@.len() && v@[i as int] == c && (forall|j: int|
            i < j < v@.len() ==> v@[j] != c) && last_pos(v@, c) == i,
        r is None ==> !v@.contains(c),
{
    let mut i: usize = v.len();
    while i > 0
        invariant
            i <= v.len(),
            forall|j: int| i <= j < v@.len() ==> v@[j] != c,
        decreases i,
    {
        if v[i - 1] == c {
            proof {
                lemma_last_pos(v@, c, i - 1);
            }
            return Some(i - 1);
        }
        i -= 1;
    }
    None
}

/// Tests whether `c` occurs in `v`.
pub fn contains_char(v: &Vec<char>, c: char) -> (r: bool)
    ensures
        r == v@.contains(c),
{
    match find_char(v, c) {
        Some(i) => {
            assert(v@[i as int] == c);
            true
        },
        None => false,
    }
}

/// The position of the first occurrence of `p` in `v` (as `str::find`).
pub fn find_sub(v: &Vec<char>, p: &Vec<char>) -> (r: Option<usize>)
    ensures
        r matches Some(i) ==> is_first_sub(v@, p@, i as int),
        r is None ==> !contains_sub(v@, p@),
{
    if p.len() > v.len() {
        return None;
    }
    if p.len() == 0 {
        assert(v@.subrange(0, 0) =~= p@);
        return Some(0);
    }
    let n = v.len() - p.len();
    let mut i: usize = 0;
    while i <= n
        invariant
            n == v.len() - p.len(),
            n < usize::MAX,
            i <= n + 1,
            forall|j: int| 0 <= j < i ==> !occurs_at(v@, p@, j),
        decreases n + 1 - i,
    {
        if matches_at(v, p, i) {
            return Some(i);
        }
        i += 1;
    }
    None
}

/// The position of the last occurrence of `p` in `v` (as `str::rfind`).
pub fn rfind_sub(v: &Vec<char>, p: &Vec<char>) -> (r: Option<usize>)
    ensures
        r matches Some(i) ==> is_last_sub(v@, p@, i as int),
        r is None ==> !contains_sub(v@, p@),
{
    if p.len() > v.len() {
        return None;
    }
    let mut i: usize = v.len() - p.len();
    loop
        invariant
            i <= v.len() - p.len(),
            forall|j: int| i < j <= v@.len() ==> !occurs_at(v@, p@, j),
        decreases i,
    {
        if matches_at(v, p, i) {
            return Some(i);
        }
        if i == 0 {
            return None;
        }
        i -= 1;
    }
}

/// Tests whether `p` occurs in `v`.
pub fn contains(v: &Vec<char>, p: &Vec<char>) -> (r: bool)
    ensures
        r == contains_sub(v@, p@),
{
    match find_sub(v, p) {
        Some(_) => true,
        None => false,
    }
}

/// Splitting always gives at least one piece.
pub proof fn lemma_split_nonempty(s: Seq<char>, c: char)
    ensures
        split(s, c).len() > 0,
{
    lemma_split_from_nonempty(s, c, Seq::empty());
}

proof fn lemma_split_from_nonempty(s: Seq<char>, c: char, cur: Seq<char>)
    ensures
        split_from(s, c, cur).len() > 0,
    decreases s.len(),
{
    if s.len() > 0 {
        lemma_split_from_nonempty(s.drop_first(), c, Seq::empty());
        lemma_split_from_nonempty(s.drop_first(), c, cur.push(s[0]));
    }
}

/// `s` without all trailing occurrences of `c` (as `str::trim_end_matches`).
pub open spec fn strip_trailing(s: Seq<char>, c: char) -> Seq<char>
    decreases s.len(),
{
    if s.len() > 0 && s.last() == c {
        strip_trailing(s.drop_last(), c)
    } else {
        s
    }
}

/// `v` without all trailing occurrences of `c`.
pub fn strip_trailing_chars(v: &Vec<char>, c: char) -> (out: Vec<char>)
    ensures
        out@ == strip_trailing(v@, c),
{
    let mut e = v.len();
    assert(v@.take(e as int) == v@);
    while e > 0 && v[e - 1] == c
        invariant
            e <= v.len(),
            strip_trailing(v@, c) == strip_trailing(v@.take(e as int), c),
        decreases e,
    {
        assert(v@.take(e as int).drop_last() == v@.take(e - 1));
        e -= 1;
    }
    if e > 0 {
        assert(v@.take(e as int).last() == v@[e - 1]);
    }
    slice_chars(v, 0, e)
}

/// The pieces of `v` separated by `c` (as `str::split` with a `char`).
pub fn split_chars(v: &Vec<char>, c: char) -> (out: Vec<Vec<char>>)
    ensures
        out@.map_values(|x: Vec<char>| x@) == split(v@, c),
{
    let mut out: Vec<Vec<char>> = Vec::new();
    let mut cur: Vec<char> = Vec::new();
    let mut i: usize = 0;
    assert(v@.skip(0) == v@);
    while i < v.len()
        invariant
            i <= v.len(),
            split(v@, c) == out@.map_values(|x: Vec<char>| x@) + split_from(
                v@.skip(i as int),
                c,
                cur@,
            ),
        decreases v.len() - i,
    {
        let ghost rest = v@.skip(i as int);
        assert(rest.drop_first() == v@.skip(i + 1));
        if v[i] == c {
            let ghost old_out = out@.map_values(|x: Vec<char>| x@);
            let ghost old_cur = cur@;
            out.push(cur);
            cur = Vec::new();
            assert(out@.map_values(|x: Vec<char>| x@) == old_out.push(old_cur));
            assert(split_from(rest, c, old_cur) == seq![old_cur] + split_from(
                rest.drop_first(),
                c,
                Seq::empty(),
            ));
            assert(old_out + (seq![old_cur] + split_from(rest.drop_first(), c, Seq::empty()))
                == old_out.push(old_cur) + split_from(rest.drop_first(), c, Seq::empty()));
        } else {
            cur.push(v[i]);
        }
        i += 1;
    }
    let ghost old_out = out@.map_values(|x: Vec<char>| x@);
    out.push(cur);
    assert(out@.map_values(|x: Vec<char>| x@) == old_out + seq![out@.last()@]);
    out
}

/// `v` with occurrences of `from` replaced by `to` (as `str::replace`).
pub fn replace_chars(v: &Vec<char>, from: &Vec<char>, to: &Vec<char>) -> (out: Vec<char>)
    ensures
        out@ == replace(v@, from@, to@),
{
    let mut out: Vec<char> = Vec::new();
    let mut i: usize = 0;
    assert(v@.skip(0) == v@);
    while i < v.len()
        invariant
            i <= v.len(),
            replace(v@, from@, to@) == out@ + replace(v@.skip(i as int), from@, to@),
        decreases v.len() - i,
    {
        let ghost rest = v@.skip(i as int);
        if from.len() == 0 {
            push_all(&mut out, to);
            out.push(v[i]);
            assert(rest.drop_first() == v@.skip(i + 1));
            i += 1;
        } else if matches_at(v, from, i) {
            assert(v@.subrange(i as int, i + from.len()) == rest.take(from.len() as int));
            assert(rest.skip(from.len() as int) == v@.skip(i + from.len()));
            push_all(&mut out, to);
            i += from.len();
        } else {
            proof {
                if from@.is_prefix_of(rest) {
                    assert(v@.subrange(i as int, i + from.len()) == rest.take(from.len() as int));
                }
            }
            assert(rest.drop_first() == v@.skip(i + 1));
            out.push(v[i]);
            i += 1;
        }
    }
    assert(v@.skip(i as int).len() == 0);
    if from.len() == 0 {
        push_all(&mut out, to);
    } else {
        assert(!from@.is_prefix_of(v@.skip(i as int)));
    }
    out
}

/// The pieces joined with `sep` (as `[String]::join`).
pub fn join_chars(parts: &Vec<Vec<char>>, sep: &Vec<char>) -> (out: Vec<char>)
    ensures
        out@ == join(parts@.map_values(|x: Vec<char>| x@), sep@),
{
    let ghost ps = parts@.map_values(|x: Vec<char>| x@);
    let mut out: Vec<char> = Vec::new();
    let mut i: usize = 0;
    while i < parts.len()
        invariant
            i <= parts.len(),
            ps == parts@.map_values(|x: Vec<char>| x@),
            out@ == join(ps.take(i as int), sep@),
        decreases parts.len() - i,
    {
        if i > 0 {
            push_all(&mut out, sep);
        }
        push_all(&mut out, &parts[i]);
        i += 1;
        assert(ps.take(i as int).drop_last() == ps.take(i - 1));
    }
    assert(ps.take(parts.len() as int) == ps);
    out
}

/// The lines of `v` (as `str::lines`).
pub fn lines_chars(v: &Vec<char>) -> (out: Vec<Vec<char>>)
    ensures
        out@.map_values(|x: Vec<char>| x@) == lines(v@),
{
    let mut out: Vec<Vec<char>> = Vec::new();
    let mut cur: Vec<char> = Vec::new();
    let mut i: usize = 0;
    assert(v@.skip(0) == v@);
    while i < v.len()
        invariant
            i <= v.len(),
            lines(v@) == out@.map_values(|x: Vec<char>| x@) + lines_from(v@.skip(i as int), cur@),
        decreases v.len() - i,
    {
        let ghost rest = v@.skip(i as int);
        assert(rest.drop_first() == v@.skip(i + 1));
        if v[i] == '\n' {
            let ghost old_out = out@.map_values(|x: Vec<char>| x@);
            let ghost old_cur = cur@;
            if cur.len() > 0 && cur[cur.len() - 1] == '\r' {
                cur.pop();
            }
            assert(cur@ == strip_cr(old_cur));
            out.push(cur);
            cur = Vec::new();
            assert(out@.map_values(|x: Vec<char>| x@) == old_out.push(strip_cr(old_cur)));
            assert(old_out + (seq![strip_cr(old_cur)] + lines_from(rest.drop_first(), Seq::empty()))
                == old_out.push(strip_cr(old_cur)) + lines_from(rest.drop_first(), Seq::empty()));
        } else {
            cur.push(v[i]);
        }
        i += 1;
    }
    if cur.len() > 0 {
        let ghost old_out = out@.map_values(|x: Vec<char>| x@);
        out.push(cur);
        assert(out@.map_values(|x: Vec<char>| x@) == old_out + seq![out@.last()@]);
    } else {
        assert(out@.map_values(|x: Vec<char>| x@) == out@.map_values(|x: Vec<char>| x@) + Seq::<Seq<char>>::empty());
    }
    out
}

/// `v` with one pair of surrounding quotes removed (see `unquote`).
pub fn unquote_chars(v: &Vec<char>) -> (out: Vec<char>)
    ensures
        out@ == unquote(v@),
{
    if v.len() >= 2 && ((v[0] == '"' && v[v.len() - 1] == '"') || (v[0] == '\'' && v[v.len() - 1] == '\'')) {
        slice_chars(v, 1, v.len() - 1)
    } else {
        v.clone()
    }
}

/// Tests whether `v` starts and ends with the same quote character.
pub fn is_quoted_chars(v: &Vec<char>) -> (r: bool)
    ensures
        r == is_quoted(v@),
{
    v.len() >= 1 && ((v[0] == '"' && v[v.len() - 1] == '"') || (v[0] == '\'' && v[v.len() - 1] == '\''))
}

/// The characters of a string.
pub fn chars_of_string(s: &String) -> (out: Vec<char>)
    ensures
        out@ == s@,
{
    chars_of(s.as_str())
}

/// An ASCII decimal digit.
pub open spec fn is_digit(c: char) -> bool {
    '0' <= c && c <= '9'
}

/// Every character of `s` is an ASCII digit.
pub open spec fn all_digits(s: Seq<char>) -> bool {
    forall|i: int| 0 <= i < s.len() ==> is_digit(s[i])
}

/// The number denoted by a string of decimal digits.
pub open spec fn digits_value(s: Seq<char>) -> nat
    decreases s.len(),
{
    if s.len() == 0 {
        0
    } else {
        digits_value(s.drop_last()) * 10 + (s.last() as nat - '0' as nat) as nat
    }
}

/// The decimal text of a natural number, without leading zeros.
pub open spec fn nat_text(n: nat) -> Seq<char>
    decreases n,
{
    if n < 10 {
        seq![digit_char(n)]
    } else {
        nat_text(n / 10).push(digit_char(n % 10))
    }
}

/// The character of a decimal digit.
pub open spec fn digit_char(d: nat) -> char {
    if d == 0 { '0' }
    else if d == 1 { '1' }
    else if d == 2 { '2' }
    else if d == 3 { '3' }
    else if d == 4 { '4' }
    else if d == 5 { '5' }
    else if d == 6 { '6' }
    else if d == 7 { '7' }
    else if d == 8 { '8' }
    else { '9' }
}

/// The decimal text of an integer, with a leading `-` when negative.
pub open spec fn int_text(i: int) -> Seq<char> {
    if i < 0 {
        seq!['-'] + nat_text((-i) as nat)
    } else {
        nat_text(i as nat)
    }
}

/// What `str::parse::<usize>` gives: an optional `+` followed by at least
/// one decimal digit, denoting a number that fits in `usize`.
pub open spec fn usize_literal(s: Seq<char>) -> Option<nat> {
    let d = if s.len() > 0 && s[0] == '+' { s.drop_first() } else { s };
    if d.len() > 0 && all_digits(d) && digits_value(d) <= usize::MAX {
        Some(digits_value(d))
    } else {
        None
    }
}

/// The length of the longest prefix of `s` made of decimal digits.
pub open spec fn lead_digits(s: Seq<char>) -> nat
    decreases s.len(),
{
    if s.len() > 0 && is_digit(s[0]) {
        1 + lead_digits(s.drop_first())
    } else {
        0
    }
}

/// `s` equals `word` (given in lower case) ignoring ASCII case.
pub open spec fn eq_ignore_ascii_case(s: Seq<char>, word: Seq<char>) -> bool {
    s.len() == word.len() && forall|i: int|
        0 <= i < s.len() ==> (s[i] == word[i] || (('A' <= s[i] && s[i] <= 'Z') && (s[i] as u32)
            + 32 == (word[i] as u32)))
}

/// A decimal exponent suffix (`e` or `E`, an optional sign, digits), or nothing.
pub open spec fn exponent_ok(x: Seq<char>) -> bool {
    x.len() == 0 || ((x[0] == 'e' || x[0] == 'E') && {
        let y = x.drop_first();
        let z = if y.len() > 0 && (y[0] == '+' || y[0] == '-') { y.drop_first() } else { y };
        z.len() > 0 && all_digits(z)
    })
}

/// A decimal number without sign: digits, an optional fraction, an optional
/// exponent, with at least one digit before the exponent.
pub open spec fn decimal_ok(b: Seq<char>) -> bool {
    let d = lead_digits(b) as int;
    if d < b.len() && b[d] == '.' {
        let f = lead_digits(b.skip(d + 1)) as int;
        d + f > 0 && exponent_ok(b.skip(d + 1 + f))
    } else {
        d > 0 && exponent_ok(b.skip(d))
    }
}

/// What `str::parse::<f64>` accepts: an optional sign followed by
/// `inf`, `infinity` or `nan` in any ASCII case, or by a decimal number.
pub open spec fn float_literal(s: Seq<char>) -> bool {
    let b = if s.len() > 0 && (s[0] == '+' || s[0] == '-') { s.drop_first() } else { s };
    eq_ignore_ascii_case(b, seq!['i', 'n', 'f']) || eq_ignore_ascii_case(
        b,
        seq!['i', 'n', 'f', 'i', 'n', 'i', 't', 'y'],
    ) || eq_ignore_ascii_case(b, seq!['n', 'a', 'n']) || decimal_ok(b)
}

proof fn lemma_lead_digits(s: Seq<char>, i: int)
    requires
        0 <= i <= s.len(),
        all_digits(s.take(i)),
        i == s.len() || !is_digit(s[i]),
    ensures
        lead_digits(s) == i,
    decreases i,
{
    if i > 0 {
        assert(s.take(i)[0] == s[0]);
        assert(is_digit(s.take(i)[0]));
        let t = s.drop_first();
        assert(t.take(i - 1) == s.take(i).drop_first());
        assert forall|j: int| 0 <= j < i - 1 implies is_digit(#[trigger] t.take(i - 1)[j]) by {
            assert(t.take(i - 1)[j] == s.take(i)[j + 1]);
        }
        if i < s.len() {
            assert(t[i - 1] == s[i]);
        }
        lemma_lead_digits(t, i - 1);
    }
}

/// The length of the run of decimal digits starting at `start`.
pub fn count_digits(v: &Vec<char>, start: usize) -> (n: usize)
    requires
        start <= v.len(),
    ensures
        n == lead_digits(v@.skip(start as int)),
        start + n <= v.len(),
{
    let mut i = start;
    while i < v.len() && '0' <= v[i] && v[i] <= '9'
        invariant
            start <= i <= v.len(),
            all_digits(v@.subrange(start as int, i as int)),
        decreases v.len() - i,
    {
        i += 1;
    }
    proof {
        let t = v@.skip(start as int);
        assert(t.take(i - start) == v@.subrange(start as int, i as int));
        lemma_lead_digits(t, i - start);
    }
    i - start
}

/// Tests ASCII-case-insensitive equality with a lower-case word.
pub fn eq_ignore_case_from(v: &Vec<char>, start: usize, word: &Vec<char>) -> (r: bool)
    requires
        start <= v.len(),
    ensures
        r == eq_ignore_ascii_case(v@.skip(start as int), word@),
{
    if v.len() - start != word.len() {
        return false;
    }
    let mut i: usize = 0;
    while i < word.len()
        invariant
            v.len() - start == word.len(),
            start <= v.len(),
            i <= word.len(),
            forall|j: int|
                0 <= j < i ==> (v@[start + j] == word@[j] || (('A' <= v@[start + j] && v@[start
                    + j] <= 'Z') && (v@[start + j] as u32) + 32 == (word@[j] as u32))),
        decreases word.len() - i,
    {
        let c = v[start + i];
        let w = word[i];
        let cu = c as u32;
        let wu = w as u32;
        if !(c == w || ('A' <= c && c <= 'Z' && cu + 32 == wu)) {
            assert(v@.skip(start as int)[i as int] == c);
            return false;
        }
        assert(v@[start + i] == c && word@[i as int] == w);
        i += 1;
    }
    true
}

/// Tests whether the characters from `e` on form an exponent suffix or nothing.
pub fn exponent_ok_at(v: &Vec<char>, e: usize) -> (r: bool)
    requires
        e <= v.len(),
    ensures
        r == exponent_ok(v@.skip(e as int)),
{
    if e == v.len() {
        assert(v@.skip(e as int).len() == 0);
        return true;
    }
    let ghost x = v@.skip(e as int);
    assert(x[0] == v@[e as int]);
    if !(v[e] == 'e' || v[e] == 'E') {
        return false;
    }
    let mut z = e + 1;
    assert(x.drop_first() == v@.skip(e + 1));
    if z < v.len() && (v[z] == '+' || v[z] == '-') {
        assert(x.drop_first()[0] == v@[z as int]);
        z += 1;
        assert(x.drop_first().drop_first() == v@.skip(z as int));
    } else {
        assert(z < v.len() ==> x.drop_first()[0] == v@[z as int]);
    }
    if z == v.len() {
        assert(v@.skip(z as int).len() == 0);
        return false;
    }
    let n = count_digits(v, z);
    proof {
        lemma_lead_digits_all(v@.skip(z as int));
    }
    z + n == v.len()
}

/// Tests whether the characters from `start` on form a decimal number.
pub fn decimal_ok_at(v: &Vec<char>, start: usize) -> (r: bool)
    requires
        start <= v.len(),
    ensures
        r == decimal_ok(v@.skip(start as int)),
{
    let ghost b = v@.skip(start as int);
    let d = count_digits(v, start);
    let ghost dd = d as int;
    if start + d < v.len() && v[start + d] == '.' {
        assert(b[dd] == v@[start + dd]);
        assert(b.skip(dd + 1) == v@.skip(start + dd + 1));
        let f = count_digits(v, start + d + 1);
        if d + f == 0 {
            return false;
        }
        let e = start + d + 1 + f;
        assert(b.skip(dd + 1 + f) == v@.skip(e as int));
        exponent_ok_at(v, e)
    } else {
        assert(start + d < v.len() ==> b[dd] == v@[start + dd]);
        if d == 0 {
            return false;
        }
        let e = start + d;
        assert(b.skip(dd) == v@.skip(e as int));
        exponent_ok_at(v, e)
    }
}

/// Tests whether `v` is accepted by `str::parse::<f64>`.
pub fn is_float_literal(v: &Vec<char>) -> (r: bool)
    ensures
        r == float_literal(v@),
{
    let start: usize = if v.len() > 0 && (v[0] == '+' || v[0] == '-') { 1 } else { 0 };
    let ghost b = if v@.len() > 0 && (v@[0] == '+' || v@[0] == '-') { v@.drop_first() } else { v@ };
    assert(b == v@.skip(start as int));
    if eq_ignore_case_from(v, start, &vec!['i', 'n', 'f']) {
        return true;
    }
    if eq_ignore_case_from(v, start, &vec!['i', 'n', 'f', 'i', 'n', 'i', 't', 'y']) {
        return true;
    }
    if eq_ignore_case_from(v, start, &vec!['n', 'a', 'n']) {
        return true;
    }
    decimal_ok_at(v, start)
}

proof fn lemma_lead_digits_all(s: Seq<char>)
    ensures
        lead_digits(s) <= s.len(),
        all_digits(s.take(lead_digits(s) as int)),
        lead_digits(s) < s.len() ==> !is_digit(s[lead_digits(s) as int]),
        all_digits(s) <==> lead_digits(s) == s.len(),
    decreases s.len(),
{
    if s.len() > 0 && is_digit(s[0]) {
        lemma_lead_digits_all(s.drop_first());
        let n = lead_digits(s.drop_first()) as int;
        assert forall|i: int| 0 <= i < n + 1 implies is_digit(#[trigger] s.take(n + 1)[i]) by {
            if i > 0 {
                assert(s.take(n + 1)[i] == s.drop_first().take(n)[i - 1]);
            }
        }
        if all_digits(s) {
            assert forall|i: int| 0 <= i < s.len() - 1 implies is_digit(s.drop_first()[i]) by {
                assert(s.drop_first()[i] == s[i + 1]);
            }
        }
        if lead_digits(s) == s.len() {
            assert forall|i: int| 0 <= i < s.len() implies is_digit(s[i]) by {
                if i > 0 {
                    assert(s[i] == s.drop_first()[i - 1]);
                }
            }
        }
    }
}

/// The decimal text of `n`.
pub fn usize_text(n: usize) -> (out: Vec<char>)
    ensures
        out@ == nat_text(n as nat),
    decreases n,
{
    let d = n % 10;
    let c = if d == 0 { '0' } else if d == 1 { '1' } else if d == 2 { '2' } else if d == 3 { '3' }
        else if d == 4 { '4' } else if d == 5 { '5' } else if d == 6 { '6' } else if d == 7 { '7' }
        else if d == 8 { '8' } else { '9' };
    if n < 10 {
        vec![c]
    } else {
        let mut out = usize_text(n / 10);
        out.push(c);
        out
    }
}

/// The decimal text of `i`, with a leading `-` when negative.
pub fn i64_text(i: i64) -> (out: Vec<char>)
    ensures
        out@ == int_text(i as int),
{
    if i < 0 {
        let m: u64 = if i == i64::MIN { 9223372036854775808u64 } else { (-i) as u64 };
        let mut out = vec!['-'];
        let t = u64_text(m);
        push_all(&mut out, &t);
        out
    } else {
        u64_text(i as u64)
    }
}

/// The decimal text of `n`.
pub fn u64_text(n: u64) -> (out: Vec<char>)
    ensures
        out@ == nat_text(n as nat),
    decreases n,
{
    let d = n % 10;
    let c = if d == 0 { '0' } else if d == 1 { '1' } else if d == 2 { '2' } else if d == 3 { '3' }
        else if d == 4 { '4' } else if d == 5 { '5' } else if d == 6 { '6' } else if d == 7 { '7' }
        else if d == 8 { '8' } else { '9' };
    if n < 10 {
        vec![c]
    } else {
        let mut out = u64_text(n / 10);
        out.push(c);
        out
    }
}

/// What `str::parse::<usize>` gives for `v`.
pub fn parse_usize(v: &Vec<char>) -> (r: Option<usize>)
    ensures
        match r {
            Some(n) => usize_literal(v@) == Some(n as nat),
            None => usize_literal(v@) is None,
        },
{
    let start: usize = if v.len() > 0 && v[0] == '+' { 1 } else { 0 };
    let ghost d = if v@.len() > 0 && v@[0] == '+' { v@.drop_first() } else { v@ };
    assert(d == v@.skip(start as int));
    if start == v.len() {
        return None;
    }
    let mut acc: usize = 0;
    let mut i = start;
    while i < v.len()
        invariant
            start <= i <= v.len(),
            start < v.len(),
            d == v@.skip(start as int),
            d == (if v@.len() > 0 && v@[0] == '+' { v@.drop_first() } else { v@ }),
            all_digits(v@.subrange(start as int, i as int)),
            acc as nat == digits_value(v@.subrange(start as int, i as int)),
        decreases v.len() - i,
    {
        let c = v[i];
        if !('0' <= c && c <= '9') {
            assert(d[i - start] == c);
            assert(!is_digit(d[i - start]));
            assert(!all_digits(d));
            assert(usize_literal(v@) is None);
            return None;
        }
        let dv = (c as u32 - '0' as u32) as usize;
        assert(v@.subrange(start as int, i + 1).drop_last() == v@.subrange(start as int, i as int));
        if acc > (usize::MAX - dv) / 10 {
            proof {
                assert(digits_value(v@.subrange(start as int, i + 1)) == acc * 10 + dv) by (nonlinear_arith)
                    requires digits_value(v@.subrange(start as int, i + 1)) == digits_value(v@.subrange(start as int, i as int)) * 10 + dv,
                        acc as nat == digits_value(v@.subrange(start as int, i as int));
                assert(acc * 10 + dv > usize::MAX) by (nonlinear_arith)
                    requires acc > (usize::MAX - dv) / 10, dv <= 9;
                assert(d.take(i + 1 - start) == v@.subrange(start as int, i + 1));
                lemma_usize_literal_not_all(d, i + 1 - start);
                assert(usize_literal(v@) is None);
            }
            return None;
        }
        assert(acc * 10 + dv <= usize::MAX) by (nonlinear_arith)
            requires acc <= (usize::MAX - dv) / 10, dv <= 9;
        acc = acc * 10 + dv;
        i += 1;
    }
    assert(v@.subrange(start as int, v.len() as int) == d);
    Some(acc)
}

proof fn lemma_digits_value_prefix_le(s: Seq<char>, k: int)
    requires
        0 <= k <= s.len(),
        all_digits(s),
    ensures
        digits_value(s.take(k)) <= digits_value(s),
    decreases s.len() - k,
{
    if k < s.len() {
        lemma_digits_value_prefix_le(s, k + 1);
        assert(s.take(k + 1).drop_last() == s.take(k));
    } else {
        assert(s.take(k) == s);
    }
}

proof fn lemma_usize_literal_not_all(d: Seq<char>, k: int)
    requires
        0 <= k <= d.len(),
        digits_value(d.take(k)) > usize::MAX,
    ensures
        !(d.len() > 0 && all_digits(d) && digits_value(d) <= usize::MAX),
{
    if d.len() > 0 && all_digits(d) {
        lemma_digits_value_prefix_le(d, k);
    }
}

/// A nonempty text has at least one line.
pub proof fn lemma_lines_nonempty(s: Seq<char>)
    requires
        s.len() > 0,
    ensures
        lines(s).len() > 0,
{
    lemma_lines_from_nonempty(s, Seq::empty());
}

proof fn lemma_lines_from_nonempty(s: Seq<char>, cur: Seq<char>)
    requires
        s.len() > 0 || cur.len() > 0,
    ensures
        lines_from(s, cur).len() > 0,
    decreases s.len(),
{
    if s.len() > 0 && s[0] != '\n' {
        lemma_lines_from_nonempty(s.drop_first(), cur.push(s[0]));
    }
}

} // verus!
