//! Character-level text helpers with exact specifications: Unicode white
//! space, trimming, line splitting and literal replacement.

use vstd::prelude::*;

verus! {

broadcast use vstd::string::group_string_axioms;

/// The Unicode `White_Space` property, which `char::is_whitespace` tests.
pub open spec fn is_ws(c: char) -> bool {
    ||| ('\u{9}' <= c && c <= '\u{d}')
    ||| c == ' '
    ||| c == '\u{85}'
    ||| c == '\u{a0}'
    ||| c == '\u{1680}'
    ||| ('\u{2000}' <= c && c <= '\u{200a}')
    ||| c == '\u{2028}'
    ||| c == '\u{2029}'
    ||| c == '\u{202f}'
    ||| c == '\u{205f}'
    ||| c == '\u{3000}'
}

/// `s` without its leading white space.
pub open spec fn trim_start(s: Seq<char>) -> Seq<char>
    decreases s.len(),
{
    if s.len() > 0 && is_ws(s[0]) {
        trim_start(s.drop_first())
    } else {
        s
    }
}

/// `s` without its trailing white space.
pub open spec fn trim_end(s: Seq<char>) -> Seq<char>
    decreases s.len(),
{
    if s.len() > 0 && is_ws(s.last()) {
        trim_end(s.drop_last())
    } else {
        s
    }
}

/// `s` without white space at either end, as `str::trim` gives it.
pub open spec fn trim(s: Seq<char>) -> Seq<char> {
    trim_end(trim_start(s))
}

/// Whether `c` is white space; agrees with `char::is_whitespace`.
pub fn is_whitespace(c: char) -> (b: bool)
    ensures
        b == is_ws(c),
{
    ('\u{9}' <= c && c <= '\u{d}') || c == ' ' || c == '\u{85}' || c == '\u{a0}' || c == '\u{1680}'
        || ('\u{2000}' <= c && c <= '\u{200a}') || c == '\u{2028}' || c == '\u{2029}'
        || c == '\u{202f}' || c == '\u{205f}' || c == '\u{3000}'
}

/// The characters of `s`, in order.
pub fn chars_of(s: &str) -> (v: Vec<char>)
    ensures
        v@ == s@,
{
    let mut it = s.chars();
    let mut v: Vec<char> = Vec::new();
    loop
        invariant
            v@ + vstd::std_specs::iter::IteratorSpec::remaining(&it) == s@,
            vstd::std_specs::iter::IteratorSpec::obeys_prophetic_iter_laws(&it),
            vstd::std_specs::iter::IteratorSpec::decrease(&it) is Some,
        decreases vstd::std_specs::iter::IteratorSpec::decrease(&it)->0,
    {
        match it.next() {
            Some(c) => {
                v.push(c);
                assert(v@ + vstd::std_specs::iter::IteratorSpec::remaining(&it) =~= s@);
            },
            None => {
                assert(v@ =~= s@);
                return v;
            },
        }
    }
}

/// Bounds `(lo, hi)` such that `cs[lo..hi]` is `cs[a..b]` trimmed.
pub fn trim_bounds(cs: &Vec<char>, a: usize, b: usize) -> (r: (usize, usize))
    requires
        a <= b <= cs@.len(),
    ensures
        a <= r.0 <= r.1 <= b,
        cs@.subrange(r.0 as int, r.1 as int) == trim(cs@.subrange(a as int, b as int)),
{
    let mut lo = a;
    while lo < b && is_whitespace(cs[lo])
        invariant
            a <= lo <= b <= cs@.len(),
            trim_start(cs@.subrange(a as int, b as int)) == trim_start(cs@.subrange(lo as int, b as int)),
        decreases b - lo,
    {
        assert(cs@.subrange(lo as int, b as int).drop_first() =~= cs@.subrange(lo + 1, b as int));
        lo = lo + 1;
    }
    assert(trim_start(cs@.subrange(lo as int, b as int)) == cs@.subrange(lo as int, b as int));
    let mut hi = b;
    while hi > lo && is_whitespace(cs[hi - 1])
        invariant
            a <= lo <= hi <= b <= cs@.len(),
            trim_end(cs@.subrange(lo as int, b as int)) == trim_end(cs@.subrange(lo as int, hi as int)),
        decreases hi - lo,
    {
        assert(cs@.subrange(lo as int, hi as int).drop_last() =~= cs@.subrange(lo as int, hi - 1));
        hi = hi - 1;
    }
    (lo, hi)
}

/// `s` without white space at either end, as a slice of `s`.
pub fn trim_str<'a>(s: &'a str) -> (r: &'a str)
    ensures
        r@ == trim(s@),
{
    let cs = chars_of(s);
    let (lo, hi) = trim_bounds(&cs, 0, cs.len());
    assert(cs@.subrange(0, cs@.len() as int) =~= s@);
    s.substring_char(lo, hi)
}

/// Index of the first line feed at or after `i`, or the length of `s`.
pub open spec fn line_end(s: Seq<char>, i: int) -> int
    decreases s.len() - i,
{
    if i >= s.len() {
        s.len() as int
    } else if s[i] == '\n' {
        i
    } else {
        line_end(s, i + 1)
    }
}

pub proof fn lemma_line_end_bounds(s: Seq<char>, i: int)
    requires
        0 <= i <= s.len(),
    ensures
        i <= line_end(s, i) <= s.len(),
        line_end(s, i) < s.len() ==> s[line_end(s, i)] == '\n',
    decreases s.len() - i,
{
    if i < s.len() && s[i] != '\n' {
        lemma_line_end_bounds(s, i + 1);
    }
}

/// The lines of `s` that begin at or after `start`.
pub open spec fn lines_from(s: Seq<char>, start: int) -> Seq<Seq<char>>
    decreases s.len() + 1 - start,
{
    if start < 0 || start >= s.len() {
        Seq::empty()
    } else {
        let e = line_end(s, start);
        proof {
            lemma_line_end_bounds(s, start);
        }
        seq![s.subrange(start, e)] + lines_from(s, e + 1)
    }
}

/// The lines of `s` as `str::lines` yields them: the pieces between line
/// feeds, where a final line feed ends the last line rather than opening an
/// empty one. (A carriage return before a line feed stays in the piece; every
/// user here trims the pieces, which removes it.)
pub open spec fn lines(s: Seq<char>) -> Seq<Seq<char>> {
    lines_from(s, 0)
}

/// The lines of `s`, each trimmed.
pub open spec fn trimmed_lines(s: Seq<char>) -> Seq<Seq<char>> {
    lines(s).map_values(|l: Seq<char>| trim(l))
}

proof fn lemma_line_end_skip(s: Seq<char>, start: int, i: int)
    requires
        0 <= start <= i <= s.len(),
        forall|j: int| start <= j < i ==> s[j] != '\n',
    ensures
        line_end(s, start) == line_end(s, i),
    decreases i - start,
{
    if start < i {
        lemma_line_end_skip(s, start + 1, i);
    }
}

/// The lines of `s`, each trimmed, as slices of `s`.
pub fn split_trimmed_lines<'a>(s: &'a str) -> (out: Vec<&'a str>)
    ensures
        out@.len() == trimmed_lines(s@).len(),
        forall|k: int| 0 <= k < out@.len() ==> #[trigger] out@[k]@ == trimmed_lines(s@)[k],
{
    let cs = chars_of(s);
    let n = cs.len();
    let mut out: Vec<&'a str> = Vec::new();
    let ghost mut done: Seq<Seq<char>> = Seq::empty();
    let mut start: usize = 0;
    let mut i: usize = 0;
    while i < n
        invariant
            cs@ == s@,
            n == cs@.len(),
            start <= i <= n,
            forall|j: int| start <= j < i ==> cs@[j] != '\n',
            lines(s@) == done + lines_from(s@, start as int),
            out@.len() == done.len(),
            forall|k: int| 0 <= k < out@.len() ==> #[trigger] out@[k]@ == trim(done[k]),
        decreases n - i,
    {
        if cs[i] == '\n' {
            proof {
                lemma_line_end_skip(s@, start as int, i as int);
            }
            let (lo, hi) = trim_bounds(&cs, start, i);
            let line = s.substring_char(lo, hi);
            out.push(line);
            proof {
                let piece = s@.subrange(start as int, i as int);
                assert(lines_from(s@, start as int) == seq![piece] + lines_from(s@, i + 1));
                assert(done.push(piece) + lines_from(s@, i + 1) =~= done + (seq![piece] + lines_from(s@, i + 1)));
                done = done.push(piece);
            }
            start = i + 1;
        }
        i = i + 1;
    }
    if start < n {
        proof {
            lemma_line_end_skip(s@, start as int, n as int);
        }
        let (lo, hi) = trim_bounds(&cs, start, n);
        let line = s.substring_char(lo, hi);
        out.push(line);
        proof {
            let piece = s@.subrange(start as int, n as int);
            assert(lines_from(s@, start as int) == seq![piece] + lines_from(s@, n + 1));
            assert(done + lines_from(s@, start as int) =~= done.push(piece));
            done = done.push(piece);
        }
    } else {
        assert(done + lines_from(s@, start as int) =~= done);
    }
    assert(lines(s@) == done);
    out
}

/// `s` with every match of `pat` replaced by `rep`, matches taken from left to
/// right without overlap, as `str::replace` does for a non-empty pattern.
pub open spec fn replace_all(s: Seq<char>, pat: Seq<char>, rep: Seq<char>) -> Seq<char>
    decreases s.len(),
{
    if s.len() == 0 || s.len() < pat.len() {
        s
    } else if pat.len() > 0 && s.take(pat.len() as int) == pat {
        rep + replace_all(s.skip(pat.len() as int), pat, rep)
    } else {
        seq![s[0]] + replace_all(s.skip(1), pat, rep)
    }
}

/// Whether `pat` occurs in `cs` at position `i`.
fn matches_at(cs: &Vec<char>, i: usize, pat: &Vec<char>) -> (b: bool)
    requires
        i + pat@.len() <= cs@.len(),
    ensures
        b == (cs@.subrange(i as int, i + pat@.len()) == pat@),
{
    let m = pat.len();
    let n = cs.len();
    let mut k: usize = 0;
    while k < m
        invariant
            m == pat@.len(),
            n == cs@.len(),
            i + m <= cs@.len(),
            k <= m,
            forall|j: int| 0 <= j < k ==> cs@[i + j] == pat@[j],
        decreases m - k,
    {
        assert(i + k < cs@.len());
        if cs[i + k] != pat[k] {
            assert(cs@.subrange(i as int, i + m)[k as int] != pat@[k as int]);
            return false;
        }
        k = k + 1;
    }
    assert(cs@.subrange(i as int, i + m) =~= pat@);
    true
}

/// `s` with every match of the non-empty `pat` replaced by `rep`.
pub fn replace_str(s: &str, pat: &str, rep: &str) -> (r: String)
    requires
        pat@.len() > 0,
    ensures
        r@ == replace_all(s@, pat@, rep@),
{
    let cs = chars_of(s);
    let ps = chars_of(pat);
    let n = cs.len();
    let m = ps.len();
    let mut r = String::new();
    let mut start: usize = 0;
    let mut i: usize = 0;
    assert(s@.skip(0) =~= s@);
    assert(r@ + s@.subrange(0, 0) =~= Seq::<char>::empty());
    while i < n && m <= n - i
        invariant
            cs@ == s@,
            ps@ == pat@,
            n == cs@.len(),
            m == ps@.len(),
            m > 0,
            start <= i <= n,
            replace_all(s@, pat@, rep@) == r@ + s@.subrange(start as int, i as int) + replace_all(
                s@.skip(i as int),
                pat@,
                rep@,
            ),
        decreases n - i,
    {
        let tail = Ghost(s@.skip(i as int));
        assert(tail@.take(m as int) =~= cs@.subrange(i as int, i + m));
        if matches_at(&cs, i, &ps) {
            assert(tail@.skip(m as int) =~= s@.skip(i + m));
            r.append(s.substring_char(start, i));
            r.append(rep);
            i = i + m;
            start = i;
            assert(s@.subrange(start as int, i as int) =~= Seq::<char>::empty());
            assert(r@ + s@.subrange(start as int, i as int) =~= r@);
        } else {
            assert(tail@.skip(1) =~= s@.skip(i + 1));
            assert(s@.subrange(start as int, i as int) + seq![s@[i as int]] =~= s@.subrange(
                start as int,
                i + 1,
            ));
            i = i + 1;
        }
    }
    assert(replace_all(s@.skip(i as int), pat@, rep@) == s@.skip(i as int));
    assert(s@.subrange(start as int, i as int) + s@.skip(i as int) =~= s@.subrange(
        start as int,
        n as int,
    ));
    r.append(s.substring_char(start, n));
    r
}

/// Whether `a` and `b` hold the same characters.
pub fn str_eq(a: &str, b: &str) -> (r: bool)
    ensures
        r == (a@ == b@),
{
    let x = chars_of(a);
    let y = chars_of(b);
    if x.len() != y.len() {
        return false;
    }
    let mut k: usize = 0;
    while k < x.len()
        invariant
            x@ == a@,
            y@ == b@,
            x@.len() == y@.len(),
            k <= x@.len(),
            forall|j: int| 0 <= j < k ==> x@[j] == y@[j],
        decreases x@.len() - k,
    {
        if x[k] != y[k] {
            return false;
        }
        k = k + 1;
    }
    assert(x@ =~= y@);
    true
}

/// The pieces `ls` with `sep` between each two neighbours.
pub open spec fn join_with(ls: Seq<Seq<char>>, sep: Seq<char>) -> Seq<char>
    decreases ls.len(),
{
    if ls.len() == 0 {
        Seq::empty()
    } else if ls.len() == 1 {
        ls[0]
    } else {
        join_with(ls.drop_last(), sep) + sep + ls.last()
    }
}

/// The pieces `parts` with `sep` between each two neighbours, as
/// `[&str]::join` gives them.
pub fn join_strs(parts: &Vec<&str>, sep: &str) -> (r: String)
    ensures
        r@ == join_with(parts@.map_values(|p: &str| p@), sep@),
{
    let ghost ps = parts@.map_values(|p: &str| p@);
    let mut r = String::new();
    let mut k: usize = 0;
    while k < parts.len()
        invariant
            ps == parts@.map_values(|p: &str| p@),
            k <= parts@.len(),
            r@ == join_with(ps.take(k as int), sep@),
        decreases parts@.len() - k,
    {
        assert(ps.take(k + 1).drop_last() =~= ps.take(k as int));
        assert(ps.take(k + 1).last() == parts@[k as int]@);
        if k > 0 {
            r.append(sep);
        } else {
            assert(r@ + parts@[k as int]@ =~= ps.take(k + 1)[0]);
        }
        r.append(parts[k]);
        k = k + 1;
    }
    assert(ps.take(parts@.len() as int) =~= ps);
    r
}

/// The strings `parts` with `sep` between each two neighbours.
pub fn join_strings(parts: &Vec<String>, sep: &str) -> (r: String)
    ensures
        r@ == join_with(parts@.map_values(|p: String| p@), sep@),
{
    let mut refs: Vec<&str> = Vec::new();
    let mut k: usize = 0;
    while k < parts.len()
        invariant
            k <= parts@.len(),
            refs@.len() == k,
            forall|j: int| 0 <= j < k ==> #[trigger] refs@[j]@ == parts@[j]@,
        decreases parts@.len() - k,
    {
        refs.push(parts[k].as_str());
        k = k + 1;
    }
    assert(refs@.map_values(|p: &str| p@) =~= parts@.map_values(|p: String| p@));
    join_strs(&refs, sep)
}

/// `q` stands in `s` at position `i`.
pub open spec fn occurs_at(s: Seq<char>, q: Seq<char>, i: int) -> bool {
    0 <= i && i + q.len() <= s.len() && s.subrange(i, i + q.len()) == q
}

/// `q` stands somewhere in `s`.
pub open spec fn occurs(s: Seq<char>, q: Seq<char>) -> bool {
    exists|i: int| occurs_at(s, q, i)
}

/// `s` holds no line feed.
pub open spec fn single_line(s: Seq<char>) -> bool {
    forall|i: int| 0 <= i < s.len() ==> s[i] != '\n'
}

/// What stands in a piece of `s` stands in `s`.
pub proof fn lemma_occurs_in_piece(s: Seq<char>, a: int, b: int, q: Seq<char>)
    requires
        0 <= a <= b <= s.len(),
        occurs(s.subrange(a, b), q),
    ensures
        occurs(s, q),
{
    let i = choose|i: int| occurs_at(s.subrange(a, b), q, i);
    assert(s.subrange(a + i, a + i + q.len()) =~= s.subrange(a, b).subrange(i, i + q.len()));
    assert(occurs_at(s, q, a + i));
}

/// Up to the first line feed it puts in, replacing by line feeds leaves `s`
/// as it was.
pub proof fn lemma_replace_prefix(s: Seq<char>, pat: Seq<char>, l: int)
    requires
        pat.len() > 0,
        0 <= l <= replace_all(s, pat, seq!['\n']).len(),
        forall|j: int| 0 <= j < l ==> replace_all(s, pat, seq!['\n'])[j] != '\n',
    ensures
        l <= s.len(),
        replace_all(s, pat, seq!['\n']).take(l) == s.take(l),
    decreases s.len(),
{
    let nl = seq!['\n'];
    let r = replace_all(s, pat, nl);
    if s.len() == 0 || s.len() < pat.len() {
    } else if s.take(pat.len() as int) == pat {
        if l > 0 {
            assert(r[0] == '\n');
        }
        assert(r.take(l) =~= s.take(l));
    } else if l > 0 {
        let rest = replace_all(s.skip(1), pat, nl);
        assert(r == seq![s[0]] + rest);
        assert forall|j: int| 0 <= j < l - 1 implies rest[j] != '\n' by {
            assert(rest[j] == r[j + 1]);
        }
        lemma_replace_prefix(s.skip(1), pat, l - 1);
        assert(r.take(l) =~= seq![s[0]] + rest.take(l - 1));
        assert(s.take(l) =~= seq![s[0]] + s.skip(1).take(l - 1));
    } else {
        assert(r.take(l) =~= s.take(l));
    }
}

/// A single-line text found after replacing `pat` by line feeds was already
/// there before, and is not `pat` itself.
pub proof fn lemma_replace_occurs(s: Seq<char>, pat: Seq<char>, q: Seq<char>, i: int)
    requires
        pat.len() > 0,
        q.len() > 0,
        single_line(q),
        occurs_at(replace_all(s, pat, seq!['\n']), q, i),
    ensures
        occurs(s, q),
        q != pat,
    decreases s.len(),
{
    let nl = seq!['\n'];
    let r = replace_all(s, pat, nl);
    let m = pat.len() as int;
    let ql = q.len() as int;
    if s.len() == 0 || s.len() < m {
        assert(occurs_at(s, q, i));
    } else if s.take(m) == pat {
        let rest = replace_all(s.skip(m), pat, nl);
        assert(r == nl + rest);
        if i == 0 {
            assert(q[0] == r.subrange(i, i + ql)[0]);
        } else {
            assert(rest.subrange(i - 1, i - 1 + ql) =~= r.subrange(i, i + ql));
            lemma_replace_occurs(s.skip(m), pat, q, i - 1);
            let j = choose|j: int| occurs_at(s.skip(m), q, j);
            assert(s.subrange(j + m, j + m + ql) =~= s.skip(m).subrange(j, j + ql));
            assert(occurs_at(s, q, j + m));
        }
    } else {
        let rest = replace_all(s.skip(1), pat, nl);
        assert(r == seq![s[0]] + rest);
        if i == 0 {
            assert forall|j: int| 0 <= j < ql implies r[j] != '\n' by {
                assert(r[j] == r.subrange(0, ql)[j]);
            }
            lemma_replace_prefix(s, pat, ql);
            assert(r.take(ql) =~= r.subrange(0, ql));
            assert(s.take(ql) =~= s.subrange(0, ql));
            assert(occurs_at(s, q, 0));
            if q == pat {
                assert(s.take(m) == s.subrange(0, ql));
            }
        } else {
            assert(rest.subrange(i - 1, i - 1 + ql) =~= r.subrange(i, i + ql));
            lemma_replace_occurs(s.skip(1), pat, q, i - 1);
            let j = choose|j: int| occurs_at(s.skip(1), q, j);
            assert(s.subrange(j + 1, j + 1 + ql) =~= s.skip(1).subrange(j, j + ql));
            assert(occurs_at(s, q, j + 1));
        }
    }
}

/// A single-line text found in lines joined by line feeds stands in one of
/// the lines.
pub proof fn lemma_join_occurs(ls: Seq<Seq<char>>, q: Seq<char>, i: int)
    requires
        q.len() > 0,
        single_line(q),
        occurs_at(join_with(ls, seq!['\n']), q, i),
    ensures
        exists|k: int| 0 <= k < ls.len() && occurs(#[trigger] ls[k], q),
    decreases ls.len(),
{
    let nl = seq!['\n'];
    let j = join_with(ls, nl);
    let ql = q.len() as int;
    if ls.len() == 1 {
        assert(occurs_at(ls[0], q, i));
    } else if ls.len() > 1 {
        let front = join_with(ls.drop_last(), nl);
        let n = front.len() as int;
        assert(j == front + nl + ls.last());
        if i + ql <= n {
            assert(front.subrange(i, i + ql) =~= j.subrange(i, i + ql));
            lemma_join_occurs(ls.drop_last(), q, i);
            let k = choose|k: int| 0 <= k < ls.drop_last().len() && occurs(#[trigger] ls.drop_last()[k], q);
            assert(ls[k] == ls.drop_last()[k]);
        } else if i > n {
            assert(ls.last().subrange(i - n - 1, i - n - 1 + ql) =~= j.subrange(i, i + ql));
            assert(occurs_at(ls.last(), q, i - n - 1));
            assert(occurs(ls[ls.len() - 1], q));
        } else {
            assert(q[n - i] == j.subrange(i, i + ql)[n - i]);
            assert(j[n] == '\n');
        }
    }
}

/// Each line of `s` from `start` on is a piece of `s`.
pub proof fn lemma_lines_are_pieces(s: Seq<char>, start: int, k: int)
    requires
        0 <= start,
        0 <= k < lines_from(s, start).len(),
    ensures
        exists|a: int, b: int|
            0 <= a <= b <= s.len() && lines_from(s, start)[k] == s.subrange(a, b),
    decreases s.len() + 1 - start,
{
    if start < s.len() {
        let e = line_end(s, start);
        lemma_line_end_bounds(s, start);
        if k == 0 {
            assert(lines_from(s, start)[0] == s.subrange(start, e));
        } else {
            lemma_lines_are_pieces(s, e + 1, k - 1);
            assert(lines_from(s, start)[k] == lines_from(s, e + 1)[k - 1]);
        }
    }
}

/// `s` without leading white space is a tail of `s`.
pub proof fn lemma_trim_start_is_tail(s: Seq<char>)
    ensures
        exists|a: int| 0 <= a <= s.len() && trim_start(s) == s.skip(a),
    decreases s.len(),
{
    if s.len() > 0 && is_ws(s[0]) {
        lemma_trim_start_is_tail(s.drop_first());
        let a = choose|a: int|
            0 <= a <= s.drop_first().len() && trim_start(s.drop_first()) == s.drop_first().skip(a);
        assert(s.drop_first().skip(a) =~= s.skip(a + 1));
    } else {
        assert(s.skip(0) =~= s);
    }
}

/// `s` without trailing white space is a head of `s`.
pub proof fn lemma_trim_end_is_head(s: Seq<char>)
    ensures
        exists|b: int| 0 <= b <= s.len() && trim_end(s) == s.take(b),
    decreases s.len(),
{
    if s.len() > 0 && is_ws(s.last()) {
        lemma_trim_end_is_head(s.drop_last());
        let b = choose|b: int|
            0 <= b <= s.drop_last().len() && trim_end(s.drop_last()) == s.drop_last().take(b);
        assert(s.drop_last().take(b) =~= s.take(b));
    } else {
        assert(s.take(s.len() as int) =~= s);
    }
}

/// `s` trimmed is a piece of `s`.
pub proof fn lemma_trim_is_piece(s: Seq<char>)
    ensures
        exists|a: int, b: int| 0 <= a <= b <= s.len() && trim(s) == s.subrange(a, b),
{
    lemma_trim_start_is_tail(s);
    let a = choose|a: int| 0 <= a <= s.len() && trim_start(s) == s.skip(a);
    lemma_trim_end_is_head(s.skip(a));
    let b = choose|b: int| 0 <= b <= s.skip(a).len() && trim_end(s.skip(a)) == s.skip(a).take(b);
    assert(s.skip(a).take(b) =~= s.subrange(a, a + b));
}

/// The middle part of a concatenation stands in it.
pub proof fn lemma_occurs_in_middle(a: Seq<char>, b: Seq<char>, c: Seq<char>)
    ensures
        occurs_at(a + b + c, b, a.len() as int),
{
    assert((a + b + c).subrange(a.len() as int, a.len() + b.len() as int) =~= b);
}

/// Where `pat` does not stand in `s`, replacing it changes nothing.
pub proof fn lemma_replace_absent(s: Seq<char>, pat: Seq<char>, rep: Seq<char>)
    requires
        pat.len() > 0,
        !occurs(s, pat),
    ensures
        replace_all(s, pat, rep) == s,
    decreases s.len(),
{
    if s.len() > 0 && s.len() >= pat.len() {
        assert(s.take(pat.len() as int) =~= s.subrange(0, pat.len() as int));
        assert(!occurs_at(s, pat, 0));
        if occurs(s.skip(1), pat) {
            let i = choose|i: int| occurs_at(s.skip(1), pat, i);
            lemma_occurs_in_piece(s, 1, s.len() as int, pat);
            assert(s.skip(1) =~= s.subrange(1, s.len() as int));
        }
        lemma_replace_absent(s.skip(1), pat, rep);
        assert(seq![s[0]] + s.skip(1) =~= s);
    }
}

/// Each line of `s` from `start` on holds no line feed.
pub proof fn lemma_lines_are_single(s: Seq<char>, start: int, k: int)
    requires
        0 <= start,
        0 <= k < lines_from(s, start).len(),
    ensures
        single_line(lines_from(s, start)[k]),
    decreases s.len() + 1 - start,
{
    if start < s.len() {
        let e = line_end(s, start);
        lemma_line_end_bounds(s, start);
        if k == 0 {
            assert forall|i: int| 0 <= i < e - start implies s.subrange(start, e)[i] != '\n' by {
                lemma_line_end_first(s, start, start + i);
            }
        } else {
            lemma_lines_are_single(s, e + 1, k - 1);
            assert(lines_from(s, start)[k] == lines_from(s, e + 1)[k - 1]);
        }
    }
}

proof fn lemma_line_end_first(s: Seq<char>, i: int, j: int)
    requires
        0 <= i <= j < line_end(s, i),
        line_end(s, i) <= s.len(),
    ensures
        s[j] != '\n',
    decreases j - i,
{
    if i < j {
        lemma_line_end_first(s, i + 1, j);
    }
}

/// A piece of a single-line text is single-line.
pub proof fn lemma_piece_is_single(s: Seq<char>, a: int, b: int)
    requires
        0 <= a <= b <= s.len(),
        single_line(s),
    ensures
        single_line(s.subrange(a, b)),
{
    assert forall|i: int| 0 <= i < b - a implies s.subrange(a, b)[i] != '\n' by {
        assert(s.subrange(a, b)[i] == s[a + i]);
    }
}

proof fn lemma_trim_start_shape(s: Seq<char>)
    ensures
        trim_start(s).len() > 0 ==> !is_ws(trim_start(s)[0]),
        trim_start(s).len() == 0 ==> forall|i: int| 0 <= i < s.len() ==> is_ws(#[trigger] s[i]),
    decreases s.len(),
{
    if s.len() > 0 && is_ws(s[0]) {
        lemma_trim_start_shape(s.drop_first());
        if trim_start(s).len() == 0 {
            assert forall|i: int| 0 <= i < s.len() implies is_ws(#[trigger] s[i]) by {
                if i > 0 {
                    assert(s[i] == s.drop_first()[i - 1]);
                }
            }
        }
    }
}

proof fn lemma_trim_end_shape(s: Seq<char>)
    ensures
        trim_end(s).len() > 0 ==> !is_ws(trim_end(s).last()),
        exists|b: int| 0 <= b <= s.len() && trim_end(s) == s.take(b) && (b == 0 ==> forall|i: int|
            0 <= i < s.len() ==> is_ws(#[trigger] s[i])),
    decreases s.len(),
{
    if s.len() > 0 && is_ws(s.last()) {
        lemma_trim_end_shape(s.drop_last());
        let b = choose|b: int|
            0 <= b <= s.drop_last().len() && trim_end(s.drop_last()) == s.drop_last().take(b) && (b
                == 0 ==> forall|i: int| 0 <= i < s.drop_last().len() ==> is_ws(#[trigger] s.drop_last()[i]));
        assert(s.drop_last().take(b) =~= s.take(b));
        if b == 0 {
            assert forall|i: int| 0 <= i < s.len() implies is_ws(#[trigger] s[i]) by {
                if i < s.len() - 1 {
                    assert(s[i] == s.drop_last()[i]);
                }
            }
        }
    } else {
        assert(s.take(s.len() as int) =~= s);
    }
}

/// Trimming twice is trimming once.
pub proof fn lemma_trim_idempotent(s: Seq<char>)
    ensures
        trim(trim(s)) == trim(s),
{
    let a = trim_start(s);
    let t = trim_end(a);
    lemma_trim_start_shape(s);
    lemma_trim_end_shape(a);
    lemma_trim_end_shape(t);
    let b = choose|b: int|
        0 <= b <= a.len() && trim_end(a) == a.take(b) && (b == 0 ==> forall|i: int|
            0 <= i < a.len() ==> is_ws(#[trigger] a[i]));
    if t.len() > 0 {
        assert(t[0] == a[0]);
        assert(trim_start(t) == t);
        assert(t.len() > 0 && !is_ws(t.last()));
        assert(trim_end(t) == t);
    } else {
        assert(trim_start(t) == t);
    }
}

/// Lines of a text that follows a prefix are the text's own lines.
proof fn lemma_line_end_shift(p: Seq<char>, t: Seq<char>, j: int)
    requires
        0 <= j <= t.len(),
    ensures
        line_end(p + t, p.len() + j) == p.len() + line_end(t, j),
    decreases t.len() - j,
{
    let s = p + t;
    if j < t.len() {
        assert(s[p.len() + j] == t[j]);
        if t[j] != '\n' {
            lemma_line_end_shift(p, t, j + 1);
        }
    }
}

proof fn lemma_lines_shift(p: Seq<char>, t: Seq<char>, j: int)
    requires
        0 <= j,
    ensures
        lines_from(p + t, p.len() + j) == lines_from(t, j),
    decreases t.len() + 1 - j,
{
    let s = p + t;
    if j < t.len() {
        lemma_line_end_shift(p, t, j);
        lemma_line_end_bounds(t, j);
        let e = line_end(t, j);
        lemma_lines_shift(p, t, e + 1);
        assert(s.subrange(p.len() + j, p.len() + e) =~= t.subrange(j, e));
    }
}

/// A single-line text followed by a line feed is the first line.
pub proof fn lemma_lines_after_first(x: Seq<char>, t: Seq<char>)
    requires
        single_line(x),
    ensures
        lines(x + seq!['\n'] + t) == seq![x] + lines(t),
{
    let p = x + seq!['\n'];
    let s = p + t;
    assert(x + seq!['\n'] + t == s);
    assert forall|j: int| 0 <= j < x.len() implies s[j] != '\n' by {
        assert(s[j] == x[j]);
    }
    lemma_line_end_skip(s, 0, x.len() as int);
    assert(s[x.len() as int] == '\n');
    assert(line_end(s, x.len() as int) == x.len());
    lemma_lines_shift(p, t, 0);
    assert(s.subrange(0, x.len() as int) =~= x);
}

/// The lines of a single-line text: itself, unless it is empty.
pub proof fn lemma_lines_of_single(x: Seq<char>)
    requires
        single_line(x),
    ensures
        lines(x) == (if x.len() == 0 { Seq::<Seq<char>>::empty() } else { seq![x] }),
{
    if x.len() > 0 {
        lemma_line_end_skip(x, 0, x.len() as int);
        assert(x.subrange(0, x.len() as int) =~= x);
        assert(line_end(x, 0) == x.len());
        assert(lines_from(x, x.len() + 1int) =~= Seq::<Seq<char>>::empty());
        assert(lines(x) =~= seq![x]);
    }
}

/// Joining splits off the first piece in front.
pub proof fn lemma_join_front(ls: Seq<Seq<char>>, sep: Seq<char>)
    requires
        ls.len() >= 2,
    ensures
        join_with(ls, sep) == ls[0] + sep + join_with(ls.drop_first(), sep),
    decreases ls.len(),
{
    if ls.len() > 2 {
        let dl = ls.drop_last();
        let df = ls.drop_first();
        lemma_join_front(dl, sep);
        assert(dl.drop_first() =~= df.drop_last());
        assert(df.last() == ls.last());
        assert(dl[0] == ls[0]);
        assert(join_with(df, sep) == join_with(df.drop_last(), sep) + sep + df.last());
        assert(join_with(ls, sep) == join_with(dl, sep) + sep + ls.last());
        assert(join_with(ls, sep) =~= ls[0] + sep + join_with(df, sep));
    } else {
        assert(ls.drop_first() =~= seq![ls[1]]);
        assert(ls.drop_last() =~= seq![ls[0]]);
        assert(join_with(ls.drop_first(), sep) == ls[1]);
        assert(join_with(ls.drop_last(), sep) == ls[0]);
        assert(join_with(ls, sep) == join_with(ls.drop_last(), sep) + sep + ls.last());
    }
}

/// Splitting single-line pieces joined by line feeds gives them back, except
/// that an empty last piece is lost.
pub proof fn lemma_lines_of_join(ls: Seq<Seq<char>>)
    requires
        forall|k: int| 0 <= k < ls.len() ==> single_line(#[trigger] ls[k]),
    ensures
        lines(join_with(ls, seq!['\n'])) == (if ls.len() > 0 && ls.last().len() == 0 {
            ls.drop_last()
        } else {
            ls
        }),
    decreases ls.len(),
{
    let nl = seq!['\n'];
    if ls.len() == 0 {
        assert(lines(Seq::<char>::empty()) =~= Seq::<Seq<char>>::empty());
    } else if ls.len() == 1 {
        lemma_lines_of_single(ls[0]);
        if ls[0].len() == 0 {
            assert(ls.drop_last() =~= Seq::<Seq<char>>::empty());
        } else {
            assert(ls =~= seq![ls[0]]);
        }
    } else {
        let rest = ls.drop_first();
        assert forall|k: int| 0 <= k < rest.len() implies single_line(#[trigger] rest[k]) by {
            assert(rest[k] == ls[k + 1]);
        }
        lemma_join_front(ls, nl);
        lemma_lines_of_join(rest);
        lemma_lines_after_first(ls[0], join_with(rest, nl));
        if ls.last().len() == 0 {
            assert(seq![ls[0]] + rest.drop_last() =~= ls.drop_last());
        } else {
            assert(seq![ls[0]] + rest =~= ls);
        }
    }
}

} // verus!
