//! Locating a stored code snippet inside a source file: line endings are
//! normalized, trailing whitespace is ignored, and the snippet must match a
//! window of consecutive file lines exactly.  The result is the 1-based line
//! number of the first matching window.
use vstd::prelude::*;

use crate::model::seq_view;

verus! {

/// Carriage return.
pub const CR: u8 = 13;

/// Line feed.
pub const LF: u8 = 10;

/// ASCII whitespace, the characters a trailing trim removes.
pub open spec fn is_ws(b: u8) -> bool {
    b == 32 || (9 <= b <= 13)
}

/// CRLF pairs replaced by a single LF.
pub open spec fn normalize(s: Seq<u8>) -> Seq<u8>
    decreases s.len(),
{
    if s.len() == 0 {
        Seq::empty()
    } else if s[0] == CR && s.len() >= 2 && s[1] == LF {
        seq![LF] + normalize(s.skip(2))
    } else {
        seq![s[0]] + normalize(s.skip(1))
    }
}

/// The bytes left after dropping trailing whitespace.
pub open spec fn trim_end_ws(s: Seq<u8>) -> Seq<u8>
    decreases s.len(),
{
    if s.len() > 0 && is_ws(s.last()) {
        trim_end_ws(s.drop_last())
    } else {
        s
    }
}

/// Length of the prefix before the first LF; the whole length if none.
pub open spec fn find_lf(s: Seq<u8>) -> nat
    decreases s.len(),
{
    if s.len() == 0 {
        0
    } else if s[0] == LF {
        0
    } else {
        1 + find_lf(s.skip(1))
    }
}

/// The lines of `s`, split on LF; a trailing LF does not open an empty line.
pub open spec fn split_lines(s: Seq<u8>) -> Seq<Seq<u8>>
    decreases s.len(),
{
    if s.len() == 0 {
        Seq::empty()
    } else {
        let n = find_lf(s) as int;
        if n >= s.len() {
            seq![s]
        } else {
            seq![s.take(n)] + split_lines(s.skip(n + 1))
        }
    }
}

/// The lines joined back with single LF separators.
pub open spec fn join_lines(ls: Seq<Seq<u8>>) -> Seq<u8>
    decreases ls.len(),
{
    if ls.len() == 0 {
        Seq::empty()
    } else if ls.len() == 1 {
        ls[0]
    } else {
        ls[0] + seq![LF] + join_lines(ls.skip(1))
    }
}

/// The canonical form of a snippet: line endings normalized, trailing
/// whitespace dropped.
pub open spec fn snippet_of(code: Seq<u8>) -> Seq<u8> {
    trim_end_ws(normalize(code))
}

/// Whether the `k` file lines starting at `i`, joined and trimmed, equal the
/// snippet.
pub open spec fn match_at(file_lines: Seq<Seq<u8>>, snippet: Seq<u8>, k: int, i: int) -> bool {
    trim_end_ws(join_lines(file_lines.subrange(i, i + k))) == snippet
}

/// Index of the first window of `k` file lines that matches, searching from
/// `i` upward.
pub open spec fn search_from(file_lines: Seq<Seq<u8>>, snippet: Seq<u8>, k: int, i: int) -> Option<
    int,
>
    decreases file_lines.len() - i,
{
    if i < 0 || k <= 0 || i + k > file_lines.len() {
        None
    } else if match_at(file_lines, snippet, k, i) {
        Some(i)
    } else {
        search_from(file_lines, snippet, k, i + 1)
    }
}

/// The 1-based line number where `code` is found inside `file`, if anywhere:
/// the first window of consecutive normalized file lines whose joined,
/// trimmed text equals the normalized, trimmed snippet.  An empty snippet is
/// never found.
pub open spec fn find_line_spec(file: Seq<u8>, code: Seq<u8>) -> Option<usize> {
    let snippet = snippet_of(code);
    let k = split_lines(snippet).len() as int;
    let fl = split_lines(normalize(file));
    if k == 0 {
        None
    } else {
        match search_from(fl, snippet, k, 0) {
            Some(i) => Some((i + 1) as usize),
            None => None,
        }
    }
}

/// Replaces every CRLF pair with a single LF.
pub fn normalize_bytes(v: &Vec<u8>) -> (r: Vec<u8>)
    ensures
        r@ == normalize(v@),
        r@.len() <= v@.len(),
{
    let mut out: Vec<u8> = Vec::new();
    let mut i: usize = 0;
    proof {
        assert(v@.skip(0) =~= v@);
    }
    while i < v.len()
        invariant
            i <= v@.len(),
            normalize(v@) == out@ + normalize(v@.skip(i as int)),
            out@.len() <= i,
        decreases v@.len() - i,
    {
        let b = v[i];
        if b == CR && i + 1 < v.len() && v[i + 1] == LF {
            out.push(LF);
            proof {
                assert(v@.skip(i as int).skip(2) =~= v@.skip(i + 2));
            }
            i = i + 2;
        } else {
            out.push(b);
            proof {
                assert(v@.skip(i as int).skip(1) =~= v@.skip(i + 1));
            }
            i = i + 1;
        }
    }
    proof {
        assert(v@.skip(v@.len() as int) =~= Seq::<u8>::empty());
        assert(out@ + normalize(v@.skip(v@.len() as int)) =~= out@);
    }
    out
}

/// Drops trailing whitespace in place.
pub fn trim_end_bytes(v: &mut Vec<u8>)
    ensures
        final(v)@ == trim_end_ws(old(v)@),
{
    loop
        invariant
            trim_end_ws(v@) == trim_end_ws(old(v)@),
        ensures
            v@ == trim_end_ws(old(v)@),
        decreases v@.len(),
    {
        let n = v.len();
        if n == 0 {
            return ;
        }
        let b = v[n - 1];
        if b == 32 || (9 <= b && b <= 13) {
            v.pop();
        } else {
            return ;
        }
    }
}

/// Copies the byte range `[a, b)` of `v`.
fn copy_range(v: &Vec<u8>, a: usize, b: usize) -> (r: Vec<u8>)
    requires
        a <= b <= v@.len(),
    ensures
        r@ == v@.subrange(a as int, b as int),
{
    let mut out: Vec<u8> = Vec::new();
    let mut i: usize = a;
    while i < b
        invariant
            a <= i <= b <= v@.len(),
            out@ == v@.subrange(a as int, i as int),
        decreases b - i,
    {
        out.push(v[i]);
        proof {
            assert(v@.subrange(a as int, i + 1) =~= v@.subrange(a as int, i as int).push(
                v@[i as int],
            ));
        }
        i = i + 1;
    }
    out
}

/// A scan that stopped at `n` has found the first LF.
proof fn lemma_find_lf_scan(s: Seq<u8>, n: int)
    requires
        0 <= n <= s.len(),
        forall|k: int| 0 <= k < n ==> s[k] != LF,
        n == s.len() || s[n] == LF,
    ensures
        find_lf(s) == n,
    decreases s.len(),
{
    if n > 0 {
        lemma_find_lf_scan(s.skip(1), n - 1);
    }
}

/// Splits `v` into its lines.
pub fn split_lines_bytes(v: &Vec<u8>) -> (r: Vec<Vec<u8>>)
    ensures
        seq_view(r@) == split_lines(v@),
        r@.len() <= v@.len(),
{
    let mut out: Vec<Vec<u8>> = Vec::new();
    let mut start: usize = 0;
    proof {
        assert(v@.skip(0) =~= v@);
        assert(seq_view(out@) =~= Seq::<Seq<u8>>::empty());
    }
    while start < v.len()
        invariant
            start <= v@.len(),
            split_lines(v@) == seq_view(out@) + split_lines(v@.skip(start as int)),
            out@.len() <= start,
        decreases v@.len() - start,
    {
        let ghost pre = seq_view(out@);
        let ghost rest = v@.skip(start as int);
        let mut j: usize = start;
        while j < v.len() && v[j] != LF
            invariant
                start <= j <= v@.len(),
                forall|k: int| start <= k < j ==> v@[k] != LF,
            decreases v@.len() - j,
        {
            j = j + 1;
        }
        proof {
            assert forall|k: int| 0 <= k < j - start implies rest[k] != LF by {
                assert(rest[k] == v@[start + k]);
            }
            if j < v@.len() {
                assert(rest[j - start] == v@[j as int]);
            }
            lemma_find_lf_scan(rest, j - start);
        }
        let line = copy_range(v, start, j);
        out.push(line);
        proof {
            assert(line@ =~= rest.take(j - start));
            if j - start == rest.len() {
                assert(line@ =~= rest);
                assert(split_lines(rest) =~= seq![rest]);
                assert(seq_view(out@) =~= pre + seq![line@]);
                assert(v@.skip(v@.len() as int) =~= Seq::<u8>::empty());
                assert(seq_view(out@) + split_lines(v@.skip(v@.len() as int)) =~= split_lines(
                    v@,
                ));
            } else {
                assert(split_lines(rest) =~= seq![rest.take(j - start)] + split_lines(
                    rest.skip(j - start + 1),
                ));
                assert(rest.skip(j - start + 1) =~= v@.skip(j + 1));
                assert(seq_view(out@) =~= pre + seq![line@]);
                assert(seq_view(out@) + split_lines(v@.skip(j + 1)) =~= split_lines(v@));
            }
        }
        if j == v.len() {
            start = j;
            proof {
                assert(v@.skip(v@.len() as int).len() == 0);
            }
            return out;
        } else {
            start = j + 1;
        }
    }
    proof {
        assert(v@.skip(v@.len() as int) =~= Seq::<u8>::empty());
        assert(seq_view(out@) + split_lines(v@.skip(v@.len() as int)) =~= seq_view(out@));
    }
    out
}

/// Joining after appending one more line adds an LF separator, unless the
/// line is the first.
proof fn lemma_join_push(ls: Seq<Seq<u8>>, l: Seq<u8>)
    ensures
        join_lines(ls.push(l)) == if ls.len() == 0 {
            l
        } else {
            join_lines(ls) + seq![LF] + l
        },
    decreases ls.len(),
{
    let p = ls.push(l);
    if ls.len() == 0 {
        assert(p.len() == 1);
        assert(p[0] == l);
    } else {
        assert(p.skip(1) =~= ls.skip(1).push(l));
        lemma_join_push(ls.skip(1), l);
        if ls.len() == 1 {
            assert(join_lines(ls) == ls[0]);
            assert(join_lines(p) =~= ls[0] + seq![LF] + l);
            assert(join_lines(ls) + seq![LF] + l =~= join_lines(p));
        } else {
            assert(join_lines(p) == p[0] + seq![LF] + join_lines(p.skip(1)));
            assert(join_lines(ls) == ls[0] + seq![LF] + join_lines(ls.skip(1)));
            assert(join_lines(p) =~= join_lines(ls) + seq![LF] + l);
        }
    }
}

/// Joins the `k` lines starting at `from` with LF separators.
fn join_window(lines: &Vec<Vec<u8>>, from: usize, k: usize) -> (r: Vec<u8>)
    requires
        from + k <= lines@.len(),
    ensures
        r@ == join_lines(seq_view(lines@).subrange(from as int, from as int + k as int)),
{
    let total = lines.len();
    let mut out: Vec<u8> = Vec::new();
    let mut m: usize = 0;
    proof {
        assert(seq_view(lines@).subrange(from as int, from as int) =~= Seq::<Seq<u8>>::empty());
    }
    while m < k
        invariant
            m <= k,
            from + k <= lines@.len(),
            total == lines@.len(),
            out@ == join_lines(seq_view(lines@).subrange(from as int, from as int + m as int)),
        decreases k - m,
    {
        let ghost sofar = seq_view(lines@).subrange(from as int, from as int + m as int);
        let line = &lines[from + m];
        if m > 0 {
            out.push(LF);
        }
        let mut p: usize = 0;
        let ghost mid = out@;
        while p < line.len()
            invariant
                p <= line@.len(),
                out@ == mid + line@.take(p as int),
            decreases line@.len() - p,
        {
            out.push(line[p]);
            proof {
                assert(line@.take(p + 1) =~= line@.take(p as int).push(line@[p as int]));
                assert(mid + line@.take(p + 1) =~= (mid + line@.take(p as int)).push(
                    line@[p as int],
                ));
            }
            p = p + 1;
        }
        proof {
            assert(line@.take(line@.len() as int) =~= line@);
            let next = seq_view(lines@).subrange(from as int, from as int + m + 1);
            assert(next =~= sofar.push(line@));
            lemma_join_push(sofar, line@);
            if m == 0 {
                assert(out@ =~= line@);
            } else {
                assert(out@ =~= join_lines(sofar) + seq![LF] + line@);
            }
        }
        m = m + 1;
    }
    out
}

/// Byte-for-byte equality of two vectors.
pub fn eq_bytes(a: &Vec<u8>, b: &Vec<u8>) -> (r: bool)
    ensures
        r == (a@ == b@),
{
    if a.len() != b.len() {
        return false;
    }
    let mut i: usize = 0;
    while i < a.len()
        invariant
            i <= a@.len(),
            a@.len() == b@.len(),
            forall|k: int| 0 <= k < i ==> a@[k] == b@[k],
        decreases a@.len() - i,
    {
        if a[i] != b[i] {
            return false;
        }
        i = i + 1;
    }
    proof {
        assert(a@ =~= b@);
    }
    true
}

/// Finds the 1-based line where the snippet `code` occurs in `file`, with
/// line endings normalized and trailing whitespace ignored on both sides.
pub fn find_snippet_line(file: &Vec<u8>, code: &Vec<u8>) -> (r: Option<usize>)
    ensures
        r == find_line_spec(file@, code@),
{
    let mut snippet = normalize_bytes(code);
    trim_end_bytes(&mut snippet);
    let snippet_lines = split_lines_bytes(&snippet);
    let k = snippet_lines.len();
    let normalized = normalize_bytes(file);
    let file_lines = split_lines_bytes(&normalized);
    let ghost fl = split_lines(normalize(file@));
    let ghost sn = snippet_of(code@);
    if k == 0 {
        return None;
    }
    if k > file_lines.len() {
        proof {
            lemma_search_out(fl, sn, k as int, 0);
        }
        return None;
    }
    let last_start = file_lines.len() - k;
    let mut i: usize = 0;
    while i <= last_start
        invariant
            0 <= i,
            i <= last_start + 1,
            last_start == file_lines@.len() - k,
            last_start < usize::MAX,
            k <= file_lines@.len(),
            1 <= k,
            seq_view(file_lines@) == fl,
            snippet@ == sn,
            fl == split_lines(normalize(file@)),
            sn == snippet_of(code@),
            k == split_lines(sn).len(),
            file_lines@.len() == fl.len(),
            search_from(fl, sn, k as int, 0) == search_from(fl, sn, k as int, i as int),
        decreases file_lines@.len() - i,
    {
        let mut joined = join_window(&file_lines, i, k);
        trim_end_bytes(&mut joined);
        if eq_bytes(&joined, &snippet) {
            proof {
                assert(fl.subrange(i as int, i as int + k as int) == seq_view(
                    file_lines@,
                ).subrange(i as int, i as int + k as int));
                assert(match_at(fl, sn, k as int, i as int));
                assert(search_from(fl, sn, k as int, i as int) == Some(i as int));
            }
            return Some(i + 1);
        }
        proof {
            assert(!match_at(fl, sn, k as int, i as int));
            assert(search_from(fl, sn, k as int, i as int) == search_from(
                fl,
                sn,
                k as int,
                i + 1,
            ));
        }
        i = i + 1;
    }
    proof {
        lemma_search_out(fl, sn, k as int, i as int);
    }
    None
}

/// Past the last possible window the search finds nothing.
proof fn lemma_search_out(fl: Seq<Seq<u8>>, sn: Seq<u8>, k: int, i: int)
    requires
        i + k > fl.len() || i < 0 || k <= 0,
    ensures
        search_from(fl, sn, k, i) is None,
{
}

} // verus!
