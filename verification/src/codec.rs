//! The document codec: the whole history (undo stack, redo stack, live
//! snapshot) as a textual document of space-terminated decimal tokens, with
//! texts length-prefixed and embedded verbatim.
//!
//! Every encoder has a matching decoder, and decoding an encoding provably
//! returns the original value.
use vstd::prelude::*;

verus! {

/// The token terminator.
pub const SP: u8 = 32;

/// A decimal digit?
pub open spec fn is_digit(b: u8) -> bool {
    48 <= b <= 57
}

/// The decimal digits of `n`, most significant first.
pub open spec fn digits(n: int) -> Seq<u8>
    decreases n,
{
    if n < 10 {
        seq![(48 + if n < 0 {
            0
        } else {
            n
        }) as u8]
    } else {
        digits(n / 10).push((48 + n % 10) as u8)
    }
}

/// The value of a digit string, least significant digit last.
pub open spec fn digits_val(d: Seq<u8>) -> int
    decreases d.len(),
{
    if d.len() == 0 {
        0
    } else {
        digits_val(d.drop_last()) * 10 + (d.last() - 48)
    }
}

/// Ten to the `k`.
pub open spec fn pow10(k: nat) -> int
    decreases k,
{
    if k == 0 {
        1
    } else {
        10 * pow10((k - 1) as nat)
    }
}

/// An unsigned number token: its digits and the terminator.
pub open spec fn enc_u64(n: int) -> Seq<u8> {
    digits(n) + seq![SP]
}

/// A signed number token: an optional minus sign before the digits.
pub open spec fn enc_i64(n: int) -> Seq<u8> {
    if n < 0 {
        seq![45u8] + enc_u64(-n)
    } else {
        enc_u64(n)
    }
}

/// A byte-string token: the length, then the bytes verbatim, then the
/// terminator.
pub open spec fn enc_bytes(b: Seq<u8>) -> Seq<u8> {
    enc_u64(b.len() as int) + b + seq![SP]
}

/// Reading digits left to right with accumulator `acc`, up to the
/// terminator; fails on a stray byte or on overflow past `u64::MAX`.
pub open spec fn dec_digits(s: Seq<u8>, pos: int, acc: int) -> Option<(int, int)>
    decreases s.len() - pos,
{
    if pos < 0 || pos >= s.len() {
        None
    } else if s[pos] == SP {
        Some((acc, pos + 1))
    } else if is_digit(s[pos]) {
        let acc2 = acc * 10 + (s[pos] - 48);
        if acc2 > u64::MAX {
            None
        } else {
            dec_digits(s, pos + 1, acc2)
        }
    } else {
        None
    }
}

/// An unsigned token: at least one digit, then the terminator.
pub open spec fn dec_u64(s: Seq<u8>, pos: int) -> Option<(int, int)> {
    if 0 <= pos < s.len() && is_digit(s[pos]) {
        dec_digits(s, pos, 0)
    } else {
        None
    }
}

/// A signed token: an optional minus sign, then an unsigned token.
pub open spec fn dec_i64(s: Seq<u8>, pos: int) -> Option<(int, int)> {
    if 0 <= pos < s.len() && s[pos] == 45 {
        match dec_u64(s, pos + 1) {
            Some((n, p)) => if -n >= i64::MIN {
                Some((-n, p))
            } else {
                None
            },
            None => None,
        }
    } else {
        match dec_u64(s, pos) {
            Some((n, p)) => if n <= i64::MAX {
                Some((n, p))
            } else {
                None
            },
            None => None,
        }
    }
}

/// A byte-string token: a length, that many raw bytes, the terminator.
pub open spec fn dec_bytes(s: Seq<u8>, pos: int) -> Option<(Seq<u8>, int)> {
    match dec_u64(s, pos) {
        Some((n, p)) => if p + n + 1 <= s.len() && s[p + n] == SP {
            Some((s.subrange(p, p + n), p + n + 1))
        } else {
            None
        },
        None => None,
    }
}

/// Every digit byte of `digits(n)` is a decimal digit, and the digit string
/// reads back as `n`.
pub proof fn lemma_digits_shape(n: int)
    requires
        0 <= n,
    ensures
        digits(n).len() >= 1,
        forall|i: int| 0 <= i < digits(n).len() ==> is_digit(#[trigger] digits(n)[i]),
        digits_val(digits(n)) == n,
    decreases n,
{
    if n < 10 {
        assert(digits(n) =~= seq![(48 + n) as u8]);
        assert(digits_val(digits(n)) == digits_val(digits(n).drop_last()) * 10 + n);
        assert(digits(n).drop_last() =~= Seq::<u8>::empty());
    } else {
        lemma_digits_shape(n / 10);
        vstd::arithmetic::div_mod::lemma_fundamental_div_mod(n, 10);
        assert(digits(n).drop_last() =~= digits(n / 10));
    }
}

/// `pow10` is positive.
pub proof fn lemma_pow10_pos(k: nat)
    ensures
        pow10(k) >= 1,
    decreases k,
{
    if k > 0 {
        lemma_pow10_pos((k - 1) as nat);
    }
}

/// The value of a digit string, decomposed at its first digit.
proof fn lemma_digits_val_first(d: Seq<u8>)
    requires
        d.len() >= 1,
    ensures
        digits_val(d) == (d[0] - 48) * pow10((d.len() - 1) as nat) + digits_val(d.skip(1)),
    decreases d.len(),
{
    if d.len() == 1 {
        assert(d.skip(1) =~= Seq::<u8>::empty());
        assert(d.drop_last() =~= Seq::<u8>::empty());
        assert(pow10((d.len() - 1) as nat) == 1);
        assert(digits_val(Seq::<u8>::empty()) == 0);
        assert(digits_val(d) == d[0] - 48);
        assert((d[0] - 48) * pow10((d.len() - 1) as nat) == d[0] - 48) by (nonlinear_arith)
            requires
                pow10((d.len() - 1) as nat) == 1,
        ;
    } else {
        lemma_digits_val_first(d.drop_last());
        assert(d.drop_last()[0] == d[0]);
        assert(d.drop_last().skip(1) =~= d.skip(1).drop_last());
        lemma_pow10_pos((d.len() - 2) as nat);
        assert(digits_val(d) == digits_val(d.drop_last()) * 10 + (d.last() - 48));
        let a = d[0] - 48;
        let p = pow10((d.len() - 2) as nat);
        let v = digits_val(d.skip(1).drop_last());
        assert((a * p + v) * 10 == a * (10 * p) + v * 10) by (nonlinear_arith);
        assert(digits_val(d.skip(1)) == v * 10 + (d.last() - 48)) by {
            assert(d.skip(1).last() == d.last());
        }
        assert(pow10((d.len() - 1) as nat) == 10 * p);
        assert(digits_val(d) == (a * p + v) * 10 + (d.last() - 48));
        assert(digits_val(d) == a * (10 * p) + (v * 10 + (d.last() - 48)));
        assert(a * (10 * p) == a * pow10((d.len() - 1) as nat)) by (nonlinear_arith)
            requires
                10 * p == pow10((d.len() - 1) as nat),
        ;
    }
}

/// Digit values are non-negative.
proof fn lemma_digits_val_nonneg(d: Seq<u8>)
    requires
        forall|i: int| 0 <= i < d.len() ==> is_digit(#[trigger] d[i]),
    ensures
        digits_val(d) >= 0,
    decreases d.len(),
{
    if d.len() > 0 {
        lemma_digits_val_nonneg(d.drop_last());
    }
}

/// Reading a well-formed digit string with terminator yields the combined
/// value of the accumulator and the string.
proof fn lemma_dec_digits_rt(s: Seq<u8>, pos: int, acc: int, d: Seq<u8>)
    requires
        0 <= pos,
        pos + d.len() < s.len(),
        forall|i: int| 0 <= i < d.len() ==> is_digit(#[trigger] d[i]),
        forall|i: int| 0 <= i < d.len() ==> s[pos + i] == d[i],
        s[pos + d.len()] == SP,
        0 <= acc,
        acc * pow10(d.len()) + digits_val(d) <= u64::MAX,
    ensures
        dec_digits(s, pos, acc) == Some(
            (acc * pow10(d.len()) + digits_val(d), pos + d.len() + 1),
        ),
    decreases d.len(),
{
    if d.len() == 0 {
        assert(s[pos] == SP);
        assert(pow10(0) == 1);
    } else {
        let b = d[0];
        assert(s[pos] == b);
        assert(is_digit(b));
        assert(s[pos] != SP);
        let acc2 = acc * 10 + (b - 48);
        lemma_digits_val_first(d);
        lemma_digits_val_nonneg(d.skip(1));
        lemma_pow10_pos((d.len() - 1) as nat);
        assert(acc2 * pow10((d.len() - 1) as nat) + digits_val(d.skip(1)) == acc * pow10(
            d.len(),
        ) + digits_val(d)) by {
            let p = pow10((d.len() - 1) as nat);
            assert((acc * 10 + (b - 48)) * p == acc * (10 * p) + (b - 48) * p)
                by (nonlinear_arith);
            assert(pow10(d.len()) == 10 * p);
        }
        assert(acc2 <= u64::MAX) by {
            let p = pow10((d.len() - 1) as nat);
            assert(acc2 * p >= acc2) by (nonlinear_arith)
                requires
                    p >= 1,
                    acc2 >= 0,
            ;
        }
        assert forall|i: int| 0 <= i < d.skip(1).len() implies s[pos + 1 + i] == d.skip(1)[i] by {
            assert(d.skip(1)[i] == d[i + 1]);
        }
        lemma_dec_digits_rt(s, pos + 1, acc2, d.skip(1));
    }
}

/// Decoding an unsigned token embedded in `s` at `pos` yields the encoded
/// number and steps past the token.
pub proof fn lemma_dec_u64_rt(s: Seq<u8>, pos: int, n: int)
    requires
        0 <= n <= u64::MAX,
        0 <= pos,
        pos + enc_u64(n).len() <= s.len(),
        s.subrange(pos, pos + enc_u64(n).len() as int) == enc_u64(n),
    ensures
        dec_u64(s, pos) == Some((n, pos + enc_u64(n).len())),
{
    lemma_digits_shape(n);
    let d = digits(n);
    assert forall|i: int| 0 <= i < d.len() implies s[pos + i] == d[i] by {
        assert(s.subrange(pos, pos + enc_u64(n).len() as int)[i] == s[pos + i]);
        assert(enc_u64(n)[i] == d[i]);
    }
    assert(s[pos + d.len()] == SP) by {
        assert(s.subrange(pos, pos + enc_u64(n).len() as int)[d.len() as int] == s[pos + d.len()]);
    }
    assert(s[pos] == d[0]);
    assert(pow10(0) == 1);
    lemma_dec_digits_rt(s, pos, 0, d);
}

/// Decoding a signed token embedded in `s` at `pos` yields the encoded
/// number and steps past the token.
pub proof fn lemma_dec_i64_rt(s: Seq<u8>, pos: int, n: int)
    requires
        i64::MIN < n <= i64::MAX,
        0 <= pos,
        pos + enc_i64(n).len() <= s.len(),
        s.subrange(pos, pos + enc_i64(n).len() as int) == enc_i64(n),
    ensures
        dec_i64(s, pos) == Some((n, pos + enc_i64(n).len())),
{
    if n < 0 {
        assert(s[pos] == 45) by {
            assert(s.subrange(pos, pos + enc_i64(n).len() as int)[0] == s[pos]);
        }
        assert forall|i: int| 0 <= i < enc_u64(-n).len() implies s[pos + 1 + i] == #[trigger] enc_u64(
            -n,
        )[i] by {
            assert(s.subrange(pos, pos + enc_i64(n).len() as int)[i + 1] == s[pos + 1 + i]);
            assert(enc_i64(n)[i + 1] == enc_u64(-n)[i]);
        }
        assert(s.subrange(pos + 1, pos + 1 + enc_u64(-n).len() as int) =~= enc_u64(-n));
        lemma_dec_u64_rt(s, pos + 1, -n);
        lemma_digits_shape(-n);
        assert(digits_val(digits(-n)) >= 0);
        assert(!is_digit(45u8));
    } else {
        assert(enc_i64(n) == enc_u64(n));
        lemma_dec_u64_rt(s, pos, n);
        lemma_digits_shape(n);
        assert(s[pos] == digits(n)[0]) by {
            assert(s.subrange(pos, pos + enc_u64(n).len() as int)[0] == s[pos]);
        }
        assert(s[pos] != 45);
    }
}

/// Decoding a byte-string token embedded in `s` at `pos` yields the encoded
/// bytes and steps past the token.
pub proof fn lemma_dec_bytes_rt(s: Seq<u8>, pos: int, b: Seq<u8>)
    requires
        b.len() <= u64::MAX,
        0 <= pos,
        pos + enc_bytes(b).len() <= s.len(),
        s.subrange(pos, pos + enc_bytes(b).len() as int) == enc_bytes(b),
    ensures
        dec_bytes(s, pos) == Some((b, pos + enc_bytes(b).len())),
{
    let lenlen = enc_u64(b.len() as int).len() as int;
    assert forall|i: int| 0 <= i < lenlen implies s[pos + i] == #[trigger] enc_u64(
        b.len() as int,
    )[i] by {
        assert(s.subrange(pos, pos + enc_bytes(b).len() as int)[i] == s[pos + i]);
        assert(enc_bytes(b)[i] == enc_u64(b.len() as int)[i]);
    }
    assert(s.subrange(pos, pos + lenlen) =~= enc_u64(b.len() as int));
    lemma_dec_u64_rt(s, pos, b.len() as int);
    let p = pos + lenlen;
    assert forall|i: int| 0 <= i < b.len() implies s[p + i] == #[trigger] b[i] by {
        assert(s.subrange(pos, pos + enc_bytes(b).len() as int)[lenlen + i] == s[pos + lenlen
            + i]);
        assert(enc_bytes(b)[lenlen + i] == b[i]);
    }
    assert(s.subrange(p, p + b.len() as int) =~= b);
    assert(s[p + b.len()] == SP) by {
        assert(s.subrange(pos, pos + enc_bytes(b).len() as int)[lenlen + b.len() as int] == s[pos
            + lenlen + b.len()]);
        assert(enc_bytes(b)[lenlen + b.len() as int] == SP);
    }
}

/// Appends the decimal digits of `n`.
fn push_digits(out: &mut Vec<u8>, n: u64)
    ensures
        final(out)@ == old(out)@ + digits(n as int),
    decreases n,
{
    if n < 10 {
        out.push(48 + n as u8);
        proof {
            assert(final(out)@ =~= old(out)@ + digits(n as int));
        }
    } else {
        push_digits(out, n / 10);
        out.push(48 + (n % 10) as u8);
        proof {
            assert(final(out)@ =~= old(out)@ + digits(n as int));
        }
    }
}

/// Appends an unsigned number token.
pub fn write_u64(out: &mut Vec<u8>, n: u64)
    ensures
        final(out)@ == old(out)@ + enc_u64(n as int),
{
    push_digits(out, n);
    out.push(SP);
    proof {
        assert(final(out)@ =~= old(out)@ + enc_u64(n as int));
    }
}

/// Appends a signed number token.
pub fn write_i64(out: &mut Vec<u8>, n: i64)
    requires
        i64::MIN < n,
    ensures
        final(out)@ == old(out)@ + enc_i64(n as int),
{
    if n < 0 {
        out.push(45);
        write_u64(out, (-n) as u64);
        proof {
            assert(final(out)@ =~= old(out)@ + enc_i64(n as int));
        }
    } else {
        write_u64(out, n as u64);
    }
}

/// Appends a byte-string token.
pub fn write_bytes(out: &mut Vec<u8>, b: &Vec<u8>)
    ensures
        final(out)@ == old(out)@ + enc_bytes(b@),
{
    write_u64(out, b.len() as u64);
    let ghost mid = out@;
    let mut i: usize = 0;
    while i < b.len()
        invariant
            i <= b@.len(),
            out@ == mid + b@.take(i as int),
        decreases b@.len() - i,
    {
        out.push(b[i]);
        proof {
            assert(mid + b@.take(i + 1) =~= (mid + b@.take(i as int)).push(b@[i as int]));
        }
        i = i + 1;
    }
    out.push(SP);
    proof {
        assert(b@.take(b@.len() as int) =~= b@);
        assert(final(out)@ =~= old(out)@ + enc_bytes(b@));
    }
}

/// Reads an unsigned number token.
pub fn read_u64(s: &Vec<u8>, pos: usize) -> (r: Option<(u64, usize)>)
    ensures
        match r {
            Some((n, p)) => dec_u64(s@, pos as int) == Some((n as int, p as int)) && pos < p
                <= s@.len(),
            None => dec_u64(s@, pos as int) is None,
        },
{
    if pos >= s.len() || !(48 <= s[pos] && s[pos] <= 57) {
        return None;
    }
    let mut acc: u64 = 0;
    let mut p: usize = pos;
    loop
        invariant
            pos <= p <= s@.len(),
            dec_u64(s@, pos as int) == dec_digits(s@, p as int, acc as int),
        decreases s@.len() - p,
    {
        if p >= s.len() {
            proof {
                assert(dec_digits(s@, p as int, acc as int) is None);
            }
            return None;
        }
        let b = s[p];
        if b == SP {
            return Some((acc, p + 1));
        }
        if !(48 <= b && b <= 57) {
            return None;
        }
        let d = (b - 48) as u64;
        if acc > (u64::MAX - d) / 10 {
            proof {
                vstd::arithmetic::div_mod::lemma_fundamental_div_mod(
                    (u64::MAX - d) as int,
                    10,
                );
                assert(acc as int * 10 + d > u64::MAX) by (nonlinear_arith)
                    requires
                        acc as int > ((u64::MAX - d) as int) / 10,
                        ((u64::MAX - d) as int) == 10 * (((u64::MAX - d) as int) / 10) + ((
                        u64::MAX - d) as int) % 10,
                        0 <= ((u64::MAX - d) as int) % 10 < 10,
                        0 <= d <= 9,
                ;
            }
            return None;
        }
        proof {
            vstd::arithmetic::div_mod::lemma_fundamental_div_mod((u64::MAX - d) as int, 10);
            assert(acc as int * 10 + d <= u64::MAX) by (nonlinear_arith)
                requires
                    acc as int <= ((u64::MAX - d) as int) / 10,
                    ((u64::MAX - d) as int) == 10 * (((u64::MAX - d) as int) / 10) + ((u64::MAX
                        - d) as int) % 10,
                    0 <= ((u64::MAX - d) as int) % 10 < 10,
                    0 <= d <= 9,
            ;
        }
        acc = acc * 10 + d;
        p = p + 1;
    }
}

/// Reads a signed number token.
pub fn read_i64(s: &Vec<u8>, pos: usize) -> (r: Option<(i64, usize)>)
    ensures
        match r {
            Some((n, p)) => dec_i64(s@, pos as int) == Some((n as int, p as int)) && pos < p
                <= s@.len(),
            None => dec_i64(s@, pos as int) is None,
        },
{
    if pos < s.len() && s[pos] == 45 {
        match read_u64(s, pos + 1) {
            Some((n, p)) => {
                if n <= 0x8000_0000_0000_0000u64 {
                    if n == 0x8000_0000_0000_0000u64 {
                        proof {
                            assert(-(n as int) == i64::MIN);
                        }
                        return Some((i64::MIN, p));
                    }
                    Some((-(n as i64), p))
                } else {
                    proof {
                        assert(-(n as int) < i64::MIN);
                    }
                    None
                }
            },
            None => None,
        }
    } else {
        match read_u64(s, pos) {
            Some((n, p)) => {
                if n <= i64::MAX as u64 {
                    Some((n as i64, p))
                } else {
                    None
                }
            },
            None => None,
        }
    }
}

/// Reads a byte-string token.
pub fn read_bytes(s: &Vec<u8>, pos: usize) -> (r: Option<(Vec<u8>, usize)>)
    ensures
        match r {
            Some((b, p)) => dec_bytes(s@, pos as int) == Some((b@, p as int)) && pos < p
                <= s@.len(),
            None => dec_bytes(s@, pos as int) is None,
        },
{
    match read_u64(s, pos) {
        Some((n, p)) => {
            if n > s.len() as u64 - p as u64 {
                proof {
                    assert(p as int + n as int + 1 > s@.len());
                }
                return None;
            }
            let count = n as usize;
            if p + count >= s.len() || count > s.len() - p {
                proof {
                    assert(p as int + n as int + 1 > s@.len());
                }
                return None;
            }
            if s[p + count] != SP {
                return None;
            }
            let mut b: Vec<u8> = Vec::new();
            let mut i: usize = 0;
            while i < count
                invariant
                    i <= count,
                    p + count < s@.len(),
                    s@.len() <= usize::MAX,
                    b@ == s@.subrange(p as int, p as int + i as int),
                decreases count - i,
            {
                b.push(s[p + i]);
                proof {
                    assert(s@.subrange(p as int, p as int + i + 1) =~= s@.subrange(
                        p as int,
                        p as int + i as int,
                    ).push(s@[p as int + i]));
                }
                i = i + 1;
            }
            Some((b, p + count + 1))
        },
        None => None,
    }
}


/// Splitting an embedded concatenation into its two halves.
pub proof fn lemma_split_prefix(s: Seq<u8>, pos: int, a: Seq<u8>, b: Seq<u8>)
    requires
        0 <= pos,
        pos + a.len() + b.len() <= s.len(),
        s.subrange(pos, pos + a.len() + b.len()) == a + b,
    ensures
        s.subrange(pos, pos + a.len() as int) == a,
        s.subrange(pos + a.len() as int, pos + a.len() + b.len()) == b,
{
    let whole = s.subrange(pos, pos + a.len() + b.len());
    assert forall|i: int| 0 <= i < a.len() implies s.subrange(pos, pos + a.len() as int)[i] == #[trigger] a[i] by {
        assert(whole[i] == s[pos + i]);
        assert((a + b)[i] == a[i]);
    }
    assert(s.subrange(pos, pos + a.len() as int) =~= a);
    assert forall|i: int| 0 <= i < b.len() implies s.subrange(
        pos + a.len() as int,
        pos + a.len() + b.len(),
    )[i] == #[trigger] b[i] by {
        assert(whole[a.len() + i] == s[pos + a.len() + i]);
        assert((a + b)[a.len() + i] == b[i]);
    }
    assert(s.subrange(pos + a.len() as int, pos + a.len() + b.len()) =~= b);
}

/// A boolean token: zero or one.
pub open spec fn enc_bool(b: bool) -> Seq<u8> {
    enc_u64(if b { 1 } else { 0 })
}

/// Decodes a boolean token; any other number is refused.
pub open spec fn dec_bool(s: Seq<u8>, pos: int) -> Option<(bool, int)> {
    match dec_u64(s, pos) {
        Some((n, p)) => if n == 0 { Some((false, p)) } else if n == 1 { Some((true, p)) } else { None },
        None => None,
    }
}

/// The numeric tag of a side.
pub open spec fn side_tag(side: crate::geom::Side) -> int {
    match side {
        crate::geom::Side::Top => 0,
        crate::geom::Side::Bottom => 1,
        crate::geom::Side::Left => 2,
        crate::geom::Side::Right => 3,
    }
}

/// A side token.
pub open spec fn enc_side(side: crate::geom::Side) -> Seq<u8> {
    enc_u64(side_tag(side))
}

/// Decodes a side token.
pub open spec fn dec_side(s: Seq<u8>, pos: int) -> Option<(crate::geom::Side, int)> {
    match dec_u64(s, pos) {
        Some((n, p)) => if n == 0 {
            Some((crate::geom::Side::Top, p))
        } else if n == 1 {
            Some((crate::geom::Side::Bottom, p))
        } else if n == 2 {
            Some((crate::geom::Side::Left, p))
        } else if n == 3 {
            Some((crate::geom::Side::Right, p))
        } else {
            None
        },
        None => None,
    }
}

/// The numeric tag of a node kind.
pub open spec fn kind_tag(kind: crate::model::NodeKind) -> int {
    match kind {
        crate::model::NodeKind::Note => 0,
        crate::model::NodeKind::Code => 1,
    }
}

/// A node-kind token.
pub open spec fn enc_kind(kind: crate::model::NodeKind) -> Seq<u8> {
    enc_u64(kind_tag(kind))
}

/// Decodes a node-kind token.
pub open spec fn dec_kind(s: Seq<u8>, pos: int) -> Option<(crate::model::NodeKind, int)> {
    match dec_u64(s, pos) {
        Some((n, p)) => if n == 0 {
            Some((crate::model::NodeKind::Note, p))
        } else if n == 1 {
            Some((crate::model::NodeKind::Code, p))
        } else {
            None
        },
        None => None,
    }
}

/// A point: two signed tokens.
pub open spec fn enc_point(p: crate::geom::Point) -> Seq<u8> {
    enc_i64(p.x as int) + enc_i64(p.y as int)
}

/// Decodes a point.
pub open spec fn dec_point(s: Seq<u8>, pos: int) -> Option<(crate::geom::Point, int)> {
    match dec_i64(s, pos) {
        Some((x, p)) => match dec_i64(s, p) {
            Some((y, p2)) => Some((crate::geom::Point { x: x as i64, y: y as i64 }, p2)),
            None => None,
        },
        None => None,
    }
}

/// A color: four unsigned tokens.
pub open spec fn enc_color(c: crate::model::Color) -> Seq<u8> {
    enc_u64(c.red as int) + (enc_u64(c.green as int) + (enc_u64(c.blue as int) + enc_u64(
        c.alpha as int,
    )))
}

/// Decodes a color; channels larger than a byte are refused.
pub open spec fn dec_color(s: Seq<u8>, pos: int) -> Option<(crate::model::Color, int)> {
    match dec_u64(s, pos) {
        Some((r, p1)) => match dec_u64(s, p1) {
            Some((g, p2)) => match dec_u64(s, p2) {
                Some((b, p3)) => match dec_u64(s, p3) {
                    Some((a, p4)) => if r <= 255 && g <= 255 && b <= 255 && a <= 255 {
                        Some(
                            (
                                crate::model::Color {
                                    red: r as u8,
                                    green: g as u8,
                                    blue: b as u8,
                                    alpha: a as u8,
                                },
                                p4,
                            ),
                        )
                    } else {
                        None
                    },
                    None => None,
                },
                None => None,
            },
            None => None,
        },
        None => None,
    }
}

/// An optional line number: a presence flag, then the number when present.
pub open spec fn enc_opt_usize(o: Option<usize>) -> Seq<u8> {
    match o {
        None => enc_u64(0),
        Some(v) => enc_u64(1) + enc_u64(v as int),
    }
}

/// Decodes an optional line number.
pub open spec fn dec_opt_usize(s: Seq<u8>, pos: int) -> Option<(Option<usize>, int)> {
    match dec_u64(s, pos) {
        Some((flag, p)) => if flag == 0 {
            Some((None, p))
        } else if flag == 1 {
            match dec_u64(s, p) {
                Some((v, p2)) => if v <= usize::MAX {
                    Some((Some(v as usize), p2))
                } else {
                    None
                },
                None => None,
            }
        } else {
            None
        },
        None => None,
    }
}

/// Decoding a boolean token embedded at `pos` yields the encoded value.
pub proof fn lemma_dec_bool_rt(s: Seq<u8>, pos: int, b: bool)
    requires
        0 <= pos,
        pos + enc_bool(b).len() <= s.len(),
        s.subrange(pos, pos + enc_bool(b).len() as int) == enc_bool(b),
    ensures
        dec_bool(s, pos) == Some((b, pos + enc_bool(b).len())),
{
    lemma_dec_u64_rt(s, pos, if b { 1 } else { 0 });
}

/// Decoding a side token embedded at `pos` yields the encoded side.
pub proof fn lemma_dec_side_rt(s: Seq<u8>, pos: int, side: crate::geom::Side)
    requires
        0 <= pos,
        pos + enc_side(side).len() <= s.len(),
        s.subrange(pos, pos + enc_side(side).len() as int) == enc_side(side),
    ensures
        dec_side(s, pos) == Some((side, pos + enc_side(side).len())),
{
    lemma_dec_u64_rt(s, pos, side_tag(side));
}

/// Decoding a node-kind token embedded at `pos` yields the encoded kind.
pub proof fn lemma_dec_kind_rt(s: Seq<u8>, pos: int, kind: crate::model::NodeKind)
    requires
        0 <= pos,
        pos + enc_kind(kind).len() <= s.len(),
        s.subrange(pos, pos + enc_kind(kind).len() as int) == enc_kind(kind),
    ensures
        dec_kind(s, pos) == Some((kind, pos + enc_kind(kind).len())),
{
    lemma_dec_u64_rt(s, pos, kind_tag(kind));
}

/// A point's coordinates are strictly above the smallest machine integer, so
/// the sign trick of the encoding applies.
pub open spec fn point_ok(p: crate::geom::Point) -> bool {
    i64::MIN < p.x && i64::MIN < p.y
}

/// Decoding a point embedded at `pos` yields the encoded point.
pub proof fn lemma_dec_point_rt(s: Seq<u8>, pos: int, pt: crate::geom::Point)
    requires
        point_ok(pt),
        0 <= pos,
        pos + enc_point(pt).len() <= s.len(),
        s.subrange(pos, pos + enc_point(pt).len() as int) == enc_point(pt),
    ensures
        dec_point(s, pos) == Some((pt, pos + enc_point(pt).len())),
{
    lemma_split_prefix(s, pos, enc_i64(pt.x as int), enc_i64(pt.y as int));
    lemma_dec_i64_rt(s, pos, pt.x as int);
    lemma_dec_i64_rt(s, pos + enc_i64(pt.x as int).len(), pt.y as int);
}

/// Decoding a color embedded at `pos` yields the encoded color.
pub proof fn lemma_dec_color_rt(s: Seq<u8>, pos: int, c: crate::model::Color)
    requires
        0 <= pos,
        pos + enc_color(c).len() <= s.len(),
        s.subrange(pos, pos + enc_color(c).len() as int) == enc_color(c),
    ensures
        dec_color(s, pos) == Some((c, pos + enc_color(c).len())),
{
    let e1 = enc_u64(c.red as int);
    let e2 = enc_u64(c.green as int);
    let e3 = enc_u64(c.blue as int);
    let e4 = enc_u64(c.alpha as int);
    lemma_split_prefix(s, pos, e1, e2 + (e3 + e4));
    let p1 = pos + e1.len();
    lemma_split_prefix(s, p1, e2, e3 + e4);
    let p2 = p1 + e2.len();
    lemma_split_prefix(s, p2, e3, e4);
    let p3 = p2 + e3.len();
    lemma_dec_u64_rt(s, pos, c.red as int);
    lemma_dec_u64_rt(s, p1, c.green as int);
    lemma_dec_u64_rt(s, p2, c.blue as int);
    lemma_dec_u64_rt(s, p3, c.alpha as int);
}

/// Decoding an optional line number embedded at `pos` yields the encoded
/// option.
pub proof fn lemma_dec_opt_usize_rt(s: Seq<u8>, pos: int, o: Option<usize>)
    requires
        0 <= pos,
        pos + enc_opt_usize(o).len() <= s.len(),
        s.subrange(pos, pos + enc_opt_usize(o).len() as int) == enc_opt_usize(o),
    ensures
        dec_opt_usize(s, pos) == Some((o, pos + enc_opt_usize(o).len())),
{
    match o {
        None => {
            lemma_dec_u64_rt(s, pos, 0);
        },
        Some(v) => {
            lemma_split_prefix(s, pos, enc_u64(1), enc_u64(v as int));
            lemma_dec_u64_rt(s, pos, 1);
            lemma_dec_u64_rt(s, pos + enc_u64(1).len(), v as int);
        },
    }
}


/// A note record: identifier, position, size, text, and the two flags.
pub open spec fn enc_note(n: crate::model::NoteV) -> Seq<u8> {
    enc_u64(n.id) + (enc_point(n.position) + (enc_point(n.size) + (enc_bytes(n.text) + (enc_bool(
        n.dragging,
    ) + enc_bool(n.locked)))))
}

/// Decodes a note record.
pub open spec fn dec_note(s: Seq<u8>, pos: int) -> Option<(crate::model::NoteV, int)> {
    match dec_u64(s, pos) {
        Some((id, p1)) => if id <= usize::MAX {
            match dec_point(s, p1) {
                Some((position, p2)) => match dec_point(s, p2) {
                    Some((size, p3)) => match dec_bytes(s, p3) {
                        Some((text, p4)) => match dec_bool(s, p4) {
                            Some((dragging, p5)) => match dec_bool(s, p5) {
                                Some((locked, p6)) => Some(
                                    (
                                        crate::model::NoteV {
                                            id,
                                            position,
                                            size,
                                            text,
                                            dragging,
                                            locked,
                                        },
                                        p6,
                                    ),
                                ),
                                None => None,
                            },
                            None => None,
                        },
                        None => None,
                    },
                    None => None,
                },
                None => None,
            }
        } else {
            None
        },
        None => None,
    }
}

/// A note is encodable when its identifier fits the machine, its geometry
/// the sign trick, and its text length a token.
pub open spec fn note_ok(n: crate::model::NoteV) -> bool {
    &&& 0 <= n.id <= usize::MAX
    &&& point_ok(n.position)
    &&& point_ok(n.size)
    &&& n.text.len() <= u64::MAX
}

/// Decoding a note record embedded at `pos` yields the encoded note.
pub proof fn lemma_dec_note_rt(s: Seq<u8>, pos: int, n: crate::model::NoteV)
    requires
        note_ok(n),
        0 <= pos,
        pos + enc_note(n).len() <= s.len(),
        s.subrange(pos, pos + enc_note(n).len() as int) == enc_note(n),
    ensures
        dec_note(s, pos) == Some((n, pos + enc_note(n).len())),
{
    let e1 = enc_u64(n.id);
    let e2 = enc_point(n.position);
    let e3 = enc_point(n.size);
    let e4 = enc_bytes(n.text);
    let e5 = enc_bool(n.dragging);
    let e6 = enc_bool(n.locked);
    lemma_split_prefix(s, pos, e1, e2 + (e3 + (e4 + (e5 + e6))));
    let p1 = pos + e1.len();
    lemma_split_prefix(s, p1, e2, e3 + (e4 + (e5 + e6)));
    let p2 = p1 + e2.len();
    lemma_split_prefix(s, p2, e3, e4 + (e5 + e6));
    let p3 = p2 + e3.len();
    lemma_split_prefix(s, p3, e4, e5 + e6);
    let p4 = p3 + e4.len();
    lemma_split_prefix(s, p4, e5, e6);
    let p5 = p4 + e5.len();
    lemma_dec_u64_rt(s, pos, n.id);
    lemma_dec_point_rt(s, p1, n.position);
    lemma_dec_point_rt(s, p2, n.size);
    lemma_dec_bytes_rt(s, p3, n.text);
    lemma_dec_bool_rt(s, p4, n.dragging);
    lemma_dec_bool_rt(s, p5, n.locked);
}

/// A code record: identifier, geometry, path, snippet, flags, line number.
pub open spec fn enc_code(c: crate::model::CodeV) -> Seq<u8> {
    enc_u64(c.id) + (enc_point(c.position) + (enc_point(c.size) + (enc_bytes(c.file_path) + (
    enc_bytes(c.code) + (enc_bool(c.dragging) + (enc_bool(c.locked) + enc_opt_usize(
        c.line_offset,
    )))))))
}

/// Decodes a code record.
pub open spec fn dec_code(s: Seq<u8>, pos: int) -> Option<(crate::model::CodeV, int)> {
    match dec_u64(s, pos) {
        Some((id, p1)) => if id <= usize::MAX {
            match dec_point(s, p1) {
                Some((position, p2)) => match dec_point(s, p2) {
                    Some((size, p3)) => match dec_bytes(s, p3) {
                        Some((file_path, p4)) => match dec_bytes(s, p4) {
                            Some((code, p5)) => match dec_bool(s, p5) {
                                Some((dragging, p6)) => match dec_bool(s, p6) {
                                    Some((locked, p7)) => match dec_opt_usize(s, p7) {
                                        Some((line_offset, p8)) => Some(
                                            (
                                                crate::model::CodeV {
                                                    id,
                                                    position,
                                                    size,
                                                    file_path,
                                                    code,
                                                    dragging,
                                                    locked,
                                                    line_offset,
                                                },
                                                p8,
                                            ),
                                        ),
                                        None => None,
                                    },
                                    None => None,
                                },
                                None => None,
                            },
                            None => None,
                        },
                        None => None,
                    },
                    None => None,
                },
                None => None,
            }
        } else {
            None
        },
        None => None,
    }
}

/// Encodability of a code record.
pub open spec fn code_ok(c: crate::model::CodeV) -> bool {
    &&& 0 <= c.id <= usize::MAX
    &&& point_ok(c.position)
    &&& point_ok(c.size)
    &&& c.file_path.len() <= u64::MAX
    &&& c.code.len() <= u64::MAX
}

/// Decoding a code record embedded at `pos` yields the encoded record.
#[verifier::rlimit(60)]
pub proof fn lemma_dec_code_rt(s: Seq<u8>, pos: int, c: crate::model::CodeV)
    requires
        code_ok(c),
        0 <= pos,
        pos + enc_code(c).len() <= s.len(),
        s.subrange(pos, pos + enc_code(c).len() as int) == enc_code(c),
    ensures
        dec_code(s, pos) == Some((c, pos + enc_code(c).len())),
{
    let e1 = enc_u64(c.id);
    let e2 = enc_point(c.position);
    let e3 = enc_point(c.size);
    let e4 = enc_bytes(c.file_path);
    let e5 = enc_bytes(c.code);
    let e6 = enc_bool(c.dragging);
    let e7 = enc_bool(c.locked);
    let e8 = enc_opt_usize(c.line_offset);
    lemma_split_prefix(s, pos, e1, e2 + (e3 + (e4 + (e5 + (e6 + (e7 + e8))))));
    let p1 = pos + e1.len();
    lemma_split_prefix(s, p1, e2, e3 + (e4 + (e5 + (e6 + (e7 + e8)))));
    let p2 = p1 + e2.len();
    lemma_split_prefix(s, p2, e3, e4 + (e5 + (e6 + (e7 + e8))));
    let p3 = p2 + e3.len();
    lemma_split_prefix(s, p3, e4, e5 + (e6 + (e7 + e8)));
    let p4 = p3 + e4.len();
    lemma_split_prefix(s, p4, e5, e6 + (e7 + e8));
    let p5 = p4 + e5.len();
    lemma_split_prefix(s, p5, e6, e7 + e8);
    let p6 = p5 + e6.len();
    lemma_split_prefix(s, p6, e7, e8);
    let p7 = p6 + e7.len();
    lemma_dec_u64_rt(s, pos, c.id);
    lemma_dec_point_rt(s, p1, c.position);
    lemma_dec_point_rt(s, p2, c.size);
    lemma_dec_bytes_rt(s, p3, c.file_path);
    lemma_dec_bytes_rt(s, p4, c.code);
    lemma_dec_bool_rt(s, p5, c.dragging);
    lemma_dec_bool_rt(s, p6, c.locked);
    lemma_dec_opt_usize_rt(s, p7, c.line_offset);
}

/// A connection record: its identifier, both endpoints, and the color.
pub open spec fn enc_conn(c: crate::model::Connection) -> Seq<u8> {
    enc_u64(c.id as int) + (enc_u64(c.start_node_id as int) + (enc_kind(c.start_node_kind) + (
    enc_side(c.start_side) + (enc_u64(c.end_node_id as int) + (enc_kind(c.end_node_kind) + (
    enc_side(c.end_side) + enc_color(c.color)))))))
}

/// Decodes a connection record.
pub open spec fn dec_conn(s: Seq<u8>, pos: int) -> Option<(crate::model::Connection, int)> {
    match dec_u64(s, pos) {
        Some((id, p1)) => if id <= usize::MAX {
            match dec_u64(s, p1) {
                Some((sid, p2)) => if sid <= usize::MAX {
                    match dec_kind(s, p2) {
                        Some((skind, p3)) => match dec_side(s, p3) {
                            Some((sside, p4)) => match dec_u64(s, p4) {
                                Some((eid, p5)) => if eid <= usize::MAX {
                                    match dec_kind(s, p5) {
                                        Some((ekind, p6)) => match dec_side(s, p6) {
                                            Some((eside, p7)) => match dec_color(s, p7) {
                                                Some((color, p8)) => Some(
                                                    (
                                                        crate::model::Connection {
                                                            id: id as usize,
                                                            start_node_id: sid as usize,
                                                            start_node_kind: skind,
                                                            start_side: sside,
                                                            end_node_id: eid as usize,
                                                            end_node_kind: ekind,
                                                            end_side: eside,
                                                            color,
                                                        },
                                                        p8,
                                                    ),
                                                ),
                                                None => None,
                                            },
                                            None => None,
                                        },
                                        None => None,
                                    }
                                } else {
                                    None
                                },
                                None => None,
                            },
                            None => None,
                        },
                        None => None,
                    }
                } else {
                    None
                },
                None => None,
            }
        } else {
            None
        },
        None => None,
    }
}

/// Decoding a connection record embedded at `pos` yields the encoded record.
#[verifier::rlimit(60)]
pub proof fn lemma_dec_conn_rt(s: Seq<u8>, pos: int, c: crate::model::Connection)
    requires
        0 <= pos,
        pos + enc_conn(c).len() <= s.len(),
        s.subrange(pos, pos + enc_conn(c).len() as int) == enc_conn(c),
    ensures
        dec_conn(s, pos) == Some((c, pos + enc_conn(c).len())),
{
    let e1 = enc_u64(c.id as int);
    let e2 = enc_u64(c.start_node_id as int);
    let e3 = enc_kind(c.start_node_kind);
    let e4 = enc_side(c.start_side);
    let e5 = enc_u64(c.end_node_id as int);
    let e6 = enc_kind(c.end_node_kind);
    let e7 = enc_side(c.end_side);
    let e8 = enc_color(c.color);
    lemma_split_prefix(s, pos, e1, e2 + (e3 + (e4 + (e5 + (e6 + (e7 + e8))))));
    let p1 = pos + e1.len();
    lemma_split_prefix(s, p1, e2, e3 + (e4 + (e5 + (e6 + (e7 + e8)))));
    let p2 = p1 + e2.len();
    lemma_split_prefix(s, p2, e3, e4 + (e5 + (e6 + (e7 + e8))));
    let p3 = p2 + e3.len();
    lemma_split_prefix(s, p3, e4, e5 + (e6 + (e7 + e8)));
    let p4 = p3 + e4.len();
    lemma_split_prefix(s, p4, e5, e6 + (e7 + e8));
    let p5 = p4 + e5.len();
    lemma_split_prefix(s, p5, e6, e7 + e8);
    let p6 = p5 + e6.len();
    lemma_split_prefix(s, p6, e7, e8);
    let p7 = p6 + e7.len();
    lemma_dec_u64_rt(s, pos, c.id as int);
    lemma_dec_u64_rt(s, p1, c.start_node_id as int);
    lemma_dec_kind_rt(s, p2, c.start_node_kind);
    lemma_dec_side_rt(s, p3, c.start_side);
    lemma_dec_u64_rt(s, p4, c.end_node_id as int);
    lemma_dec_kind_rt(s, p5, c.end_node_kind);
    lemma_dec_side_rt(s, p6, c.end_side);
    lemma_dec_color_rt(s, p7, c.color);
}


/// A point list, element after element.
pub open spec fn enc_points(ps: Seq<crate::geom::Point>) -> Seq<u8>
    decreases ps.len(),
{
    if ps.len() == 0 {
        Seq::empty()
    } else {
        enc_point(ps[0]) + enc_points(ps.skip(1))
    }
}

/// Decodes `count` points.
pub open spec fn dec_points(s: Seq<u8>, pos: int, count: int) -> Option<
    (Seq<crate::geom::Point>, int),
>
    decreases count,
{
    if count <= 0 {
        Some((Seq::empty(), pos))
    } else {
        match dec_point(s, pos) {
            Some((pt, p)) => match dec_points(s, p, count - 1) {
                Some((rest, p2)) => Some((seq![pt] + rest, p2)),
                None => None,
            },
            None => None,
        }
    }
}

/// Decoding an embedded point list yields the encoded points.
pub proof fn lemma_dec_points_rt(s: Seq<u8>, pos: int, ps: Seq<crate::geom::Point>)
    requires
        forall|i: int| 0 <= i < ps.len() ==> point_ok(#[trigger] ps[i]),
        0 <= pos,
        pos + enc_points(ps).len() <= s.len(),
        s.subrange(pos, pos + enc_points(ps).len() as int) == enc_points(ps),
    ensures
        dec_points(s, pos, ps.len() as int) == Some((ps, pos + enc_points(ps).len())),
    decreases ps.len(),
{
    if ps.len() == 0 {
        assert(dec_points(s, pos, 0) == Some((Seq::<crate::geom::Point>::empty(), pos)));
        assert(ps =~= Seq::<crate::geom::Point>::empty());
    } else {
        lemma_split_prefix(s, pos, enc_point(ps[0]), enc_points(ps.skip(1)));
        lemma_dec_point_rt(s, pos, ps[0]);
        let p1 = pos + enc_point(ps[0]).len();
        assert forall|i: int| 0 <= i < ps.skip(1).len() implies point_ok(#[trigger] ps.skip(1)[i]) by {
            assert(ps.skip(1)[i] == ps[i + 1]);
        }
        lemma_dec_points_rt(s, p1, ps.skip(1));
        assert(seq![ps[0]] + ps.skip(1) =~= ps);
    }
}

/// A stroke record: its point count and points, the color, the width.
pub open spec fn enc_stroke(st: crate::model::StrokeV) -> Seq<u8> {
    enc_u64(st.points.len() as int) + (enc_points(st.points) + (enc_color(st.color) + enc_i64(
        st.thickness as int,
    )))
}

/// Decodes a stroke record.
pub open spec fn dec_stroke(s: Seq<u8>, pos: int) -> Option<(crate::model::StrokeV, int)> {
    match dec_u64(s, pos) {
        Some((count, p1)) => if count <= usize::MAX {
            match dec_points(s, p1, count) {
                Some((points, p2)) => match dec_color(s, p2) {
                    Some((color, p3)) => match dec_i64(s, p3) {
                        Some((thickness, p4)) => Some(
                            (
                                crate::model::StrokeV {
                                    points,
                                    color,
                                    thickness: thickness as i64,
                                },
                                p4,
                            ),
                        ),
                        None => None,
                    },
                    None => None,
                },
                None => None,
            }
        } else {
            None
        },
        None => None,
    }
}

/// Encodability of a stroke record.
pub open spec fn stroke_ok(st: crate::model::StrokeV) -> bool {
    &&& st.points.len() <= usize::MAX
    &&& forall|i: int| 0 <= i < st.points.len() ==> point_ok(#[trigger] st.points[i])
    &&& i64::MIN < st.thickness
}

/// Decoding a stroke record embedded at `pos` yields the encoded stroke.
pub proof fn lemma_dec_stroke_rt(s: Seq<u8>, pos: int, st: crate::model::StrokeV)
    requires
        stroke_ok(st),
        0 <= pos,
        pos + enc_stroke(st).len() <= s.len(),
        s.subrange(pos, pos + enc_stroke(st).len() as int) == enc_stroke(st),
    ensures
        dec_stroke(s, pos) == Some((st, pos + enc_stroke(st).len())),
{
    let e1 = enc_u64(st.points.len() as int);
    let e2 = enc_points(st.points);
    let e3 = enc_color(st.color);
    let e4 = enc_i64(st.thickness as int);
    lemma_split_prefix(s, pos, e1, e2 + (e3 + e4));
    let p1 = pos + e1.len();
    lemma_split_prefix(s, p1, e2, e3 + e4);
    let p2 = p1 + e2.len();
    lemma_split_prefix(s, p2, e3, e4);
    let p3 = p2 + e3.len();
    lemma_dec_u64_rt(s, pos, st.points.len() as int);
    lemma_dec_points_rt(s, p1, st.points);
    lemma_dec_color_rt(s, p2, st.color);
    lemma_dec_i64_rt(s, p3, st.thickness as int);
}

/// A note list, element after element.
pub open spec fn enc_notes(ns: Seq<crate::model::NoteV>) -> Seq<u8>
    decreases ns.len(),
{
    if ns.len() == 0 {
        Seq::empty()
    } else {
        enc_note(ns[0]) + enc_notes(ns.skip(1))
    }
}

/// Decodes `count` note records.
pub open spec fn dec_notes(s: Seq<u8>, pos: int, count: int) -> Option<
    (Seq<crate::model::NoteV>, int),
>
    decreases count,
{
    if count <= 0 {
        Some((Seq::empty(), pos))
    } else {
        match dec_note(s, pos) {
            Some((n, p)) => match dec_notes(s, p, count - 1) {
                Some((rest, p2)) => Some((seq![n] + rest, p2)),
                None => None,
            },
            None => None,
        }
    }
}

/// Decoding an embedded note list yields the encoded notes.
pub proof fn lemma_dec_notes_rt(s: Seq<u8>, pos: int, ns: Seq<crate::model::NoteV>)
    requires
        forall|i: int| 0 <= i < ns.len() ==> note_ok(#[trigger] ns[i]),
        0 <= pos,
        pos + enc_notes(ns).len() <= s.len(),
        s.subrange(pos, pos + enc_notes(ns).len() as int) == enc_notes(ns),
    ensures
        dec_notes(s, pos, ns.len() as int) == Some((ns, pos + enc_notes(ns).len())),
    decreases ns.len(),
{
    if ns.len() == 0 {
        assert(ns =~= Seq::<crate::model::NoteV>::empty());
    } else {
        lemma_split_prefix(s, pos, enc_note(ns[0]), enc_notes(ns.skip(1)));
        lemma_dec_note_rt(s, pos, ns[0]);
        let p1 = pos + enc_note(ns[0]).len();
        assert forall|i: int| 0 <= i < ns.skip(1).len() implies note_ok(#[trigger] ns.skip(1)[i]) by {
            assert(ns.skip(1)[i] == ns[i + 1]);
        }
        lemma_dec_notes_rt(s, p1, ns.skip(1));
        assert(seq![ns[0]] + ns.skip(1) =~= ns);
    }
}

/// A code-node list, element after element.
pub open spec fn enc_codes(cs: Seq<crate::model::CodeV>) -> Seq<u8>
    decreases cs.len(),
{
    if cs.len() == 0 {
        Seq::empty()
    } else {
        enc_code(cs[0]) + enc_codes(cs.skip(1))
    }
}

/// Decodes `count` code records.
pub open spec fn dec_codes(s: Seq<u8>, pos: int, count: int) -> Option<
    (Seq<crate::model::CodeV>, int),
>
    decreases count,
{
    if count <= 0 {
        Some((Seq::empty(), pos))
    } else {
        match dec_code(s, pos) {
            Some((c, p)) => match dec_codes(s, p, count - 1) {
                Some((rest, p2)) => Some((seq![c] + rest, p2)),
                None => None,
            },
            None => None,
        }
    }
}

/// Decoding an embedded code list yields the encoded records.
#[verifier::rlimit(60)]
pub proof fn lemma_dec_codes_rt(s: Seq<u8>, pos: int, cs: Seq<crate::model::CodeV>)
    requires
        forall|i: int| 0 <= i < cs.len() ==> code_ok(#[trigger] cs[i]),
        0 <= pos,
        pos + enc_codes(cs).len() <= s.len(),
        s.subrange(pos, pos + enc_codes(cs).len() as int) == enc_codes(cs),
    ensures
        dec_codes(s, pos, cs.len() as int) == Some((cs, pos + enc_codes(cs).len())),
    decreases cs.len(),
{
    if cs.len() == 0 {
        assert(cs =~= Seq::<crate::model::CodeV>::empty());
    } else {
        lemma_split_prefix(s, pos, enc_code(cs[0]), enc_codes(cs.skip(1)));
        lemma_dec_code_rt(s, pos, cs[0]);
        let p1 = pos + enc_code(cs[0]).len();
        assert forall|i: int| 0 <= i < cs.skip(1).len() implies code_ok(#[trigger] cs.skip(1)[i]) by {
            assert(cs.skip(1)[i] == cs[i + 1]);
        }
        lemma_dec_codes_rt(s, p1, cs.skip(1));
        assert(seq![cs[0]] + cs.skip(1) =~= cs);
    }
}

/// A connection list, element after element.
pub open spec fn enc_conns(cs: Seq<crate::model::Connection>) -> Seq<u8>
    decreases cs.len(),
{
    if cs.len() == 0 {
        Seq::empty()
    } else {
        enc_conn(cs[0]) + enc_conns(cs.skip(1))
    }
}

/// Decodes `count` connection records.
pub open spec fn dec_conns(s: Seq<u8>, pos: int, count: int) -> Option<
    (Seq<crate::model::Connection>, int),
>
    decreases count,
{
    if count <= 0 {
        Some((Seq::empty(), pos))
    } else {
        match dec_conn(s, pos) {
            Some((c, p)) => match dec_conns(s, p, count - 1) {
                Some((rest, p2)) => Some((seq![c] + rest, p2)),
                None => None,
            },
            None => None,
        }
    }
}

/// Decoding an embedded connection list yields the encoded records.
#[verifier::rlimit(60)]
pub proof fn lemma_dec_conns_rt(s: Seq<u8>, pos: int, cs: Seq<crate::model::Connection>)
    requires
        0 <= pos,
        pos + enc_conns(cs).len() <= s.len(),
        s.subrange(pos, pos + enc_conns(cs).len() as int) == enc_conns(cs),
    ensures
        dec_conns(s, pos, cs.len() as int) == Some((cs, pos + enc_conns(cs).len())),
    decreases cs.len(),
{
    if cs.len() == 0 {
        assert(cs =~= Seq::<crate::model::Connection>::empty());
    } else {
        lemma_split_prefix(s, pos, enc_conn(cs[0]), enc_conns(cs.skip(1)));
        lemma_dec_conn_rt(s, pos, cs[0]);
        let p1 = pos + enc_conn(cs[0]).len();
        lemma_dec_conns_rt(s, p1, cs.skip(1));
        assert(seq![cs[0]] + cs.skip(1) =~= cs);
    }
}

/// A stroke list, element after element.
pub open spec fn enc_strokes(ss: Seq<crate::model::StrokeV>) -> Seq<u8>
    decreases ss.len(),
{
    if ss.len() == 0 {
        Seq::empty()
    } else {
        enc_stroke(ss[0]) + enc_strokes(ss.skip(1))
    }
}

/// Decodes `count` stroke records.
pub open spec fn dec_strokes(s: Seq<u8>, pos: int, count: int) -> Option<
    (Seq<crate::model::StrokeV>, int),
>
    decreases count,
{
    if count <= 0 {
        Some((Seq::empty(), pos))
    } else {
        match dec_stroke(s, pos) {
            Some((st, p)) => match dec_strokes(s, p, count - 1) {
                Some((rest, p2)) => Some((seq![st] + rest, p2)),
                None => None,
            },
            None => None,
        }
    }
}

/// Decoding an embedded stroke list yields the encoded strokes.
pub proof fn lemma_dec_strokes_rt(s: Seq<u8>, pos: int, ss: Seq<crate::model::StrokeV>)
    requires
        forall|i: int| 0 <= i < ss.len() ==> stroke_ok(#[trigger] ss[i]),
        0 <= pos,
        pos + enc_strokes(ss).len() <= s.len(),
        s.subrange(pos, pos + enc_strokes(ss).len() as int) == enc_strokes(ss),
    ensures
        dec_strokes(s, pos, ss.len() as int) == Some((ss, pos + enc_strokes(ss).len())),
    decreases ss.len(),
{
    if ss.len() == 0 {
        assert(ss =~= Seq::<crate::model::StrokeV>::empty());
    } else {
        lemma_split_prefix(s, pos, enc_stroke(ss[0]), enc_strokes(ss.skip(1)));
        lemma_dec_stroke_rt(s, pos, ss[0]);
        let p1 = pos + enc_stroke(ss[0]).len();
        assert forall|i: int| 0 <= i < ss.skip(1).len() implies stroke_ok(
            #[trigger] ss.skip(1)[i],
        ) by {
            assert(ss.skip(1)[i] == ss[i + 1]);
        }
        lemma_dec_strokes_rt(s, p1, ss.skip(1));
        assert(seq![ss[0]] + ss.skip(1) =~= ss);
    }
}


/// A snapshot record: the four collections with their counts, the zoom, and
/// the pan offset.
#[verifier::opaque]
pub open spec fn enc_snapshot(v: crate::model::SnapshotV) -> Seq<u8> {
    enc_u64(v.notes.len() as int) + (enc_notes(v.notes) + (enc_u64(v.codes.len() as int) + (
    enc_codes(v.codes) + (enc_u64(v.connections.len() as int) + (enc_conns(v.connections) + (
    enc_u64(v.strokes.len() as int) + (enc_strokes(v.strokes) + (enc_i64(v.zoom as int)
        + enc_point(v.offset)))))))))
}

/// Decodes a snapshot record.
#[verifier::opaque]
pub open spec fn dec_snapshot(s: Seq<u8>, pos: int) -> Option<(crate::model::SnapshotV, int)> {
    match dec_u64(s, pos) {
        Some((nn, p1)) => if nn <= usize::MAX {
            match dec_notes(s, p1, nn) {
                Some((notes, p2)) => match dec_u64(s, p2) {
                    Some((nc, p3)) => if nc <= usize::MAX {
                        match dec_codes(s, p3, nc) {
                            Some((codes, p4)) => match dec_u64(s, p4) {
                                Some((nco, p5)) => if nco <= usize::MAX {
                                    match dec_conns(s, p5, nco) {
                                        Some((connections, p6)) => match dec_u64(s, p6) {
                                            Some((ns, p7)) => if ns <= usize::MAX {
                                                match dec_strokes(s, p7, ns) {
                                                    Some((strokes, p8)) => match dec_i64(s, p8) {
                                                        Some((zoom, p9)) => match dec_point(
                                                            s,
                                                            p9,
                                                        ) {
                                                            Some((offset, p10)) => Some(
                                                                (
                                                                    crate::model::SnapshotV {
                                                                        notes,
                                                                        codes,
                                                                        connections,
                                                                        strokes,
                                                                        zoom: zoom as i64,
                                                                        offset,
                                                                    },
                                                                    p10,
                                                                ),
                                                            ),
                                                            None => None,
                                                        },
                                                        None => None,
                                                    },
                                                    None => None,
                                                }
                                            } else {
                                                None
                                            },
                                            None => None,
                                        },
                                        None => None,
                                    }
                                } else {
                                    None
                                },
                                None => None,
                            },
                            None => None,
                        }
                    } else {
                        None
                    },
                    None => None,
                },
                None => None,
            }
        } else {
            None
        },
        None => None,
    }
}

/// Encodability of a snapshot: machine-sized collections of encodable
/// entities, with geometry above the smallest machine integer.
pub open spec fn snapshot_ok(v: crate::model::SnapshotV) -> bool {
    &&& v.notes.len() <= usize::MAX
    &&& v.codes.len() <= usize::MAX
    &&& v.connections.len() <= usize::MAX
    &&& v.strokes.len() <= usize::MAX
    &&& forall|i: int| 0 <= i < v.notes.len() ==> note_ok(#[trigger] v.notes[i])
    &&& forall|i: int| 0 <= i < v.codes.len() ==> code_ok(#[trigger] v.codes[i])
    &&& forall|i: int| 0 <= i < v.strokes.len() ==> stroke_ok(#[trigger] v.strokes[i])
    &&& i64::MIN < v.zoom
    &&& point_ok(v.offset)
}

/// Decoding a snapshot record embedded at `pos` yields the encoded snapshot.
#[verifier::rlimit(60)]
pub proof fn lemma_dec_snapshot_rt(s: Seq<u8>, pos: int, v: crate::model::SnapshotV)
    requires
        snapshot_ok(v),
        0 <= pos,
        pos + enc_snapshot(v).len() <= s.len(),
        s.subrange(pos, pos + enc_snapshot(v).len() as int) == enc_snapshot(v),
    ensures
        dec_snapshot(s, pos) == Some((v, pos + enc_snapshot(v).len())),
{
    reveal(enc_snapshot);
    reveal(dec_snapshot);
    let e1 = enc_u64(v.notes.len() as int);
    let e2 = enc_notes(v.notes);
    let e3 = enc_u64(v.codes.len() as int);
    let e4 = enc_codes(v.codes);
    let e5 = enc_u64(v.connections.len() as int);
    let e6 = enc_conns(v.connections);
    let e7 = enc_u64(v.strokes.len() as int);
    let e8 = enc_strokes(v.strokes);
    let e9 = enc_i64(v.zoom as int);
    let e10 = enc_point(v.offset);
    lemma_split_prefix(s, pos, e1, e2 + (e3 + (e4 + (e5 + (e6 + (e7 + (e8 + (e9 + e10))))))));
    let p1 = pos + e1.len();
    lemma_split_prefix(s, p1, e2, e3 + (e4 + (e5 + (e6 + (e7 + (e8 + (e9 + e10)))))));
    let p2 = p1 + e2.len();
    lemma_split_prefix(s, p2, e3, e4 + (e5 + (e6 + (e7 + (e8 + (e9 + e10))))));
    let p3 = p2 + e3.len();
    lemma_split_prefix(s, p3, e4, e5 + (e6 + (e7 + (e8 + (e9 + e10)))));
    let p4 = p3 + e4.len();
    lemma_split_prefix(s, p4, e5, e6 + (e7 + (e8 + (e9 + e10))));
    let p5 = p4 + e5.len();
    lemma_split_prefix(s, p5, e6, e7 + (e8 + (e9 + e10)));
    let p6 = p5 + e6.len();
    lemma_split_prefix(s, p6, e7, e8 + (e9 + e10));
    let p7 = p6 + e7.len();
    lemma_split_prefix(s, p7, e8, e9 + e10);
    let p8 = p7 + e8.len();
    lemma_split_prefix(s, p8, e9, e10);
    let p9 = p8 + e9.len();
    lemma_dec_u64_rt(s, pos, v.notes.len() as int);
    lemma_dec_notes_rt(s, p1, v.notes);
    lemma_dec_u64_rt(s, p2, v.codes.len() as int);
    lemma_dec_codes_rt(s, p3, v.codes);
    lemma_dec_u64_rt(s, p4, v.connections.len() as int);
    lemma_dec_conns_rt(s, p5, v.connections);
    lemma_dec_u64_rt(s, p6, v.strokes.len() as int);
    lemma_dec_strokes_rt(s, p7, v.strokes);
    lemma_dec_i64_rt(s, p8, v.zoom as int);
    lemma_dec_point_rt(s, p9, v.offset);
}

/// A snapshot list, element after element.
pub open spec fn enc_snapshots(vs: Seq<crate::model::SnapshotV>) -> Seq<u8>
    decreases vs.len(),
{
    if vs.len() == 0 {
        Seq::empty()
    } else {
        enc_snapshot(vs[0]) + enc_snapshots(vs.skip(1))
    }
}

/// Decodes `count` snapshot records.
pub open spec fn dec_snapshots(s: Seq<u8>, pos: int, count: int) -> Option<
    (Seq<crate::model::SnapshotV>, int),
>
    decreases count,
{
    if count <= 0 {
        Some((Seq::empty(), pos))
    } else {
        match dec_snapshot(s, pos) {
            Some((v, p)) => match dec_snapshots(s, p, count - 1) {
                Some((rest, p2)) => Some((seq![v] + rest, p2)),
                None => None,
            },
            None => None,
        }
    }
}

/// Decoding an embedded snapshot list yields the encoded snapshots.
#[verifier::rlimit(60)]
pub proof fn lemma_dec_snapshots_rt(s: Seq<u8>, pos: int, vs: Seq<crate::model::SnapshotV>)
    requires
        forall|i: int| 0 <= i < vs.len() ==> snapshot_ok(#[trigger] vs[i]),
        0 <= pos,
        pos + enc_snapshots(vs).len() <= s.len(),
        s.subrange(pos, pos + enc_snapshots(vs).len() as int) == enc_snapshots(vs),
    ensures
        dec_snapshots(s, pos, vs.len() as int) == Some((vs, pos + enc_snapshots(vs).len())),
    decreases vs.len(),
{
    if vs.len() == 0 {
        assert(vs =~= Seq::<crate::model::SnapshotV>::empty());
    } else {
        lemma_split_prefix(s, pos, enc_snapshot(vs[0]), enc_snapshots(vs.skip(1)));
        lemma_dec_snapshot_rt(s, pos, vs[0]);
        let p1 = pos + enc_snapshot(vs[0]).len();
        assert forall|i: int| 0 <= i < vs.skip(1).len() implies snapshot_ok(
            #[trigger] vs.skip(1)[i],
        ) by {
            assert(vs.skip(1)[i] == vs[i + 1]);
        }
        lemma_dec_snapshots_rt(s, p1, vs.skip(1));
        assert(seq![vs[0]] + vs.skip(1) =~= vs);
    }
}

/// A whole history document: a format version, both stacks with their
/// counts, and the live snapshot.
pub open spec fn enc_history(h: crate::history::HistV) -> Seq<u8> {
    enc_u64(1) + (enc_u64(h.undo.len() as int) + (enc_snapshots(h.undo) + (enc_u64(
        h.redo.len() as int,
    ) + (enc_snapshots(h.redo) + enc_snapshot(h.current)))))
}

/// Decodes a whole history document; trailing bytes are refused.
pub open spec fn dec_history(s: Seq<u8>) -> Option<crate::history::HistV> {
    match dec_u64(s, 0) {
        Some((version, p0)) => if version == 1 {
            match dec_u64(s, p0) {
                Some((nu, p1)) => if nu <= usize::MAX {
                    match dec_snapshots(s, p1, nu) {
                        Some((undo, p2)) => match dec_u64(s, p2) {
                            Some((nr, p3)) => if nr <= usize::MAX {
                                match dec_snapshots(s, p3, nr) {
                                    Some((redo, p4)) => match dec_snapshot(s, p4) {
                                        Some((current, p5)) => if p5 == s.len() {
                                            Some(
                                                crate::history::HistV { undo, redo, current },
                                            )
                                        } else {
                                            None
                                        },
                                        None => None,
                                    },
                                    None => None,
                                }
                            } else {
                                None
                            },
                            None => None,
                        },
                        None => None,
                    }
                } else {
                    None
                },
                None => None,
            }
        } else {
            None
        },
        None => None,
    }
}

/// Encodability of a history: machine-sized stacks of encodable snapshots.
pub open spec fn history_ok(h: crate::history::HistV) -> bool {
    &&& h.undo.len() <= usize::MAX
    &&& h.redo.len() <= usize::MAX
    &&& forall|i: int| 0 <= i < h.undo.len() ==> snapshot_ok(#[trigger] h.undo[i])
    &&& forall|i: int| 0 <= i < h.redo.len() ==> snapshot_ok(#[trigger] h.redo[i])
    &&& snapshot_ok(h.current)
}

/// The round trip of the document codec: decoding the encoding of any
/// well-formed history yields that history back, exactly.
#[verifier::rlimit(100)]
#[verifier::spinoff_prover]
pub proof fn lemma_history_round_trip(h: crate::history::HistV)
    requires
        history_ok(h),
    ensures
        dec_history(enc_history(h)) == Some(h),
{
    let s = enc_history(h);
    let e1 = enc_u64(1);
    let e2 = enc_u64(h.undo.len() as int);
    let e3 = enc_snapshots(h.undo);
    let e4 = enc_u64(h.redo.len() as int);
    let e5 = enc_snapshots(h.redo);
    let e6 = enc_snapshot(h.current);
    assert(s.subrange(0, s.len() as int) =~= s);
    lemma_split_prefix(s, 0, e1, e2 + (e3 + (e4 + (e5 + e6))));
    let p1 = 0 + e1.len() as int;
    lemma_split_prefix(s, p1, e2, e3 + (e4 + (e5 + e6)));
    let p2 = p1 + e2.len();
    lemma_split_prefix(s, p2, e3, e4 + (e5 + e6));
    let p3 = p2 + e3.len();
    lemma_split_prefix(s, p3, e4, e5 + e6);
    let p4 = p3 + e4.len();
    lemma_split_prefix(s, p4, e5, e6);
    let p5 = p4 + e5.len();
    lemma_dec_u64_rt(s, 0, 1);
    lemma_dec_u64_rt(s, p1, h.undo.len() as int);
    lemma_dec_snapshots_rt(s, p2, h.undo);
    lemma_dec_u64_rt(s, p3, h.redo.len() as int);
    lemma_dec_snapshots_rt(s, p4, h.redo);
    lemma_dec_snapshot_rt(s, p5, h.current);
}


/// Appending one more element to an encoded note list.
proof fn lemma_enc_notes_push(ns: Seq<crate::model::NoteV>, n: crate::model::NoteV)
    ensures
        enc_notes(ns.push(n)) == enc_notes(ns) + enc_note(n),
    decreases ns.len(),
{
    if ns.len() == 0 {
        assert(ns.push(n).skip(1) =~= Seq::<crate::model::NoteV>::empty());
        assert(ns.push(n)[0] == n);
        assert(enc_notes(Seq::<crate::model::NoteV>::empty()) == Seq::<u8>::empty());
        assert(enc_notes(ns.push(n)) =~= enc_note(n));
        assert(enc_notes(ns) + enc_note(n) =~= enc_note(n));
    } else {
        assert(ns.push(n).skip(1) =~= ns.skip(1).push(n));
        lemma_enc_notes_push(ns.skip(1), n);
        assert(enc_notes(ns.push(n)) =~= enc_notes(ns) + enc_note(n));
    }
}

/// Appending one more element to an encoded code list.
proof fn lemma_enc_codes_push(cs: Seq<crate::model::CodeV>, c: crate::model::CodeV)
    ensures
        enc_codes(cs.push(c)) == enc_codes(cs) + enc_code(c),
    decreases cs.len(),
{
    if cs.len() == 0 {
        assert(cs.push(c).skip(1) =~= Seq::<crate::model::CodeV>::empty());
        assert(cs.push(c)[0] == c);
        assert(enc_codes(Seq::<crate::model::CodeV>::empty()) == Seq::<u8>::empty());
        assert(enc_codes(cs.push(c)) =~= enc_code(c));
        assert(enc_codes(cs) + enc_code(c) =~= enc_code(c));
    } else {
        assert(cs.push(c).skip(1) =~= cs.skip(1).push(c));
        lemma_enc_codes_push(cs.skip(1), c);
        assert(enc_codes(cs.push(c)) =~= enc_codes(cs) + enc_code(c));
    }
}

/// Appending one more element to an encoded connection list.
proof fn lemma_enc_conns_push(cs: Seq<crate::model::Connection>, c: crate::model::Connection)
    ensures
        enc_conns(cs.push(c)) == enc_conns(cs) + enc_conn(c),
    decreases cs.len(),
{
    if cs.len() == 0 {
        assert(cs.push(c).skip(1) =~= Seq::<crate::model::Connection>::empty());
        assert(cs.push(c)[0] == c);
        assert(enc_conns(Seq::<crate::model::Connection>::empty()) == Seq::<u8>::empty());
        assert(enc_conns(cs.push(c)) =~= enc_conn(c));
        assert(enc_conns(cs) + enc_conn(c) =~= enc_conn(c));
    } else {
        assert(cs.push(c).skip(1) =~= cs.skip(1).push(c));
        lemma_enc_conns_push(cs.skip(1), c);
        assert(enc_conns(cs.push(c)) =~= enc_conns(cs) + enc_conn(c));
    }
}

/// Appending one more element to an encoded stroke list.
proof fn lemma_enc_strokes_push(ss: Seq<crate::model::StrokeV>, st: crate::model::StrokeV)
    ensures
        enc_strokes(ss.push(st)) == enc_strokes(ss) + enc_stroke(st),
    decreases ss.len(),
{
    if ss.len() == 0 {
        assert(ss.push(st).skip(1) =~= Seq::<crate::model::StrokeV>::empty());
        assert(ss.push(st)[0] == st);
        assert(enc_strokes(Seq::<crate::model::StrokeV>::empty()) == Seq::<u8>::empty());
        assert(enc_strokes(ss.push(st)) =~= enc_stroke(st));
        assert(enc_strokes(ss) + enc_stroke(st) =~= enc_stroke(st));
    } else {
        assert(ss.push(st).skip(1) =~= ss.skip(1).push(st));
        lemma_enc_strokes_push(ss.skip(1), st);
        assert(enc_strokes(ss.push(st)) =~= enc_strokes(ss) + enc_stroke(st));
    }
}

/// Appending one more element to an encoded point list.
proof fn lemma_enc_points_push(ps: Seq<crate::geom::Point>, p: crate::geom::Point)
    ensures
        enc_points(ps.push(p)) == enc_points(ps) + enc_point(p),
    decreases ps.len(),
{
    if ps.len() == 0 {
        assert(ps.push(p).skip(1) =~= Seq::<crate::geom::Point>::empty());
        assert(ps.push(p)[0] == p);
        assert(enc_points(Seq::<crate::geom::Point>::empty()) == Seq::<u8>::empty());
        assert(enc_points(ps.push(p)) =~= enc_point(p));
        assert(enc_points(ps) + enc_point(p) =~= enc_point(p));
    } else {
        assert(ps.push(p).skip(1) =~= ps.skip(1).push(p));
        lemma_enc_points_push(ps.skip(1), p);
        assert(enc_points(ps.push(p)) =~= enc_points(ps) + enc_point(p));
    }
}

/// Appending one more element to an encoded snapshot list.
#[verifier::rlimit(100)]
#[verifier::spinoff_prover]
proof fn lemma_enc_snapshots_push(vs: Seq<crate::model::SnapshotV>, v: crate::model::SnapshotV)
    ensures
        enc_snapshots(vs.push(v)) == enc_snapshots(vs) + enc_snapshot(v),
    decreases vs.len(),
{
    if vs.len() == 0 {
        assert(vs.push(v).skip(1) =~= Seq::<crate::model::SnapshotV>::empty());
        assert(vs.push(v)[0] == v);
        assert(enc_snapshots(Seq::<crate::model::SnapshotV>::empty()) == Seq::<u8>::empty());
        assert(enc_snapshots(vs.push(v)) =~= enc_snapshot(v));
        assert(enc_snapshots(vs) + enc_snapshot(v) =~= enc_snapshot(v));
    } else {
        assert(vs.push(v).skip(1) =~= vs.skip(1).push(v));
        lemma_enc_snapshots_push(vs.skip(1), v);
        assert(enc_snapshots(vs.push(v)) =~= enc_snapshots(vs) + enc_snapshot(v));
    }
}

/// Appends a point.
fn write_point(out: &mut Vec<u8>, p: crate::geom::Point)
    requires
        point_ok(p),
    ensures
        final(out)@ == old(out)@ + enc_point(p),
{
    write_i64(out, p.x);
    write_i64(out, p.y);
    proof {
        assert(final(out)@ =~= old(out)@ + enc_point(p));
    }
}

/// Appends a color.
fn write_color(out: &mut Vec<u8>, c: crate::model::Color)
    ensures
        final(out)@ == old(out)@ + enc_color(c),
{
    write_u64(out, c.red as u64);
    write_u64(out, c.green as u64);
    write_u64(out, c.blue as u64);
    write_u64(out, c.alpha as u64);
    proof {
        assert(final(out)@ =~= old(out)@ + enc_color(c));
    }
}

/// Appends a boolean token.
fn write_bool(out: &mut Vec<u8>, b: bool)
    ensures
        final(out)@ == old(out)@ + enc_bool(b),
{
    write_u64(out, if b { 1 } else { 0 });
}

/// Appends a side token.
fn write_side(out: &mut Vec<u8>, side: crate::geom::Side)
    ensures
        final(out)@ == old(out)@ + enc_side(side),
{
    let tag: u64 = match side {
        crate::geom::Side::Top => 0,
        crate::geom::Side::Bottom => 1,
        crate::geom::Side::Left => 2,
        crate::geom::Side::Right => 3,
    };
    write_u64(out, tag);
}

/// Appends a node-kind token.
fn write_kind(out: &mut Vec<u8>, kind: crate::model::NodeKind)
    ensures
        final(out)@ == old(out)@ + enc_kind(kind),
{
    let tag: u64 = match kind {
        crate::model::NodeKind::Note => 0,
        crate::model::NodeKind::Code => 1,
    };
    write_u64(out, tag);
}

/// Appends an optional line number.
fn write_opt_usize(out: &mut Vec<u8>, o: Option<usize>)
    ensures
        final(out)@ == old(out)@ + enc_opt_usize(o),
{
    match o {
        None => {
            write_u64(out, 0);
        },
        Some(v) => {
            write_u64(out, 1);
            write_u64(out, v as u64);
            proof {
                assert(final(out)@ =~= old(out)@ + enc_opt_usize(o));
            }
        },
    }
}

/// Appends a note record.
fn write_note(out: &mut Vec<u8>, n: &crate::model::NoteNode)
    requires
        point_ok(n.position),
        point_ok(n.size),
    ensures
        final(out)@ == old(out)@ + enc_note(n@),
{
    write_u64(out, n.id as u64);
    write_point(out, n.position);
    write_point(out, n.size);
    write_bytes(out, &n.text);
    write_bool(out, n.dragging);
    write_bool(out, n.locked);
    proof {
        assert(final(out)@ =~= old(out)@ + enc_note(n@));
    }
}

/// Appends a code record.
#[verifier::rlimit(60)]
fn write_code(out: &mut Vec<u8>, c: &crate::model::CodeNode)
    requires
        point_ok(c.position),
        point_ok(c.size),
    ensures
        final(out)@ == old(out)@ + enc_code(c@),
{
    write_u64(out, c.id as u64);
    write_point(out, c.position);
    write_point(out, c.size);
    write_bytes(out, &c.file_path);
    write_bytes(out, &c.code);
    write_bool(out, c.dragging);
    write_bool(out, c.locked);
    write_opt_usize(out, c.line_offset);
    proof {
        assert(final(out)@ =~= old(out)@ + enc_code(c@));
    }
}

/// Appends a connection record.
fn write_conn(out: &mut Vec<u8>, c: &crate::model::Connection)
    ensures
        final(out)@ == old(out)@ + enc_conn(*c),
{
    write_u64(out, c.id as u64);
    write_u64(out, c.start_node_id as u64);
    write_kind(out, c.start_node_kind);
    write_side(out, c.start_side);
    write_u64(out, c.end_node_id as u64);
    write_kind(out, c.end_node_kind);
    write_side(out, c.end_side);
    write_color(out, c.color);
    proof {
        assert(final(out)@ =~= old(out)@ + enc_conn(*c));
    }
}

/// Appends a stroke record.
fn write_stroke(out: &mut Vec<u8>, st: &crate::model::Stroke)
    requires
        crate::model::stroke_wf(st@),
    ensures
        final(out)@ == old(out)@ + enc_stroke(st@),
{
    proof {
        assert forall|i: int| 0 <= i < st.points@.len() implies point_ok(
            #[trigger] st.points@[i],
        ) by {
            assert(crate::geom::point_within(st@.points[i], crate::geom::DOC_LIMIT as int));
        }
    }
    write_u64(out, st.points.len() as u64);
    let ghost mid = out@;
    let mut i: usize = 0;
    proof {
        assert(enc_points(st.points@.take(0)) =~= Seq::<u8>::empty());
        assert(out@ =~= mid + enc_points(st.points@.take(0)));
    }
    while i < st.points.len()
        invariant
            i <= st.points@.len(),
            crate::model::stroke_wf(st@),
            out@ == mid + enc_points(st.points@.take(i as int)),
        decreases st.points@.len() - i,
    {
        proof {
            assert(crate::geom::point_within(st@.points[i as int], crate::geom::DOC_LIMIT as int));
        }
        write_point(out, st.points[i]);
        proof {
            assert(st.points@.take(i + 1) =~= st.points@.take(i as int).push(
                st.points@[i as int],
            ));
            lemma_enc_points_push(st.points@.take(i as int), st.points@[i as int]);
            assert(out@ =~= mid + enc_points(st.points@.take(i + 1)));
        }
        i = i + 1;
    }
    proof {
        assert(st.points@.take(st.points@.len() as int) =~= st.points@);
    }
    write_color(out, st.color);
    write_i64(out, st.thickness);
    proof {
        assert(final(out)@ =~= old(out)@ + enc_stroke(st@));
    }
}

/// Appends a note list with its count.
fn write_notes(out: &mut Vec<u8>, notes: &Vec<crate::model::NoteNode>)
    requires
        forall|i: int|
            0 <= i < notes@.len() ==> crate::model::note_wf(
                #[trigger] crate::model::seq_view(notes@)[i],
            ),
    ensures
        final(out)@ == old(out)@ + enc_u64(notes@.len() as int) + enc_notes(
            crate::model::seq_view(notes@),
        ),
{
    write_u64(out, notes.len() as u64);
    let ghost m1 = out@;
    let ghost vs = crate::model::seq_view(notes@);
    let mut i: usize = 0;
    proof {
        assert(enc_notes(vs.take(0)) =~= Seq::<u8>::empty());
        assert(out@ =~= m1 + enc_notes(vs.take(0)));
    }
    while i < notes.len()
        invariant
            i <= notes@.len(),
            vs == crate::model::seq_view(notes@),
            forall|k: int|
                0 <= k < notes@.len() ==> crate::model::note_wf(
                    #[trigger] crate::model::seq_view(notes@)[k],
                ),
            out@ == m1 + enc_notes(vs.take(i as int)),
        decreases notes@.len() - i,
    {
        proof {
            assert(crate::model::note_wf(vs[i as int]));
        }
        write_note(out, &notes[i]);
        proof {
            assert(vs.take(i + 1) =~= vs.take(i as int).push(vs[i as int]));
            lemma_enc_notes_push(vs.take(i as int), vs[i as int]);
            assert(out@ =~= m1 + enc_notes(vs.take(i + 1)));
        }
        i = i + 1;
    }
    proof {
        assert(vs.take(vs.len() as int) =~= vs);
    }
}

/// Appends a code list with its count.
fn write_codes(out: &mut Vec<u8>, codes: &Vec<crate::model::CodeNode>)
    requires
        forall|i: int|
            0 <= i < codes@.len() ==> crate::model::code_wf(
                #[trigger] crate::model::seq_view(codes@)[i],
            ),
    ensures
        final(out)@ == old(out)@ + enc_u64(codes@.len() as int) + enc_codes(
            crate::model::seq_view(codes@),
        ),
{
    write_u64(out, codes.len() as u64);
    let ghost m1 = out@;
    let ghost vs = crate::model::seq_view(codes@);
    let mut i: usize = 0;
    proof {
        assert(enc_codes(vs.take(0)) =~= Seq::<u8>::empty());
        assert(out@ =~= m1 + enc_codes(vs.take(0)));
    }
    while i < codes.len()
        invariant
            i <= codes@.len(),
            vs == crate::model::seq_view(codes@),
            forall|k: int|
                0 <= k < codes@.len() ==> crate::model::code_wf(
                    #[trigger] crate::model::seq_view(codes@)[k],
                ),
            out@ == m1 + enc_codes(vs.take(i as int)),
        decreases codes@.len() - i,
    {
        proof {
            assert(crate::model::code_wf(vs[i as int]));
        }
        write_code(out, &codes[i]);
        proof {
            assert(vs.take(i + 1) =~= vs.take(i as int).push(vs[i as int]));
            lemma_enc_codes_push(vs.take(i as int), vs[i as int]);
            assert(out@ =~= m1 + enc_codes(vs.take(i + 1)));
        }
        i = i + 1;
    }
    proof {
        assert(vs.take(vs.len() as int) =~= vs);
    }
}

/// Appends a connection list with its count.
fn write_conns(out: &mut Vec<u8>, conns: &Vec<crate::model::Connection>)
    ensures
        final(out)@ == old(out)@ + enc_u64(conns@.len() as int) + enc_conns(conns@),
{
    write_u64(out, conns.len() as u64);
    let ghost m1 = out@;
    let mut i: usize = 0;
    proof {
        assert(enc_conns(conns@.take(0)) =~= Seq::<u8>::empty());
        assert(out@ =~= m1 + enc_conns(conns@.take(0)));
    }
    while i < conns.len()
        invariant
            i <= conns@.len(),
            out@ == m1 + enc_conns(conns@.take(i as int)),
        decreases conns@.len() - i,
    {
        write_conn(out, &conns[i]);
        proof {
            assert(conns@.take(i + 1) =~= conns@.take(i as int).push(conns@[i as int]));
            lemma_enc_conns_push(conns@.take(i as int), conns@[i as int]);
            assert(out@ =~= m1 + enc_conns(conns@.take(i + 1)));
        }
        i = i + 1;
    }
    proof {
        assert(conns@.take(conns@.len() as int) =~= conns@);
    }
}

/// Appends a stroke list with its count.
fn write_strokes(out: &mut Vec<u8>, strokes: &Vec<crate::model::Stroke>)
    requires
        forall|i: int|
            0 <= i < strokes@.len() ==> crate::model::stroke_wf(
                #[trigger] crate::model::seq_view(strokes@)[i],
            ),
    ensures
        final(out)@ == old(out)@ + enc_u64(strokes@.len() as int) + enc_strokes(
            crate::model::seq_view(strokes@),
        ),
{
    write_u64(out, strokes.len() as u64);
    let ghost m1 = out@;
    let ghost vs = crate::model::seq_view(strokes@);
    let mut i: usize = 0;
    proof {
        assert(enc_strokes(vs.take(0)) =~= Seq::<u8>::empty());
        assert(out@ =~= m1 + enc_strokes(vs.take(0)));
    }
    while i < strokes.len()
        invariant
            i <= strokes@.len(),
            vs == crate::model::seq_view(strokes@),
            forall|k: int|
                0 <= k < strokes@.len() ==> crate::model::stroke_wf(
                    #[trigger] crate::model::seq_view(strokes@)[k],
                ),
            out@ == m1 + enc_strokes(vs.take(i as int)),
        decreases strokes@.len() - i,
    {
        proof {
            assert(crate::model::stroke_wf(vs[i as int]));
        }
        write_stroke(out, &strokes[i]);
        proof {
            assert(vs.take(i + 1) =~= vs.take(i as int).push(vs[i as int]));
            lemma_enc_strokes_push(vs.take(i as int), vs[i as int]);
            assert(out@ =~= m1 + enc_strokes(vs.take(i + 1)));
        }
        i = i + 1;
    }
    proof {
        assert(vs.take(vs.len() as int) =~= vs);
    }
}

/// Appends a snapshot record.
#[verifier::rlimit(100)]
#[verifier::spinoff_prover]
pub fn write_snapshot(out: &mut Vec<u8>, v: &crate::model::Snapshot)
    requires
        crate::model::snapshot_wf(v@),
    ensures
        final(out)@ == old(out)@ + enc_snapshot(v@),
{
    write_notes(out, &v.notes);
    write_codes(out, &v.codes);
    write_conns(out, &v.connections);
    write_strokes(out, &v.strokes);
    write_i64(out, v.zoom);
    write_point(out, v.offset);
    proof {
        reveal(enc_snapshot);
        assert(final(out)@ =~= old(out)@ + enc_snapshot(v@));
    }
}


/// Prepends already-decoded elements to a decoder result.
pub open spec fn cons_decoded<T>(prefix: Seq<T>, r: Option<(Seq<T>, int)>) -> Option<
    (Seq<T>, int),
> {
    match r {
        Some((rest, p)) => Some((prefix + rest, p)),
        None => None,
    }
}

/// Reads a point.
fn read_point(s: &Vec<u8>, pos: usize) -> (r: Option<(crate::geom::Point, usize)>)
    ensures
        match r {
            Some((pt, p)) => dec_point(s@, pos as int) == Some((pt, p as int)) && pos < p
                <= s@.len(),
            None => dec_point(s@, pos as int) is None,
        },
{
    match read_i64(s, pos) {
        Some((x, p)) => match read_i64(s, p) {
            Some((y, p2)) => Some((crate::geom::Point { x, y }, p2)),
            None => None,
        },
        None => None,
    }
}

/// Reads a color.
fn read_color(s: &Vec<u8>, pos: usize) -> (r: Option<(crate::model::Color, usize)>)
    ensures
        match r {
            Some((c, p)) => dec_color(s@, pos as int) == Some((c, p as int)) && pos < p
                <= s@.len(),
            None => dec_color(s@, pos as int) is None,
        },
{
    match read_u64(s, pos) {
        Some((red, p1)) => match read_u64(s, p1) {
            Some((green, p2)) => match read_u64(s, p2) {
                Some((blue, p3)) => match read_u64(s, p3) {
                    Some((alpha, p4)) => {
                        if red <= 255 && green <= 255 && blue <= 255 && alpha <= 255 {
                            Some(
                                (
                                    crate::model::Color {
                                        red: red as u8,
                                        green: green as u8,
                                        blue: blue as u8,
                                        alpha: alpha as u8,
                                    },
                                    p4,
                                ),
                            )
                        } else {
                            None
                        }
                    },
                    None => None,
                },
                None => None,
            },
            None => None,
        },
        None => None,
    }
}

/// Reads a boolean token.
fn read_bool(s: &Vec<u8>, pos: usize) -> (r: Option<(bool, usize)>)
    ensures
        match r {
            Some((b, p)) => dec_bool(s@, pos as int) == Some((b, p as int)) && pos < p
                <= s@.len(),
            None => dec_bool(s@, pos as int) is None,
        },
{
    match read_u64(s, pos) {
        Some((n, p)) => {
            if n == 0 {
                Some((false, p))
            } else if n == 1 {
                Some((true, p))
            } else {
                None
            }
        },
        None => None,
    }
}

/// Reads a side token.
fn read_side(s: &Vec<u8>, pos: usize) -> (r: Option<(crate::geom::Side, usize)>)
    ensures
        match r {
            Some((side, p)) => dec_side(s@, pos as int) == Some((side, p as int)) && pos < p
                <= s@.len(),
            None => dec_side(s@, pos as int) is None,
        },
{
    match read_u64(s, pos) {
        Some((n, p)) => {
            if n == 0 {
                Some((crate::geom::Side::Top, p))
            } else if n == 1 {
                Some((crate::geom::Side::Bottom, p))
            } else if n == 2 {
                Some((crate::geom::Side::Left, p))
            } else if n == 3 {
                Some((crate::geom::Side::Right, p))
            } else {
                None
            }
        },
        None => None,
    }
}

/// Reads a node-kind token.
fn read_kind(s: &Vec<u8>, pos: usize) -> (r: Option<(crate::model::NodeKind, usize)>)
    ensures
        match r {
            Some((kind, p)) => dec_kind(s@, pos as int) == Some((kind, p as int)) && pos < p
                <= s@.len(),
            None => dec_kind(s@, pos as int) is None,
        },
{
    match read_u64(s, pos) {
        Some((n, p)) => {
            if n == 0 {
                Some((crate::model::NodeKind::Note, p))
            } else if n == 1 {
                Some((crate::model::NodeKind::Code, p))
            } else {
                None
            }
        },
        None => None,
    }
}

/// Reads an optional line number.
fn read_opt_usize(s: &Vec<u8>, pos: usize) -> (r: Option<(Option<usize>, usize)>)
    ensures
        match r {
            Some((o, p)) => dec_opt_usize(s@, pos as int) == Some((o, p as int)) && pos < p
                <= s@.len(),
            None => dec_opt_usize(s@, pos as int) is None,
        },
{
    match read_u64(s, pos) {
        Some((flag, p)) => {
            if flag == 0 {
                Some((None, p))
            } else if flag == 1 {
                match read_u64(s, p) {
                    Some((v, p2)) => {
                        if v <= usize::MAX as u64 {
                            Some((Some(v as usize), p2))
                        } else {
                            None
                        }
                    },
                    None => None,
                }
            } else {
                None
            }
        },
        None => None,
    }
}

/// Reads a note record.
fn read_note(s: &Vec<u8>, pos: usize) -> (r: Option<(crate::model::NoteNode, usize)>)
    ensures
        match r {
            Some((n, p)) => dec_note(s@, pos as int) == Some((n@, p as int)) && pos < p
                <= s@.len(),
            None => dec_note(s@, pos as int) is None,
        },
{
    match read_u64(s, pos) {
        Some((id, p1)) => {
            if id > usize::MAX as u64 {
                return None;
            }
            match read_point(s, p1) {
                Some((position, p2)) => match read_point(s, p2) {
                    Some((size, p3)) => match read_bytes(s, p3) {
                        Some((text, p4)) => match read_bool(s, p4) {
                            Some((dragging, p5)) => match read_bool(s, p5) {
                                Some((locked, p6)) => Some(
                                    (
                                        crate::model::NoteNode {
                                            id: id as usize,
                                            position,
                                            size,
                                            text,
                                            dragging,
                                            locked,
                                        },
                                        p6,
                                    ),
                                ),
                                None => None,
                            },
                            None => None,
                        },
                        None => None,
                    },
                    None => None,
                },
                None => None,
            }
        },
        None => None,
    }
}

/// Reads a code record.
fn read_code(s: &Vec<u8>, pos: usize) -> (r: Option<(crate::model::CodeNode, usize)>)
    ensures
        match r {
            Some((c, p)) => dec_code(s@, pos as int) == Some((c@, p as int)) && pos < p
                <= s@.len(),
            None => dec_code(s@, pos as int) is None,
        },
{
    match read_u64(s, pos) {
        Some((id, p1)) => {
            if id > usize::MAX as u64 {
                return None;
            }
            match read_point(s, p1) {
                Some((position, p2)) => match read_point(s, p2) {
                    Some((size, p3)) => match read_bytes(s, p3) {
                        Some((file_path, p4)) => match read_bytes(s, p4) {
                            Some((code, p5)) => match read_bool(s, p5) {
                                Some((dragging, p6)) => match read_bool(s, p6) {
                                    Some((locked, p7)) => match read_opt_usize(s, p7) {
                                        Some((line_offset, p8)) => Some(
                                            (
                                                crate::model::CodeNode {
                                                    id: id as usize,
                                                    position,
                                                    size,
                                                    file_path,
                                                    code,
                                                    dragging,
                                                    locked,
                                                    line_offset,
                                                },
                                                p8,
                                            ),
                                        ),
                                        None => None,
                                    },
                                    None => None,
                                },
                                None => None,
                            },
                            None => None,
                        },
                        None => None,
                    },
                    None => None,
                },
                None => None,
            }
        },
        None => None,
    }
}

/// Reads a connection record.
fn read_conn(s: &Vec<u8>, pos: usize) -> (r: Option<(crate::model::Connection, usize)>)
    ensures
        match r {
            Some((c, p)) => dec_conn(s@, pos as int) == Some((c, p as int)) && pos < p
                <= s@.len(),
            None => dec_conn(s@, pos as int) is None,
        },
{
    match read_u64(s, pos) {
        Some((id, p1)) => {
            if id > usize::MAX as u64 {
                return None;
            }
            match read_u64(s, p1) {
                Some((sid, p2)) => {
                    if sid > usize::MAX as u64 {
                        return None;
                    }
                    match read_kind(s, p2) {
                        Some((skind, p3)) => match read_side(s, p3) {
                            Some((sside, p4)) => match read_u64(s, p4) {
                                Some((eid, p5)) => {
                                    if eid > usize::MAX as u64 {
                                        return None;
                                    }
                                    match read_kind(s, p5) {
                                        Some((ekind, p6)) => match read_side(s, p6) {
                                            Some((eside, p7)) => match read_color(s, p7) {
                                                Some((color, p8)) => Some(
                                                    (
                                                        crate::model::Connection {
                                                            id: id as usize,
                                                            start_node_id: sid as usize,
                                                            start_node_kind: skind,
                                                            start_side: sside,
                                                            end_node_id: eid as usize,
                                                            end_node_kind: ekind,
                                                            end_side: eside,
                                                            color,
                                                        },
                                                        p8,
                                                    ),
                                                ),
                                                None => None,
                                            },
                                            None => None,
                                        },
                                        None => None,
                                    }
                                },
                                None => None,
                            },
                            None => None,
                        },
                        None => None,
                    }
                },
                None => None,
            }
        },
        None => None,
    }
}

/// Reads `count` points.
fn read_points(s: &Vec<u8>, pos: usize, count: u64) -> (r: Option<(Vec<crate::geom::Point>, usize)>)
    requires
        pos <= s@.len(),
    ensures
        match r {
            Some((v, p)) => dec_points(s@, pos as int, count as int) == Some((v@, p as int))
                && pos <= p <= s@.len(),
            None => dec_points(s@, pos as int, count as int) is None,
        },
{
    let mut out: Vec<crate::geom::Point> = Vec::new();
    let mut i: u64 = 0;
    let mut p: usize = pos;
    while i < count
        invariant
            i <= count,
            pos <= p <= s@.len(),
            dec_points(s@, pos as int, count as int) == cons_decoded(
                out@,
                dec_points(s@, p as int, count as int - i as int),
            ),
        decreases count - i,
    {
        let ghost pre = out@;
        match read_point(s, p) {
            Some((pt, p2)) => {
                out.push(pt);
                proof {
                    let tail = dec_points(s@, p2 as int, count as int - i as int - 1);
                    match tail {
                        Some((rest, pe)) => {
                            assert(out@ + rest =~= pre + (seq![pt] + rest));
                        },
                        None => {},
                    }
                }
                p = p2;
            },
            None => {
                return None;
            },
        }
        i = i + 1;
    }
    proof {
        assert(out@ + Seq::<crate::geom::Point>::empty() =~= out@);
    }
    Some((out, p))
}

/// Reads a stroke record.
fn read_stroke(s: &Vec<u8>, pos: usize) -> (r: Option<(crate::model::Stroke, usize)>)
    requires
        pos <= s@.len(),
    ensures
        match r {
            Some((st, p)) => dec_stroke(s@, pos as int) == Some((st@, p as int)) && pos <= p
                <= s@.len(),
            None => dec_stroke(s@, pos as int) is None,
        },
{
    match read_u64(s, pos) {
        Some((count, p1)) => {
            if count > usize::MAX as u64 {
                return None;
            }
            match read_points(s, p1, count) {
                Some((points, p2)) => match read_color(s, p2) {
                    Some((color, p3)) => match read_i64(s, p3) {
                        Some((thickness, p4)) => Some(
                            (crate::model::Stroke { points, color, thickness }, p4),
                        ),
                        None => None,
                    },
                    None => None,
                },
                None => None,
            }
        },
        None => None,
    }
}


/// Reads `count` notes.
fn read_notes(s: &Vec<u8>, pos: usize, count: u64) -> (r: Option<(Vec<crate::model::NoteNode>, usize)>)
    requires
        pos <= s@.len(),
    ensures
        match r {
            Some((v, p)) => dec_notes(s@, pos as int, count as int) == Some((crate::model::seq_view(v@), p as int))
                && pos <= p <= s@.len(),
            None => dec_notes(s@, pos as int, count as int) is None,
        },
{
    let mut out: Vec<crate::model::NoteNode> = Vec::new();
    let mut i: u64 = 0;
    let mut p: usize = pos;
    proof {
        assert(crate::model::seq_view(out@) =~= Seq::empty());
    }
    while i < count
        invariant
            i <= count,
            pos <= p <= s@.len(),
            dec_notes(s@, pos as int, count as int) == cons_decoded(
                crate::model::seq_view(out@),
                dec_notes(s@, p as int, count as int - i as int),
            ),
        decreases count - i,
    {
        let ghost pre = crate::model::seq_view(out@);
        match read_note(s, p) {
            Some((el, p2)) => {
                let ghost elv = el@;
                out.push(el);
                proof {
                    assert(crate::model::seq_view(out@) =~= pre.push(elv));
                    let tail = dec_notes(s@, p2 as int, count as int - i as int - 1);
                    match tail {
                        Some((rest, pe)) => {
                            assert(pre.push(elv) + rest =~= pre + (seq![elv] + rest));
                        },
                        None => {},
                    }
                }
                p = p2;
            },
            None => {
                return None;
            },
        }
        i = i + 1;
    }
    proof {
        assert(crate::model::seq_view(out@) + Seq::empty() =~= crate::model::seq_view(out@));
    }
    Some((out, p))
}

/// Reads `count` codes.
fn read_codes(s: &Vec<u8>, pos: usize, count: u64) -> (r: Option<(Vec<crate::model::CodeNode>, usize)>)
    requires
        pos <= s@.len(),
    ensures
        match r {
            Some((v, p)) => dec_codes(s@, pos as int, count as int) == Some((crate::model::seq_view(v@), p as int))
                && pos <= p <= s@.len(),
            None => dec_codes(s@, pos as int, count as int) is None,
        },
{
    let mut out: Vec<crate::model::CodeNode> = Vec::new();
    let mut i: u64 = 0;
    let mut p: usize = pos;
    proof {
        assert(crate::model::seq_view(out@) =~= Seq::empty());
    }
    while i < count
        invariant
            i <= count,
            pos <= p <= s@.len(),
            dec_codes(s@, pos as int, count as int) == cons_decoded(
                crate::model::seq_view(out@),
                dec_codes(s@, p as int, count as int - i as int),
            ),
        decreases count - i,
    {
        let ghost pre = crate::model::seq_view(out@);
        match read_code(s, p) {
            Some((el, p2)) => {
                let ghost elv = el@;
                out.push(el);
                proof {
                    assert(crate::model::seq_view(out@) =~= pre.push(elv));
                    let tail = dec_codes(s@, p2 as int, count as int - i as int - 1);
                    match tail {
                        Some((rest, pe)) => {
                            assert(pre.push(elv) + rest =~= pre + (seq![elv] + rest));
                        },
                        None => {},
                    }
                }
                p = p2;
            },
            None => {
                return None;
            },
        }
        i = i + 1;
    }
    proof {
        assert(crate::model::seq_view(out@) + Seq::empty() =~= crate::model::seq_view(out@));
    }
    Some((out, p))
}

/// Reads `count` strokes.
fn read_strokes(s: &Vec<u8>, pos: usize, count: u64) -> (r: Option<(Vec<crate::model::Stroke>, usize)>)
    requires
        pos <= s@.len(),
    ensures
        match r {
            Some((v, p)) => dec_strokes(s@, pos as int, count as int) == Some((crate::model::seq_view(v@), p as int))
                && pos <= p <= s@.len(),
            None => dec_strokes(s@, pos as int, count as int) is None,
        },
{
    let mut out: Vec<crate::model::Stroke> = Vec::new();
    let mut i: u64 = 0;
    let mut p: usize = pos;
    proof {
        assert(crate::model::seq_view(out@) =~= Seq::empty());
    }
    while i < count
        invariant
            i <= count,
            pos <= p <= s@.len(),
            dec_strokes(s@, pos as int, count as int) == cons_decoded(
                crate::model::seq_view(out@),
                dec_strokes(s@, p as int, count as int - i as int),
            ),
        decreases count - i,
    {
        let ghost pre = crate::model::seq_view(out@);
        match read_stroke(s, p) {
            Some((el, p2)) => {
                let ghost elv = el@;
                out.push(el);
                proof {
                    assert(crate::model::seq_view(out@) =~= pre.push(elv));
                    let tail = dec_strokes(s@, p2 as int, count as int - i as int - 1);
                    match tail {
                        Some((rest, pe)) => {
                            assert(pre.push(elv) + rest =~= pre + (seq![elv] + rest));
                        },
                        None => {},
                    }
                }
                p = p2;
            },
            None => {
                return None;
            },
        }
        i = i + 1;
    }
    proof {
        assert(crate::model::seq_view(out@) + Seq::empty() =~= crate::model::seq_view(out@));
    }
    Some((out, p))
}

/// Reads `count` connection records.
fn read_conns(s: &Vec<u8>, pos: usize, count: u64) -> (r: Option<
    (Vec<crate::model::Connection>, usize),
>)
    requires
        pos <= s@.len(),
    ensures
        match r {
            Some((v, p)) => dec_conns(s@, pos as int, count as int) == Some((v@, p as int))
                && pos <= p <= s@.len(),
            None => dec_conns(s@, pos as int, count as int) is None,
        },
{
    let mut out: Vec<crate::model::Connection> = Vec::new();
    let mut i: u64 = 0;
    let mut p: usize = pos;
    while i < count
        invariant
            i <= count,
            pos <= p <= s@.len(),
            dec_conns(s@, pos as int, count as int) == cons_decoded(
                out@,
                dec_conns(s@, p as int, count as int - i as int),
            ),
        decreases count - i,
    {
        let ghost pre = out@;
        match read_conn(s, p) {
            Some((el, p2)) => {
                out.push(el);
                proof {
                    let tail = dec_conns(s@, p2 as int, count as int - i as int - 1);
                    match tail {
                        Some((rest, pe)) => {
                            assert(out@ + rest =~= pre + (seq![el] + rest));
                        },
                        None => {},
                    }
                }
                p = p2;
            },
            None => {
                return None;
            },
        }
        i = i + 1;
    }
    proof {
        assert(out@ + Seq::<crate::model::Connection>::empty() =~= out@);
    }
    Some((out, p))
}

/// Reads a snapshot record.
#[verifier::rlimit(100)]
#[verifier::spinoff_prover]
pub fn read_snapshot(s: &Vec<u8>, pos: usize) -> (r: Option<(crate::model::Snapshot, usize)>)
    requires
        pos <= s@.len(),
    ensures
        match r {
            Some((v, p)) => dec_snapshot(s@, pos as int) == Some((v@, p as int)) && pos <= p
                <= s@.len(),
            None => dec_snapshot(s@, pos as int) is None,
        },
{
    proof {
        reveal(dec_snapshot);
    }
    match read_u64(s, pos) {
        Some((nn, p1)) => {
            if nn > usize::MAX as u64 {
                return None;
            }
            match read_notes(s, p1, nn) {
                Some((notes, p2)) => match read_u64(s, p2) {
                    Some((nc, p3)) => {
                        if nc > usize::MAX as u64 {
                            return None;
                        }
                        match read_codes(s, p3, nc) {
                            Some((codes, p4)) => match read_u64(s, p4) {
                                Some((nco, p5)) => {
                                    if nco > usize::MAX as u64 {
                                        return None;
                                    }
                                    match read_conns(s, p5, nco) {
                                        Some((connections, p6)) => match read_u64(s, p6) {
                                            Some((ns, p7)) => {
                                                if ns > usize::MAX as u64 {
                                                    return None;
                                                }
                                                match read_strokes(s, p7, ns) {
                                                    Some((strokes, p8)) => match read_i64(
                                                        s,
                                                        p8,
                                                    ) {
                                                        Some((zoom, p9)) => match read_point(
                                                            s,
                                                            p9,
                                                        ) {
                                                            Some((offset, p10)) => Some(
                                                                (
                                                                    crate::model::Snapshot {
                                                                        notes,
                                                                        codes,
                                                                        connections,
                                                                        strokes,
                                                                        zoom,
                                                                        offset,
                                                                    },
                                                                    p10,
                                                                ),
                                                            ),
                                                            None => None,
                                                        },
                                                        None => None,
                                                    },
                                                    None => None,
                                                }
                                            },
                                            None => None,
                                        },
                                        None => None,
                                    }
                                },
                                None => None,
                            },
                            None => None,
                        }
                    },
                    None => None,
                },
                None => None,
            }
        },
        None => None,
    }
}

/// Reads `count` snapshot records.
fn read_snapshot_list(s: &Vec<u8>, pos: usize, count: u64) -> (r: Option<
    (Vec<crate::model::Snapshot>, usize),
>)
    requires
        pos <= s@.len(),
    ensures
        match r {
            Some((v, p)) => dec_snapshots(s@, pos as int, count as int) == Some(
                (crate::model::seq_view(v@), p as int),
            ) && pos <= p <= s@.len(),
            None => dec_snapshots(s@, pos as int, count as int) is None,
        },
{
    let mut out: Vec<crate::model::Snapshot> = Vec::new();
    let mut i: u64 = 0;
    let mut p: usize = pos;
    proof {
        assert(crate::model::seq_view(out@) =~= Seq::empty());
    }
    while i < count
        invariant
            i <= count,
            pos <= p <= s@.len(),
            dec_snapshots(s@, pos as int, count as int) == cons_decoded(
                crate::model::seq_view(out@),
                dec_snapshots(s@, p as int, count as int - i as int),
            ),
        decreases count - i,
    {
        let ghost pre = crate::model::seq_view(out@);
        match read_snapshot(s, p) {
            Some((el, p2)) => {
                let ghost elv = el@;
                out.push(el);
                proof {
                    assert(crate::model::seq_view(out@) =~= pre.push(elv));
                    let tail = dec_snapshots(s@, p2 as int, count as int - i as int - 1);
                    match tail {
                        Some((rest, pe)) => {
                            assert(pre.push(elv) + rest =~= pre + (seq![elv] + rest));
                        },
                        None => {},
                    }
                }
                p = p2;
            },
            None => {
                return None;
            },
        }
        i = i + 1;
    }
    proof {
        assert(crate::model::seq_view(out@) + Seq::empty() =~= crate::model::seq_view(out@));
    }
    Some((out, p))
}

/// A whole persisted document: both history stacks plus the live snapshot.
#[derive(PartialEq, Eq, Debug)]
pub struct DocumentHistory {
    pub undo_stack: Vec<crate::model::Snapshot>,
    pub redo_stack: Vec<crate::model::Snapshot>,
    pub current: crate::model::Snapshot,
}

impl View for DocumentHistory {
    type V = crate::history::HistV;

    open spec fn view(&self) -> crate::history::HistV {
        crate::history::HistV {
            undo: crate::model::seq_view(self.undo_stack@),
            redo: crate::model::seq_view(self.redo_stack@),
            current: self.current@,
        }
    }
}

/// Every snapshot of a document, stacked or live, is well-formed.
pub open spec fn history_wf(h: crate::history::HistV) -> bool {
    &&& forall|i: int| 0 <= i < h.undo.len() ==> crate::model::snapshot_wf(#[trigger] h.undo[i])
    &&& forall|i: int| 0 <= i < h.redo.len() ==> crate::model::snapshot_wf(#[trigger] h.redo[i])
    &&& crate::model::snapshot_wf(h.current)
}

/// Appends a snapshot stack with its count.
fn write_snapshot_stack(out: &mut Vec<u8>, vs: &Vec<crate::model::Snapshot>)
    requires
        forall|i: int|
            0 <= i < vs@.len() ==> crate::model::snapshot_wf(
                #[trigger] crate::model::seq_view(vs@)[i],
            ),
    ensures
        final(out)@ == old(out)@ + enc_u64(vs@.len() as int) + enc_snapshots(
            crate::model::seq_view(vs@),
        ),
{
    write_u64(out, vs.len() as u64);
    let ghost m1 = out@;
    let ghost views = crate::model::seq_view(vs@);
    let mut i: usize = 0;
    proof {
        assert(enc_snapshots(views.take(0)) =~= Seq::<u8>::empty());
        assert(out@ =~= m1 + enc_snapshots(views.take(0)));
    }
    while i < vs.len()
        invariant
            i <= vs@.len(),
            views == crate::model::seq_view(vs@),
            forall|k: int|
                0 <= k < vs@.len() ==> crate::model::snapshot_wf(
                    #[trigger] crate::model::seq_view(vs@)[k],
                ),
            out@ == m1 + enc_snapshots(views.take(i as int)),
        decreases vs@.len() - i,
    {
        proof {
            assert(crate::model::snapshot_wf(views[i as int]));
        }
        write_snapshot(out, &vs[i]);
        proof {
            assert(views.take(i + 1) =~= views.take(i as int).push(views[i as int]));
            lemma_enc_snapshots_push(views.take(i as int), views[i as int]);
            assert(out@ =~= m1 + enc_snapshots(views.take(i + 1)));
        }
        i = i + 1;
    }
    proof {
        assert(views.take(views.len() as int) =~= views);
    }
}

/// Serializes a whole document history to its textual form.
#[verifier::rlimit(100)]
#[verifier::spinoff_prover]
pub fn serialize_history(h: &DocumentHistory) -> (r: Vec<u8>)
    requires
        history_wf(h@),
    ensures
        r@ == enc_history(h@),
{
    let mut out: Vec<u8> = Vec::new();
    proof {
        assert forall|i: int| 0 <= i < h.undo_stack@.len() implies crate::model::snapshot_wf(
            #[trigger] crate::model::seq_view(h.undo_stack@)[i],
        ) by {
            assert(crate::model::snapshot_wf(h@.undo[i]));
        }
        assert forall|i: int| 0 <= i < h.redo_stack@.len() implies crate::model::snapshot_wf(
            #[trigger] crate::model::seq_view(h.redo_stack@)[i],
        ) by {
            assert(crate::model::snapshot_wf(h@.redo[i]));
        }
    }
    write_u64(&mut out, 1);
    write_snapshot_stack(&mut out, &h.undo_stack);
    write_snapshot_stack(&mut out, &h.redo_stack);
    proof {
        assert(crate::model::snapshot_wf(h@.current));
    }
    write_snapshot(&mut out, &h.current);
    proof {
        assert(out@ =~= enc_history(h@));
    }
    out
}

/// Parses a textual document back into a history; `None` on any malformed,
/// truncated or trailing input.
#[verifier::rlimit(100)]
#[verifier::spinoff_prover]
pub fn deserialize_history(s: &Vec<u8>) -> (r: Option<DocumentHistory>)
    ensures
        match r {
            Some(h) => dec_history(s@) == Some(h@),
            None => dec_history(s@) is None,
        },
{
    match read_u64(s, 0) {
        Some((version, p0)) => {
            if version != 1 {
                return None;
            }
            match read_u64(s, p0) {
                Some((nu, p1)) => {
                    if nu > usize::MAX as u64 {
                        return None;
                    }
                    match read_snapshot_list(s, p1, nu) {
                        Some((undo_stack, p2)) => match read_u64(s, p2) {
                            Some((nr, p3)) => {
                                if nr > usize::MAX as u64 {
                                    return None;
                                }
                                match read_snapshot_list(s, p3, nr) {
                                    Some((redo_stack, p4)) => match read_snapshot(s, p4) {
                                        Some((current, p5)) => {
                                            if p5 == s.len() {
                                                Some(
                                                    DocumentHistory {
                                                        undo_stack,
                                                        redo_stack,
                                                        current,
                                                    },
                                                )
                                            } else {
                                                None
                                            }
                                        },
                                        None => None,
                                    },
                                    None => None,
                                }
                            },
                            None => None,
                        },
                        None => None,
                    }
                },
                None => None,
            }
        },
        None => None,
    }
}

} // verus!
