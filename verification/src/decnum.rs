//! Canonical decimal notation for unsigned integers, over ASCII bytes.
//!
//! `dec_bytes` is the canonical form: no sign, no leading zero, at least one
//! digit.  The writer emits exactly that form and the reader accepts exactly
//! that form, so writing and reading invert each other.

use vstd::prelude::*;

verus! {

/// An ASCII digit byte, `0`-`9`.
pub open spec fn is_digit_byte(b: u8) -> bool {
    48 <= b <= 57
}

/// The canonical decimal notation of `n`.
pub open spec fn dec_bytes(n: nat) -> Seq<u8>
    decreases n,
{
    if n < 10 {
        seq![(n + 48) as u8]
    } else {
        dec_bytes(n / 10).push((n % 10 + 48) as u8)
    }
}

/// The value of a digit string, read most-significant first.
pub open spec fn dec_val(s: Seq<u8>) -> nat
    decreases s.len(),
{
    if s.len() == 0 {
        0
    } else {
        dec_val(s.drop_last()) * 10 + ((s.last() - 48) as nat)
    }
}

/// A non-empty all-digit string without a leading zero.
pub open spec fn canonical_digits(s: Seq<u8>) -> bool {
    &&& s.len() > 0
    &&& forall|i: int| 0 <= i < s.len() ==> is_digit_byte(#[trigger] s[i])
    &&& (s.len() > 1 ==> s[0] != 48)
}

pub proof fn lemma_dec_bytes_digits(n: nat)
    ensures
        canonical_digits(dec_bytes(n)),
        n >= 10 ==> dec_bytes(n)[0] != 48,
        n < 10 ==> dec_bytes(n) =~= seq![(n + 48) as u8],
    decreases n,
{
    if n >= 10 {
        lemma_dec_bytes_digits(n / 10);
    }
}

/// Reading back what was written yields the value written.
pub proof fn lemma_dec_val_of_dec_bytes(n: nat)
    ensures
        dec_val(dec_bytes(n)) == n,
    decreases n,
{
    if n < 10 {
        let s = dec_bytes(n);
        assert(s =~= seq![(n + 48) as u8]);
        assert(s.drop_last() =~= Seq::<u8>::empty());
        assert(dec_val(s) == dec_val(s.drop_last()) * 10 + ((s.last() - 48) as nat));
        assert(dec_val(s.drop_last()) == 0);
        assert(s.last() == (n + 48) as u8);
    } else {
        lemma_dec_val_of_dec_bytes(n / 10);
        let s = dec_bytes(n);
        assert(s == dec_bytes(n / 10).push((n % 10 + 48) as u8));
        assert(s.drop_last() =~= dec_bytes(n / 10));
        assert(s.last() == (n % 10 + 48) as u8);
        assert(dec_val(s) == dec_val(s.drop_last()) * 10 + ((s.last() - 48) as nat));
        assert(n / 10 * 10 + n % 10 == n) by (nonlinear_arith);
    }
}

pub proof fn lemma_dec_val_positive(s: Seq<u8>)
    requires
        s.len() > 0,
        forall|i: int| 0 <= i < s.len() ==> is_digit_byte(#[trigger] s[i]),
        s[0] != 48,
    ensures
        dec_val(s) > 0,
    decreases s.len(),
{
    if s.len() > 1 {
        lemma_dec_val_positive(s.drop_last());
    }
}

/// Writing back what was read yields the string read: canonical digit
/// strings are in the image of `dec_bytes`.
pub proof fn lemma_dec_bytes_of_dec_val(s: Seq<u8>)
    requires
        canonical_digits(s),
    ensures
        dec_bytes(dec_val(s)) =~= s,
    decreases s.len(),
{
    if s.len() == 1 {
        assert(s.drop_last() =~= Seq::<u8>::empty());
        assert(dec_val(Seq::<u8>::empty()) == 0);
        assert(dec_val(s) == dec_val(s.drop_last()) * 10 + ((s.last() - 48) as nat));
        assert(dec_val(s) == (s.last() - 48) as nat);
        assert(dec_bytes(dec_val(s)) =~= seq![(dec_val(s) + 48) as u8]);
    } else {
        let p = s.drop_last();
        assert(canonical_digits(p));
        lemma_dec_bytes_of_dec_val(p);
        lemma_dec_val_positive(p);
        assert(dec_val(s) == dec_val(p) * 10 + (s.last() - 48));
        assert(dec_val(s) / 10 == dec_val(p)) by (nonlinear_arith)
            requires
                dec_val(s) == dec_val(p) * 10 + (s.last() - 48),
                0 <= s.last() - 48 < 10,
        ;
        assert(dec_val(s) % 10 == s.last() - 48) by (nonlinear_arith)
            requires
                dec_val(s) == dec_val(p) * 10 + (s.last() - 48),
                0 <= s.last() - 48 < 10,
        ;
        assert(dec_val(s) >= 10) by (nonlinear_arith)
            requires
                dec_val(s) == dec_val(p) * 10 + (s.last() - 48),
                dec_val(p) > 0,
                s.last() >= 48,
        ;
        assert(dec_bytes(dec_val(s)) =~= dec_bytes(dec_val(p)).push((dec_val(s) % 10 + 48) as u8));
    }
}

/// Appends the canonical decimal notation of `n` to `out`.
pub fn push_dec(out: &mut Vec<u8>, n: u64)
    ensures
        final(out)@ == old(out)@ + dec_bytes(n as nat),
    decreases n,
{
    if n >= 10 {
        push_dec(out, n / 10);
        out.push((n % 10) as u8 + 48);
        assert(out@ =~= old(out)@ + dec_bytes(n as nat));
    } else {
        out.push(n as u8 + 48);
        assert(out@ =~= old(out)@ + dec_bytes(n as nat));
    }
}

/// The end of the maximal digit run starting at `pos`.
pub open spec fn digit_run_end(v: Seq<u8>, pos: int) -> int
    decreases v.len() - pos,
{
    if pos < 0 || pos >= v.len() {
        pos
    } else if is_digit_byte(v[pos]) {
        digit_run_end(v, pos + 1)
    } else {
        pos
    }
}

pub proof fn lemma_digit_run_end(v: Seq<u8>, pos: int)
    requires
        0 <= pos <= v.len(),
    ensures
        pos <= digit_run_end(v, pos) <= v.len(),
        forall|i: int| pos <= i < digit_run_end(v, pos) ==> is_digit_byte(#[trigger] v[i]),
        digit_run_end(v, pos) < v.len() ==> !is_digit_byte(v[digit_run_end(v, pos)]),
    decreases v.len() - pos,
{
    if pos < v.len() && is_digit_byte(v[pos]) {
        lemma_digit_run_end(v, pos + 1);
    }
}

/// A digit run is bounded by any non-digit, so a canonical notation laid
/// down at `pos` with a non-digit (or the end) after it is exactly the
/// maximal run.
pub proof fn lemma_digit_run_exact(v: Seq<u8>, pos: int, d: Seq<u8>)
    requires
        0 <= pos,
        pos + d.len() <= v.len(),
        v.subrange(pos, pos + d.len()) =~= d,
        forall|i: int| 0 <= i < d.len() ==> is_digit_byte(#[trigger] d[i]),
        pos + d.len() == v.len() || !is_digit_byte(v[pos + d.len()]),
    ensures
        digit_run_end(v, pos) == pos + d.len(),
    decreases d.len(),
{
    if d.len() == 0 {
    } else {
        assert(v[pos] == d[0]);
        assert(v.subrange(pos + 1, pos + 1 + d.drop_first().len()) =~= d.drop_first());
        lemma_digit_run_exact(v, pos + 1, d.drop_first());
    }
}

/// Reads a canonical decimal `u64` at `pos`: the maximal digit run must be
/// non-empty, carry no leading zero, and fit in a `u64`.
pub fn parse_dec(v: &Vec<u8>, pos: usize) -> (r: Option<(u64, usize)>)
    requires
        pos <= v@.len(),
    ensures
        r matches Some(p) ==> {
            &&& pos < p.1 <= v@.len()
            &&& v@.subrange(pos as int, p.1 as int) =~= dec_bytes(p.0 as nat)
            &&& p.1 == digit_run_end(v@, pos as int)
        },
        forall|x: u64|
            (pos + dec_bytes(x as nat).len() <= v@.len()
                && v@.subrange(pos as int, pos + dec_bytes(x as nat).len() as int) =~= dec_bytes(
                x as nat,
            ) && (pos + dec_bytes(x as nat).len() == v@.len() || !is_digit_byte(
                v@[pos + dec_bytes(x as nat).len()],
            ))) ==> (r matches Some(p) && p.0 == x && p.1 == pos + dec_bytes(x as nat).len()),
{
    proof {
        lemma_digit_run_end(v@, pos as int);
    }
    let ghost run_end: int = digit_run_end(v@, pos as int);
    let len = v.len();
    let mut i: usize = pos;
    let mut value: u64 = 0;
    let mut overflow = false;
    while i < len && 48 <= v[i] && v[i] <= 57
        invariant
            pos <= i <= len,
            len == v@.len(),
            run_end == digit_run_end(v@, pos as int),
            pos <= run_end <= len,
            forall|k: int| pos <= k < run_end ==> is_digit_byte(#[trigger] v@[k]),
            run_end < len ==> !is_digit_byte(v@[run_end]),
            i <= run_end,
            i < run_end ==> is_digit_byte(v@[i as int]),
            !overflow ==> value == dec_val(v@.subrange(pos as int, i as int)),
            overflow ==> dec_val(v@.subrange(pos as int, i as int)) > u64::MAX,
            i == run_end || (i < run_end),
            pos < i || i == pos,
            i > pos || (value == 0 && !overflow),
        decreases len - i,
    {
        proof {
            lemma_digit_run_end(v@, i as int);
            assert(digit_run_end(v@, pos as int) == digit_run_end(v@, i as int)) by {
                lemma_digit_run_extends(v@, pos as int, i as int);
            }
        }
        let b = v[i];
        let d = b - 48;
        proof {
            assert(v@.subrange(pos as int, i + 1 as int).drop_last() =~= v@.subrange(
                pos as int,
                i as int,
            ));
            assert(v@.subrange(pos as int, i + 1 as int).last() == v@[i as int]);
        }
        if !overflow {
            if value > (u64::MAX - d as u64) / 10 {
                proof {
                    let sold = v@.subrange(pos as int, i as int);
                    let snew = v@.subrange(pos as int, i + 1 as int);
                    assert(dec_val(snew) == dec_val(sold) * 10 + d);
                    assert(dec_val(sold) * 10 + d > u64::MAX) by (nonlinear_arith)
                        requires
                            dec_val(sold) == value,
                            value > (u64::MAX - d as u64) / 10,
                            0 <= d <= 9,
                    ;
                }
                overflow = true;
            } else {
                proof {
                    let sold = v@.subrange(pos as int, i as int);
                    let snew = v@.subrange(pos as int, i + 1 as int);
                    assert(dec_val(snew) == dec_val(sold) * 10 + d);
                    assert(value * 10 + d <= u64::MAX) by (nonlinear_arith)
                        requires
                            value <= (u64::MAX - d as u64) / 10,
                            0 <= d <= 9,
                    ;
                }
                value = value * 10 + d as u64;
            }
        } else {
            proof {
                let sold = v@.subrange(pos as int, i as int);
                let snew = v@.subrange(pos as int, i + 1 as int);
                assert(dec_val(snew) == dec_val(sold) * 10 + d);
                assert(dec_val(sold) * 10 + d > u64::MAX) by (nonlinear_arith)
                    requires
                        dec_val(sold) > u64::MAX,
                        d >= 0,
                ;
            }
        }
        i = i + 1;
    }
    proof {
        assert(i == run_end);
    }
    let ghost run = v@.subrange(pos as int, run_end);
    if i == pos {
        // no digit at all: no canonical notation can start here
        proof {
            assert forall|x: u64|
                !(pos + dec_bytes(x as nat).len() <= v@.len() && v@.subrange(
                    pos as int,
                    pos + dec_bytes(x as nat).len() as int,
                ) =~= dec_bytes(x as nat) && (pos + dec_bytes(x as nat).len() == v@.len()
                    || !is_digit_byte(v@[pos + dec_bytes(x as nat).len()]))) by {
                lemma_dec_bytes_digits(x as nat);
                if pos + dec_bytes(x as nat).len() <= v@.len() && v@.subrange(
                    pos as int,
                    pos + dec_bytes(x as nat).len() as int,
                ) =~= dec_bytes(x as nat) && (pos + dec_bytes(x as nat).len() == v@.len()
                    || !is_digit_byte(v@[pos + dec_bytes(x as nat).len()])) {
                    lemma_digit_run_exact(v@, pos as int, dec_bytes(x as nat));
                }
            }
        }
        return None;
    }
    if overflow || (i > pos + 1 && v[pos] == 48) {
        // too large for u64, or a leading zero: not canonical
        proof {
            assert forall|x: u64|
                !(pos + dec_bytes(x as nat).len() <= v@.len() && v@.subrange(
                    pos as int,
                    pos + dec_bytes(x as nat).len() as int,
                ) =~= dec_bytes(x as nat) && (pos + dec_bytes(x as nat).len() == v@.len()
                    || !is_digit_byte(v@[pos + dec_bytes(x as nat).len()]))) by {
                lemma_dec_bytes_digits(x as nat);
                if pos + dec_bytes(x as nat).len() <= v@.len() && v@.subrange(
                    pos as int,
                    pos + dec_bytes(x as nat).len() as int,
                ) =~= dec_bytes(x as nat) && (pos + dec_bytes(x as nat).len() == v@.len()
                    || !is_digit_byte(v@[pos + dec_bytes(x as nat).len()])) {
                    lemma_digit_run_exact(v@, pos as int, dec_bytes(x as nat));
                    assert(run =~= dec_bytes(x as nat));
                    lemma_dec_val_of_dec_bytes(x as nat);
                    assert(dec_val(run) == x);
                }
            }
        }
        return None;
    }
    proof {
        assert(canonical_digits(run));
        lemma_dec_bytes_of_dec_val(run);
        assert(dec_bytes(value as nat) =~= run);
        assert forall|x: u64|
            (pos + dec_bytes(x as nat).len() <= v@.len() && v@.subrange(
                pos as int,
                pos + dec_bytes(x as nat).len() as int,
            ) =~= dec_bytes(x as nat) && (pos + dec_bytes(x as nat).len() == v@.len()
                || !is_digit_byte(v@[pos + dec_bytes(x as nat).len()]))) implies value == x && i
            == pos + dec_bytes(x as nat).len() by {
            lemma_dec_bytes_digits(x as nat);
            lemma_digit_run_exact(v@, pos as int, dec_bytes(x as nat));
            assert(run =~= dec_bytes(x as nat));
            lemma_dec_val_of_dec_bytes(x as nat);
        }
    }
    Some((value, i))
}

/// Stepping into a digit run does not change where it ends.
proof fn lemma_digit_run_extends(v: Seq<u8>, pos: int, mid: int)
    requires
        0 <= pos <= mid <= v.len(),
        forall|i: int| pos <= i < mid ==> is_digit_byte(#[trigger] v[i]),
    ensures
        digit_run_end(v, pos) == digit_run_end(v, mid),
    decreases mid - pos,
{
    if pos < mid {
        lemma_digit_run_extends(v, pos + 1, mid);
    }
}

} // verus!
