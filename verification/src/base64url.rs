//! URL-safe base64 without padding, over ASCII bytes.
//!
//! `b64_of` is the canonical encoding.  The writer emits exactly that form;
//! the reader accepts exactly that form (in particular it rejects non-zero
//! trailing bits), so writing and reading invert each other.

use vstd::prelude::*;

verus! {

/// The alphabet: value `n` (0 to 63) as an ASCII byte.
pub open spec fn b64_byte(n: int) -> u8 {
    if 0 <= n < 26 {
        (65 + n) as u8  // 'A'..'Z'
    } else if 26 <= n < 52 {
        (97 + n - 26) as u8  // 'a'..'z'
    } else if 52 <= n < 62 {
        (48 + n - 52) as u8  // '0'..'9'
    } else if n == 62 {
        45  // '-'
    } else {
        95  // '_'
    }
}

/// Whether `b` is a byte of the alphabet.
pub open spec fn is_b64_byte(b: u8) -> bool {
    (65 <= b <= 90) || (97 <= b <= 122) || (48 <= b <= 57) || b == 45 || b == 95
}

/// The value of an alphabet byte; 64 for a byte outside the alphabet.
pub open spec fn b64_val(b: u8) -> u8 {
    if 65 <= b <= 90 {
        (b - 65) as u8
    } else if 97 <= b <= 122 {
        (b - 97 + 26) as u8
    } else if 48 <= b <= 57 {
        (b - 48 + 52) as u8
    } else if b == 45 {
        62
    } else if b == 95 {
        63
    } else {
        64
    }
}

pub proof fn lemma_b64_byte_val(n: int)
    requires
        0 <= n < 64,
    ensures
        is_b64_byte(b64_byte(n)),
        b64_val(b64_byte(n)) == n,
{
}

/// The canonical encoding of a byte string, three bytes to four characters,
/// with a two- or three-character group for one or two trailing bytes.
pub open spec fn b64_of(s: Seq<u8>) -> Seq<u8>
    decreases s.len(),
{
    if s.len() == 0 {
        Seq::empty()
    } else if s.len() == 1 {
        seq![b64_byte(s[0] as int / 4), b64_byte((s[0] % 4) * 16)]
    } else if s.len() == 2 {
        seq![
            b64_byte(s[0] as int / 4),
            b64_byte((s[0] % 4) * 16 + s[1] / 16),
            b64_byte((s[1] % 16) * 4),
        ]
    } else {
        seq![
            b64_byte(s[0] as int / 4),
            b64_byte((s[0] % 4) * 16 + s[1] / 16),
            b64_byte((s[1] % 16) * 4 + s[2] / 64),
            b64_byte(s[2] as int % 64),
        ] + b64_of(s.skip(3))
    }
}

/// Every byte of an encoding is in the alphabet; in particular an encoding
/// never holds a `.`.
pub proof fn lemma_b64_of_alphabet(s: Seq<u8>)
    ensures
        forall|i: int| 0 <= i < b64_of(s).len() ==> is_b64_byte(#[trigger] b64_of(s)[i]),
    decreases s.len(),
{
    assert forall|n: int| 0 <= n < 64 implies is_b64_byte(#[trigger] b64_byte(n)) by {
        lemma_b64_byte_val(n);
    }
    if s.len() == 0 {
    } else if s.len() == 1 {
        assert(is_b64_byte(b64_of(s)[0]));
        assert(is_b64_byte(b64_of(s)[1]));
    } else if s.len() == 2 {
        assert(is_b64_byte(b64_of(s)[0]));
        assert(is_b64_byte(b64_of(s)[1]));
        assert(is_b64_byte(b64_of(s)[2]));
    } else {
        lemma_b64_of_alphabet(s.skip(3));
        assert forall|i: int| 0 <= i < b64_of(s).len() implies is_b64_byte(
            #[trigger] b64_of(s)[i],
        ) by {
            if i >= 4 {
                assert(b64_of(s)[i] == b64_of(s.skip(3))[i - 4]);
            }
        }
    }
}

/// Appends the canonical encoding of `data` to `out`.
pub fn append_b64(out: &mut Vec<u8>, data: &Vec<u8>)
    ensures
        final(out)@ == old(out)@ + b64_of(data@),
{
    let len = data.len();
    let mut i: usize = 0;
    proof {
        assert(data@.skip(0) =~= data@);
    }
    while len - i >= 3
        invariant
            0 <= i <= len,
            i % 3 == 0,
            len == data@.len(),
            out@ + b64_of(data@.skip(i as int)) == old(out)@ + b64_of(data@),
        decreases len - i,
    {
        let s0 = data[i];
        let s1 = data[i + 1];
        let s2 = data[i + 2];
        proof {
            let rest = data@.skip(i as int);
            assert(rest[0] == s0 && rest[1] == s1 && rest[2] == s2);
            assert(rest.skip(3) =~= data@.skip(i + 3));
        }
        out.push(b64_byte_exec(s0 / 4));
        out.push(b64_byte_exec((s0 % 4) * 16 + s1 / 16));
        out.push(b64_byte_exec((s1 % 16) * 4 + s2 / 64));
        out.push(b64_byte_exec(s2 % 64));
        proof {
            assert(out@ + b64_of(data@.skip(i + 3)) =~= old(out)@ + b64_of(data@));
        }
        i = i + 3;
    }
    if len - i == 1 {
        let s0 = data[i];
        proof {
            let rest = data@.skip(i as int);
            assert(rest.len() == 1 && rest[0] == s0);
        }
        out.push(b64_byte_exec(s0 / 4));
        out.push(b64_byte_exec((s0 % 4) * 16));
        proof {
            assert(out@ =~= old(out)@ + b64_of(data@));
        }
    } else if len - i == 2 {
        let s0 = data[i];
        let s1 = data[i + 1];
        proof {
            let rest = data@.skip(i as int);
            assert(rest.len() == 2 && rest[0] == s0 && rest[1] == s1);
        }
        out.push(b64_byte_exec(s0 / 4));
        out.push(b64_byte_exec((s0 % 4) * 16 + s1 / 16));
        out.push(b64_byte_exec((s1 % 16) * 4));
        proof {
            assert(out@ =~= old(out)@ + b64_of(data@));
        }
    } else {
        proof {
            assert(data@.skip(i as int) =~= Seq::<u8>::empty());
            assert(out@ =~= old(out)@ + b64_of(data@));
        }
    }
}

/// Value `n` (0 to 63) as its alphabet byte.
fn b64_byte_exec(n: u8) -> (b: u8)
    requires
        n < 64,
    ensures
        b == b64_byte(n as int),
{
    if n < 26 {
        65 + n
    } else if n < 52 {
        97 + n - 26
    } else if n < 62 {
        48 + n - 52
    } else if n == 62 {
        45
    } else {
        95
    }
}

/// The value of an alphabet byte, 64 for any other byte.
fn b64_val_exec(b: u8) -> (n: u8)
    ensures
        n == b64_val(b),
{
    if 65 <= b && b <= 90 {
        b - 65
    } else if 97 <= b && b <= 122 {
        b - 97 + 26
    } else if 48 <= b && b <= 57 {
        b - 48 + 52
    } else if b == 45 {
        62
    } else if b == 95 {
        63
    } else {
        64
    }
}

/// The strict reader: accepts exactly the strings of the form `b64_of(b)`.
pub open spec fn b64_parse(s: Seq<u8>) -> Option<Seq<u8>>
    decreases s.len(),
{
    if s.len() == 0 {
        Some(Seq::empty())
    } else if s.len() == 1 {
        None
    } else if s.len() == 2 {
        if is_b64_byte(s[0]) && is_b64_byte(s[1]) && b64_val(s[1]) % 16 == 0 {
            Some(seq![(b64_val(s[0]) * 4 + b64_val(s[1]) / 16) as u8])
        } else {
            None
        }
    } else if s.len() == 3 {
        if is_b64_byte(s[0]) && is_b64_byte(s[1]) && is_b64_byte(s[2]) && b64_val(s[2]) % 4 == 0 {
            Some(
                seq![
                    (b64_val(s[0]) * 4 + b64_val(s[1]) / 16) as u8,
                    ((b64_val(s[1]) % 16) * 16 + b64_val(s[2]) / 4) as u8,
                ],
            )
        } else {
            None
        }
    } else {
        if is_b64_byte(s[0]) && is_b64_byte(s[1]) && is_b64_byte(s[2]) && is_b64_byte(s[3]) {
            match b64_parse(s.skip(4)) {
                Some(rest) => Some(
                    seq![
                        (b64_val(s[0]) * 4 + b64_val(s[1]) / 16) as u8,
                        ((b64_val(s[1]) % 16) * 16 + b64_val(s[2]) / 4) as u8,
                        ((b64_val(s[2]) % 4) * 64 + b64_val(s[3])) as u8,
                    ] + rest,
                ),
                None => None,
            }
        } else {
            None
        }
    }
}

/// Reading back what was written yields the bytes written.
pub proof fn lemma_b64_parse_of_b64_of(b: Seq<u8>)
    ensures
        b64_parse(b64_of(b)) matches Some(r) && r =~= b,
    decreases b.len(),
{
    let s = b64_of(b);
    if b.len() == 0 {
        assert(b64_parse(s) matches Some(r) && r =~= b);
    } else if b.len() == 1 {
        lemma_b64_byte_val(b[0] as int / 4);
        lemma_b64_byte_val((b[0] % 4) * 16);
        assert(b64_val(s[1]) % 16 == 0);
        assert((b64_val(s[0]) * 4 + b64_val(s[1]) / 16) == b[0]) by (nonlinear_arith)
            requires
                b64_val(s[0]) == b[0] / 4,
                b64_val(s[1]) == (b[0] % 4) * 16,
        ;
        assert(b64_parse(s) matches Some(r) && r =~= b);
    } else if b.len() == 2 {
        lemma_b64_byte_val(b[0] as int / 4);
        lemma_b64_byte_val((b[0] % 4) * 16 + b[1] / 16);
        lemma_b64_byte_val((b[1] % 16) * 4);
        assert(b64_val(s[2]) % 4 == 0);
        assert((b64_val(s[0]) * 4 + b64_val(s[1]) / 16) == b[0] && ((b64_val(s[1]) % 16) * 16
            + b64_val(s[2]) / 4) == b[1]) by (nonlinear_arith)
            requires
                b64_val(s[0]) == b[0] / 4,
                b64_val(s[1]) == (b[0] % 4) * 16 + b[1] / 16,
                b64_val(s[2]) == (b[1] % 16) * 4,
        ;
        assert(b64_parse(s) matches Some(r) && r =~= b);
    } else {
        lemma_b64_byte_val(b[0] as int / 4);
        lemma_b64_byte_val((b[0] % 4) * 16 + b[1] / 16);
        lemma_b64_byte_val((b[1] % 16) * 4 + b[2] / 64);
        lemma_b64_byte_val(b[2] as int % 64);
        lemma_b64_parse_of_b64_of(b.skip(3));
        assert(s.len() >= 4);
        assert(s.skip(4) =~= b64_of(b.skip(3)));
        assert((b64_val(s[0]) * 4 + b64_val(s[1]) / 16) == b[0] && ((b64_val(s[1]) % 16) * 16
            + b64_val(s[2]) / 4) == b[1] && ((b64_val(s[2]) % 4) * 64 + b64_val(s[3])) == b[2])
            by (nonlinear_arith)
            requires
                b64_val(s[0]) == b[0] / 4,
                b64_val(s[1]) == (b[0] % 4) * 16 + b[1] / 16,
                b64_val(s[2]) == (b[1] % 16) * 4 + b[2] / 64,
                b64_val(s[3]) == b[2] % 64,
        ;
        assert(b64_parse(s) matches Some(r) && r =~= b);
    }
}

/// What the reader accepts is the canonical encoding of what it returns.
pub proof fn lemma_b64_of_of_b64_parse(s: Seq<u8>)
    requires
        b64_parse(s) is Some,
    ensures
        b64_of(b64_parse(s)->Some_0) =~= s,
    decreases s.len(),
{
    let b = b64_parse(s)->Some_0;
    if s.len() == 0 {
    } else if s.len() == 2 {
        let n0 = b64_val(s[0]);
        let n1 = b64_val(s[1]);
        let x = (n0 * 4 + n1 / 16) as u8;
        assert(x / 4 == n0 && (x % 4) * 16 == n1) by (nonlinear_arith)
            requires
                x == n0 * 4 + n1 / 16,
                n0 < 64,
                n1 < 64,
                n1 % 16 == 0,
        ;
        lemma_b64_val_byte(s[0]);
        lemma_b64_val_byte(s[1]);
        assert(b64_of(b) =~= s);
    } else if s.len() == 3 {
        let n0 = b64_val(s[0]);
        let n1 = b64_val(s[1]);
        let n2 = b64_val(s[2]);
        let x0 = (n0 * 4 + n1 / 16) as u8;
        let x1 = ((n1 % 16) * 16 + n2 / 4) as u8;
        assert(x0 / 4 == n0 && (x0 % 4) * 16 + x1 / 16 == n1 && (x1 % 16) * 4 == n2)
            by (nonlinear_arith)
            requires
                x0 == n0 * 4 + n1 / 16,
                x1 == (n1 % 16) * 16 + n2 / 4,
                n0 < 64,
                n1 < 64,
                n2 < 64,
                n2 % 4 == 0,
        ;
        lemma_b64_val_byte(s[0]);
        lemma_b64_val_byte(s[1]);
        lemma_b64_val_byte(s[2]);
        assert(b64_of(b) =~= s);
    } else {
        let n0 = b64_val(s[0]);
        let n1 = b64_val(s[1]);
        let n2 = b64_val(s[2]);
        let n3 = b64_val(s[3]);
        let x0 = (n0 * 4 + n1 / 16) as u8;
        let x1 = ((n1 % 16) * 16 + n2 / 4) as u8;
        let x2 = ((n2 % 4) * 64 + n3) as u8;
        let rest = b64_parse(s.skip(4))->Some_0;
        lemma_b64_of_of_b64_parse(s.skip(4));
        assert(x0 / 4 == n0 && (x0 % 4) * 16 + x1 / 16 == n1 && (x1 % 16) * 4 + x2 / 64 == n2 && x2
            % 64 == n3) by (nonlinear_arith)
            requires
                x0 == n0 * 4 + n1 / 16,
                x1 == (n1 % 16) * 16 + n2 / 4,
                x2 == (n2 % 4) * 64 + n3,
                n0 < 64,
                n1 < 64,
                n2 < 64,
                n3 < 64,
        ;
        lemma_b64_val_byte(s[0]);
        lemma_b64_val_byte(s[1]);
        lemma_b64_val_byte(s[2]);
        lemma_b64_val_byte(s[3]);
        assert(b =~= seq![x0, x1, x2] + rest);
        assert(b.len() >= 3);
        assert(b[0] == x0 && b[1] == x1 && b[2] == x2);
        assert(b.skip(3) =~= rest);
        assert(b64_of(b) =~= seq![
            b64_byte(b[0] as int / 4),
            b64_byte((b[0] % 4) * 16 + b[1] / 16),
            b64_byte((b[1] % 16) * 4 + b[2] / 64),
            b64_byte(b[2] as int % 64),
        ] + b64_of(b.skip(3)));
        assert(b64_of(b) =~= s);
    }
}

/// An alphabet byte is the alphabet byte of its value.
proof fn lemma_b64_val_byte(b: u8)
    requires
        is_b64_byte(b),
    ensures
        b64_val(b) < 64,
        b64_byte(b64_val(b) as int) == b,
{
}

/// Reads the region `from..to` of `v` as canonical base64url.
pub fn b64_decode_range(v: &Vec<u8>, from: usize, to: usize) -> (r: Option<Vec<u8>>)
    requires
        from <= to <= v@.len(),
    ensures
        match r {
            Some(b) => b64_parse(v@.subrange(from as int, to as int)) matches Some(p) && p == b@,
            None => b64_parse(v@.subrange(from as int, to as int)) is None,
        },
{
    let ghost s = v@.subrange(from as int, to as int);
    let mut out: Vec<u8> = Vec::new();
    let mut i: usize = from;
    while to - i >= 4
        invariant
            from <= i <= to <= v@.len(),
            s == v@.subrange(from as int, to as int),
            (i - from) % 4 == 0,
            forall|rb: Seq<u8>|
                b64_parse(s) == Some(rb) <==> (b64_parse(v@.subrange(i as int, to as int))
                    matches Some(rest) && rb == out@ + rest),
            b64_parse(s) is None <==> b64_parse(v@.subrange(i as int, to as int)) is None,
        decreases to - i,
    {
        let ghost cur = v@.subrange(i as int, to as int);
        let ghost cur2 = v@.subrange(i + 4, to as int);
        let ghost out0 = out@;
        let c0 = v[i];
        let c1 = v[i + 1];
        let c2 = v[i + 2];
        let c3 = v[i + 3];
        proof {
            assert(cur.len() >= 4);
            assert(cur[0] == c0 && cur[1] == c1 && cur[2] == c2 && cur[3] == c3);
            assert(cur.skip(4) =~= cur2);
        }
        let n0 = b64_val_exec(c0);
        let n1 = b64_val_exec(c1);
        let n2 = b64_val_exec(c2);
        let n3 = b64_val_exec(c3);
        if n0 == 64 || n1 == 64 || n2 == 64 || n3 == 64 {
            proof {
                assert(!(is_b64_byte(c0) && is_b64_byte(c1) && is_b64_byte(c2) && is_b64_byte(
                    c3,
                )));
                assert(b64_parse(cur) is None);
            }
            return None;
        }
        out.push(n0 * 4 + n1 / 16);
        out.push((n1 % 16) * 16 + n2 / 4);
        out.push((n2 % 4) * 64 + n3);
        proof {
            let group = seq![
                (b64_val(cur[0]) * 4 + b64_val(cur[1]) / 16) as u8,
                ((b64_val(cur[1]) % 16) * 16 + b64_val(cur[2]) / 4) as u8,
                ((b64_val(cur[2]) % 4) * 64 + b64_val(cur[3])) as u8,
            ];
            assert(out@ =~= out0 + group);
            if b64_parse(cur2) is Some {
                let rest2 = b64_parse(cur2)->Some_0;
                assert(b64_parse(cur) == Some(group + rest2));
                assert(out0 + (group + rest2) =~= out@ + rest2);
            } else {
                assert(b64_parse(cur) is None);
            }
        }
        i = i + 4;
    }
    let rem = to - i;
    let ghost cur = v@.subrange(i as int, to as int);
    let ghost out0 = out@;
    if rem == 0 {
        proof {
            assert(cur.len() == 0);
            assert(b64_parse(cur) == Some(Seq::<u8>::empty()));
            assert(out0 + Seq::<u8>::empty() =~= out@);
            assert(b64_parse(s) == Some(out@));
        }
        Some(out)
    } else if rem == 1 {
        proof {
            assert(cur.len() == 1);
            assert(b64_parse(cur) is None);
        }
        None
    } else if rem == 2 {
        let c0 = v[i];
        let c1 = v[i + 1];
        proof {
            assert(cur.len() == 2);
            assert(cur[0] == c0 && cur[1] == c1);
        }
        let n0 = b64_val_exec(c0);
        let n1 = b64_val_exec(c1);
        if n0 == 64 || n1 == 64 || n1 % 16 != 0 {
            proof {
                assert(b64_parse(cur) is None);
            }
            None
        } else {
            out.push(n0 * 4 + n1 / 16);
            proof {
                let rest = seq![(b64_val(cur[0]) * 4 + b64_val(cur[1]) / 16) as u8];
                assert(b64_parse(cur) == Some(rest));
                assert(out0 + rest =~= out@);
                assert(b64_parse(s) == Some(out@));
            }
            Some(out)
        }
    } else {
        let c0 = v[i];
        let c1 = v[i + 1];
        let c2 = v[i + 2];
        proof {
            assert(cur.len() == 3);
            assert(cur[0] == c0 && cur[1] == c1 && cur[2] == c2);
        }
        let n0 = b64_val_exec(c0);
        let n1 = b64_val_exec(c1);
        let n2 = b64_val_exec(c2);
        if n0 == 64 || n1 == 64 || n2 == 64 || n2 % 4 != 0 {
            proof {
                assert(b64_parse(cur) is None);
            }
            None
        } else {
            out.push(n0 * 4 + n1 / 16);
            out.push((n1 % 16) * 16 + n2 / 4);
            proof {
                let rest = seq![
                    (b64_val(cur[0]) * 4 + b64_val(cur[1]) / 16) as u8,
                    ((b64_val(cur[1]) % 16) * 16 + b64_val(cur[2]) / 4) as u8,
                ];
                assert(b64_parse(cur) == Some(rest));
                assert(out0 + rest =~= out@);
                assert(b64_parse(s) == Some(out@));
            }
            Some(out)
        }
    }
}

} // verus!
