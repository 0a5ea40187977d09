//! The canonical text form of a 128-bit identifier: 32 lowercase hex
//! digits in five dash-separated groups (8-4-4-4-12), most significant
//! digit first.  The writer emits exactly that form and the reader
//! accepts exactly that form.

use vstd::prelude::*;

use crate::jsontext::hex_digit;
use crate::textutil::push_char;
use vstd::arithmetic::div_mod::lemma_div_denominator;
use vstd::arithmetic::div_mod::lemma_fundamental_div_mod;

verus! {

/// Sixteen to the `n`.
pub open spec fn p16(n: nat) -> int
    decreases n,
{
    if n == 0 {
        1
    } else {
        16 * p16((n - 1) as nat)
    }
}

proof fn lemma_p16_pos(n: nat)
    ensures
        p16(n) >= 1,
    decreases n,
{
    if n > 0 {
        lemma_p16_pos((n - 1) as nat);
    }
}

/// Hex digit `k` (0 is the most significant of the 32) of `id`.
pub open spec fn uuid_digit(id: u128, k: int) -> int {
    (id as int / p16((31 - k) as nat)) % 16
}

/// Positions 8, 13, 18 and 23 hold dashes.
pub open spec fn is_dash_pos(i: int) -> bool {
    i == 8 || i == 13 || i == 18 || i == 23
}

/// The hex-digit index written at text position `i`.
pub open spec fn digit_index(i: int) -> int {
    if i < 8 {
        i
    } else if i < 13 {
        i - 1
    } else if i < 18 {
        i - 2
    } else if i < 23 {
        i - 3
    } else {
        i - 4
    }
}

/// The canonical 36-character text of `id`.
pub open spec fn uuid_str(id: u128) -> Seq<char> {
    Seq::new(
        36,
        |i: int|
            if is_dash_pos(i) {
                '-'
            } else {
                hex_digit(uuid_digit(id, digit_index(i))) as char
            },
    )
}

/// The 32 hex digit values of `id`, least significant first.
fn uuid_digits_rev(id: u128) -> (digits: Vec<u8>)
    ensures
        digits@.len() == 32,
        forall|j: int| 0 <= j < 32 ==> #[trigger] digits@[j] == uuid_digit(id, 31 - j),
{
    let mut digits: Vec<u8> = Vec::new();
    let mut x = id;
    let mut j: usize = 0;
    proof {
        assert(p16(0) == 1);
    }
    while j < 32
        invariant
            0 <= j <= 32,
            digits@.len() == j,
            x == id as int / p16(j as nat),
            forall|m: int| 0 <= m < j ==> #[trigger] digits@[m] == uuid_digit(id, 31 - m),
        decreases 32 - j,
    {
        let d = (x % 16) as u8;
        proof {
            lemma_p16_pos(j as nat);
            assert(d == (id as int / p16(j as nat)) % 16);
            assert(d == uuid_digit(id, 31 - j));
            lemma_div_denominator(id as int, p16(j as nat), 16);
            assert((id as int / p16(j as nat)) / 16 == id as int / (p16(j as nat) * 16));
            assert(p16((j + 1) as nat) == 16 * p16(j as nat));
        }
        digits.push(d);
        x = x / 16;
        j = j + 1;
    }
    digits
}

/// Writes `id` in its canonical text form.
pub fn format_uuid(id: u128) -> (s: String)
    ensures
        s@ == uuid_str(id),
{
    let digits = uuid_digits_rev(id);
    let mut out = String::new();
    let mut i: usize = 0;
    while i < 36
        invariant
            0 <= i <= 36,
            digits@.len() == 32,
            forall|j: int| 0 <= j < 32 ==> #[trigger] digits@[j] == uuid_digit(id, 31 - j),
            out@.len() == i,
            forall|m: int| 0 <= m < i ==> #[trigger] out@[m] == uuid_str(id)[m],
        decreases 36 - i,
    {
        if i == 8 || i == 13 || i == 18 || i == 23 {
            push_char(&mut out, '-');
        } else {
            let k: usize = if i < 8 {
                i
            } else if i < 13 {
                i - 1
            } else if i < 18 {
                i - 2
            } else if i < 23 {
                i - 3
            } else {
                i - 4
            };
            let d = digits[31 - k];
            proof {
                assert(d == uuid_digit(id, k as int));
                assert(0 <= uuid_digit(id, k as int) < 16);
            }
            let b: u8 = if d < 10 {
                48 + d
            } else {
                87 + d
            };
            proof {
                assert(b == hex_digit(uuid_digit(id, digit_index(i as int))));
            }
            push_char(&mut out, b as char);
        }
        i = i + 1;
    }
    proof {
        assert(out@ =~= uuid_str(id));
    }
    out
}

/// Reads the canonical text form back: accepts exactly the strings
/// `uuid_str(id)` and yields that `id`.
pub fn parse_uuid(s: &str) -> (r: Option<u128>)
    ensures
        r matches Some(id) ==> s@ == uuid_str(id),
        forall|id: u128| s@ == uuid_str(id) ==> r == Some(id),
{
    let len = s.unicode_len();
    if len != 36 {
        return None;
    }
    let mut acc: u128 = 0;
    let mut i: usize = 0;
    let mut k: usize = 0;  // digits consumed
    proof {
        assert(p16(32) == 16 * p16(31));
        assert forall|id: u128| s@ == uuid_str(id) implies acc == id as int / p16(
            ((32 - k) as nat),
        ) by {
            lemma_p16_32_exceeds(id);
        }
    }
    while i < 36
        invariant
            0 <= i <= 36,
            k == i - (if i >= 24 {
                4int
            } else if i >= 19 {
                3int
            } else if i >= 14 {
                2int
            } else if i >= 9 {
                1int
            } else {
                0int
            }),
            0 <= k <= 32,
            len == s@.len(),
            len == 36,
            acc < p16(k as nat),
            forall|id: u128|
                s@ == uuid_str(id) ==> acc == id as int / p16(((32 - k) as nat)),
        decreases 36 - i,
    {
        let c = s.get_char(i);
        if i == 8 || i == 13 || i == 18 || i == 23 {
            if c != '-' {
                proof {
                    assert forall|id: u128| s@ != uuid_str(id) by {
                        if s@ == uuid_str(id) {
                            assert(s@[i as int] == '-');
                        }
                    }
                }
                return None;
            }
        } else {
            let u = c as u32;
            let d: u8 = if u >= 48 && u <= 57 {
                (u - 48) as u8
            } else if u >= 97 && u <= 102 {
                (u - 87) as u8
            } else {
                proof {
                    assert forall|id: u128| s@ != uuid_str(id) by {
                        if s@ == uuid_str(id) {
                            let dv = uuid_digit(id, digit_index(i as int));
                            assert(0 <= dv < 16);
                            assert(s@[i as int] == hex_digit(dv) as char);
                            assert((hex_digit(dv) as char) as u32 == hex_digit(dv));
                        }
                    }
                }
                return None;
            };
            proof {
                lemma_p16_pos(k as nat);
                assert(acc * 16 + d < p16((k + 1) as nat)) by {
                    assert(p16((k + 1) as nat) == 16 * p16(k as nat));
                    assert(acc * 16 + 16 <= p16(k as nat) * 16) by (nonlinear_arith)
                        requires
                            acc < p16(k as nat),
                    ;
                }
                lemma_p16_below_max(k as nat);
                assert forall|id: u128| s@ == uuid_str(id) implies acc * 16 + d == id as int
                    / p16(((32 - (k + 1)) as nat)) by {
                    let dv = uuid_digit(id, digit_index(i as int));
                    assert(s@[i as int] == hex_digit(dv) as char);
                    assert((hex_digit(dv) as char) as u32 == hex_digit(dv));
                    assert(d == dv);
                    assert(digit_index(i as int) == k);
                    let q = id as int / p16(((31 - k) as nat));
                    lemma_p16_pos(((31 - k) as nat));
                    lemma_div_denominator(id as int, p16(((31 - k) as nat)), 16);
                    assert(p16(((32 - k) as nat)) == 16 * p16(((31 - k) as nat)));
                    assert((id as int / p16(((31 - k) as nat))) / 16 == id as int / p16(
                        ((32 - k) as nat),
                    ));
                    lemma_fundamental_div_mod(q, 16);
                    assert(q == 16 * (q / 16) + q % 16);
                    assert(acc == q / 16);
                    assert(d == q % 16);
                }
            }
            acc = acc * 16 + d as u128;
            k = k + 1;
        }
        i = i + 1;
    }
    proof {
        assert(k == 32);
        assert forall|id: u128| s@ == uuid_str(id) implies acc == id by {
            assert(acc == id as int / p16(0));
        }
    }
    // the text must be exactly the canonical form of the value read
    let back = format_uuid(acc);
    let mut eq = true;
    let mut m: usize = 0;
    while m < 36
        invariant
            0 <= m <= 36,
            len == s@.len() == 36,
            back@ == uuid_str(acc),
            back@.len() == 36,
            eq <==> (forall|j: int| 0 <= j < m ==> s@[j] == #[trigger] back@[j]),
        decreases 36 - m,
    {
        let a = s.get_char(m);
        let b = back.as_str().get_char(m);
        if a != b {
            proof {
                assert(s@[m as int] != back@[m as int]);
            }
            eq = false;
        }
        m = m + 1;
    }
    if eq {
        proof {
            assert(s@ =~= uuid_str(acc));
        }
        Some(acc)
    } else {
        proof {
            assert(!(s@ =~= uuid_str(acc)));
            assert forall|id: u128| s@ != uuid_str(id) by {
                if s@ == uuid_str(id) {
                    assert(acc == id);
                }
            }
        }
        None
    }
}

proof fn lemma_p16_32_exceeds(id: u128)
    ensures
        id as int / p16(32) == 0,
{
    assert(p16(32) == 0x100000000000000000000000000000000) by {
        reveal_with_fuel(p16, 33);
    }
    assert((id as int) < p16(32));
    assert(id as int / p16(32) == 0) by {
        vstd::arithmetic::div_mod::lemma_basic_div(id as int, p16(32));
    }
}

proof fn lemma_p16_below_max(k: nat)
    requires
        k <= 31,
    ensures
        p16((k + 1) as nat) <= 0x100000000000000000000000000000000,
    decreases k,
{
    assert(p16(32) == 0x100000000000000000000000000000000) by {
        reveal_with_fuel(p16, 33);
    }
    lemma_p16_increases((k + 1) as nat, 32);
}

proof fn lemma_p16_increases(a: nat, b: nat)
    requires
        a <= b,
    ensures
        p16(a) <= p16(b),
    decreases b,
{
    if a < b {
        lemma_p16_increases(a, (b - 1) as nat);
        lemma_p16_pos((b - 1) as nat);
    }
}

/// The digits determine the value: reading the quotients down from the
/// top, equal digit prefixes give equal quotients.
proof fn lemma_digits_determine(a: u128, b: u128, k: int)
    requires
        0 <= k <= 32,
        forall|j: int| 0 <= j < k ==> uuid_digit(a, j) == uuid_digit(b, j),
    ensures
        a as int / p16((32 - k) as nat) == b as int / p16((32 - k) as nat),
    decreases k,
{
    if k == 0 {
        lemma_p16_32_exceeds(a);
        lemma_p16_32_exceeds(b);
    } else {
        lemma_digits_determine(a, b, k - 1);
        let qn = (32 - k) as nat;
        lemma_p16_pos(qn);
        lemma_div_denominator(a as int, p16(qn), 16);
        lemma_div_denominator(b as int, p16(qn), 16);
        assert(p16((33 - k) as nat) == 16 * p16(qn));
        assert((a as int / p16(qn)) / 16 == a as int / p16((33 - k) as nat));
        assert((b as int / p16(qn)) / 16 == b as int / p16((33 - k) as nat));
        lemma_fundamental_div_mod(a as int / p16(qn), 16);
        lemma_fundamental_div_mod(b as int / p16(qn), 16);
        assert(uuid_digit(a, k - 1) == (a as int / p16(qn)) % 16);
        assert(uuid_digit(b, k - 1) == (b as int / p16(qn)) % 16);
    }
}

/// Two identifiers with the same text are the same identifier.
pub proof fn lemma_uuid_str_injective(a: u128, b: u128)
    requires
        uuid_str(a) == uuid_str(b),
    ensures
        a == b,
{
    assert forall|j: int| 0 <= j < 32 implies uuid_digit(a, j) == uuid_digit(b, j) by {
        let i: int = if j < 8 {
            j
        } else if j < 12 {
            j + 1
        } else if j < 16 {
            j + 2
        } else if j < 20 {
            j + 3
        } else {
            j + 4
        };
        assert(!is_dash_pos(i) && digit_index(i) == j);
        assert(uuid_str(a)[i] == uuid_str(b)[i]);
        assert(uuid_str(a)[i] == hex_digit(uuid_digit(a, digit_index(i))) as char);
        assert(uuid_str(b)[i] == hex_digit(uuid_digit(b, digit_index(i))) as char);
        assert(hex_digit(uuid_digit(a, j)) as char == hex_digit(uuid_digit(b, j)) as char);
        assert((hex_digit(uuid_digit(a, j)) as char) as u32 == hex_digit(uuid_digit(a, j)));
        assert((hex_digit(uuid_digit(b, j)) as char) as u32 == hex_digit(uuid_digit(b, j)));
        assert(0 <= uuid_digit(a, j) < 16 && 0 <= uuid_digit(b, j) < 16);
    }
    lemma_digits_determine(a, b, 32);
    assert(a as int / p16(0) == a);
    assert(b as int / p16(0) == b);
}

} // verus!
