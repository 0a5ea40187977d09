//! JSON string bodies: canonical escaping of character strings into
//! printable ASCII, and the strict reader back.
//!
//! The canonical form keeps printable ASCII characters (except `"` and `\`)
//! as they are and writes every other character as `\u` and four lowercase
//! hex digits, with a surrogate pair for characters beyond `0xFFFF`.  The
//! reader accepts exactly that form, so writing and reading invert.

use vstd::prelude::*;

use crate::textutil::char_from_u32;
use crate::textutil::lemma_seq_join;
use crate::textutil::lemma_seq_split;
use crate::textutil::push_char;

verus! {

broadcast use vstd::utf8::char_is_scalar, vstd::utf8::char_u32_cast;

/// Hex value `n` (0 to 15) as a lowercase ASCII digit.
pub open spec fn hex_digit(n: int) -> u8 {
    if n < 10 {
        (48 + n) as u8
    } else {
        (87 + n) as u8
    }
}

/// A lowercase ASCII hex digit.
pub open spec fn is_hex_digit_byte(b: u8) -> bool {
    (48 <= b <= 57) || (97 <= b <= 102)
}

/// The value of a lowercase hex digit; 16 for any other byte.
pub open spec fn hex_val(b: u8) -> int {
    if 48 <= b <= 57 {
        b - 48
    } else if 97 <= b <= 102 {
        b - 87
    } else {
        16
    }
}

/// `n` (below `0x10000`) as four lowercase hex digits.
pub open spec fn hex4(n: int) -> Seq<u8> {
    seq![
        hex_digit((n / 4096) % 16),
        hex_digit((n / 256) % 16),
        hex_digit((n / 16) % 16),
        hex_digit(n % 16),
    ]
}

/// Four valid hex digits at `pos`.
pub open spec fn hex4_valid(s: Seq<u8>, pos: int) -> bool {
    &&& is_hex_digit_byte(s[pos])
    &&& is_hex_digit_byte(s[pos + 1])
    &&& is_hex_digit_byte(s[pos + 2])
    &&& is_hex_digit_byte(s[pos + 3])
}

/// The value of the four hex digits at `pos`.
pub open spec fn hex4_val(s: Seq<u8>, pos: int) -> int {
    hex_val(s[pos]) * 4096 + hex_val(s[pos + 1]) * 256 + hex_val(s[pos + 2]) * 16 + hex_val(
        s[pos + 3],
    )
}

pub proof fn lemma_hex4_of_val(n: int)
    requires
        0 <= n < 0x10000,
    ensures
        hex4(n).len() == 4,
        forall|i: int| 0 <= i < 4 ==> is_hex_digit_byte(#[trigger] hex4(n)[i]),
        hex_val(hex4(n)[0]) == (n / 4096) % 16,
        hex_val(hex4(n)[1]) == (n / 256) % 16,
        hex_val(hex4(n)[2]) == (n / 16) % 16,
        hex_val(hex4(n)[3]) == n % 16,
{
    assert forall|d: int| 0 <= d < 16 implies is_hex_digit_byte(#[trigger] hex_digit(d))
        && hex_val(hex_digit(d)) == d by {}
}

/// Reassembling the digit values of `hex4(n)` yields `n`.
pub proof fn lemma_hex4_val_of_hex4(n: int)
    requires
        0 <= n < 0x10000,
    ensures
        hex4_val(hex4(n), 0) == n,
{
    lemma_hex4_of_val(n);
    let x = n as u32;
    assert(((x / 4096) % 16) * 4096 + ((x / 256) % 16) * 256 + ((x / 16) % 16) * 16 + x % 16
        == x) by (bit_vector)
        requires
            x < 0x10000,
    ;
}

/// Four valid digits are the canonical notation of their value.
pub proof fn lemma_hex4_canonical(s: Seq<u8>, pos: int)
    requires
        0 <= pos,
        pos + 4 <= s.len(),
        hex4_valid(s, pos),
    ensures
        0 <= hex4_val(s, pos) < 0x10000,
        hex4(hex4_val(s, pos)) =~= s.subrange(pos, pos + 4),
{
    assert forall|b: u8| is_hex_digit_byte(b) implies 0 <= hex_val(b) < 16 && hex_digit(
        hex_val(b),
    ) == b by {}
    let d0 = hex_val(s[pos]) as u32;
    let d1 = hex_val(s[pos + 1]) as u32;
    let d2 = hex_val(s[pos + 2]) as u32;
    let d3 = hex_val(s[pos + 3]) as u32;
    let x = (d0 * 4096 + d1 * 256 + d2 * 16 + d3) as u32;
    assert((x / 4096) % 16 == d0 && (x / 256) % 16 == d1 && (x / 16) % 16 == d2 && x % 16 == d3)
        by (bit_vector)
        requires
            x == d0 * 4096 + d1 * 256 + d2 * 16 + d3,
            d0 < 16,
            d1 < 16,
            d2 < 16,
            d3 < 16,
    ;
}

/// A byte that stands for itself inside a JSON string: printable ASCII
/// other than the quote and the backslash.
pub open spec fn is_plain_byte(b: u8) -> bool {
    0x20 <= b <= 0x7E && b != 34 && b != 92
}

/// A character that stands for itself inside a JSON string.
pub open spec fn is_plain_char(c: char) -> bool {
    0x20 <= (c as u32) <= 0x7E && c != '"' && c != '\\'
}

/// The canonical escape of one character.
pub open spec fn escape_char(c: char) -> Seq<u8> {
    if is_plain_char(c) {
        seq![c as u8]
    } else if (c as u32) < 0x10000 {
        seq![92u8, 117u8] + hex4(c as u32 as int)
    } else {
        seq![92u8, 117u8] + hex4(0xD800 + ((c as u32) - 0x10000) as int / 0x400) + seq![
            92u8,
            117u8,
        ] + hex4(0xDC00 + ((c as u32) - 0x10000) as int % 0x400)
    }
}

/// The canonical escape of a string.
pub open spec fn escape(s: Seq<char>) -> Seq<u8>
    decreases s.len(),
{
    if s.len() == 0 {
        Seq::empty()
    } else {
        escape_char(s[0]) + escape(s.skip(1))
    }
}

/// Escaping commutes with appending one character on the right.
pub proof fn lemma_escape_push(s: Seq<char>, c: char)
    ensures
        escape(s.push(c)) =~= escape(s) + escape_char(c),
    decreases s.len(),
{
    if s.len() == 0 {
        assert(s.push(c)[0] == c);
        assert(s.push(c).skip(1) =~= Seq::<char>::empty());
        assert(escape(Seq::<char>::empty()) =~= Seq::<u8>::empty());
        assert(escape(s.push(c)) =~= escape_char(s.push(c)[0]) + escape(s.push(c).skip(1)));
        assert(escape(s.push(c)) =~= escape_char(c));
        assert(escape(s) + escape_char(c) =~= escape_char(c));
    } else {
        lemma_escape_push(s.skip(1), c);
        assert(s.push(c)[0] == s[0]);
        assert(s.push(c).skip(1) =~= s.skip(1).push(c));
        assert(escape(s.push(c)) =~= escape_char(s[0]) + (escape(s.skip(1)) + escape_char(c)));
    }
}

/// A `\u` escape value that would stand for a plain character; the
/// canonical form never uses one.
pub open spec fn is_plain_value(u: int) -> bool {
    0x20 <= u <= 0x7E && u != 34 && u != 92
}

/// The strict reader of a JSON string body: consumes escaped characters up
/// to and including the closing quote.
pub open spec fn jstr_parse(s: Seq<u8>, pos: int) -> Option<(Seq<char>, int)>
    decreases s.len() - pos when pos <= s.len()
{
    if pos < 0 || pos >= s.len() {
        None
    } else if s[pos] == 34 {
        Some((Seq::empty(), pos + 1))
    } else if is_plain_byte(s[pos]) {
        match jstr_parse(s, pos + 1) {
            Some(p) => Some((seq![s[pos] as char] + p.0, p.1)),
            None => None,
        }
    } else if s[pos] == 92 {
        if pos + 6 <= s.len() && s[pos + 1] == 117 && hex4_valid(s, pos + 2) {
            let u1 = hex4_val(s, pos + 2);
            if 0xD800 <= u1 < 0xDC00 {
                if pos + 12 <= s.len() && s[pos + 6] == 92 && s[pos + 7] == 117 && hex4_valid(
                    s,
                    pos + 8,
                ) {
                    let u2 = hex4_val(s, pos + 8);
                    if 0xDC00 <= u2 < 0xE000 {
                        let code = 0x10000 + (u1 - 0xD800) * 0x400 + (u2 - 0xDC00);
                        match jstr_parse(s, pos + 12) {
                            Some(p) => Some((seq![(code as u32) as char] + p.0, p.1)),
                            None => None,
                        }
                    } else {
                        None
                    }
                } else {
                    None
                }
            } else if 0xDC00 <= u1 < 0xE000 {
                None
            } else if is_plain_value(u1) {
                None
            } else {
                match jstr_parse(s, pos + 6) {
                    Some(p) => Some((seq![(u1 as u32) as char] + p.0, p.1)),
                    None => None,
                }
            }
        } else {
            None
        }
    } else {
        None
    }
}

/// Laying down the escape of a plain character.
proof fn lemma_escape_plain_at(s: Seq<u8>, pos: int, c: char)
    requires
        0 <= pos,
        is_plain_char(c),
        pos + 1 <= s.len(),
        s.subrange(pos, pos + 1) =~= escape_char(c),
    ensures
        is_plain_byte(s[pos]),
        s[pos] as char == c,
{
    assert(escape_char(c) =~= seq![c as u8]);
    assert(s[pos] == s.subrange(pos, pos + 1)[0]);
    assert(s[pos] == c as u8);
    assert((c as u32) <= 0x7E);
    assert(s[pos] == c as u32);
    assert('"' as u32 == 34);
    assert('\\' as u32 == 92);
    assert(is_plain_byte(s[pos]));
    assert(s[pos] as char == c);
}

/// Laying down the `\u` escape of a character below `0x10000`.
proof fn lemma_escape_bmp_at(s: Seq<u8>, pos: int, c: char)
    requires
        0 <= pos,
        !is_plain_char(c),
        (c as u32) < 0x10000,
        pos + 6 <= s.len(),
        s.subrange(pos, pos + 6) =~= escape_char(c),
    ensures
        s[pos] == 92,
        s[pos + 1] == 117,
        hex4_valid(s, pos + 2),
        hex4_val(s, pos + 2) == c as u32,
        !(0xD800 <= hex4_val(s, pos + 2) < 0xE000),
        !is_plain_value(hex4_val(s, pos + 2)),
        ((hex4_val(s, pos + 2) as u32) as char) == c,
{
    let u = (c as u32) as int;
    let ss = s.subrange(pos, pos + 6);
    assert(escape_char(c) =~= seq![92u8, 117u8] + hex4(u));
    lemma_hex4_of_val(u);
    assert forall|k: int| 0 <= k < 6 implies s[pos + k] == #[trigger] ss[k] by {}
    assert(ss[0] == 92 && ss[1] == 117);
    assert(ss[2] == hex4(u)[0] && ss[3] == hex4(u)[1] && ss[4] == hex4(u)[2] && ss[5] == hex4(
        u,
    )[3]);
    assert(hex4_valid(s, pos + 2));
    lemma_hex4_val_of_hex4(u);
    assert(hex4_val(s, pos + 2) == hex4_val(hex4(u), 0));
    assert(hex4_val(s, pos + 2) == u);
    vstd::utf8::char_is_scalar(c);
    assert('"' as u32 == 34);
    assert('\\' as u32 == 92);
    assert(!is_plain_value(u));
    assert((u as u32) as char == c);
}

/// Laying down the surrogate-pair escape of a character beyond `0xFFFF`.
proof fn lemma_escape_pair_at(s: Seq<u8>, pos: int, c: char)
    requires
        0 <= pos,
        (c as u32) >= 0x10000,
        pos + 12 <= s.len(),
        s.subrange(pos, pos + 12) =~= escape_char(c),
    ensures
        s[pos] == 92,
        s[pos + 1] == 117,
        hex4_valid(s, pos + 2),
        0xD800 <= hex4_val(s, pos + 2) < 0xDC00,
        s[pos + 6] == 92,
        s[pos + 7] == 117,
        hex4_valid(s, pos + 8),
        0xDC00 <= hex4_val(s, pos + 8) < 0xE000,
        (((0x10000 + (hex4_val(s, pos + 2) - 0xD800) * 0x400 + (hex4_val(s, pos + 8) - 0xDC00))
            as u32) as char) == c,
{
    let u = (c as u32) as int;
    let hi = 0xD800 + (u - 0x10000) / 0x400;
    let lo = 0xDC00 + (u - 0x10000) % 0x400;
    vstd::utf8::char_is_scalar(c);
    assert(u <= 0x10FFFF);
    assert(0 <= (u - 0x10000) / 0x400 < 0x400);
    assert(0 <= (u - 0x10000) % 0x400 < 0x400);
    let ss = s.subrange(pos, pos + 12);
    assert(escape_char(c) =~= seq![92u8, 117u8] + hex4(hi) + seq![92u8, 117u8] + hex4(lo));
    lemma_hex4_of_val(hi);
    lemma_hex4_of_val(lo);
    assert forall|k: int| 0 <= k < 12 implies s[pos + k] == #[trigger] ss[k] by {}
    assert(ss[0] == 92 && ss[1] == 117);
    assert(ss[2] == hex4(hi)[0] && ss[3] == hex4(hi)[1] && ss[4] == hex4(hi)[2] && ss[5] == hex4(
        hi,
    )[3]);
    assert(ss[6] == 92 && ss[7] == 117);
    assert(ss[8] == hex4(lo)[0] && ss[9] == hex4(lo)[1] && ss[10] == hex4(lo)[2] && ss[11]
        == hex4(lo)[3]);
    assert(hex4_valid(s, pos + 2));
    assert(hex4_valid(s, pos + 8));
    lemma_hex4_val_of_hex4(hi);
    lemma_hex4_val_of_hex4(lo);
    assert(hex4_val(s, pos + 2) == hi);
    assert(hex4_val(s, pos + 8) == lo);
    let code = 0x10000 + (hi - 0xD800) * 0x400 + (lo - 0xDC00);
    assert(code == u) by {
        vstd::arithmetic::div_mod::lemma_fundamental_div_mod(u - 0x10000, 0x400);
    }
    assert((code as u32) as char == c);
}

/// Reading back an escaped string (with its closing quote) yields the
/// string written and stops right after the quote.
#[verifier::rlimit(60)]
pub proof fn lemma_jstr_parse_complete(s: Seq<u8>, pos: int, cs: Seq<char>)
    requires
        0 <= pos,
        pos + escape(cs).len() + 1 <= s.len(),
        s.subrange(pos, pos + escape(cs).len() + 1) =~= escape(cs) + seq![34u8],
    ensures
        jstr_parse(s, pos) == Some((cs, pos + escape(cs).len() + 1)),
    decreases cs.len(),
{
    let end = pos + escape(cs).len() + 1;
    if cs.len() == 0 {
        assert(escape(cs) =~= Seq::<u8>::empty());
        assert(s.subrange(pos, pos + 1)[0] == s[pos]);
        assert((escape(cs) + seq![34u8])[0] == 34u8);
        assert(s[pos] == 34);
        assert(jstr_parse(s, pos) == Some((Seq::<char>::empty(), pos + 1)));
        assert(cs =~= Seq::<char>::empty());
    } else {
        let c = cs[0];
        let rest = cs.skip(1);
        let ec = escape_char(c);
        let tail = escape(rest) + seq![34u8];
        assert(escape(cs) =~= ec + escape(rest));
        assert(escape(cs) + seq![34u8] =~= ec + tail);
        lemma_seq_split(s, pos, ec, tail);
        lemma_jstr_parse_complete(s, pos + ec.len(), rest);
        assert(jstr_parse(s, pos + ec.len()) == Some((rest, end)));
        if is_plain_char(c) {
            lemma_escape_plain_at(s, pos, c);
            assert(seq![s[pos] as char] + rest =~= cs);
            assert(jstr_parse(s, pos) == Some((cs, end)));
        } else if (c as u32) < 0x10000 {
            lemma_escape_bmp_at(s, pos, c);
            assert(!is_plain_byte(92u8));
            let u1 = hex4_val(s, pos + 2);
            assert(seq![(u1 as u32) as char] + rest =~= cs);
            assert(jstr_parse(s, pos) == Some((cs, end)));
        } else {
            lemma_escape_pair_at(s, pos, c);
            assert(!is_plain_byte(92u8));
            let u1 = hex4_val(s, pos + 2);
            let u2 = hex4_val(s, pos + 8);
            let code = 0x10000 + (u1 - 0xD800) * 0x400 + (u2 - 0xDC00);
            assert(seq![(code as u32) as char] + rest =~= cs);
            assert(jstr_parse(s, pos) == Some((cs, end)));
        }
    }
}

/// What the reader accepts is exactly an escaped string with its closing
/// quote.
/// What the reader accepts is exactly an escaped string with its closing
/// quote.
#[verifier::rlimit(100)]
pub proof fn lemma_jstr_parse_sound(s: Seq<u8>, pos: int)
    requires
        pos <= s.len(),
        jstr_parse(s, pos) is Some,
    ensures
        ({
            let (cs, end) = jstr_parse(s, pos)->Some_0;
            &&& 0 <= pos < end <= s.len()
            &&& end == pos + escape(cs).len() + 1
            &&& s.subrange(pos, end) =~= escape(cs) + seq![34u8]
        }),
    decreases s.len() - pos,
{
    let (cs, end) = jstr_parse(s, pos)->Some_0;
    if s[pos] == 34 {
        assert(escape(cs) =~= Seq::<u8>::empty());
        assert(s.subrange(pos, pos + 1) =~= seq![34u8]);
    } else if is_plain_byte(s[pos]) {
        let p = jstr_parse(s, pos + 1)->Some_0;
        lemma_jstr_parse_sound(s, pos + 1);
        let c = s[pos] as char;
        assert(c as u32 == s[pos]);
        assert(is_plain_char(c)) by {
            assert(s[pos] != 34 ==> c != '"') by {
                assert('"' as u32 == 34);
            }
            assert(s[pos] != 92 ==> c != '\\') by {
                assert('\\' as u32 == 92);
            }
        }
        let ec = escape_char(c);
        assert(ec =~= seq![s[pos]]) by {
            assert(c as u8 == s[pos]);
        }
        assert(cs =~= seq![c] + p.0);
        assert(cs.len() > 0 && cs[0] == c && cs.skip(1) =~= p.0);
        assert(escape(cs) =~= ec + escape(p.0));
        assert(s.subrange(pos, pos + 1) =~= ec);
        lemma_seq_join(s, pos, ec, escape(p.0) + seq![34u8]);
        assert(s.subrange(pos, end) =~= escape(cs) + seq![34u8]);
    } else {
        let u1 = hex4_val(s, pos + 2);
        lemma_hex4_canonical(s, pos + 2);
        if 0xD800 <= u1 < 0xDC00 {
            let u2 = hex4_val(s, pos + 8);
            lemma_hex4_canonical(s, pos + 8);
            let code = 0x10000 + (u1 - 0xD800) * 0x400 + (u2 - 0xDC00);
            let p = jstr_parse(s, pos + 12)->Some_0;
            lemma_jstr_parse_sound(s, pos + 12);
            let c = (code as u32) as char;
            assert(0x10000 <= code <= 0x10FFFF);
            assert(c as u32 == code);
            assert(!is_plain_char(c));
            assert((code - 0x10000) / 0x400 == u1 - 0xD800 && (code - 0x10000) % 0x400 == u2
                - 0xDC00) by (nonlinear_arith)
                requires
                    code == 0x10000 + (u1 - 0xD800) * 0x400 + (u2 - 0xDC00),
                    0 <= u1 - 0xD800 < 0x400,
                    0 <= u2 - 0xDC00 < 0x400,
            ;
            let ec = escape_char(c);
            assert(ec =~= seq![92u8, 117u8] + hex4(u1) + seq![92u8, 117u8] + hex4(u2));
            assert(s.subrange(pos, pos + 2) =~= seq![92u8, 117u8]);
            assert(s.subrange(pos + 2, pos + 6) =~= hex4(u1));
            lemma_seq_join(s, pos, seq![92u8, 117u8], hex4(u1));
            assert(s.subrange(pos + 6, pos + 8) =~= seq![92u8, 117u8]);
            assert(s.subrange(pos + 8, pos + 12) =~= hex4(u2));
            lemma_seq_join(s, pos + 6, seq![92u8, 117u8], hex4(u2));
            lemma_seq_join(
                s,
                pos,
                seq![92u8, 117u8] + hex4(u1),
                seq![92u8, 117u8] + hex4(u2),
            );
            assert(s.subrange(pos, pos + 12) =~= ec);
            assert(cs =~= seq![c] + p.0);
            assert(cs.len() > 0 && cs[0] == c && cs.skip(1) =~= p.0);
            assert(escape(cs) =~= ec + escape(p.0));
            lemma_seq_join(s, pos, ec, escape(p.0) + seq![34u8]);
            assert(s.subrange(pos, end) =~= escape(cs) + seq![34u8]);
        } else {
            let p = jstr_parse(s, pos + 6)->Some_0;
            lemma_jstr_parse_sound(s, pos + 6);
            let c = (u1 as u32) as char;
            assert(u1 < 0xD800 || 0xE000 <= u1 < 0x10000);
            assert(c as u32 == u1);
            assert(!is_plain_char(c)) by {
                assert('"' as u32 == 34);
                assert('\\' as u32 == 92);
            }
            let ec = escape_char(c);
            assert(ec =~= seq![92u8, 117u8] + hex4(u1));
            assert(s.subrange(pos, pos + 2) =~= seq![92u8, 117u8]);
            assert(s.subrange(pos + 2, pos + 6) =~= hex4(u1));
            lemma_seq_join(s, pos, seq![92u8, 117u8], hex4(u1));
            assert(s.subrange(pos, pos + 6) =~= ec);
            assert(cs =~= seq![c] + p.0);
            assert(cs.len() > 0 && cs[0] == c && cs.skip(1) =~= p.0);
            assert(escape(cs) =~= ec + escape(p.0));
            lemma_seq_join(s, pos, ec, escape(p.0) + seq![34u8]);
            assert(s.subrange(pos, end) =~= escape(cs) + seq![34u8]);
        }
    }
}

/// Hex value `d` (0 to 15) as its lowercase digit.
fn hex_digit_exec(d: u32) -> (b: u8)
    requires
        d < 16,
    ensures
        b == hex_digit(d as int),
{
    if d < 10 {
        48 + d as u8
    } else {
        87 + d as u8
    }
}

/// The value of a lowercase hex digit, 16 for any other byte.
fn hex_val_exec(b: u8) -> (n: u8)
    ensures
        n as int == hex_val(b),
{
    if 48 <= b && b <= 57 {
        b - 48
    } else if 97 <= b && b <= 102 {
        b - 87
    } else {
        16
    }
}

/// Appends the four hex digits of `n`.
fn push_hex4(out: &mut Vec<u8>, n: u32)
    requires
        n < 0x10000,
    ensures
        final(out)@ == old(out)@ + hex4(n as int),
{
    out.push(hex_digit_exec((n / 4096) % 16));
    out.push(hex_digit_exec((n / 256) % 16));
    out.push(hex_digit_exec((n / 16) % 16));
    out.push(hex_digit_exec(n % 16));
    proof {
        assert(final(out)@ =~= old(out)@ + hex4(n as int));
    }
}

/// Appends the canonical escape of `s`.
pub fn append_escaped(out: &mut Vec<u8>, s: &str)
    ensures
        final(out)@ == old(out)@ + escape(s@),
{
    let len = s.unicode_len();
    let mut i: usize = 0;
    proof {
        assert(s@.take(0) =~= Seq::<char>::empty());
        assert(escape(s@.take(0)) =~= Seq::<u8>::empty());
        assert(out@ =~= old(out)@ + escape(s@.take(0)));
    }
    while i < len
        invariant
            i <= len,
            len == s@.len(),
            out@ == old(out)@ + escape(s@.take(i as int)),
        decreases len - i,
    {
        let c = s.get_char(i);
        proof {
            lemma_escape_push(s@.take(i as int), c);
            assert(s@.take(i + 1) =~= s@.take(i as int).push(c));
        }
        let u = c as u32;
        if u >= 0x20 && u <= 0x7E && c != '"' && c != '\\' {
            proof {
                assert(is_plain_char(c));
                assert(escape_char(c) =~= seq![c as u8]);
            }
            out.push(c as u8);
            proof {
                assert(out@ =~= old(out)@ + escape(s@.take(i + 1)));
            }
        } else if u < 0x10000 {
            proof {
                assert(!is_plain_char(c)) by {
                    assert('"' as u32 == 34);
                    assert('\\' as u32 == 92);
                }
                assert(escape_char(c) =~= seq![92u8, 117u8] + hex4(u as int));
            }
            out.push(92);
            out.push(117);
            push_hex4(out, u);
            proof {
                assert(out@ =~= old(out)@ + escape(s@.take(i + 1)));
            }
        } else {
            proof {
                vstd::utf8::char_is_scalar(c);
                assert(!is_plain_char(c));
                assert(escape_char(c) =~= seq![92u8, 117u8] + hex4(
                    0xD800 + ((c as u32) - 0x10000) as int / 0x400,
                ) + seq![92u8, 117u8] + hex4(0xDC00 + ((c as u32) - 0x10000) as int % 0x400));
            }
            out.push(92);
            out.push(117);
            push_hex4(out, 0xD800 + (u - 0x10000) / 0x400);
            out.push(92);
            out.push(117);
            push_hex4(out, 0xDC00 + (u - 0x10000) % 0x400);
            proof {
                assert(out@ =~= old(out)@ + escape(s@.take(i + 1)));
            }
        }
        i = i + 1;
    }
    proof {
        assert(s@.take(len as int) =~= s@);
    }
}

/// Reads a JSON string body (after the opening quote) up to and including
/// the closing quote: the strict inverse of `escape`.
#[verifier::rlimit(100)]
pub fn parse_jstr(v: &Vec<u8>, pos: usize) -> (r: Option<(String, usize)>)
    requires
        pos <= v@.len(),
    ensures
        r matches Some(p) ==> (jstr_parse(v@, pos as int) matches Some(q) && q.0 == p.0@ && q.1
            == p.1 && pos < p.1 <= v@.len()),
        r is None ==> jstr_parse(v@, pos as int) is None,
        jstr_parse(v@, pos as int) is Some ==> r is Some,
{
    let len = v.len();
    let mut acc = String::new();
    let mut i = pos;
    loop
        invariant
            pos <= i <= len,
            len == v@.len(),
            jstr_parse(v@, pos as int) == (match jstr_parse(v@, i as int) {
                Some(p) => Some((acc@ + p.0, p.1)),
                None => None,
            }),
        decreases len - i,
    {
        if i >= len {
            return None;
        }
        let b = v[i];
        if b == 34 {
            proof {
                assert(jstr_parse(v@, i as int) == Some((Seq::<char>::empty(), i + 1)));
                assert(acc@ + Seq::<char>::empty() =~= acc@);
            }
            return Some((acc, i + 1));
        } else if 0x20 <= b && b <= 0x7E && b != 92 {
            let c = b as char;
            let ghost acc0 = acc@;
            push_char(&mut acc, c);
            proof {
                assert(is_plain_byte(b));
                let po = jstr_parse(v@, i + 1);
                                if po is Some {
                                    let p = po->Some_0;
                    assert(jstr_parse(v@, i as int) == Some((seq![c] + p.0, p.1)));
                    assert(acc0 + (seq![c] + p.0) =~= acc@ + p.0);
                } else {
                    assert(jstr_parse(v@, i as int) is None);
                }
            }
            i = i + 1;
        } else if b == 92 {
            if len - i < 6 || v[i + 1] != 117 {
                proof {
                    assert(jstr_parse(v@, i as int) is None);
                }
                return None;
            }
            let h0 = hex_val_exec(v[i + 2]);
            let h1 = hex_val_exec(v[i + 3]);
            let h2 = hex_val_exec(v[i + 4]);
            let h3 = hex_val_exec(v[i + 5]);
            if h0 == 16 || h1 == 16 || h2 == 16 || h3 == 16 {
                proof {
                    assert(!hex4_valid(v@, i + 2));
                    assert(jstr_parse(v@, i as int) is None);
                }
                return None;
            }
            proof {
                assert(hex4_valid(v@, i + 2));
            }
            let u1 = (h0 as u32) * 4096 + (h1 as u32) * 256 + (h2 as u32) * 16 + h3 as u32;
            proof {
                assert(u1 == hex4_val(v@, i + 2));
            }
            if 0xD800 <= u1 && u1 < 0xDC00 {
                if len - i < 12 || v[i + 6] != 92 || v[i + 7] != 117 {
                    proof {
                        assert(jstr_parse(v@, i as int) is None);
                    }
                    return None;
                }
                let g0 = hex_val_exec(v[i + 8]);
                let g1 = hex_val_exec(v[i + 9]);
                let g2 = hex_val_exec(v[i + 10]);
                let g3 = hex_val_exec(v[i + 11]);
                if g0 == 16 || g1 == 16 || g2 == 16 || g3 == 16 {
                    proof {
                        assert(!hex4_valid(v@, i + 8));
                        assert(jstr_parse(v@, i as int) is None);
                    }
                    return None;
                }
                proof {
                    assert(hex4_valid(v@, i + 8));
                }
                let u2 = (g0 as u32) * 4096 + (g1 as u32) * 256 + (g2 as u32) * 16 + g3 as u32;
                proof {
                    assert(u2 == hex4_val(v@, i + 8));
                }
                if !(0xDC00 <= u2 && u2 < 0xE000) {
                    proof {
                        assert(jstr_parse(v@, i as int) is None);
                    }
                    return None;
                }
                let code = 0x10000 + (u1 - 0xD800) * 0x400 + (u2 - 0xDC00);
                let copt = char_from_u32(code);
                match copt {
                    Some(c) => {
                        let ghost acc0 = acc@;
                        push_char(&mut acc, c);
                        proof {
                            vstd::utf8::char_u32_cast(c, code);
                            let po = jstr_parse(v@, i + 12);
                                if po is Some {
                                    let p = po->Some_0;
                                assert(jstr_parse(v@, i as int) == Some((seq![c] + p.0, p.1)));
                                assert(acc0 + (seq![c] + p.0) =~= acc@ + p.0);
                            } else {
                                assert(jstr_parse(v@, i as int) is None);
                            }
                        }
                        i = i + 12;
                    },
                    None => {
                        proof {
                            assert(false);
                        }
                        return None;
                    },
                }
            } else if 0xDC00 <= u1 && u1 < 0xE000 {
                proof {
                    assert(jstr_parse(v@, i as int) is None);
                }
                return None;
            } else if 0x20 <= u1 && u1 <= 0x7E && u1 != 34 && u1 != 92 {
                proof {
                    assert(is_plain_value(u1 as int));
                    assert(jstr_parse(v@, i as int) is None);
                }
                return None;
            } else {
                let copt = char_from_u32(u1);
                match copt {
                    Some(c) => {
                        let ghost acc0 = acc@;
                        push_char(&mut acc, c);
                        proof {
                            vstd::utf8::char_u32_cast(c, u1);
                            let po = jstr_parse(v@, i + 6);
                                if po is Some {
                                    let p = po->Some_0;
                                assert(jstr_parse(v@, i as int) == Some((seq![c] + p.0, p.1)));
                                assert(acc0 + (seq![c] + p.0) =~= acc@ + p.0);
                            } else {
                                assert(jstr_parse(v@, i as int) is None);
                            }
                        }
                        i = i + 6;
                    },
                    None => {
                        proof {
                            assert(false);
                        }
                        return None;
                    },
                }
            }
        } else {
            proof {
                assert(!is_plain_byte(b));
                assert(jstr_parse(v@, i as int) is None);
            }
            return None;
        }
    }
}

} // verus!
