//! Conversions between character strings and their ASCII byte form.

use vstd::prelude::*;

verus! {

/// Every character of `s` is an ASCII code point.
pub open spec fn all_ascii(s: Seq<char>) -> bool {
    forall|i: int| 0 <= i < s.len() ==> ((#[trigger] s[i]) as u32) < 128
}

/// The characters of `s` read as bytes; faithful when `all_ascii(s)`.
pub open spec fn ascii_bytes_of(s: Seq<char>) -> Seq<u8> {
    Seq::new(s.len(), |i: int| s[i] as u8)
}

/// Relies on `String::push`: appends the character at the end of the string.
#[verifier::external_body]
pub(crate) fn push_char(s: &mut String, c: char)
    ensures
        final(s)@ == old(s)@.push(c),
{
    s.push(c)
}

/// Relies on `char::from_u32`: `Some` exactly for Unicode scalar values
/// (below the surrogate range or between it and `0x10FFFF`), and then the
/// character with that code.
#[verifier::external_body]
pub(crate) fn char_from_u32(u: u32) -> (r: Option<char>)
    ensures
        r matches Some(c) ==> c as u32 == u,
        (u < 0xD800 || (0xE000 <= u <= 0x10FFFF)) ==> r is Some,
{
    char::from_u32(u)
}

/// Relies on `String::from_utf8`: ASCII bytes are valid UTF-8 and decode to
/// exactly those code points.
#[verifier::external_body]
pub(crate) fn ascii_bytes_to_string(v: Vec<u8>) -> (r: String)
    requires
        forall|i: int| 0 <= i < v@.len() ==> #[trigger] v@[i] < 128,
    ensures
        r@.len() == v@.len(),
        forall|i: int| 0 <= i < v@.len() ==> #[trigger] r@[i] == v@[i] as char,
{
    match String::from_utf8(v) {
        Ok(s) => s,
        Err(_) => String::new(),
    }
}

/// A region of `s` that reads as `a + b` splits into a region reading as
/// `a` and one reading as `b`.
pub proof fn lemma_seq_split<T>(s: Seq<T>, pos: int, a: Seq<T>, b: Seq<T>)
    requires
        0 <= pos,
        pos + a.len() + b.len() <= s.len(),
        s.subrange(pos, pos + a.len() + b.len()) =~= a + b,
    ensures
        s.subrange(pos, pos + a.len()) =~= a,
        s.subrange(pos + a.len(), pos + a.len() + b.len()) =~= b,
        forall|k: int| 0 <= k < a.len() ==> s[pos + k] == #[trigger] a[k],
        forall|k: int| 0 <= k < b.len() ==> s[pos + a.len() + k] == #[trigger] b[k],
{
    let whole = s.subrange(pos, pos + a.len() + b.len());
    assert forall|k: int| 0 <= k < a.len() implies s[pos + k] == #[trigger] a[k] by {
        assert(whole[k] == s[pos + k]);
        assert((a + b)[k] == a[k]);
    }
    assert forall|k: int| 0 <= k < b.len() implies s[pos + a.len() + k] == #[trigger] b[k] by {
        assert(whole[a.len() + k] == s[pos + a.len() + k]);
        assert((a + b)[a.len() + k] == b[k]);
    }
}

/// Adjacent regions reading as `a` and `b` read together as `a + b`.
pub proof fn lemma_seq_join<T>(s: Seq<T>, pos: int, a: Seq<T>, b: Seq<T>)
    requires
        0 <= pos,
        pos + a.len() + b.len() <= s.len(),
        s.subrange(pos, pos + a.len()) =~= a,
        s.subrange(pos + a.len(), pos + a.len() + b.len()) =~= b,
    ensures
        s.subrange(pos, pos + a.len() + b.len()) =~= a + b,
{
    let whole = s.subrange(pos, pos + a.len() + b.len());
    assert forall|k: int| 0 <= k < whole.len() implies whole[k] == (a + b)[k] by {
        if k < a.len() {
            assert(s.subrange(pos, pos + a.len())[k] == s[pos + k]);
        } else {
            assert(s.subrange(pos + a.len(), pos + a.len() + b.len())[k - a.len()] == s[pos + k]);
        }
    }
}

proof fn lemma_char_ascii_bounds(c: char)
    ensures
        ((c as u32) < 128) <==> ('\0' <= c <= '\u{7f}'),
{
}

/// `all_ascii` says the same thing as `vstd::utf8::is_ascii_chars`.
pub proof fn lemma_all_ascii_is_ascii_chars(s: Seq<char>)
    ensures
        all_ascii(s) <==> vstd::utf8::is_ascii_chars(s),
{
    if all_ascii(s) {
        assert forall|i: int| 0 <= i < s.len() implies '\0' <= #[trigger] s[i] <= '\u{7f}' by {
            assert(((s[i]) as u32) < 128);
            lemma_char_ascii_bounds(s[i]);
        }
        assert(vstd::utf8::is_ascii_chars(s));
    }
    if vstd::utf8::is_ascii_chars(s) {
        assert forall|i: int| 0 <= i < s.len() implies (((#[trigger] s[i]) as u32) < 128) by {
            assert('\0' <= s[i] <= '\u{7f}');
            lemma_char_ascii_bounds(s[i]);
        }
    }
}

/// The bytes of an ASCII string.
pub fn ascii_bytes(s: &str) -> (v: Vec<u8>)
    requires
        s.is_ascii(),
    ensures
        v@ == ascii_bytes_of(s@),
{
    broadcast use vstd::string::is_ascii_spec_bytes;

    let v = s.as_bytes_vec();
    proof {
        assert(v@ =~= ascii_bytes_of(s@));
    }
    v
}

/// Whether two string slices hold the same characters.
pub fn str_eq(a: &str, b: &str) -> (r: bool)
    ensures
        r == (a@ == b@),
{
    let la = a.unicode_len();
    let lb = b.unicode_len();
    if la != lb {
        proof {
            assert(a@ != b@);
        }
        return false;
    }
    let mut i: usize = 0;
    while i < la
        invariant
            0 <= i <= la,
            la == a@.len(),
            la == b@.len(),
            forall|j: int| 0 <= j < i ==> a@[j] == b@[j],
        decreases la - i,
    {
        if a.get_char(i) != b.get_char(i) {
            proof {
                assert(a@[i as int] != b@[i as int]);
            }
            return false;
        }
        i = i + 1;
    }
    proof {
        assert(a@ =~= b@);
    }
    true
}

/// Whether some string in `ss` holds the characters `name`.
pub open spec fn contains_name(ss: Seq<String>, name: Seq<char>) -> bool {
    exists|i: int| 0 <= i < ss.len() && ss[i]@ == name
}

/// Whether `v` already holds a string equal to `s`.
pub fn contains_str(v: &Vec<String>, s: &str) -> (r: bool)
    ensures
        r == contains_name(v@, s@),
{
    let n = v.len();
    let mut i: usize = 0;
    while i < n
        invariant
            0 <= i <= n,
            n == v@.len(),
            forall|j: int| 0 <= j < i ==> v@[j]@ != s@,
        decreases n - i,
    {
        if str_eq(v[i].as_str(), s) {
            return true;
        }
        i = i + 1;
    }
    false
}

} // verus!
