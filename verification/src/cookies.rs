//! Cookie text: building a `Set-Cookie`-style string for the token, and
//! finding a named cookie's value inside a raw cookie line.
//!
//! The surrounding program reads and writes the actual cookie storage;
//! this module does the string work.  A lookup walks the `;`-separated
//! pieces, trims spaces, takes the first piece that starts with
//! `name=`, and yields what stands between the first `=` of that piece
//! and its second `=` (or its end).

use vstd::prelude::*;

use crate::decnum::dec_bytes;
use crate::decnum::push_dec;
use crate::textutil::push_char;

verus! {

/// The first position of `c` in `s` at or after `from`; -1 if none.
pub open spec fn find_char(s: Seq<char>, c: char, from: int) -> int
    decreases s.len() - from when from <= s.len()
{
    if from < 0 || from >= s.len() {
        -1
    } else if s[from] == c {
        from
    } else {
        find_char(s, c, from + 1)
    }
}

proof fn lemma_find_char_bounds(s: Seq<char>, c: char, from: int)
    requires
        0 <= from <= s.len(),
    ensures
        find_char(s, c, from) == -1 || (from <= find_char(s, c, from) < s.len() && s[find_char(
            s,
            c,
            from,
        )] == c),
        find_char(s, c, from) == -1 ==> (forall|k: int| from <= k < s.len() ==> s[k] != c),
        forall|k: int| from <= k < find_char(s, c, from) ==> s[k] != c,
    decreases s.len() - from,
{
    if from < s.len() && s[from] != c {
        lemma_find_char_bounds(s, c, from + 1);
    }
}

proof fn lemma_find_char_at(s: Seq<char>, c: char, from: int, at: int)
    requires
        0 <= from <= at < s.len(),
        s[at] == c,
        forall|k: int| from <= k < at ==> s[k] != c,
    ensures
        find_char(s, c, from) == at,
    decreases at - from,
{
    if from < at {
        lemma_find_char_at(s, c, from + 1, at);
    }
}

/// How many spaces `s` starts with.
pub open spec fn leading_spaces(s: Seq<char>) -> int
    decreases s.len(),
{
    if s.len() == 0 || s[0] != ' ' {
        0
    } else {
        1 + leading_spaces(s.skip(1))
    }
}

/// How many spaces `s` ends with.
pub open spec fn trailing_spaces(s: Seq<char>) -> int
    decreases s.len(),
{
    if s.len() == 0 || s.last() != ' ' {
        0
    } else {
        1 + trailing_spaces(s.drop_last())
    }
}

/// `s` without its leading and trailing spaces.
pub open spec fn trim_spaces(s: Seq<char>) -> Seq<char> {
    let l = leading_spaces(s);
    let t = trailing_spaces(s);
    if l + t <= s.len() {
        s.subrange(l, s.len() - t)
    } else {
        Seq::empty()
    }
}

proof fn lemma_leading_spaces(s: Seq<char>)
    ensures
        0 <= leading_spaces(s) <= s.len(),
        forall|j: int| 0 <= j < leading_spaces(s) ==> s[j] == ' ',
        leading_spaces(s) < s.len() ==> s[leading_spaces(s)] != ' ',
    decreases s.len(),
{
    if s.len() > 0 && s[0] == ' ' {
        lemma_leading_spaces(s.skip(1));
        assert forall|j: int| 0 <= j < leading_spaces(s) implies s[j] == ' ' by {
            if j > 0 {
                assert(s.skip(1)[j - 1] == s[j]);
            }
        }
        if leading_spaces(s) < s.len() {
            assert(s.skip(1)[leading_spaces(s) - 1] == s[leading_spaces(s)]);
        }
    }
}

proof fn lemma_leading_unique(s: Seq<char>, k: int)
    requires
        0 <= k <= s.len(),
        forall|j: int| 0 <= j < k ==> s[j] == ' ',
        k < s.len() ==> s[k] != ' ',
    ensures
        k == leading_spaces(s),
{
    lemma_leading_spaces(s);
}

proof fn lemma_trailing_spaces(s: Seq<char>)
    ensures
        0 <= trailing_spaces(s) <= s.len(),
        forall|j: int| s.len() - trailing_spaces(s) <= j < s.len() ==> s[j] == ' ',
        trailing_spaces(s) < s.len() ==> s[s.len() - trailing_spaces(s) - 1] != ' ',
    decreases s.len(),
{
    if s.len() > 0 && s.last() == ' ' {
        lemma_trailing_spaces(s.drop_last());
        assert forall|j: int| s.len() - trailing_spaces(s) <= j < s.len() implies s[j] == ' ' by {
            if j < s.len() - 1 {
                assert(s.drop_last()[j] == s[j]);
            }
        }
        if trailing_spaces(s) < s.len() {
            assert(s.drop_last()[s.len() - trailing_spaces(s) - 1] == s[s.len() - trailing_spaces(
                s,
            ) - 1]);
        }
    }
}

proof fn lemma_trailing_unique(s: Seq<char>, k: int)
    requires
        0 <= k <= s.len(),
        forall|j: int| s.len() - k <= j < s.len() ==> s[j] == ' ',
        k < s.len() ==> s[s.len() - k - 1] != ' ',
    ensures
        k == trailing_spaces(s),
{
    lemma_trailing_spaces(s);
    let t = trailing_spaces(s);
    if k < t {
        assert(s[s.len() - k - 1] == ' ');
    }
    if k > t {
        assert(s[s.len() - t - 1] == ' ');
    }
}

/// What stands between a trimmed piece's first `=` and its second `=` or
/// its end.
pub open spec fn cookie_value(t: Seq<char>) -> Seq<char> {
    let e1 = find_char(t, '=', 0);
    if e1 < 0 {
        Seq::empty()
    } else {
        let e2 = find_char(t, '=', e1 + 1);
        t.subrange(
            e1 + 1,
            if e2 < 0 {
                t.len() as int
            } else {
                e2
            },
        )
    }
}

/// Whether the trimmed piece `t` begins with `name` followed by `=`.
pub open spec fn names_cookie(t: Seq<char>, name: Seq<char>) -> bool {
    t.len() > name.len() && t.subrange(0, name.len() as int) == name && t[name.len() as int] == '='
}

/// The value of the first `;`-separated piece of `raw` that, after
/// trimming spaces, begins with `name=`; `None` when no piece does.
pub open spec fn cookie_lookup(raw: Seq<char>, name: Seq<char>) -> Option<Seq<char>>
    decreases raw.len(),
{
    let e = find_char(raw, ';', 0);
    let seg_end = if e < 0 {
        raw.len() as int
    } else {
        e
    };
    let t = trim_spaces(raw.subrange(0, seg_end));
    if names_cookie(t, name) {
        Some(cookie_value(t))
    } else if e < 0 || e >= raw.len() {
        None
    } else {
        cookie_lookup(raw.skip(e + 1), name)
    }
}

/// The digits of `n`, as characters.
pub open spec fn dec_chars(n: nat) -> Seq<char> {
    Seq::new(dec_bytes(n).len(), |i: int| dec_bytes(n)[i] as char)
}

/// `name=value; path=/; max-age=N; SameSite=Lax`
pub open spec fn cookie_text(name: Seq<char>, value: Seq<char>, max_age: u64) -> Seq<char> {
    name + seq!['='] + value + seq![
        ';',
        ' ',
        'p',
        'a',
        't',
        'h',
        '=',
        '/',
        ';',
        ' ',
        'm',
        'a',
        'x',
        '-',
        'a',
        'g',
        'e',
        '=',
    ] + dec_chars(max_age as nat) + seq![';', ' ', 'S', 'a', 'm', 'e', 'S', 'i', 't', 'e', '=', 'L', 'a', 'x']
}

/// Cookie text in and out; the surrounding program owns the storage.
pub struct CookieManager;

impl CookieManager {
    /// The text that sets cookie `name` to `value` for `max_age` seconds,
    /// site-wide and same-site lax.
    pub fn set(name: &str, value: &str, max_age: u64) -> (r: String)
        ensures
            r@ == cookie_text(name@, value@, max_age),
    {
        let mut out = String::new();
        out.append(name);
        push_char(&mut out, '=');
        out.append(value);
        out.append("; path=/; max-age=");
        let mut digits: Vec<u8> = Vec::new();
        push_dec(&mut digits, max_age);
        let ghost mid = out@;
        let n = digits.len();
        let mut i: usize = 0;
        while i < n
            invariant
                0 <= i <= n,
                n == dec_bytes(max_age as nat).len(),
                digits@ == dec_bytes(max_age as nat),
                out@ == mid + dec_chars(max_age as nat).take(i as int),
            decreases n - i,
        {
            push_char(&mut out, digits[i] as char);
            proof {
                assert(out@ =~= mid + dec_chars(max_age as nat).take(i + 1));
            }
            i = i + 1;
        }
        out.append("; SameSite=Lax");
        proof {
            reveal_strlit("; path=/; max-age=");
            reveal_strlit("; SameSite=Lax");
            assert(dec_chars(max_age as nat).take(n as int) =~= dec_chars(max_age as nat));
            assert(out@ =~= cookie_text(name@, value@, max_age));
        }
        out
    }

    /// Looks `name` up in the raw cookie line `raw_cookies`.
    #[verifier::loop_isolation(false)]
    pub fn get(raw_cookies: &str, name: &str) -> (r: Option<String>)
        ensures
            r matches Some(v) ==> cookie_lookup(raw_cookies@, name@) == Some(v@),
            r is None ==> cookie_lookup(raw_cookies@, name@) is None,
    {
        let cs = chars_of(raw_cookies);
        let nv = chars_of(name);
        let len = cs.len();
        let mut pos: usize = 0;
        proof {
            assert(cs@.skip(0) =~= cs@);
        }
        loop
            invariant
                0 <= pos <= len,
                cookie_lookup(raw_cookies@, name@) == cookie_lookup(cs@.skip(pos as int), name@),
            decreases len - pos,
        {
            let ghost rest = cs@.skip(pos as int);
            // the end of this piece
            let mut e: usize = pos;
            while e < len && cs[e] != ';'
                invariant
                    pos <= e <= len,
                    forall|k: int| pos <= k < e ==> cs@[k] != ';',
                decreases len - e,
            {
                e = e + 1;
            }
            proof {
                if e < len {
                    lemma_find_char_at(rest, ';', 0, e - pos);
                } else {
                    lemma_find_char_bounds(rest, ';', 0);
                    if find_char(rest, ';', 0) >= 0 {
                        assert(rest[find_char(rest, ';', 0)] == ';');
                    }
                }
                assert(rest.subrange(
                    0,
                    if e < len {
                        e - pos
                    } else {
                        rest.len() as int
                    },
                ) =~= cs@.subrange(pos as int, e as int));
            }
            match match_piece(&cs, &nv, pos, e) {
                Some(v) => {
                    return Some(v);
                },
                None => {},
            }
            if e == len {
                proof {
                    assert(cookie_lookup(rest, name@) is None);
                }
                return None;
            }
            proof {
                assert(rest.skip(e - pos + 1) =~= cs@.skip(e + 1));
                assert(cookie_lookup(rest, name@) == cookie_lookup(cs@.skip(e + 1), name@));
            }
            pos = e + 1;
        }
    }
}

/// Trims the piece `cs[pos..e]` and, when it begins with `nv=`, yields
/// the piece's value.
#[verifier::rlimit(100)]
#[verifier::spinoff_prover]
#[verifier::loop_isolation(false)]
fn match_piece(cs: &Vec<char>, nv: &Vec<char>, pos: usize, e: usize) -> (r: Option<String>)
    requires
        pos <= e <= cs@.len(),
    ensures
        ({
            let t = trim_spaces(cs@.subrange(pos as int, e as int));
            match r {
                Some(v) => names_cookie(t, nv@) && v@ == cookie_value(t),
                None => !names_cookie(t, nv@),
            }
        }),
{
    let ghost seg = cs@.subrange(pos as int, e as int);
    let len = cs.len();
    let nlen = nv.len();
    // trim spaces off both ends
    let mut a: usize = pos;
    while a < e && cs[a] == ' '
        invariant
            pos <= a <= e,
            forall|k: int| pos <= k < a ==> cs@[k] == ' ',
        decreases e - a,
    {
        a = a + 1;
    }
    let mut b: usize = e;
    while b > a && cs[b - 1] == ' '
        invariant
            a <= b <= e,
            forall|k: int| b <= k < e ==> cs@[k] == ' ',
        decreases b,
    {
        b = b - 1;
    }
    proof {
        if a == e {
            // the piece is all spaces: it trims to nothing
            lemma_leading_unique(seg, seg.len() as int);
            lemma_trailing_unique(seg, seg.len() as int);
            assert(trim_spaces(seg) =~= Seq::<char>::empty());
        } else {
            lemma_leading_unique(seg, a - pos);
            lemma_trailing_unique(seg, e - b);
            assert(trim_spaces(seg) =~= cs@.subrange(a as int, b as int));
        }
    }
    let ghost t = trim_spaces(seg);
    // does the trimmed piece begin with `name=`?
    let matched = b - a > nlen && cs[a + nlen] == '=' && chars_region_eq(&cs, a, &nv);
    proof {
        if b - a > nlen {
            assert(t[nlen as int] == cs@[a + nlen]);
            assert(t.subrange(0, nlen as int) =~= cs@.subrange(a as int, a + nlen));
        }
        if matched {
            assert(names_cookie(t, nv@));
        } else {
            assert(!names_cookie(t, nv@)) by {
                if names_cookie(t, nv@) {
                    assert(t.len() > nlen);
                    assert(b - a > nlen);
                    assert(cs@[a + nlen] == '=');
                    assert(cs@.subrange(a as int, a + nlen) == nv@);
                }
            }
        }
    }
    if !matched {
        return None;
    }
    // the value: between the first `=` of the piece and the second `=`
    // or the piece's end
    let mut p1: usize = a;
    while p1 < b && cs[p1] != '='
        invariant
            a <= p1 <= b,
            forall|k: int| a <= k < p1 ==> cs@[k] != '=',
        decreases b - p1,
    {
        p1 = p1 + 1;
    }
    proof {
        assert(cs@[a + nlen] == '=');
        assert(p1 < b);
        lemma_find_char_at(t, '=', 0, p1 - a);
    }
    let mut p2: usize = p1 + 1;
    while p2 < b && cs[p2] != '='
        invariant
            p1 + 1 <= p2 <= b,
            forall|k: int| p1 + 1 <= k < p2 ==> cs@[k] != '=',
        decreases b - p2,
    {
        p2 = p2 + 1;
    }
    proof {
        if p2 < b {
            lemma_find_char_at(t, '=', p1 - a + 1, p2 - a);
        } else {
            lemma_find_char_bounds(t, '=', p1 - a + 1);
            if find_char(t, '=', p1 - a + 1) >= 0 {
                assert(t[find_char(t, '=', p1 - a + 1)] == '=');
            }
        }
    }
    let mut value = String::new();
    let mut m = p1 + 1;
    while m < p2
        invariant
            p1 + 1 <= m <= p2,
            value@ == cs@.subrange(p1 + 1, m as int),
        decreases p2 - m,
    {
        push_char(&mut value, cs[m]);
        proof {
            assert(value@ =~= cs@.subrange(p1 + 1, m + 1));
        }
        m = m + 1;
    }
    proof {
        assert(value@ =~= cookie_value(t));
    }
    Some(value)
}

/// Whether the characters of `cs` at `from` read exactly `nv`./// Whether the characters of `cs` at `from` read exactly `nv`.
fn chars_region_eq(cs: &Vec<char>, from: usize, nv: &Vec<char>) -> (r: bool)
    requires
        from + nv@.len() <= cs@.len(),
    ensures
        r <==> cs@.subrange(from as int, from + nv@.len()) == nv@,
{
    let n = nv.len();
    let cl = cs.len();
    let mut i: usize = 0;
    while i < n
        invariant
            0 <= i <= n,
            n == nv@.len(),
            cl == cs@.len(),
            from + n <= cl,
            forall|j: int| 0 <= j < i ==> cs@[from + j] == nv@[j],
        decreases n - i,
    {
        if cs[from + i] != nv[i] {
            proof {
                assert(cs@.subrange(from as int, from + nv@.len())[i as int] == cs@[from + i]);
            }
            return false;
        }
        i = i + 1;
    }
    proof {
        assert(cs@.subrange(from as int, from + nv@.len()) =~= nv@);
    }
    true
}

/// The characters of `s`, one by one.
fn chars_of(s: &str) -> (v: Vec<char>)
    ensures
        v@ == s@,
{
    let len = s.unicode_len();
    let mut v: Vec<char> = Vec::new();
    let mut i: usize = 0;
    while i < len
        invariant
            0 <= i <= len,
            len == s@.len(),
            v@ == s@.take(i as int),
        decreases len - i,
    {
        v.push(s.get_char(i));
        proof {
            assert(v@ =~= s@.take(i + 1));
        }
        i = i + 1;
    }
    proof {
        assert(s@.take(len as int) =~= s@);
    }
    v
}

} // verus!
