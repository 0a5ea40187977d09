//! The claim set of an identity token, and its canonical JSON form.
//!
//! The serialized shape is
//! `{"sub":...,"exp":...,"iat":...,"iss":...,"aud":...}` with the string
//! fields escaped as in [`crate::jsontext`] and the integers in canonical
//! decimal, and no whitespace.  The reader accepts exactly that shape.

use vstd::prelude::*;

use crate::decnum::dec_bytes;
use crate::decnum::parse_dec;
use crate::decnum::push_dec;
use crate::jsontext::append_escaped;
use crate::jsontext::escape;
use crate::jsontext::jstr_parse;
use crate::jsontext::lemma_jstr_parse_complete;
use crate::jsontext::lemma_jstr_parse_sound;
use crate::jsontext::parse_jstr;
use crate::textutil::lemma_seq_join;
use crate::textutil::lemma_seq_split;

verus! {

/// A signed, time-bounded statement of identity: who (`sub`), when it was
/// issued (`iat`), until when it holds (`exp`), by whom (`iss`) and for
/// whom (`aud`).  Timestamps are seconds since the Unix epoch.
#[derive(Debug, Clone)]
pub struct Claims {
    pub sub: String,
    pub exp: u64,
    pub iat: u64,
    pub iss: String,
    pub aud: String,
}

/// The mathematical shadow of a [`Claims`] value.
#[verifier::ext_equal]
pub struct ClaimsView {
    pub sub: Seq<char>,
    pub exp: u64,
    pub iat: u64,
    pub iss: Seq<char>,
    pub aud: Seq<char>,
}

impl View for Claims {
    type V = ClaimsView;

    open spec fn view(&self) -> ClaimsView {
        ClaimsView {
            sub: self.sub@,
            exp: self.exp,
            iat: self.iat,
            iss: self.iss@,
            aud: self.aud@,
        }
    }
}

/// A claim set is well-formed when it expires after it was issued.
pub open spec fn claims_wf(c: ClaimsView) -> bool {
    c.exp > c.iat
}

/// `{"sub":"`
pub open spec fn lit_head() -> Seq<u8> {
    seq![123u8, 34u8, 115u8, 117u8, 98u8, 34u8, 58u8, 34u8]
}

/// `,"exp":` (the quote closing `sub` is part of the string form)
pub open spec fn lit_exp() -> Seq<u8> {
    seq![44u8, 34u8, 101u8, 120u8, 112u8, 34u8, 58u8]
}

/// `,"iat":`
pub open spec fn lit_iat() -> Seq<u8> {
    seq![44u8, 34u8, 105u8, 97u8, 116u8, 34u8, 58u8]
}

/// `,"iss":"`
pub open spec fn lit_iss() -> Seq<u8> {
    seq![44u8, 34u8, 105u8, 115u8, 115u8, 34u8, 58u8, 34u8]
}

/// `,"aud":"` (again after a closing quote)
pub open spec fn lit_aud() -> Seq<u8> {
    seq![44u8, 34u8, 97u8, 117u8, 100u8, 34u8, 58u8, 34u8]
}

/// `}` (after a closing quote)
pub open spec fn lit_close() -> Seq<u8> {
    seq![125u8]
}

/// The canonical JSON bytes of a claim set, nested so that each part can
/// be peeled off the front.
pub open spec fn claims_json(c: ClaimsView) -> Seq<u8> {
    lit_head() + (escape(c.sub) + (seq![34u8] + (lit_exp() + (dec_bytes(c.exp as nat) + (lit_iat()
        + (dec_bytes(c.iat as nat) + (lit_iss() + (escape(c.iss) + (seq![34u8] + (lit_aud() + (
    escape(c.aud) + (seq![34u8] + lit_close()))))))))))))
}

/// Appends `{"sub":"`.
fn push_lit_head(out: &mut Vec<u8>)
    ensures
        final(out)@ == old(out)@ + lit_head(),
{
    out.push(123);
    out.push(34);
    out.push(115);
    out.push(117);
    out.push(98);
    out.push(34);
    out.push(58);
    out.push(34);
    proof {
        assert(out@ =~= old(out)@ + lit_head());
    }
}

/// Appends `,"exp":`.
fn push_lit_exp(out: &mut Vec<u8>)
    ensures
        final(out)@ == old(out)@ + lit_exp(),
{
    out.push(44);
    out.push(34);
    out.push(101);
    out.push(120);
    out.push(112);
    out.push(34);
    out.push(58);
    proof {
        assert(out@ =~= old(out)@ + lit_exp());
    }
}

/// Appends `,"iat":`.
fn push_lit_iat(out: &mut Vec<u8>)
    ensures
        final(out)@ == old(out)@ + lit_iat(),
{
    out.push(44);
    out.push(34);
    out.push(105);
    out.push(97);
    out.push(116);
    out.push(34);
    out.push(58);
    proof {
        assert(out@ =~= old(out)@ + lit_iat());
    }
}

/// Appends `,"iss":"`.
fn push_lit_iss(out: &mut Vec<u8>)
    ensures
        final(out)@ == old(out)@ + lit_iss(),
{
    out.push(44);
    out.push(34);
    out.push(105);
    out.push(115);
    out.push(115);
    out.push(34);
    out.push(58);
    out.push(34);
    proof {
        assert(out@ =~= old(out)@ + lit_iss());
    }
}

/// Appends `,"aud":"`.
fn push_lit_aud(out: &mut Vec<u8>)
    ensures
        final(out)@ == old(out)@ + lit_aud(),
{
    out.push(44);
    out.push(34);
    out.push(97);
    out.push(117);
    out.push(100);
    out.push(34);
    out.push(58);
    out.push(34);
    proof {
        assert(out@ =~= old(out)@ + lit_aud());
    }
}

/// Serializes a claim set into its canonical JSON bytes.
pub fn encode_claims(c: &Claims) -> (v: Vec<u8>)
    ensures
        v@ == claims_json(c@),
{
    let mut out: Vec<u8> = Vec::new();
    push_lit_head(&mut out);
    append_escaped(&mut out, c.sub.as_str());
    out.push(34);
    push_lit_exp(&mut out);
    push_dec(&mut out, c.exp);
    push_lit_iat(&mut out);
    push_dec(&mut out, c.iat);
    push_lit_iss(&mut out);
    append_escaped(&mut out, c.iss.as_str());
    out.push(34);
    push_lit_aud(&mut out);
    append_escaped(&mut out, c.aud.as_str());
    out.push(34);
    out.push(125);
    proof {
        assert(out@ =~= claims_json(c@));
    }
    out
}

/// Peels a fixed piece off the front of the remainder of `v`.
proof fn lemma_peel(v: Seq<u8>, pos: int, a: Seq<u8>, rest: Seq<u8>)
    requires
        0 <= pos <= v.len(),
        v.subrange(pos, v.len() as int) =~= a + rest,
    ensures
        pos + a.len() + rest.len() == v.len(),
        v.subrange(pos, pos + a.len()) =~= a,
        v.subrange(pos + a.len(), v.len() as int) =~= rest,
        forall|k: int| 0 <= k < a.len() ==> v[pos + k] == #[trigger] a[k],
{
    assert(v.subrange(pos, v.len() as int).len() == v.len() - pos);
    assert(pos + a.len() + rest.len() == v.len());
    lemma_seq_split(v, pos, a, rest);
}

/// Peels an escaped string and its closing quote off the front of the
/// remainder of `v`, and reads it back.
proof fn lemma_peel_string(v: Seq<u8>, pos: int, cs: Seq<char>, rest: Seq<u8>)
    requires
        0 <= pos <= v.len(),
        v.subrange(pos, v.len() as int) =~= escape(cs) + (seq![34u8] + rest),
    ensures
        pos + escape(cs).len() + 1 + rest.len() == v.len(),
        jstr_parse(v, pos) == Some((cs, pos + escape(cs).len() + 1)),
        v.subrange(pos + escape(cs).len() + 1, v.len() as int) =~= rest,
    decreases 0int,
{
    assert(escape(cs) + (seq![34u8] + rest) =~= (escape(cs) + seq![34u8]) + rest);
    assert(v.subrange(pos, v.len() as int).len() == v.len() - pos);
    assert(pos + escape(cs).len() + 1 + rest.len() == v.len());
    lemma_seq_split(v, pos, escape(cs) + seq![34u8], rest);
    lemma_jstr_parse_complete(v, pos, cs);
}

/// Where each part of `claims_json(c)` lies, and what the strict readers
/// yield on it.
#[verifier::rlimit(100)]
pub proof fn lemma_claims_json_layout(v: Seq<u8>, c: ClaimsView)
    requires
        v == claims_json(c),
    ensures
        ({
            let a1: int = 8 + escape(c.sub).len() as int + 1;
            let b1: int = a1 + 7;
            let a2: int = b1 + dec_bytes(c.exp as nat).len();
            let b2: int = a2 + 7;
            let a3: int = b2 + dec_bytes(c.iat as nat).len();
            let b3: int = a3 + 8;
            let a4: int = b3 + escape(c.iss).len() + 1;
            let b4: int = a4 + 8;
            let a5: int = b4 + escape(c.aud).len() + 1;
            &&& v.len() == a5 + 1
            &&& v.subrange(0, 8) =~= lit_head()
            &&& jstr_parse(v, 8) == Some((c.sub, a1))
            &&& v.subrange(a1, b1) =~= lit_exp()
            &&& v.subrange(b1, a2) =~= dec_bytes(c.exp as nat)
            &&& v[a2] == 44
            &&& v.subrange(a2, b2) =~= lit_iat()
            &&& v.subrange(b2, a3) =~= dec_bytes(c.iat as nat)
            &&& v[a3] == 44
            &&& v.subrange(a3, b3) =~= lit_iss()
            &&& jstr_parse(v, b3) == Some((c.iss, a4))
            &&& v.subrange(a4, b4) =~= lit_aud()
            &&& jstr_parse(v, b4) == Some((c.aud, a5))
            &&& v[a5] == 125
        }),
{
    let a1: int = 8 + escape(c.sub).len() as int + 1;
    let b1: int = a1 + 7;
    let a2: int = b1 + dec_bytes(c.exp as nat).len();
    let b2: int = a2 + 7;
    let a3: int = b2 + dec_bytes(c.iat as nat).len();
    let b3: int = a3 + 8;
    let a4: int = b3 + escape(c.iss).len() + 1;
    let b4: int = a4 + 8;
    let a5: int = b4 + escape(c.aud).len() + 1;
    let r1 = escape(c.sub) + (seq![34u8] + (lit_exp() + (dec_bytes(c.exp as nat) + (lit_iat() + (
    dec_bytes(c.iat as nat) + (lit_iss() + (escape(c.iss) + (seq![34u8] + (lit_aud() + (escape(
        c.aud,
    ) + (seq![34u8] + lit_close())))))))))));
    let r2 = lit_exp() + (dec_bytes(c.exp as nat) + (lit_iat() + (dec_bytes(c.iat as nat) + (
    lit_iss() + (escape(c.iss) + (seq![34u8] + (lit_aud() + (escape(c.aud) + (seq![34u8]
        + lit_close())))))))));
    let r3 = dec_bytes(c.exp as nat) + (lit_iat() + (dec_bytes(c.iat as nat) + (lit_iss() + (
    escape(c.iss) + (seq![34u8] + (lit_aud() + (escape(c.aud) + (seq![34u8] + lit_close()))))))));
    let r4 = lit_iat() + (dec_bytes(c.iat as nat) + (lit_iss() + (escape(c.iss) + (seq![34u8] + (
    lit_aud() + (escape(c.aud) + (seq![34u8] + lit_close())))))));
    let r5 = dec_bytes(c.iat as nat) + (lit_iss() + (escape(c.iss) + (seq![34u8] + (lit_aud() + (
    escape(c.aud) + (seq![34u8] + lit_close()))))));
    let r6 = lit_iss() + (escape(c.iss) + (seq![34u8] + (lit_aud() + (escape(c.aud) + (seq![34u8]
        + lit_close())))));
    let r7 = escape(c.iss) + (seq![34u8] + (lit_aud() + (escape(c.aud) + (seq![34u8]
        + lit_close()))));
    let r8 = lit_aud() + (escape(c.aud) + (seq![34u8] + lit_close()));
    let r9 = escape(c.aud) + (seq![34u8] + lit_close());
    let r10 = seq![34u8] + lit_close();
    assert(v.subrange(0, v.len() as int) =~= v);
    assert(v.subrange(0, v.len() as int) =~= lit_head() + r1);
    lemma_peel(v, 0, lit_head(), r1);
    lemma_peel_string(v, 8, c.sub, r2);
    lemma_peel(v, a1, lit_exp(), r3);
    lemma_peel(v, b1, dec_bytes(c.exp as nat), r4);
    assert(v[a2] == r4[0]);
    lemma_peel(v, a2, lit_iat(), r5);
    lemma_peel(v, b2, dec_bytes(c.iat as nat), r6);
    assert(v[a3] == r6[0]);
    lemma_peel(v, a3, lit_iss(), r7);
    lemma_peel_string(v, b3, c.iss, r8);
    lemma_peel(v, a4, lit_aud(), r9);
    lemma_peel_string(v, b4, c.aud, lit_close());
    assert(v[a5] == lit_close()[0]);
}

/// Whether the bytes at `pos` read `,"exp":`.
fn eat_lit_exp(v: &Vec<u8>, pos: usize) -> (r: bool)
    requires
        pos <= v@.len(),
    ensures
        r <==> (pos + 7 <= v@.len() && v@.subrange(pos as int, pos + 7) =~= lit_exp()),
{
    if v.len() - pos < 7 {
        return false;
    }
    let r = v[pos] == 44 && v[pos + 1] == 34 && v[pos + 2] == 101 && v[pos + 3] == 120 && v[pos
        + 4] == 112 && v[pos + 5] == 34 && v[pos + 6] == 58;
    proof {
        if r {
            assert(v@.subrange(pos as int, pos + 7) =~= lit_exp());
        } else {
            assert(!(v@.subrange(pos as int, pos + 7) =~= lit_exp())) by {
                if v@.subrange(pos as int, pos + 7) =~= lit_exp() {
                    assert(forall|k: int|
                        0 <= k < 7 ==> v@[pos + k] == #[trigger] v@.subrange(
                            pos as int,
                            pos + 7,
                        )[k]);
                }
            }
        }
    }
    r
}

/// Whether the bytes at `pos` read `,"iat":`.
fn eat_lit_iat(v: &Vec<u8>, pos: usize) -> (r: bool)
    requires
        pos <= v@.len(),
    ensures
        r <==> (pos + 7 <= v@.len() && v@.subrange(pos as int, pos + 7) =~= lit_iat()),
{
    if v.len() - pos < 7 {
        return false;
    }
    let r = v[pos] == 44 && v[pos + 1] == 34 && v[pos + 2] == 105 && v[pos + 3] == 97 && v[pos + 4]
        == 116 && v[pos + 5] == 34 && v[pos + 6] == 58;
    proof {
        if r {
            assert(v@.subrange(pos as int, pos + 7) =~= lit_iat());
        } else {
            assert(!(v@.subrange(pos as int, pos + 7) =~= lit_iat())) by {
                if v@.subrange(pos as int, pos + 7) =~= lit_iat() {
                    assert(forall|k: int|
                        0 <= k < 7 ==> v@[pos + k] == #[trigger] v@.subrange(
                            pos as int,
                            pos + 7,
                        )[k]);
                }
            }
        }
    }
    r
}

/// Whether the bytes at `pos` read `,"iss":"`.
fn eat_lit_iss(v: &Vec<u8>, pos: usize) -> (r: bool)
    requires
        pos <= v@.len(),
    ensures
        r <==> (pos + 8 <= v@.len() && v@.subrange(pos as int, pos + 8) =~= lit_iss()),
{
    if v.len() - pos < 8 {
        return false;
    }
    let r = v[pos] == 44 && v[pos + 1] == 34 && v[pos + 2] == 105 && v[pos + 3] == 115 && v[pos
        + 4] == 115 && v[pos + 5] == 34 && v[pos + 6] == 58 && v[pos + 7] == 34;
    proof {
        if r {
            assert(v@.subrange(pos as int, pos + 8) =~= lit_iss());
        } else {
            assert(!(v@.subrange(pos as int, pos + 8) =~= lit_iss())) by {
                if v@.subrange(pos as int, pos + 8) =~= lit_iss() {
                    assert(forall|k: int|
                        0 <= k < 8 ==> v@[pos + k] == #[trigger] v@.subrange(
                            pos as int,
                            pos + 8,
                        )[k]);
                }
            }
        }
    }
    r
}

/// Whether the bytes at `pos` read `,"aud":"`.
fn eat_lit_aud(v: &Vec<u8>, pos: usize) -> (r: bool)
    requires
        pos <= v@.len(),
    ensures
        r <==> (pos + 8 <= v@.len() && v@.subrange(pos as int, pos + 8) =~= lit_aud()),
{
    if v.len() - pos < 8 {
        return false;
    }
    let r = v[pos] == 44 && v[pos + 1] == 34 && v[pos + 2] == 97 && v[pos + 3] == 117 && v[pos + 4]
        == 100 && v[pos + 5] == 34 && v[pos + 6] == 58 && v[pos + 7] == 34;
    proof {
        if r {
            assert(v@.subrange(pos as int, pos + 8) =~= lit_aud());
        } else {
            assert(!(v@.subrange(pos as int, pos + 8) =~= lit_aud())) by {
                if v@.subrange(pos as int, pos + 8) =~= lit_aud() {
                    assert(forall|k: int|
                        0 <= k < 8 ==> v@[pos + k] == #[trigger] v@.subrange(
                            pos as int,
                            pos + 8,
                        )[k]);
                }
            }
        }
    }
    r
}

/// Whether the bytes at `pos` read `{"sub":"`.
fn eat_lit_head(v: &Vec<u8>, pos: usize) -> (r: bool)
    requires
        pos <= v@.len(),
    ensures
        r <==> (pos + 8 <= v@.len() && v@.subrange(pos as int, pos + 8) =~= lit_head()),
{
    if v.len() - pos < 8 {
        return false;
    }
    let r = v[pos] == 123 && v[pos + 1] == 34 && v[pos + 2] == 115 && v[pos + 3] == 117 && v[pos
        + 4] == 98 && v[pos + 5] == 34 && v[pos + 6] == 58 && v[pos + 7] == 34;
    proof {
        if r {
            assert(v@.subrange(pos as int, pos + 8) =~= lit_head());
        } else {
            assert(!(v@.subrange(pos as int, pos + 8) =~= lit_head())) by {
                if v@.subrange(pos as int, pos + 8) =~= lit_head() {
                    assert(forall|k: int|
                        0 <= k < 8 ==> v@[pos + k] == #[trigger] v@.subrange(
                            pos as int,
                            pos + 8,
                        )[k]);
                }
            }
        }
    }
    r
}

/// Assembling the parts at their places yields exactly `claims_json(c)`.
#[verifier::rlimit(100)]
proof fn lemma_claims_stitch(v: Seq<u8>, c: ClaimsView)
    requires
        ({
            let a1: int = 8 + escape(c.sub).len() as int + 1;
            let b1: int = a1 + 7;
            let a2: int = b1 + dec_bytes(c.exp as nat).len();
            let b2: int = a2 + 7;
            let a3: int = b2 + dec_bytes(c.iat as nat).len();
            let b3: int = a3 + 8;
            let a4: int = b3 + escape(c.iss).len() + 1;
            let b4: int = a4 + 8;
            let a5: int = b4 + escape(c.aud).len() + 1;
            &&& v.len() == a5 + 1
            &&& v.subrange(0, 8) =~= lit_head()
            &&& v.subrange(8, a1) =~= escape(c.sub) + seq![34u8]
            &&& v.subrange(a1, b1) =~= lit_exp()
            &&& v.subrange(b1, a2) =~= dec_bytes(c.exp as nat)
            &&& v.subrange(a2, b2) =~= lit_iat()
            &&& v.subrange(b2, a3) =~= dec_bytes(c.iat as nat)
            &&& v.subrange(a3, b3) =~= lit_iss()
            &&& v.subrange(b3, a4) =~= escape(c.iss) + seq![34u8]
            &&& v.subrange(a4, b4) =~= lit_aud()
            &&& v.subrange(b4, a5) =~= escape(c.aud) + seq![34u8]
            &&& v[a5] == 125
        }),
    ensures
        v == claims_json(c),
{
    let a1: int = 8 + escape(c.sub).len() as int + 1;
    let b1: int = a1 + 7;
    let a2: int = b1 + dec_bytes(c.exp as nat).len();
    let b2: int = a2 + 7;
    let a3: int = b2 + dec_bytes(c.iat as nat).len();
    let b3: int = a3 + 8;
    let a4: int = b3 + escape(c.iss).len() + 1;
    let b4: int = a4 + 8;
    let a5: int = b4 + escape(c.aud).len() + 1;
    let s1 = escape(c.sub) + seq![34u8];
    let s2 = escape(c.iss) + seq![34u8];
    let s3 = escape(c.aud) + seq![34u8];
    lemma_seq_join(v, 0, lit_head(), s1);
    let p1 = lit_head() + s1;
    lemma_seq_join(v, 0, p1, lit_exp());
    let p2 = p1 + lit_exp();
    lemma_seq_join(v, 0, p2, dec_bytes(c.exp as nat));
    let p3 = p2 + dec_bytes(c.exp as nat);
    lemma_seq_join(v, 0, p3, lit_iat());
    let p4 = p3 + lit_iat();
    lemma_seq_join(v, 0, p4, dec_bytes(c.iat as nat));
    let p5 = p4 + dec_bytes(c.iat as nat);
    lemma_seq_join(v, 0, p5, lit_iss());
    let p6 = p5 + lit_iss();
    lemma_seq_join(v, 0, p6, s2);
    let p7 = p6 + s2;
    lemma_seq_join(v, 0, p7, lit_aud());
    let p8 = p7 + lit_aud();
    lemma_seq_join(v, 0, p8, s3);
    let p9 = p8 + s3;
    assert(v.subrange(a5, a5 + 1) =~= lit_close());
    lemma_seq_join(v, 0, p9, lit_close());
    let p10 = p9 + lit_close();
    assert(v.subrange(0, v.len() as int) =~= v);
    assert(v =~= p10);
    assert(p10 =~= claims_json(c));
}

/// Deserializes canonical claim-set JSON: the strict inverse of
/// `encode_claims`.
#[verifier::rlimit(100)]
pub fn parse_claims(v: &Vec<u8>) -> (r: Option<Claims>)
    ensures
        r matches Some(c) ==> v@ == claims_json(c@),
        forall|cv: ClaimsView| v@ == claims_json(cv) ==> (r matches Some(c) && c@ == cv),
{
    let len = v.len();
    if !eat_lit_head(v, 0) {
        proof {
            assert forall|cv: ClaimsView| v@ == claims_json(cv) implies false by {
                lemma_claims_json_layout(v@, cv);
            }
        }
        return None;
    }
    let sub_r = parse_jstr(v, 8);
    if sub_r.is_none() {
        proof {
            assert forall|cv: ClaimsView| v@ == claims_json(cv) implies false by {
                lemma_claims_json_layout(v@, cv);
            }
        }
        return None;
    }
    let (sub, p1) = sub_r.unwrap();
    if !eat_lit_exp(v, p1) {
        proof {
            assert forall|cv: ClaimsView| v@ == claims_json(cv) implies false by {
                lemma_claims_json_layout(v@, cv);
            }
        }
        return None;
    }
    let q1 = p1 + 7;
    let exp_r = parse_dec(v, q1);
    if exp_r.is_none() {
        proof {
            assert forall|cv: ClaimsView| v@ == claims_json(cv) implies false by {
                lemma_claims_json_layout(v@, cv);
            }
        }
        return None;
    }
    let (exp, p2) = exp_r.unwrap();
    if !eat_lit_iat(v, p2) {
        proof {
            assert forall|cv: ClaimsView| v@ == claims_json(cv) implies false by {
                lemma_claims_json_layout(v@, cv);
            }
        }
        return None;
    }
    let q2 = p2 + 7;
    let iat_r = parse_dec(v, q2);
    if iat_r.is_none() {
        proof {
            assert forall|cv: ClaimsView| v@ == claims_json(cv) implies false by {
                lemma_claims_json_layout(v@, cv);
            }
        }
        return None;
    }
    let (iat, p3) = iat_r.unwrap();
    if !eat_lit_iss(v, p3) {
        proof {
            assert forall|cv: ClaimsView| v@ == claims_json(cv) implies false by {
                lemma_claims_json_layout(v@, cv);
            }
        }
        return None;
    }
    let q3 = p3 + 8;
    let iss_r = parse_jstr(v, q3);
    if iss_r.is_none() {
        proof {
            assert forall|cv: ClaimsView| v@ == claims_json(cv) implies false by {
                lemma_claims_json_layout(v@, cv);
            }
        }
        return None;
    }
    let (iss, p4) = iss_r.unwrap();
    if !eat_lit_aud(v, p4) {
        proof {
            assert forall|cv: ClaimsView| v@ == claims_json(cv) implies false by {
                lemma_claims_json_layout(v@, cv);
            }
        }
        return None;
    }
    let q4 = p4 + 8;
    let aud_r = parse_jstr(v, q4);
    if aud_r.is_none() {
        proof {
            assert forall|cv: ClaimsView| v@ == claims_json(cv) implies false by {
                lemma_claims_json_layout(v@, cv);
            }
        }
        return None;
    }
    let (aud, p5) = aud_r.unwrap();
    if p5 >= len || v[p5] != 125 || p5 + 1 != len {
        proof {
            assert forall|cv: ClaimsView| v@ == claims_json(cv) implies false by {
                lemma_claims_json_layout(v@, cv);
            }
        }
        return None;
    }
    let c = Claims { sub, exp, iat, iss, aud };
    proof {
        lemma_jstr_parse_sound(v@, 8);
        lemma_jstr_parse_sound(v@, q3 as int);
        lemma_jstr_parse_sound(v@, q4 as int);
        lemma_claims_stitch(v@, c@);
        assert forall|cv: ClaimsView| v@ == claims_json(cv) implies c@ == cv by {
            lemma_claims_json_layout(v@, cv);
            assert(c@ =~= cv);
        }
    }
    Some(c)
}

/// Two claim sets with the same canonical JSON are the same claim set.
pub proof fn lemma_claims_json_injective(c1: ClaimsView, c2: ClaimsView)
    requires
        claims_json(c1) == claims_json(c2),
    ensures
        c1 == c2,
{
    let v = claims_json(c1);
    lemma_claims_json_layout(v, c1);
    lemma_claims_json_layout(v, c2);
    // the sub strings come out of the same reader at the same place
    assert(c1.sub == c2.sub);
    let a1: int = 8 + escape(c1.sub).len() as int + 1;
    let b1: int = a1 + 7;
    // both exp notations begin at b1 and end at the first non-digit
    crate::decnum::lemma_dec_bytes_digits(c1.exp as nat);
    crate::decnum::lemma_dec_bytes_digits(c2.exp as nat);
    crate::decnum::lemma_digit_run_exact(v, b1, dec_bytes(c1.exp as nat));
    crate::decnum::lemma_digit_run_exact(v, b1, dec_bytes(c2.exp as nat));
    assert(dec_bytes(c1.exp as nat) =~= dec_bytes(c2.exp as nat));
    crate::decnum::lemma_dec_val_of_dec_bytes(c1.exp as nat);
    crate::decnum::lemma_dec_val_of_dec_bytes(c2.exp as nat);
    assert(c1.exp == c2.exp);
    let a2: int = b1 + dec_bytes(c1.exp as nat).len();
    let b2: int = a2 + 7;
    crate::decnum::lemma_dec_bytes_digits(c1.iat as nat);
    crate::decnum::lemma_dec_bytes_digits(c2.iat as nat);
    crate::decnum::lemma_digit_run_exact(v, b2, dec_bytes(c1.iat as nat));
    crate::decnum::lemma_digit_run_exact(v, b2, dec_bytes(c2.iat as nat));
    assert(dec_bytes(c1.iat as nat) =~= dec_bytes(c2.iat as nat));
    crate::decnum::lemma_dec_val_of_dec_bytes(c1.iat as nat);
    crate::decnum::lemma_dec_val_of_dec_bytes(c2.iat as nat);
    assert(c1.iat == c2.iat);
    // and so do the iss and aud strings
    assert(c1.iss == c2.iss);
    assert(c1.aud == c2.aud);
    assert(c1 =~= c2);
}

} // verus!