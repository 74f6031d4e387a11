//! Stateless session tokens: three dot-separated base64url segments (header,
//! claims, signature). The claims carry the subject (a decimal user id) and
//! an expiry timestamp; the signature is an HMAC-SHA256 tag over the first
//! two segments, keyed by the process-wide secret.

use vstd::prelude::*;

use crate::b64::{
    b64_decode, b64_encode, b64_encode_spec, is_b64_byte, lemma_b64_encode_valid,
    lemma_b64_round_trip,
};
use crate::digits::{
    dec_digits, dec_val, digit_seq, is_dec_digit, lemma_dec_digits_are_digits,
    lemma_dec_val_nonneg, lemma_dec_val_of_dec_digits, parse_u64, u64_to_dec,
};
use crate::TOKEN_LIFETIME_SECS;

verus! {

/// The payload of a session token: subject (decimal user id) and expiry
/// (seconds since the epoch).
pub struct Claims {
    pub sub: Vec<u8>,
    pub exp: u64,
}

/// The fixed token header: `{"typ":"JWT","alg":"HS256"}`.
pub open spec fn header_json() -> Seq<u8> {
    seq![
        123u8, 34, 116, 121, 112, 34, 58, 34, 74, 87, 84, 34, 44, 34, 97, 108, 103, 34, 58, 34,
        72, 83, 50, 53, 54, 34, 125,
    ]
}

/// The opening of the claims object: `{"sub":"`.
pub open spec fn claims_pre() -> Seq<u8> {
    seq![123u8, 34, 115, 117, 98, 34, 58, 34]
}

/// Between subject and expiry: `","exp":`.
pub open spec fn claims_mid() -> Seq<u8> {
    seq![34u8, 44, 34, 101, 120, 112, 34, 58]
}

/// The claims object `{"sub":"<sub>","exp":<digits>}`.
pub open spec fn claims_json(sub: Seq<u8>, exp_digits: Seq<u8>) -> Seq<u8> {
    claims_pre() + sub + claims_mid() + exp_digits + seq![125u8]
}

/// Whether `s` contains no double-quote byte.
pub open spec fn quote_free(s: Seq<u8>) -> bool {
    forall|i: int| 0 <= i < s.len() ==> s[i] != 34
}

/// The parts that make a claims object parse back uniquely.
pub open spec fn wf_claims_parts(sub: Seq<u8>, exp_digits: Seq<u8>) -> bool {
    quote_free(sub) && digit_seq(exp_digits) && exp_digits.len() > 0
}

/// The HMAC-SHA256 tag of a message under a secret, in base64url bytes.
pub uninterp spec fn hs256_tag(message: Seq<u8>, secret: Seq<u8>) -> Seq<u8>;

/// The signed part of a token for a subject and expiry.
pub open spec fn signing_input(uid: u64, exp: u64) -> Seq<u8> {
    b64_encode_spec(header_json()) + seq![46u8] + b64_encode_spec(
        claims_json(dec_digits(uid as nat), dec_digits(exp as nat)),
    )
}

/// The whole token for a subject and expiry under a secret.
pub open spec fn token_bytes(uid: u64, exp: u64, secret: Seq<u8>) -> Seq<u8> {
    signing_input(uid, exp) + seq![46u8] + hs256_tag(signing_input(uid, exp), secret)
}

/// Relies on jsonwebtoken::crypto::sign with HS256: the returned tag is a
/// function of message and secret alone, the call never fails for an HMAC
/// algorithm, and the tag consists of base64url alphabet bytes.
#[verifier::external_body]
fn hs256_sign(message: &Vec<u8>, secret: &Vec<u8>) -> (r: Vec<u8>)
    ensures
        r@ == hs256_tag(message@, secret@),
        forall|i: int| 0 <= i < r@.len() ==> is_b64_byte(#[trigger] r@[i]),
{
    let key = jsonwebtoken::EncodingKey::from_secret(secret.as_slice());
    let sig = jsonwebtoken::crypto::sign(message.as_slice(), &key, jsonwebtoken::Algorithm::HS256)
        .unwrap();
    sig.into_bytes()
}

/// Appends all of `src` to `dst`.
pub fn push_all(dst: &mut Vec<u8>, src: &Vec<u8>)
    ensures
        final(dst)@ == old(dst)@ + src@,
{
    let ghost base = dst@;
    let mut i: usize = 0;
    proof {
        assert(dst@ =~= base + src@.subrange(0, 0));
    }
    while i < src.len()
        invariant
            0 <= i <= src@.len(),
            dst@ == base + src@.subrange(0, i as int),
        decreases src@.len() - i,
    {
        dst.push(src[i]);
        proof {
            assert(base + src@.subrange(0, i as int) + seq![src@[i as int]] =~= base
                + src@.subrange(0, i + 1));
        }
        i += 1;
    }
    proof {
        assert(src@.subrange(0, src@.len() as int) =~= src@);
    }
}

/// Copies the bytes of `s` from `a` (inclusive) to `b` (exclusive).
pub fn copy_range(s: &Vec<u8>, a: usize, b: usize) -> (r: Vec<u8>)
    requires
        a <= b <= s@.len(),
    ensures
        r@ == s@.subrange(a as int, b as int),
{
    let mut r: Vec<u8> = Vec::new();
    let mut i: usize = a;
    proof {
        assert(r@ =~= s@.subrange(a as int, a as int));
    }
    while i < b
        invariant
            a <= i <= b <= s@.len(),
            r@ == s@.subrange(a as int, i as int),
        decreases b - i,
    {
        r.push(s[i]);
        proof {
            assert(s@.subrange(a as int, i as int) + seq![s@[i as int]] =~= s@.subrange(
                a as int,
                i + 1,
            ));
        }
        i += 1;
    }
    r
}

/// The fixed header bytes.
fn header_bytes() -> (r: Vec<u8>)
    ensures
        r@ == header_json(),
{
    let r: Vec<u8> = vec![
        123u8, 34, 116, 121, 112, 34, 58, 34, 74, 87, 84, 34, 44, 34, 97, 108, 103, 34, 58, 34,
        72, 83, 50, 53, 54, 34, 125,
    ];
    proof {
        assert(r@ =~= header_json());
    }
    r
}

/// Builds the claims object for a subject and expiry digit string.
fn build_claims(sub: &Vec<u8>, exp_digits: &Vec<u8>) -> (r: Vec<u8>)
    ensures
        r@ == claims_json(sub@, exp_digits@),
{
    let mut r: Vec<u8> = vec![123u8, 34, 115, 117, 98, 34, 58, 34];
    push_all(&mut r, sub);
    let mid: Vec<u8> = vec![34u8, 44, 34, 101, 120, 112, 34, 58];
    push_all(&mut r, &mid);
    push_all(&mut r, exp_digits);
    r.push(125);
    proof {
        assert(r@ =~= claims_json(sub@, exp_digits@));
    }
    r
}

/// Issues a token for `user_id` expiring `TOKEN_LIFETIME_SECS` after `now`.
pub fn create_token(user_id: u64, secret: &Vec<u8>, now: u64) -> (r: Vec<u8>)
    requires
        now + TOKEN_LIFETIME_SECS <= u64::MAX,
    ensures
        r@ == token_bytes(user_id, (now + TOKEN_LIFETIME_SECS) as u64, secret@),
{
    let exp = now + TOKEN_LIFETIME_SECS;
    let header = header_bytes();
    let sub = u64_to_dec(user_id);
    let exp_digits = u64_to_dec(exp);
    let claims = build_claims(&sub, &exp_digits);
    let mut msg = b64_encode(&header);
    msg.push(46);
    let mut c64 = b64_encode(&claims);
    let ghost c64v = c64@;
    msg.append(&mut c64);
    proof {
        assert(msg@ =~= signing_input(user_id, exp));
    }
    let mut tag = hs256_sign(&msg, secret);
    let ghost tagv = tag@;
    let mut tok = msg;
    tok.push(46);
    tok.append(&mut tag);
    proof {
        assert(tok@ =~= token_bytes(user_id, exp, secret@));
    }
    tok
}

/// Where each part of a claims object sits.
pub proof fn lemma_claims_json_parts(sub: Seq<u8>, ds: Seq<u8>)
    ensures
        claims_json(sub, ds).len() == 17 + sub.len() + ds.len(),
        forall|k: int| 0 <= k < 8 ==> #[trigger] claims_json(sub, ds)[k] == claims_pre()[k],
        forall|k: int| 0 <= k < sub.len() ==> #[trigger] claims_json(sub, ds)[8 + k] == sub[k],
        forall|k: int|
            0 <= k < 8 ==> #[trigger] claims_json(sub, ds)[8 + sub.len() + k] == claims_mid()[k],
        forall|k: int|
            0 <= k < ds.len() ==> #[trigger] claims_json(sub, ds)[16 + sub.len() + k] == ds[k],
        claims_json(sub, ds)[claims_json(sub, ds).len() - 1] == 125,
{
    let s = claims_json(sub, ds);
    assert forall|k: int| 0 <= k < 8 implies #[trigger] s[k] == claims_pre()[k] by {}
    assert forall|k: int| 0 <= k < sub.len() implies #[trigger] s[8 + k] == sub[k] by {}
    assert forall|k: int| 0 <= k < 8 implies #[trigger] s[8 + sub.len() + k] == claims_mid()[k] by {}
    assert forall|k: int| 0 <= k < ds.len() implies #[trigger] s[16 + sub.len() + k] == ds[k] by {}
}

/// A scan for the first quote at or past position 8 lands exactly at the end
/// of the subject.
proof fn lemma_scan_pins_sub(s: Seq<u8>, sub: Seq<u8>, ds: Seq<u8>, j: int)
    requires
        s == claims_json(sub, ds),
        wf_claims_parts(sub, ds),
        8 <= j < s.len(),
        forall|k: int| 8 <= k < j ==> s[k] != 34,
        s[j] == 34,
    ensures
        j == 8 + sub.len(),
{
    lemma_claims_json_parts(sub, ds);
    if j < 8 + sub.len() {
        assert(s[8 + (j - 8)] == sub[j - 8]);
        assert(false);
    } else if j > 8 + sub.len() {
        assert(s[8 + sub.len() as int + 0] == claims_mid()[0]);
        assert(false);
    }
}

/// Two well-formed claims objects with the same bytes have the same parts.
pub proof fn lemma_claims_json_injective(s1: Seq<u8>, d1: Seq<u8>, s2: Seq<u8>, d2: Seq<u8>)
    requires
        wf_claims_parts(s1, d1),
        wf_claims_parts(s2, d2),
        claims_json(s1, d1) == claims_json(s2, d2),
    ensures
        s1 == s2,
        d1 == d2,
{
    let a = claims_json(s1, d1);
    lemma_claims_json_parts(s1, d1);
    lemma_claims_json_parts(s2, d2);
    if s1.len() < s2.len() {
        assert(a[8 + s1.len() as int + 0] == claims_mid()[0]);
        assert(a[8 + s1.len() as int] == s2[s1.len() as int]);
        assert(false);
    } else if s2.len() < s1.len() {
        assert(a[8 + s2.len() as int + 0] == claims_mid()[0]);
        assert(a[8 + s2.len() as int] == s1[s2.len() as int]);
        assert(false);
    }
    assert(s1 =~= s2) by {
        assert forall|k: int| 0 <= k < s1.len() implies s1[k] == s2[k] by {
            assert(a[8 + k] == s1[k]);
            assert(a[8 + k] == s2[k]);
        }
    }
    assert(d1 =~= d2) by {
        assert forall|k: int| 0 <= k < d1.len() implies d1[k] == d2[k] by {
            assert(a[16 + s1.len() as int + k] == d1[k]);
            assert(a[16 + s2.len() as int + k] == d2[k]);
        }
    }
}

/// What a successful parse says of its input: it was a well-formed claims
/// object carrying exactly the returned subject and expiry.
pub open spec fn claims_reading(s: Seq<u8>, sub: Seq<u8>, exp: u64) -> bool {
    exists|ds: Seq<u8>|
        wf_claims_parts(sub, ds) && s == #[trigger] claims_json(sub, ds) && dec_val(ds) == exp
}

/// Parses a claims object `{"sub":"<quote-free>","exp":<digits>}`. Exactly
/// the well-formed claims objects whose expiry fits in 64 bits parse.
fn parse_claims(s: &Vec<u8>) -> (r: Option<Claims>)
    ensures
        (match r {
            Some(c) => claims_reading(s@, c.sub@, c.exp),
            None => true,
        }),
        forall|sub: Seq<u8>, ds: Seq<u8>|
            (s@ == #[trigger] claims_json(sub, ds) && wf_claims_parts(sub, ds) && dec_val(ds)
                <= u64::MAX) ==> (r matches Some(c) && c.sub@ == sub && c.exp == dec_val(ds)),
{
    let n = s.len();
    if n < 18 {
        proof {
            assert forall|sub: Seq<u8>, ds: Seq<u8>|
                !(s@ == #[trigger] claims_json(sub, ds) && wf_claims_parts(sub, ds) && dec_val(ds)
                    <= u64::MAX) by {
                if s@ == claims_json(sub, ds) && wf_claims_parts(sub, ds) {
                    lemma_claims_json_parts(sub, ds);
                }
            }
        }
        return None;
    }
    if s[0] != 123 || s[1] != 34 || s[2] != 115 || s[3] != 117 || s[4] != 98 || s[5] != 34 || s[6]
        != 58 || s[7] != 34 {
        proof {
            assert forall|sub: Seq<u8>, ds: Seq<u8>|
                !(s@ == #[trigger] claims_json(sub, ds) && wf_claims_parts(sub, ds) && dec_val(ds)
                    <= u64::MAX) by {
                if s@ == claims_json(sub, ds) && wf_claims_parts(sub, ds) {
                    lemma_claims_json_parts(sub, ds);
                    assert(s@[0] == claims_pre()[0]);
                    assert(s@[1] == claims_pre()[1]);
                    assert(s@[2] == claims_pre()[2]);
                    assert(s@[3] == claims_pre()[3]);
                    assert(s@[4] == claims_pre()[4]);
                    assert(s@[5] == claims_pre()[5]);
                    assert(s@[6] == claims_pre()[6]);
                    assert(s@[7] == claims_pre()[7]);
                }
            }
        }
        return None;
    }
    let mut j: usize = 8;
    while j < n && s[j] != 34
        invariant
            8 <= j <= n,
            n == s@.len(),
            forall|k: int| 8 <= k < j ==> s@[k] != 34,
        decreases n - j,
    {
        j += 1;
    }
    if j == n {
        proof {
            assert forall|sub: Seq<u8>, ds: Seq<u8>|
                !(s@ == #[trigger] claims_json(sub, ds) && wf_claims_parts(sub, ds) && dec_val(ds)
                    <= u64::MAX) by {
                if s@ == claims_json(sub, ds) && wf_claims_parts(sub, ds) {
                    lemma_claims_json_parts(sub, ds);
                    assert(s@[8 + sub.len() as int + 0] == claims_mid()[0]);
                }
            }
        }
        return None;
    }
    if j > n - 10 {
        proof {
            assert forall|sub: Seq<u8>, ds: Seq<u8>|
                !(s@ == #[trigger] claims_json(sub, ds) && wf_claims_parts(sub, ds) && dec_val(ds)
                    <= u64::MAX) by {
                if s@ == claims_json(sub, ds) && wf_claims_parts(sub, ds) {
                    lemma_scan_pins_sub(s@, sub, ds, j as int);
                    lemma_claims_json_parts(sub, ds);
                }
            }
        }
        return None;
    }
    if s[j + 1] != 44 || s[j + 2] != 34 || s[j + 3] != 101 || s[j + 4] != 120 || s[j + 5] != 112
        || s[j + 6] != 34 || s[j + 7] != 58 {
        proof {
            assert forall|sub: Seq<u8>, ds: Seq<u8>|
                !(s@ == #[trigger] claims_json(sub, ds) && wf_claims_parts(sub, ds) && dec_val(ds)
                    <= u64::MAX) by {
                if s@ == claims_json(sub, ds) && wf_claims_parts(sub, ds) {
                    lemma_scan_pins_sub(s@, sub, ds, j as int);
                    lemma_claims_json_parts(sub, ds);
                    assert(s@[8 + sub.len() as int + 1] == claims_mid()[1]);
                    assert(s@[8 + sub.len() as int + 2] == claims_mid()[2]);
                    assert(s@[8 + sub.len() as int + 3] == claims_mid()[3]);
                    assert(s@[8 + sub.len() as int + 4] == claims_mid()[4]);
                    assert(s@[8 + sub.len() as int + 5] == claims_mid()[5]);
                    assert(s@[8 + sub.len() as int + 6] == claims_mid()[6]);
                    assert(s@[8 + sub.len() as int + 7] == claims_mid()[7]);
                }
            }
        }
        return None;
    }
    if s[n - 1] != 125 {
        proof {
            assert forall|sub: Seq<u8>, ds: Seq<u8>|
                !(s@ == #[trigger] claims_json(sub, ds) && wf_claims_parts(sub, ds) && dec_val(ds)
                    <= u64::MAX) by {
                if s@ == claims_json(sub, ds) && wf_claims_parts(sub, ds) {
                    lemma_claims_json_parts(sub, ds);
                }
            }
        }
        return None;
    }
    let sub = copy_range(s, 8, j);
    let ds = copy_range(s, j + 8, n - 1);
    match parse_u64(&ds) {
        Some(exp) => {
            let c = Claims { sub, exp };
            proof {
                // The input is exactly the claims object built from what was read.
                let subv = c.sub@;
                let dsv = s@.subrange(j + 8, n - 1);
                lemma_dec_val_nonneg(dsv);
                assert(digit_seq(dsv) && dsv.len() > 0 && dec_val(dsv) <= u64::MAX && c.exp
                    == dec_val(dsv));
                assert(quote_free(subv)) by {
                    assert forall|k: int| 0 <= k < subv.len() implies subv[k] != 34 by {
                        assert(subv[k] == s@[8 + k]);
                    }
                }
                lemma_claims_json_parts(subv, dsv);
                assert(s@ =~= claims_json(subv, dsv)) by {
                    let a = claims_json(subv, dsv);
                    assert(subv.len() == j - 8 && dsv.len() == n - 1 - (j + 8));
                    assert(a.len() == s@.len());
                    assert forall|k: int| 0 <= k < s@.len() implies a[k] == s@[k] by {
                        if k < 8 {
                            assert(a[k] == claims_pre()[k]);
                        } else if k < j {
                            assert(a[8 + (k - 8)] == subv[k - 8]);
                            assert(subv[k - 8] == s@[k]);
                        } else if k < j + 8 {
                            assert(a[8 + subv.len() + (k - j)] == claims_mid()[k - j]);
                        } else if k < n - 1 {
                            assert(a[16 + subv.len() + (k - j - 8)] == dsv[k - j - 8]);
                            assert(dsv[k - j - 8] == s@[k]);
                        } else {
                            assert(a[a.len() - 1] == 125);
                        }
                    }
                }
                assert(wf_claims_parts(subv, dsv));
                assert(claims_reading(s@, c.sub@, c.exp)) by {
                    assert(wf_claims_parts(c.sub@, dsv) && s@ == claims_json(c.sub@, dsv)
                        && dec_val(dsv) == c.exp);
                }
                // Any other reading of the same bytes agrees.
                assert forall|sub2: Seq<u8>, ds2: Seq<u8>|
                    (s@ == #[trigger] claims_json(sub2, ds2) && wf_claims_parts(sub2, ds2)
                        && dec_val(ds2) <= u64::MAX) implies (subv == sub2 && dec_val(ds2)
                    == c.exp) by {
                    lemma_claims_json_injective(subv, dsv, sub2, ds2);
                }
            }
            Some(c)
        },
        None => {
            proof {
                let dsv = s@.subrange(j + 8, n - 1);
                assert forall|sub2: Seq<u8>, ds2: Seq<u8>|
                    !(s@ == #[trigger] claims_json(sub2, ds2) && wf_claims_parts(sub2, ds2)
                        && dec_val(ds2) <= u64::MAX) by {
                    if s@ == claims_json(sub2, ds2) && wf_claims_parts(sub2, ds2) && dec_val(ds2)
                        <= u64::MAX {
                        lemma_scan_pins_sub(s@, sub2, ds2, j as int);
                        lemma_claims_json_parts(sub2, ds2);
                        assert(dsv =~= ds2) by {
                            assert forall|k: int| 0 <= k < dsv.len() implies dsv[k] == ds2[k] by {
                                assert(s@[16 + sub2.len() as int + k] == ds2[k]);
                            }
                        }
                    }
                }
            }
            None
        },
    }
}

/// Compares two byte strings.
fn bytes_eq(a: &Vec<u8>, b: &Vec<u8>) -> (r: bool)
    ensures
        r == (a@ == b@),
{
    if a.len() != b.len() {
        return false;
    }
    let mut i: usize = 0;
    while i < a.len()
        invariant
            0 <= i <= a@.len(),
            a@.len() == b@.len(),
            forall|k: int| 0 <= k < i ==> a@[k] == b@[k],
        decreases a@.len() - i,
    {
        if a[i] != b[i] {
            return false;
        }
        i += 1;
    }
    proof {
        assert(a@ =~= b@);
    }
    true
}

/// Where each part of a token sits, and that the separators are the only
/// dots before the signature.
proof fn lemma_token_structure(token: Seq<u8>, secret: Seq<u8>, uid: u64, exp: u64)
    requires
        token == token_bytes(uid, exp, secret),
    ensures
        ({
            let h = b64_encode_spec(header_json());
            let c = b64_encode_spec(
                claims_json(dec_digits(uid as nat), dec_digits(exp as nat)),
            );
            let si = signing_input(uid, exp);
            &&& token.len() == h.len() + 1 + c.len() as int + 1 + hs256_tag(si, secret).len()
            &&& forall|k: int| 0 <= k < h.len() ==> #[trigger] token[k] != 46
            &&& token[h.len() as int] == 46
            &&& forall|k: int|
                h.len() + 1 <= k < h.len() + 1 + c.len() as int ==> #[trigger] token[k] != 46
            &&& token[h.len() + 1 + c.len() as int] == 46
            &&& token.subrange(0, h.len() + 1 + c.len() as int) == si
            &&& token.subrange(h.len() as int + 1, h.len() + 1 + c.len() as int) == c
            &&& token.subrange(h.len() + 1 + c.len() as int + 1, token.len() as int) == hs256_tag(
                si,
                secret,
            )
        }),
{
    let h = b64_encode_spec(header_json());
    let cj = claims_json(dec_digits(uid as nat), dec_digits(exp as nat));
    let c = b64_encode_spec(cj);
    let si = signing_input(uid, exp);
    let tg = hs256_tag(si, secret);
    lemma_b64_encode_valid(header_json());
    lemma_b64_encode_valid(cj);
    assert(si.len() == h.len() + 1 + c.len() as int);
    assert forall|k: int| 0 <= k < h.len() implies #[trigger] token[k] != 46 by {
        assert(token[k] == h[k]);
        assert(is_b64_byte(h[k]));
    }
    assert(token[h.len() as int] == 46) by {
        assert(si[h.len() as int] == 46);
    }
    assert forall|k: int| h.len() + 1 <= k < h.len() + 1 + c.len() as int implies #[trigger] token[k]
        != 46 by {
        assert(token[k] == c[k - h.len() - 1]);
        assert(is_b64_byte(c[k - h.len() - 1]));
    }
    assert(token[h.len() + 1 + c.len() as int] == 46);
    assert(token.subrange(0, h.len() + 1 + c.len() as int) =~= si);
    assert(token.subrange(h.len() as int + 1, h.len() + 1 + c.len() as int) =~= c);
    assert(token.subrange(h.len() + 1 + c.len() as int + 1, token.len() as int) =~= tg);
}

/// Once both separators are found by a first-dot scan, the segments of an
/// issued token are pinned.
proof fn lemma_token_pins(
    token: Seq<u8>,
    secret: Seq<u8>,
    uid: u64,
    exp: u64,
    i1: int,
    i2: int,
)
    requires
        token == token_bytes(uid, exp, secret),
        0 <= i1 < token.len(),
        token[i1] == 46,
        forall|k: int| 0 <= k < i1 ==> token[k] != 46,
        i1 < i2 < token.len(),
        token[i2] == 46,
        forall|k: int| i1 + 1 <= k < i2 ==> token[k] != 46,
    ensures
        ({
            let h = b64_encode_spec(header_json());
            let c = b64_encode_spec(
                claims_json(dec_digits(uid as nat), dec_digits(exp as nat)),
            );
            let si = signing_input(uid, exp);
            &&& i1 == h.len()
            &&& i2 == h.len() + 1 + c.len() as int
            &&& token.subrange(0, i2) == si
            &&& token.subrange(i1 + 1, i2) == c
            &&& token.subrange(i2 + 1, token.len() as int) == hs256_tag(si, secret)
        }),
{
    let h = b64_encode_spec(header_json());
    let c = b64_encode_spec(claims_json(dec_digits(uid as nat), dec_digits(exp as nat)));
    lemma_token_structure(token, secret, uid, exp);
    if i1 < h.len() {
        assert(token[i1] != 46);
        assert(false);
    } else if i1 > h.len() {
        assert(token[h.len() as int] == 46);
        assert(false);
    }
    if i2 < h.len() + 1 + c.len() as int {
        assert(token[i2] != 46);
        assert(false);
    } else if i2 > h.len() + 1 + c.len() as int {
        assert(token[h.len() + 1 + c.len() as int] == 46);
        assert(false);
    }
}

/// The canonical decimal digits of a number are quote-free, so a subject fits
/// a claims object.
proof fn lemma_dec_digits_wf(n: nat)
    ensures
        wf_claims_parts(dec_digits(n), dec_digits(n)),
        quote_free(dec_digits(n)),
{
    lemma_dec_digits_are_digits(n);
    assert forall|i: int| 0 <= i < dec_digits(n).len() implies dec_digits(n)[i] != 34 by {
        assert(is_dec_digit(dec_digits(n)[i]));
    }
}

/// Verifies a token under a secret at time `now`: checks the signature over
/// the first two segments, decodes and parses the claims, and requires the
/// expiry to lie strictly in the future. Signature failure, malformed
/// segments, and expiry are all rejected alike.
pub fn decode_token(token: &Vec<u8>, secret: &Vec<u8>, now: u64) -> (r: Option<Claims>)
    ensures
        (match r {
            Some(c) => c.exp > now && exists|m: Seq<u8>|
                token@ == m + seq![46u8] + #[trigger] hs256_tag(m, secret@),
            None => true,
        }),
        forall|uid: u64, exp: u64|
            token@ == #[trigger] token_bytes(uid, exp, secret@) ==> (if exp > now {
                r matches Some(c) && c.sub@ == dec_digits(uid as nat) && c.exp == exp
            } else {
                r is None
            }),
{
    let n = token.len();
    let mut i1: usize = 0;
    while i1 < n && token[i1] != 46
        invariant
            0 <= i1 <= n,
            n == token@.len(),
            forall|k: int| 0 <= k < i1 ==> token@[k] != 46,
        decreases n - i1,
    {
        i1 += 1;
    }
    if i1 == n {
        proof {
            assert forall|uid: u64, exp: u64| token@ != #[trigger] token_bytes(
                uid,
                exp,
                secret@,
            ) by {
                if token@ == token_bytes(uid, exp, secret@) {
                    lemma_token_structure(token@, secret@, uid, exp);
                    let h = b64_encode_spec(header_json());
                    assert(token@[h.len() as int] == 46);
                    assert(false);
                }
            }
        }
        return None;
    }
    let mut i2: usize = i1 + 1;
    while i2 < n && token[i2] != 46
        invariant
            i1 + 1 <= i2 <= n,
            n == token@.len(),
            forall|k: int| i1 + 1 <= k < i2 ==> token@[k] != 46,
        decreases n - i2,
    {
        i2 += 1;
    }
    if i2 == n {
        proof {
            assert forall|uid: u64, exp: u64| token@ != #[trigger] token_bytes(
                uid,
                exp,
                secret@,
            ) by {
                if token@ == token_bytes(uid, exp, secret@) {
                    lemma_token_structure(token@, secret@, uid, exp);
                    let h = b64_encode_spec(header_json());
                    let c = b64_encode_spec(
                        claims_json(dec_digits(uid as nat), dec_digits(exp as nat)),
                    );
                    if i1 < h.len() {
                        assert(token@[i1 as int] != 46);
                    } else if i1 > h.len() {
                        assert(token@[h.len() as int] == 46);
                    }
                    assert(token@[h.len() + 1 + c.len() as int] == 46);
                    assert(false);
                }
            }
        }
        return None;
    }
    let msg = copy_range(token, 0, i2);
    let tag_part = copy_range(token, i2 + 1, n);
    let expect = hs256_sign(&msg, secret);
    if !bytes_eq(&tag_part, &expect) {
        proof {
            assert forall|uid: u64, exp: u64| token@ != #[trigger] token_bytes(
                uid,
                exp,
                secret@,
            ) by {
                if token@ == token_bytes(uid, exp, secret@) {
                    lemma_token_pins(token@, secret@, uid, exp, i1 as int, i2 as int);
                    assert(false);
                }
            }
        }
        return None;
    }
    let c64 = copy_range(token, i1 + 1, i2);
    let cb = match b64_decode(&c64) {
        Some(v) => v,
        None => {
            proof {
                assert forall|uid: u64, exp: u64| token@ != #[trigger] token_bytes(
                    uid,
                    exp,
                    secret@,
                ) by {
                    if token@ == token_bytes(uid, exp, secret@) {
                        lemma_token_pins(token@, secret@, uid, exp, i1 as int, i2 as int);
                        let cj = claims_json(dec_digits(uid as nat), dec_digits(exp as nat));
                        lemma_b64_round_trip(cj);
                        assert(false);
                    }
                }
            }
            return None;
        },
    };
    let claims = match parse_claims(&cb) {
        Some(c) => c,
        None => {
            proof {
                assert forall|uid: u64, exp: u64| token@ != #[trigger] token_bytes(
                    uid,
                    exp,
                    secret@,
                ) by {
                    if token@ == token_bytes(uid, exp, secret@) {
                        lemma_token_pins(token@, secret@, uid, exp, i1 as int, i2 as int);
                        let cj = claims_json(dec_digits(uid as nat), dec_digits(exp as nat));
                        lemma_b64_round_trip(cj);
                        assert(cb@ == cj);
                        lemma_dec_digits_wf(uid as nat);
                        lemma_dec_digits_wf(exp as nat);
                        lemma_dec_val_of_dec_digits(exp as nat);
                        assert(wf_claims_parts(dec_digits(uid as nat), dec_digits(exp as nat)));
                        assert(dec_val(dec_digits(exp as nat)) == exp);
                        assert(false);
                    }
                }
            }
            return None;
        },
    };
    proof {
        // Whatever token matched, the parsed claims carry its subject and expiry.
        assert forall|uid: u64, exp: u64|
            token@ == #[trigger] token_bytes(uid, exp, secret@) implies (claims.sub@ == dec_digits(
            uid as nat,
        ) && claims.exp == exp) by {
            lemma_token_pins(token@, secret@, uid, exp, i1 as int, i2 as int);
            let cj = claims_json(dec_digits(uid as nat), dec_digits(exp as nat));
            lemma_b64_round_trip(cj);
            assert(cb@ == cj);
            lemma_dec_digits_wf(uid as nat);
            lemma_dec_digits_wf(exp as nat);
            lemma_dec_val_of_dec_digits(exp as nat);
        }
    }
    if claims.exp <= now {
        return None;
    }
    proof {
        let m = token@.subrange(0, i2 as int);
        assert(tag_part@ == hs256_tag(m, secret@));
        assert(token@ =~= m + seq![46u8] + hs256_tag(m, secret@));
    }
    Some(claims)
}

} // verus!
