//! Base64url (unpadded) encoding and decoding of byte strings, the segment
//! format of session tokens. Decoding is strict: it rejects lengths that no
//! encoding produces and nonzero trailing bits, so exactly the canonical
//! encodings decode.

use vstd::prelude::*;

verus! {

/// The base64url alphabet byte for a 6-bit value.
pub open spec fn b64_byte(v: u8) -> u8 {
    if v < 26 {
        (65 + v) as u8
    } else if v < 52 {
        (71 + v) as u8
    } else if v < 62 {
        (v - 4) as u8
    } else if v == 62 {
        45
    } else {
        95
    }
}

/// The 6-bit value of an alphabet byte, or 255 for a byte outside the alphabet.
pub open spec fn b64_val(b: u8) -> u8 {
    if 65 <= b && b <= 90 {
        (b - 65) as u8
    } else if 97 <= b && b <= 122 {
        (b - 71) as u8
    } else if 48 <= b && b <= 57 {
        (b + 4) as u8
    } else if b == 45 {
        62
    } else if b == 95 {
        63
    } else {
        255
    }
}

/// Whether `b` belongs to the base64url alphabet.
pub open spec fn is_b64_byte(b: u8) -> bool {
    b64_val(b) < 64
}

/// The base64url encoding of `s`, three input bytes to four output bytes,
/// without padding.
pub open spec fn b64_encode_spec(s: Seq<u8>) -> Seq<u8>
    decreases s.len(),
{
    if s.len() == 0 {
        Seq::empty()
    } else if s.len() == 1 {
        seq![b64_byte(s[0] >> 2), b64_byte((s[0] & 3) << 4)]
    } else if s.len() == 2 {
        seq![
            b64_byte(s[0] >> 2),
            b64_byte(((s[0] & 3) << 4) | (s[1] >> 4)),
            b64_byte((s[1] & 15) << 2),
        ]
    } else {
        seq![
            b64_byte(s[0] >> 2),
            b64_byte(((s[0] & 3) << 4) | (s[1] >> 4)),
            b64_byte(((s[1] & 15) << 2) | (s[2] >> 6)),
            b64_byte(s[2] & 63),
        ] + b64_encode_spec(s.skip(3))
    }
}

/// The strict base64url decoding of `s`: `None` unless `s` is the canonical
/// encoding of some byte string, which is returned.
pub open spec fn b64_decode_spec(s: Seq<u8>) -> Option<Seq<u8>>
    decreases s.len(),
{
    if s.len() == 0 {
        Some(Seq::empty())
    } else if s.len() == 1 {
        None
    } else if s.len() == 2 {
        if is_b64_byte(s[0]) && is_b64_byte(s[1]) && (b64_val(s[1]) & 15) == 0 {
            Some(seq![(b64_val(s[0]) << 2) | (b64_val(s[1]) >> 4)])
        } else {
            None
        }
    } else if s.len() == 3 {
        if is_b64_byte(s[0]) && is_b64_byte(s[1]) && is_b64_byte(s[2]) && (b64_val(s[2]) & 3)
            == 0 {
            Some(
                seq![
                    (b64_val(s[0]) << 2) | (b64_val(s[1]) >> 4),
                    ((b64_val(s[1]) & 15) << 4) | (b64_val(s[2]) >> 2),
                ],
            )
        } else {
            None
        }
    } else {
        if is_b64_byte(s[0]) && is_b64_byte(s[1]) && is_b64_byte(s[2]) && is_b64_byte(s[3]) {
            match b64_decode_spec(s.skip(4)) {
                Some(rest) => Some(
                    seq![
                        (b64_val(s[0]) << 2) | (b64_val(s[1]) >> 4),
                        ((b64_val(s[1]) & 15) << 4) | (b64_val(s[2]) >> 2),
                        ((b64_val(s[2]) & 3) << 6) | b64_val(s[3]),
                    ] + rest,
                ),
                None => None,
            }
        } else {
            None
        }
    }
}

/// Alphabet bytes and 6-bit values are in exact correspondence, and the
/// alphabet avoids the token and claims delimiters.
pub proof fn lemma_b64_byte_val(v: u8)
    requires
        v < 64,
    ensures
        b64_val(b64_byte(v)) == v,
        is_b64_byte(b64_byte(v)),
        b64_byte(v) != 46,
        b64_byte(v) != 34,
{
}

/// The bit facts for one full encoding group.
proof fn lemma_group3(b0: u8, b1: u8, b2: u8)
    ensures
        b0 >> 2 < 64,
        ((b0 & 3) << 4) | (b1 >> 4) < 64,
        ((b1 & 15) << 2) | (b2 >> 6) < 64,
        b2 & 63 < 64,
        ((b0 >> 2) << 2) | ((((b0 & 3) << 4) | (b1 >> 4)) >> 4) == b0,
        (((((b0 & 3) << 4) | (b1 >> 4)) & 15) << 4) | ((((b1 & 15) << 2) | (b2 >> 6)) >> 2) == b1,
        (((((b1 & 15) << 2) | (b2 >> 6)) & 3) << 6) | (b2 & 63) == b2,
{
    assert(b0 >> 2 < 64 && ((b0 & 3) << 4) | (b1 >> 4) < 64 && ((b1 & 15) << 2) | (b2 >> 6) < 64
        && b2 & 63 < 64 && ((b0 >> 2) << 2) | ((((b0 & 3) << 4) | (b1 >> 4)) >> 4) == b0 && (((((b0
        & 3) << 4) | (b1 >> 4)) & 15) << 4) | ((((b1 & 15) << 2) | (b2 >> 6)) >> 2) == b1 && (((((
    b1 & 15) << 2) | (b2 >> 6)) & 3) << 6) | (b2 & 63) == b2) by (bit_vector);
}

/// The bit facts for a trailing two-byte group.
proof fn lemma_group2(b0: u8, b1: u8)
    ensures
        b0 >> 2 < 64,
        ((b0 & 3) << 4) | (b1 >> 4) < 64,
        (b1 & 15) << 2 < 64,
        (((b1 & 15) << 2) & 3) == 0,
        ((b0 >> 2) << 2) | ((((b0 & 3) << 4) | (b1 >> 4)) >> 4) == b0,
        (((((b0 & 3) << 4) | (b1 >> 4)) & 15) << 4) | (((b1 & 15) << 2) >> 2) == b1,
{
    assert(b0 >> 2 < 64 && ((b0 & 3) << 4) | (b1 >> 4) < 64 && (b1 & 15) << 2 < 64 && (((b1 & 15)
        << 2) & 3) == 0 && ((b0 >> 2) << 2) | ((((b0 & 3) << 4) | (b1 >> 4)) >> 4) == b0 && (((((b0
        & 3) << 4) | (b1 >> 4)) & 15) << 4) | (((b1 & 15) << 2) >> 2) == b1) by (bit_vector);
}

/// The bit facts for a trailing one-byte group.
proof fn lemma_group1(b0: u8)
    ensures
        b0 >> 2 < 64,
        (b0 & 3) << 4 < 64,
        (((b0 & 3) << 4) & 15) == 0,
        ((b0 >> 2) << 2) | (((b0 & 3) << 4) >> 4) == b0,
{
    assert(b0 >> 2 < 64 && (b0 & 3) << 4 < 64 && (((b0 & 3) << 4) & 15) == 0 && ((b0 >> 2) << 2) | (
    ((b0 & 3) << 4) >> 4) == b0) by (bit_vector);
}

/// Every byte of an encoding lies in the alphabet.
pub proof fn lemma_b64_encode_valid(s: Seq<u8>)
    ensures
        forall|i: int|
            0 <= i < b64_encode_spec(s).len() ==> is_b64_byte(#[trigger] b64_encode_spec(s)[i]),
    decreases s.len(),
{
    let e = b64_encode_spec(s);
    if s.len() == 0 {
    } else if s.len() == 1 {
        lemma_group1(s[0]);
        assert forall|i: int| 0 <= i < e.len() implies is_b64_byte(#[trigger] e[i]) by {
            lemma_b64_byte_val(s[0] >> 2);
            lemma_b64_byte_val((s[0] & 3) << 4);
        }
    } else if s.len() == 2 {
        lemma_group2(s[0], s[1]);
        assert forall|i: int| 0 <= i < e.len() implies is_b64_byte(#[trigger] e[i]) by {
            lemma_b64_byte_val(s[0] >> 2);
            lemma_b64_byte_val(((s[0] & 3) << 4) | (s[1] >> 4));
            lemma_b64_byte_val((s[1] & 15) << 2);
        }
    } else {
        lemma_group3(s[0], s[1], s[2]);
        lemma_b64_encode_valid(s.skip(3));
        let rest = b64_encode_spec(s.skip(3));
        assert forall|i: int| 0 <= i < e.len() implies is_b64_byte(#[trigger] e[i]) by {
            lemma_b64_byte_val(s[0] >> 2);
            lemma_b64_byte_val(((s[0] & 3) << 4) | (s[1] >> 4));
            lemma_b64_byte_val(((s[1] & 15) << 2) | (s[2] >> 6));
            lemma_b64_byte_val(s[2] & 63);
            if i >= 4 {
                assert(e[i] == rest[i - 4]);
            }
        }
    }
}

/// Strict decoding inverts encoding.
pub proof fn lemma_b64_round_trip(s: Seq<u8>)
    ensures
        b64_decode_spec(b64_encode_spec(s)) == Some(s),
    decreases s.len(),
{
    let e = b64_encode_spec(s);
    if s.len() == 0 {
        assert(b64_decode_spec(e) == Some(Seq::<u8>::empty()));
        assert(Seq::<u8>::empty() =~= s);
    } else if s.len() == 1 {
        lemma_group1(s[0]);
        lemma_b64_byte_val(s[0] >> 2);
        lemma_b64_byte_val((s[0] & 3) << 4);
        assert(e.len() == 2);
        assert(b64_decode_spec(e) == Some(seq![(b64_val(e[0]) << 2) | (b64_val(e[1]) >> 4)]));
        assert(seq![(b64_val(e[0]) << 2) | (b64_val(e[1]) >> 4)] =~= s);
    } else if s.len() == 2 {
        lemma_group2(s[0], s[1]);
        lemma_b64_byte_val(s[0] >> 2);
        lemma_b64_byte_val(((s[0] & 3) << 4) | (s[1] >> 4));
        lemma_b64_byte_val((s[1] & 15) << 2);
        assert(e.len() == 3);
        assert(b64_decode_spec(e) matches Some(d) && d =~= s);
    } else {
        lemma_group3(s[0], s[1], s[2]);
        lemma_b64_byte_val(s[0] >> 2);
        lemma_b64_byte_val(((s[0] & 3) << 4) | (s[1] >> 4));
        lemma_b64_byte_val(((s[1] & 15) << 2) | (s[2] >> 6));
        lemma_b64_byte_val(s[2] & 63);
        lemma_b64_round_trip(s.skip(3));
        let grp = seq![
            b64_byte(s[0] >> 2),
            b64_byte(((s[0] & 3) << 4) | (s[1] >> 4)),
            b64_byte(((s[1] & 15) << 2) | (s[2] >> 6)),
            b64_byte(s[2] & 63),
        ];
        let rest = b64_encode_spec(s.skip(3));
        assert(e == grp + rest);
        assert(e.skip(4) =~= rest);
        assert(e.len() >= 4);
        let d0 = (b64_val(e[0]) << 2) | (b64_val(e[1]) >> 4);
        let d1 = ((b64_val(e[1]) & 15) << 4) | (b64_val(e[2]) >> 2);
        let d2 = ((b64_val(e[2]) & 3) << 6) | b64_val(e[3]);
        assert(d0 == s[0] && d1 == s[1] && d2 == s[2]);
        assert(b64_decode_spec(e.skip(4)) == Some(s.skip(3)));
        assert(b64_decode_spec(e) == Some(seq![d0, d1, d2] + s.skip(3)));
        assert(seq![d0, d1, d2] + s.skip(3) =~= s);
    }
}

/// Looks up the alphabet byte for a 6-bit value.
fn b64_byte_x(v: u8) -> (r: u8)
    requires
        v < 64,
    ensures
        r == b64_byte(v),
{
    if v < 26 {
        65 + v
    } else if v < 52 {
        71 + v
    } else if v < 62 {
        v - 4
    } else if v == 62 {
        45
    } else {
        95
    }
}

/// Looks up the 6-bit value of an alphabet byte, 255 outside the alphabet.
fn b64_val_x(b: u8) -> (r: u8)
    ensures
        r == b64_val(b),
{
    if 65 <= b && b <= 90 {
        b - 65
    } else if 97 <= b && b <= 122 {
        b - 71
    } else if 48 <= b && b <= 57 {
        b + 4
    } else if b == 45 {
        62
    } else if b == 95 {
        63
    } else {
        255
    }
}

/// Encodes `s` from position `i` on.
fn b64_encode_from(s: &Vec<u8>, i: usize) -> (r: Vec<u8>)
    requires
        i <= s.len(),
    ensures
        r@ == b64_encode_spec(s@.skip(i as int)),
    decreases s.len() - i,
{
    let rem = s.len() - i;
    let t = Ghost(s@.skip(i as int));
    if rem == 0 {
        let r: Vec<u8> = Vec::new();
        proof {
            assert(r@ =~= b64_encode_spec(t@));
        }
        r
    } else if rem == 1 {
        let b0 = s[i];
        proof {
            lemma_group1(b0);
        }
        let mut r: Vec<u8> = Vec::new();
        r.push(b64_byte_x(b0 >> 2));
        r.push(b64_byte_x((b0 & 3) << 4));
        proof {
            assert(t@.len() == 1 && t@[0] == b0);
            assert(r@ =~= b64_encode_spec(t@));
        }
        r
    } else if rem == 2 {
        let b0 = s[i];
        let b1 = s[i + 1];
        proof {
            lemma_group2(b0, b1);
        }
        let mut r: Vec<u8> = Vec::new();
        r.push(b64_byte_x(b0 >> 2));
        r.push(b64_byte_x(((b0 & 3) << 4) | (b1 >> 4)));
        r.push(b64_byte_x((b1 & 15) << 2));
        proof {
            assert(t@.len() == 2 && t@[0] == b0 && t@[1] == b1);
            assert(r@ =~= b64_encode_spec(t@));
        }
        r
    } else {
        let b0 = s[i];
        let b1 = s[i + 1];
        let b2 = s[i + 2];
        proof {
            lemma_group3(b0, b1, b2);
        }
        let mut r: Vec<u8> = Vec::new();
        r.push(b64_byte_x(b0 >> 2));
        r.push(b64_byte_x(((b0 & 3) << 4) | (b1 >> 4)));
        r.push(b64_byte_x(((b1 & 15) << 2) | (b2 >> 6)));
        r.push(b64_byte_x(b2 & 63));
        let mut rest = b64_encode_from(s, i + 3);
        r.append(&mut rest);
        proof {
            assert(t@.len() >= 3 && t@[0] == b0 && t@[1] == b1 && t@[2] == b2);
            assert(t@.skip(3) =~= s@.skip(i + 3));
            assert(r@ =~= b64_encode_spec(t@));
        }
        r
    }
}

/// Encodes a byte string in unpadded base64url.
pub fn b64_encode(s: &Vec<u8>) -> (r: Vec<u8>)
    ensures
        r@ == b64_encode_spec(s@),
{
    let r = b64_encode_from(s, 0);
    proof {
        assert(s@.skip(0) =~= s@);
    }
    r
}

/// Decodes `s` from position `i` on.
fn b64_decode_from(s: &Vec<u8>, i: usize) -> (r: Option<Vec<u8>>)
    requires
        i <= s.len(),
    ensures
        match r {
            Some(v) => b64_decode_spec(s@.skip(i as int)) == Some(v@),
            None => b64_decode_spec(s@.skip(i as int)) is None,
        },
    decreases s.len() - i,
{
    let rem = s.len() - i;
    let t = Ghost(s@.skip(i as int));
    if rem == 0 {
        let r: Vec<u8> = Vec::new();
        proof {
            assert(b64_decode_spec(t@) == Some(Seq::<u8>::empty()));
            assert(r@ =~= Seq::<u8>::empty());
        }
        Some(r)
    } else if rem == 1 {
        None
    } else if rem == 2 {
        let v0 = b64_val_x(s[i]);
        let v1 = b64_val_x(s[i + 1]);
        proof {
            assert(t@.len() == 2 && t@[0] == s@[i as int] && t@[1] == s@[i + 1]);
        }
        if v0 < 64 && v1 < 64 && (v1 & 15) == 0 {
            let mut r: Vec<u8> = Vec::new();
            r.push((v0 << 2) | (v1 >> 4));
            proof {
                assert(r@ =~= seq![(v0 << 2) | (v1 >> 4)]);
            }
            Some(r)
        } else {
            None
        }
    } else if rem == 3 {
        let v0 = b64_val_x(s[i]);
        let v1 = b64_val_x(s[i + 1]);
        let v2 = b64_val_x(s[i + 2]);
        proof {
            assert(t@.len() == 3 && t@[0] == s@[i as int] && t@[1] == s@[i + 1] && t@[2] == s@[i
                + 2]);
        }
        if v0 < 64 && v1 < 64 && v2 < 64 && (v2 & 3) == 0 {
            let mut r: Vec<u8> = Vec::new();
            r.push((v0 << 2) | (v1 >> 4));
            r.push(((v1 & 15) << 4) | (v2 >> 2));
            proof {
                assert(r@ =~= seq![(v0 << 2) | (v1 >> 4), ((v1 & 15) << 4) | (v2 >> 2)]);
            }
            Some(r)
        } else {
            None
        }
    } else {
        let v0 = b64_val_x(s[i]);
        let v1 = b64_val_x(s[i + 1]);
        let v2 = b64_val_x(s[i + 2]);
        let v3 = b64_val_x(s[i + 3]);
        proof {
            assert(t@.len() >= 4 && t@[0] == s@[i as int] && t@[1] == s@[i + 1] && t@[2] == s@[i
                + 2] && t@[3] == s@[i + 3]);
            assert(t@.skip(4) =~= s@.skip(i + 4));
        }
        if v0 < 64 && v1 < 64 && v2 < 64 && v3 < 64 {
            match b64_decode_from(s, i + 4) {
                Some(rest) => {
                    let mut r: Vec<u8> = Vec::new();
                    r.push((v0 << 2) | (v1 >> 4));
                    r.push(((v1 & 15) << 4) | (v2 >> 2));
                    r.push(((v2 & 3) << 6) | v3);
                    let ghost head = r@;
                    let ghost tail = rest@;
                    let mut rest = rest;
                    r.append(&mut rest);
                    proof {
                        assert(r@ =~= head + tail);
                    }
                    Some(r)
                },
                None => None,
            }
        } else {
            None
        }
    }
}

/// Decodes an unpadded base64url byte string, strictly.
pub fn b64_decode(s: &Vec<u8>) -> (r: Option<Vec<u8>>)
    ensures
        match r {
            Some(v) => b64_decode_spec(s@) == Some(v@),
            None => b64_decode_spec(s@) is None,
        },
{
    let r = b64_decode_from(s, 0);
    proof {
        assert(s@.skip(0) =~= s@);
    }
    r
}

} // verus!
