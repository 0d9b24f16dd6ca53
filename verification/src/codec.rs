//! Byte-to-text codec: standard base64 (RFC 4648 section 4) with required
//! padding.  The functions carry a full functional specification, and the
//! round-trip law (decoding an encoding gives the original bytes back) is
//! proved for every byte sequence.

use vstd::prelude::*;

verus! {

/// Error returned when a text is not valid base64: a byte outside the
/// standard alphabet, a length that is not a multiple of four, misplaced
/// or missing padding, or non-zero trailing bits before the padding.
#[derive(Debug, Clone, Copy, PartialEq, Eq, Structural)]
pub struct DecodeError;

/// ASCII code of the standard-alphabet character for a six-bit value.
pub open spec fn b64_char_of(v: u8) -> u8 {
    if v < 26 {
        (65 + v) as u8  // 'A'..='Z'
    } else if v < 52 {
        (71 + v) as u8  // 'a'..='z'
    } else if v < 62 {
        (v - 4) as u8  // '0'..='9'
    } else if v == 62 {
        43  // '+'
    } else {
        47  // '/'
    }
}

/// Whether an ASCII code is a character of the standard alphabet.
pub open spec fn is_b64_digit(c: u8) -> bool {
    (65 <= c && c <= 90) || (97 <= c && c <= 122) || (48 <= c && c <= 57) || c == 43 || c == 47
}

/// Six-bit value of an alphabet character.
pub open spec fn b64_val_of(c: u8) -> u8 {
    if 65 <= c && c <= 90 {
        (c - 65) as u8
    } else if 97 <= c && c <= 122 {
        (c - 71) as u8
    } else if 48 <= c && c <= 57 {
        (c + 4) as u8
    } else if c == 43 {
        62
    } else {
        63
    }
}

/// Four alphabet characters for a full group of three bytes.
pub open spec fn enc3(b0: u8, b1: u8, b2: u8) -> Seq<u8> {
    seq![
        b64_char_of(b0 >> 2),
        b64_char_of(((b0 & 0x03) << 4) | (b1 >> 4)),
        b64_char_of(((b1 & 0x0f) << 2) | (b2 >> 6)),
        b64_char_of(b2 & 0x3f),
    ]
}

/// Three characters and one padding byte for a trailing group of two bytes.
pub open spec fn enc2(b0: u8, b1: u8) -> Seq<u8> {
    seq![
        b64_char_of(b0 >> 2),
        b64_char_of(((b0 & 0x03) << 4) | (b1 >> 4)),
        b64_char_of((b1 & 0x0f) << 2),
        61,
    ]
}

/// Two characters and two padding bytes for a trailing group of one byte.
pub open spec fn enc1(b0: u8) -> Seq<u8> {
    seq![b64_char_of(b0 >> 2), b64_char_of((b0 & 0x03) << 4), 61, 61]
}

/// The base64 text (as ASCII bytes) of a byte sequence.
pub open spec fn encode_b64(b: Seq<u8>) -> Seq<u8>
    decreases b.len(),
{
    if b.len() == 0 {
        Seq::empty()
    } else if b.len() == 1 {
        enc1(b[0])
    } else if b.len() == 2 {
        enc2(b[0], b[1])
    } else {
        enc3(b[0], b[1], b[2]) + encode_b64(b.skip(3))
    }
}

/// Three bytes read back from a full group of four alphabet characters.
pub open spec fn dec3(c0: u8, c1: u8, c2: u8, c3: u8) -> Seq<u8> {
    seq![
        (b64_val_of(c0) << 2) | (b64_val_of(c1) >> 4),
        ((b64_val_of(c1) & 0x0f) << 4) | (b64_val_of(c2) >> 2),
        ((b64_val_of(c2) & 0x03) << 6) | b64_val_of(c3),
    ]
}

/// Whether a final group of four bytes is well formed: four alphabet
/// characters, or two or three of them closed by padding with all
/// trailing bits zero.
pub open spec fn valid_last4(s: Seq<u8>) -> bool {
    if is_b64_digit(s[0]) && is_b64_digit(s[1]) {
        if s[2] == 61 && s[3] == 61 {
            b64_val_of(s[1]) & 0x0f == 0
        } else if is_b64_digit(s[2]) && s[3] == 61 {
            b64_val_of(s[2]) & 0x03 == 0
        } else {
            is_b64_digit(s[2]) && is_b64_digit(s[3])
        }
    } else {
        false
    }
}

/// Bytes read back from a well-formed final group.
pub open spec fn dec_last4(s: Seq<u8>) -> Seq<u8> {
    if s[2] == 61 && s[3] == 61 {
        seq![(b64_val_of(s[0]) << 2) | (b64_val_of(s[1]) >> 4)]
    } else if s[3] == 61 {
        seq![
            (b64_val_of(s[0]) << 2) | (b64_val_of(s[1]) >> 4),
            ((b64_val_of(s[1]) & 0x0f) << 4) | (b64_val_of(s[2]) >> 2),
        ]
    } else {
        dec3(s[0], s[1], s[2], s[3])
    }
}

/// Whether a byte sequence is valid base64 text: groups of four alphabet
/// characters, with padding allowed only in the last group.
pub open spec fn valid_b64(s: Seq<u8>) -> bool
    decreases s.len(),
{
    if s.len() == 0 {
        true
    } else if s.len() < 4 {
        false
    } else if s.len() == 4 {
        valid_last4(s)
    } else {
        is_b64_digit(s[0]) && is_b64_digit(s[1]) && is_b64_digit(s[2]) && is_b64_digit(s[3])
            && valid_b64(s.skip(4))
    }
}

/// The bytes a valid base64 text stands for (meaningful under `valid_b64`).
pub open spec fn decoded_b64(s: Seq<u8>) -> Seq<u8>
    decreases s.len(),
{
    if s.len() < 4 {
        Seq::empty()
    } else if s.len() == 4 {
        dec_last4(s)
    } else {
        dec3(s[0], s[1], s[2], s[3]) + decoded_b64(s.skip(4))
    }
}

proof fn lemma_digit_inverse(v: u8)
    requires
        v < 64,
    ensures
        is_b64_digit(b64_char_of(v)),
        b64_val_of(b64_char_of(v)) == v,
        b64_char_of(v) != 61,
{
}

proof fn lemma_sextet_bounds(b0: u8, b1: u8, b2: u8)
    ensures
        b0 >> 2 < 64,
        (((b0 & 0x03) << 4) | (b1 >> 4)) < 64,
        (((b1 & 0x0f) << 2) | (b2 >> 6)) < 64,
        b2 & 0x3f < 64,
        ((b0 & 0x03) << 4) < 64,
        ((b1 & 0x0f) << 2) < 64,
        ((b0 & 0x03) << 4) & 0x0f == 0,
        ((b1 & 0x0f) << 2) & 0x03 == 0,
{
    assert(b0 >> 2 < 64) by (bit_vector);
    assert((((b0 & 0x03) << 4) | (b1 >> 4)) < 64) by (bit_vector);
    assert((((b1 & 0x0f) << 2) | (b2 >> 6)) < 64) by (bit_vector);
    assert(b2 & 0x3f < 64) by (bit_vector);
    assert(((b0 & 0x03) << 4) < 64) by (bit_vector);
    assert(((b1 & 0x0f) << 2) < 64) by (bit_vector);
    assert(((b0 & 0x03) << 4) & 0x0f == 0) by (bit_vector);
    assert(((b1 & 0x0f) << 2) & 0x03 == 0) by (bit_vector);
}

proof fn lemma_reassemble(b0: u8, b1: u8, b2: u8)
    ensures
        ((b0 >> 2) << 2) | ((((b0 & 0x03) << 4) | (b1 >> 4)) >> 4) == b0,
        (((((b0 & 0x03) << 4) | (b1 >> 4)) & 0x0f) << 4) | ((((b1 & 0x0f) << 2) | (b2 >> 6)) >> 2)
            == b1,
        (((((b1 & 0x0f) << 2) | (b2 >> 6)) & 0x03) << 6) | (b2 & 0x3f) == b2,
        ((b0 >> 2) << 2) | (((b0 & 0x03) << 4) >> 4) == b0,
        (((((b0 & 0x03) << 4) | (b1 >> 4)) & 0x0f) << 4) | (((b1 & 0x0f) << 2) >> 2) == b1,
{
    assert(((b0 >> 2) << 2) | ((((b0 & 0x03) << 4) | (b1 >> 4)) >> 4) == b0) by (bit_vector);
    assert((((((b0 & 0x03) << 4) | (b1 >> 4)) & 0x0f) << 4) | ((((b1 & 0x0f) << 2) | (b2 >> 6))
        >> 2) == b1) by (bit_vector);
    assert((((((b1 & 0x0f) << 2) | (b2 >> 6)) & 0x03) << 6) | (b2 & 0x3f) == b2) by (bit_vector);
    assert(((b0 >> 2) << 2) | (((b0 & 0x03) << 4) >> 4) == b0) by (bit_vector);
    assert((((((b0 & 0x03) << 4) | (b1 >> 4)) & 0x0f) << 4) | (((b1 & 0x0f) << 2) >> 2) == b1)
        by (bit_vector);
}

/// Round-trip law: encoding any byte sequence yields valid base64 text,
/// and decoding that text yields the original sequence back.
pub proof fn lemma_base64_round_trip(b: Seq<u8>)
    ensures
        valid_b64(encode_b64(b)),
        decoded_b64(encode_b64(b)) == b,
    decreases b.len(),
{
    if b.len() == 0 {
        assert(decoded_b64(encode_b64(b)) =~= b);
    } else if b.len() == 1 {
        let e = enc1(b[0]);
        lemma_sextet_bounds(b[0], 0, 0);
        lemma_digit_inverse(b[0] >> 2);
        lemma_digit_inverse((b[0] & 0x03) << 4);
        lemma_reassemble(b[0], 0, 0);
        assert(valid_last4(e));
        assert(dec_last4(e) =~= b);
    } else if b.len() == 2 {
        let e = enc2(b[0], b[1]);
        lemma_sextet_bounds(b[0], b[1], 0);
        lemma_digit_inverse(b[0] >> 2);
        lemma_digit_inverse(((b[0] & 0x03) << 4) | (b[1] >> 4));
        lemma_digit_inverse((b[1] & 0x0f) << 2);
        lemma_reassemble(b[0], b[1], 0);
        assert(valid_last4(e));
        assert(dec_last4(e) =~= b);
    } else {
        let e3 = enc3(b[0], b[1], b[2]);
        let rest = encode_b64(b.skip(3));
        lemma_sextet_bounds(b[0], b[1], b[2]);
        lemma_digit_inverse(b[0] >> 2);
        lemma_digit_inverse(((b[0] & 0x03) << 4) | (b[1] >> 4));
        lemma_digit_inverse(((b[1] & 0x0f) << 2) | (b[2] >> 6));
        lemma_digit_inverse(b[2] & 0x3f);
        lemma_reassemble(b[0], b[1], b[2]);
        lemma_base64_round_trip(b.skip(3));
        let e = encode_b64(b);
        assert(e == e3 + rest);
        if b.len() == 3 {
            assert(b.skip(3).len() == 0);
            assert(e =~= e3);
            assert(e.len() == 4);
            assert(valid_last4(e));
            assert(dec_last4(e) == dec3(e[0], e[1], e[2], e[3]));
            assert(decoded_b64(e) =~= b);
        } else {
            lemma_encode_len(b.skip(3));
            assert(rest.len() >= 4);
            assert(e.len() > 4);
            assert(e.skip(4) =~= rest);
            assert(valid_b64(e));
            assert(dec3(e[0], e[1], e[2], e[3]) =~= seq![b[0], b[1], b[2]]);
            assert(decoded_b64(e) =~= seq![b[0], b[1], b[2]] + b.skip(3));
            assert(decoded_b64(e) =~= b);
        }
    }
}

/// The encoding of `n` bytes has `4 * ((n + 2) / 3)` characters.
pub proof fn lemma_encode_len(b: Seq<u8>)
    ensures
        encode_b64(b).len() == 4 * ((b.len() + 2) / 3),
    decreases b.len(),
{
    if b.len() >= 3 {
        lemma_encode_len(b.skip(3));
    }
}

/// Alphabet character for a six-bit value.
fn b64_char(v: u8) -> (c: u8)
    requires
        v < 64,
    ensures
        c == b64_char_of(v),
{
    if v < 26 {
        65 + v
    } else if v < 52 {
        71 + v
    } else if v < 62 {
        v - 4
    } else if v == 62 {
        43
    } else {
        47
    }
}

/// Six-bit value of an alphabet character, or `None` for any other byte.
fn digit_val(c: u8) -> (r: Option<u8>)
    ensures
        match r {
            Some(v) => is_b64_digit(c) && v == b64_val_of(c) && v < 64,
            None => !is_b64_digit(c),
        },
{
    if 65 <= c && c <= 90 {
        Some(c - 65)
    } else if 97 <= c && c <= 122 {
        Some(c - 71)
    } else if 48 <= c && c <= 57 {
        Some(c + 4)
    } else if c == 43 {
        Some(62)
    } else if c == 47 {
        Some(63)
    } else {
        None
    }
}

fn encode_from(bytes: &Vec<u8>, i: usize, out: &mut Vec<u8>)
    requires
        i <= bytes@.len(),
    ensures
        final(out)@ == old(out)@ + encode_b64(bytes@.skip(i as int)),
    decreases bytes@.len() - i,
{
    let n = bytes.len();
    let rem = n - i;
    let ghost tail = bytes@.skip(i as int);
    if rem == 0 {
        assert(out@ =~= out@ + encode_b64(tail));
    } else if rem == 1 {
        let b0 = bytes[i];
        proof {
            lemma_sextet_bounds(b0, 0, 0);
        }
        out.push(b64_char(b0 >> 2));
        out.push(b64_char((b0 & 0x03) << 4));
        out.push(61);
        out.push(61);
        assert(tail =~= seq![bytes@[i as int]]);
        assert(out@ =~= old(out)@ + enc1(b0));
    } else if rem == 2 {
        let b0 = bytes[i];
        let b1 = bytes[i + 1];
        proof {
            lemma_sextet_bounds(b0, b1, 0);
        }
        out.push(b64_char(b0 >> 2));
        out.push(b64_char(((b0 & 0x03) << 4) | (b1 >> 4)));
        out.push(b64_char((b1 & 0x0f) << 2));
        out.push(61);
        assert(tail =~= seq![bytes@[i as int], bytes@[i + 1]]);
        assert(out@ =~= old(out)@ + enc2(b0, b1));
    } else {
        let b0 = bytes[i];
        let b1 = bytes[i + 1];
        let b2 = bytes[i + 2];
        proof {
            lemma_sextet_bounds(b0, b1, b2);
        }
        out.push(b64_char(b0 >> 2));
        out.push(b64_char(((b0 & 0x03) << 4) | (b1 >> 4)));
        out.push(b64_char(((b1 & 0x0f) << 2) | (b2 >> 6)));
        out.push(b64_char(b2 & 0x3f));
        let ghost mid = out@;
        assert(mid =~= old(out)@ + enc3(b0, b1, b2));
        encode_from(bytes, i + 3, out);
        assert(tail.skip(3) =~= bytes@.skip(i + 3));
        assert(encode_b64(tail) == enc3(tail[0], tail[1], tail[2]) + encode_b64(tail.skip(3)));
        assert(tail[0] == b0 && tail[1] == b1 && tail[2] == b2);
        assert(out@ =~= old(out)@ + encode_b64(tail));
    }
}

/// Encode a byte sequence as standard base64 text with padding.  Always
/// succeeds; the result is the ASCII text `encode_b64` describes.
pub fn encode(bytes: &Vec<u8>) -> (r: Vec<u8>)
    ensures
        r@ == encode_b64(bytes@),
{
    let mut out: Vec<u8> = Vec::new();
    encode_from(bytes, 0, &mut out);
    assert(bytes@.skip(0) =~= bytes@);
    assert(out@ =~= encode_b64(bytes@));
    out
}

fn decode_from(text: &Vec<u8>, i: usize, out: &mut Vec<u8>) -> (ok: bool)
    requires
        i <= text@.len(),
    ensures
        ok == valid_b64(text@.skip(i as int)),
        ok ==> final(out)@ == old(out)@ + decoded_b64(text@.skip(i as int)),
    decreases text@.len() - i,
{
    let n = text.len();
    let rem = n - i;
    let ghost tail = text@.skip(i as int);
    if rem == 0 {
        assert(out@ =~= out@ + decoded_b64(tail));
        true
    } else if rem < 4 {
        false
    } else if rem == 4 {
        let c0 = text[i];
        let c1 = text[i + 1];
        let c2 = text[i + 2];
        let c3 = text[i + 3];
        assert(tail =~= seq![c0, c1, c2, c3]);
        let v0 = match digit_val(c0) {
            Some(v) => v,
            None => {
                return false;
            },
        };
        let v1 = match digit_val(c1) {
            Some(v) => v,
            None => {
                return false;
            },
        };
        if c2 == 61 && c3 == 61 {
            if v1 & 0x0f != 0 {
                return false;
            }
            out.push((v0 << 2) | (v1 >> 4));
            assert(out@ =~= old(out)@ + dec_last4(tail));
            true
        } else if c3 == 61 {
            let v2 = match digit_val(c2) {
                Some(v) => v,
                None => {
                    return false;
                },
            };
            if v2 & 0x03 != 0 {
                return false;
            }
            out.push((v0 << 2) | (v1 >> 4));
            out.push(((v1 & 0x0f) << 4) | (v2 >> 2));
            assert(out@ =~= old(out)@ + dec_last4(tail));
            true
        } else {
            let v2 = match digit_val(c2) {
                Some(v) => v,
                None => {
                    return false;
                },
            };
            let v3 = match digit_val(c3) {
                Some(v) => v,
                None => {
                    return false;
                },
            };
            out.push((v0 << 2) | (v1 >> 4));
            out.push(((v1 & 0x0f) << 4) | (v2 >> 2));
            out.push(((v2 & 0x03) << 6) | v3);
            assert(out@ =~= old(out)@ + dec_last4(tail));
            true
        }
    } else {
        let c0 = text[i];
        let c1 = text[i + 1];
        let c2 = text[i + 2];
        let c3 = text[i + 3];
        assert(tail[0] == c0 && tail[1] == c1 && tail[2] == c2 && tail[3] == c3);
        let v0 = match digit_val(c0) {
            Some(v) => v,
            None => {
                return false;
            },
        };
        let v1 = match digit_val(c1) {
            Some(v) => v,
            None => {
                return false;
            },
        };
        let v2 = match digit_val(c2) {
            Some(v) => v,
            None => {
                return false;
            },
        };
        let v3 = match digit_val(c3) {
            Some(v) => v,
            None => {
                return false;
            },
        };
        out.push((v0 << 2) | (v1 >> 4));
        out.push(((v1 & 0x0f) << 4) | (v2 >> 2));
        out.push(((v2 & 0x03) << 6) | v3);
        let ghost mid = out@;
        assert(mid =~= old(out)@ + dec3(c0, c1, c2, c3));
        let ok = decode_from(text, i + 4, out);
        assert(tail.skip(4) =~= text@.skip(i + 4));
        if ok {
            assert(out@ =~= old(out)@ + decoded_b64(tail));
        }
        ok
    }
}

/// Decode standard base64 text with padding.  Returns the bytes the text
/// stands for exactly when the text is valid (`valid_b64`); any malformed
/// input is rejected with `DecodeError` and no partial output.
pub fn decode(text: &Vec<u8>) -> (r: Result<Vec<u8>, DecodeError>)
    ensures
        match r {
            Ok(b) => valid_b64(text@) && b@ == decoded_b64(text@),
            Err(e) => !valid_b64(text@),
        },
{
    let mut out: Vec<u8> = Vec::new();
    let ok = decode_from(text, 0, &mut out);
    assert(text@.skip(0) =~= text@);
    if ok {
        Ok(out)
    } else {
        Err(DecodeError)
    }
}

} // verus!
