//! Base64 (standard alphabet, padded) encoding and decoding of byte strings,
//! as the acknowledgment envelope carries its payload.
//!
//! The decoder accepts exactly the canonical encodings: padding appears only
//! at the end, and the unused low bits of a final partial group must be zero.

use vstd::prelude::*;

verus! {

/// The character of one 6-bit value in the standard base64 alphabet.
pub open spec fn b64_char(v: u8) -> u8 {
    if v < 26 {
        (65 + v) as u8
    } else if v < 52 {
        (71 + v) as u8
    } else if v < 62 {
        (v - 4) as u8
    } else if v == 62 {
        43
    } else {
        47
    }
}

/// The four characters of one full three-byte group.
pub open spec fn b64_group(b0: u8, b1: u8, b2: u8) -> Seq<u8> {
    seq![
        b64_char(b0 >> 2),
        b64_char(((b0 & 3) << 4) | (b1 >> 4)),
        b64_char(((b1 & 15) << 2) | (b2 >> 6)),
        b64_char(b2 & 63),
    ]
}

/// The canonical base64 encoding of a byte string.
pub open spec fn b64_enc(s: Seq<u8>) -> Seq<u8>
    decreases s.len(),
{
    if s.len() == 0 {
        Seq::empty()
    } else if s.len() == 1 {
        seq![b64_char(s[0] >> 2), b64_char((s[0] & 3) << 4), 61, 61]
    } else if s.len() == 2 {
        seq![
            b64_char(s[0] >> 2),
            b64_char(((s[0] & 3) << 4) | (s[1] >> 4)),
            b64_char((s[1] & 15) << 2),
            61,
        ]
    } else {
        b64_group(s[0], s[1], s[2]) + b64_enc(s.skip(3))
    }
}

/// The alphabet characters are the letters, the digits, `+` and `/`; the
/// padding byte `=` and the quote are not among them.
pub proof fn lemma_char_range(v: u8)
    requires
        v < 64,
    ensures
        b64_char(v) == 43 || b64_char(v) == 47 || (48 <= b64_char(v) <= 57) || (65 <= b64_char(v)
            <= 90) || (97 <= b64_char(v) <= 122),
        b64_char(v) != 61,
        b64_char(v) != 34,
{
}

/// Distinct 6-bit values have distinct characters.
pub proof fn lemma_char_inj(a: u8, b: u8)
    requires
        a < 64,
        b < 64,
        b64_char(a) == b64_char(b),
    ensures
        a == b,
{
}

/// An encoding's length is a multiple of four, and positive for a non-empty
/// input.
pub proof fn lemma_enc_len(s: Seq<u8>)
    ensures
        b64_enc(s).len() % 4 == 0,
        s.len() > 0 ==> b64_enc(s).len() >= 4,
    decreases s.len(),
{
    if s.len() > 2 {
        lemma_enc_len(s.skip(3));
    }
}

/// The encoding of a byte string splits at any group boundary.
pub proof fn lemma_enc_split(s: Seq<u8>, k: int)
    requires
        0 <= 3 * k <= s.len(),
    ensures
        b64_enc(s) == b64_enc(s.take(3 * k)) + b64_enc(s.skip(3 * k)),
        b64_enc(s.take(3 * k)).len() == 4 * k,
    decreases k,
{
    if k == 0 {
        assert(s.skip(0) =~= s);
        assert(b64_enc(s.take(0)) =~= Seq::<u8>::empty());
        assert(b64_enc(s) =~= b64_enc(s.take(0)) + b64_enc(s.skip(0)));
    } else {
        let t = s.skip(3);
        lemma_enc_split(t, k - 1);
        assert(t.take(3 * k - 3) =~= s.take(3 * k).skip(3));
        assert(t.skip(3 * k - 3) =~= s.skip(3 * k));
        assert(s.take(3 * k).len() >= 3);
        assert(s.take(3 * k)[0] == s[0] && s.take(3 * k)[1] == s[1] && s.take(3 * k)[2] == s[2]);
        assert(b64_enc(s.take(3 * k)) == b64_group(s[0], s[1], s[2]) + b64_enc(
            s.take(3 * k).skip(3),
        ));
        assert(b64_enc(s) =~= b64_enc(s.take(3 * k)) + b64_enc(s.skip(3 * k)));
    }
}

/// No byte of an encoding is the quote, so a base64 payload never ends the
/// JSON string that carries it early.
pub proof fn lemma_enc_quote_free(s: Seq<u8>)
    ensures
        forall|i: int| 0 <= i < b64_enc(s).len() ==> b64_enc(s)[i] != 34,
    decreases s.len(),
{
    if s.len() == 0 {
    } else if s.len() == 1 {
        let b0 = s[0];
        assert(b0 >> 2 < 64 && (b0 & 3) << 4 < 64) by (bit_vector);
        lemma_char_range(b0 >> 2);
        lemma_char_range((b0 & 3) << 4);
    } else if s.len() == 2 {
        let (b0, b1) = (s[0], s[1]);
        assert(b0 >> 2 < 64 && (((b0 & 3) << 4) | (b1 >> 4)) < 64 && ((b1 & 15) << 2) < 64)
            by (bit_vector);
        lemma_char_range(b0 >> 2);
        lemma_char_range(((b0 & 3) << 4) | (b1 >> 4));
        lemma_char_range((b1 & 15) << 2);
    } else {
        let (b0, b1, b2) = (s[0], s[1], s[2]);
        assert(b0 >> 2 < 64 && (((b0 & 3) << 4) | (b1 >> 4)) < 64 && (((b1 & 15) << 2) | (b2 >> 6))
            < 64 && (b2 & 63) < 64) by (bit_vector);
        lemma_char_range(b0 >> 2);
        lemma_char_range(((b0 & 3) << 4) | (b1 >> 4));
        lemma_char_range(((b1 & 15) << 2) | (b2 >> 6));
        lemma_char_range(b2 & 63);
        lemma_enc_quote_free(s.skip(3));
        assert(b64_enc(s) == b64_group(b0, b1, b2) + b64_enc(s.skip(3)));
        assert forall|i: int| 0 <= i < b64_enc(s).len() implies b64_enc(s)[i] != 34 by {
            if i >= 4 {
                assert(b64_enc(s)[i] == b64_enc(s.skip(3))[i - 4]);
            }
        }
    }
}

/// Two byte strings with the same encoding are the same: base64 encoding is
/// injective.
pub proof fn lemma_enc_injective(p1: Seq<u8>, p2: Seq<u8>)
    requires
        b64_enc(p1) == b64_enc(p2),
    ensures
        p1 == p2,
    decreases p1.len(),
{
    lemma_enc_len(p1);
    lemma_enc_len(p2);
    if p1.len() == 0 || p2.len() == 0 {
        if p1.len() == 0 && p2.len() == 0 {
            assert(p1 =~= p2);
        } else {
            assert(false);
        }
    } else if p1.len() <= 2 || p2.len() <= 2 {
        lemma_pad_shape(p1);
        lemma_pad_shape(p2);
        if p1.len() == 1 && p2.len() == 1 {
            let (a, b) = (p1[0], p2[0]);
            assert(b64_enc(p1)[0] == b64_char(a >> 2) && b64_enc(p1)[1] == b64_char((a & 3) << 4));
            assert(b64_enc(p2)[0] == b64_char(b >> 2) && b64_enc(p2)[1] == b64_char((b & 3) << 4));
            assert(a >> 2 < 64 && (a & 3) << 4 < 64 && b >> 2 < 64 && (b & 3) << 4 < 64)
                by (bit_vector);
            lemma_char_inj(a >> 2, b >> 2);
            lemma_char_inj((a & 3) << 4, (b & 3) << 4);
            assert(a == b) by (bit_vector)
                requires
                    a >> 2 == b >> 2,
                    (a & 3) << 4 == (b & 3) << 4,
            ;
            assert(p1 =~= p2);
        } else if p1.len() == 2 && p2.len() == 2 {
            let (a0, a1, b0, b1) = (p1[0], p1[1], p2[0], p2[1]);
            assert(b64_enc(p1)[0] == b64_char(a0 >> 2) && b64_enc(p1)[1] == b64_char(
                ((a0 & 3) << 4) | (a1 >> 4),
            ) && b64_enc(p1)[2] == b64_char((a1 & 15) << 2));
            assert(b64_enc(p2)[0] == b64_char(b0 >> 2) && b64_enc(p2)[1] == b64_char(
                ((b0 & 3) << 4) | (b1 >> 4),
            ) && b64_enc(p2)[2] == b64_char((b1 & 15) << 2));
            assert(a0 >> 2 < 64 && (((a0 & 3) << 4) | (a1 >> 4)) < 64 && ((a1 & 15) << 2) < 64 && b0
                >> 2 < 64 && (((b0 & 3) << 4) | (b1 >> 4)) < 64 && ((b1 & 15) << 2) < 64)
                by (bit_vector);
            lemma_char_inj(a0 >> 2, b0 >> 2);
            lemma_char_inj(((a0 & 3) << 4) | (a1 >> 4), ((b0 & 3) << 4) | (b1 >> 4));
            lemma_char_inj((a1 & 15) << 2, (b1 & 15) << 2);
            assert(a0 == b0 && a1 == b1) by (bit_vector)
                requires
                    a0 >> 2 == b0 >> 2,
                    ((a0 & 3) << 4) | (a1 >> 4) == ((b0 & 3) << 4) | (b1 >> 4),
                    (a1 & 15) << 2 == (b1 & 15) << 2,
            ;
            assert(p1 =~= p2);
        } else {
            assert(false);
        }
    } else {
        let (a0, a1, a2, b0, b1, b2) = (p1[0], p1[1], p1[2], p2[0], p2[1], p2[2]);
        assert(b64_enc(p1) == b64_group(a0, a1, a2) + b64_enc(p1.skip(3)));
        assert(b64_enc(p2) == b64_group(b0, b1, b2) + b64_enc(p2.skip(3)));
        assert(b64_enc(p1)[0] == b64_char(a0 >> 2) && b64_enc(p1)[1] == b64_char(
            ((a0 & 3) << 4) | (a1 >> 4),
        ) && b64_enc(p1)[2] == b64_char(((a1 & 15) << 2) | (a2 >> 6)) && b64_enc(p1)[3]
            == b64_char(a2 & 63));
        assert(b64_enc(p2)[0] == b64_char(b0 >> 2) && b64_enc(p2)[1] == b64_char(
            ((b0 & 3) << 4) | (b1 >> 4),
        ) && b64_enc(p2)[2] == b64_char(((b1 & 15) << 2) | (b2 >> 6)) && b64_enc(p2)[3]
            == b64_char(b2 & 63));
        assert(a0 >> 2 < 64 && (((a0 & 3) << 4) | (a1 >> 4)) < 64 && (((a1 & 15) << 2) | (a2 >> 6))
            < 64 && (a2 & 63) < 64 && b0 >> 2 < 64 && (((b0 & 3) << 4) | (b1 >> 4)) < 64 && (((b1
            & 15) << 2) | (b2 >> 6)) < 64 && (b2 & 63) < 64) by (bit_vector);
        lemma_char_inj(a0 >> 2, b0 >> 2);
        lemma_char_inj(((a0 & 3) << 4) | (a1 >> 4), ((b0 & 3) << 4) | (b1 >> 4));
        lemma_char_inj(((a1 & 15) << 2) | (a2 >> 6), ((b1 & 15) << 2) | (b2 >> 6));
        lemma_char_inj(a2 & 63, b2 & 63);
        assert(a0 == b0 && a1 == b1 && a2 == b2) by (bit_vector)
            requires
                a0 >> 2 == b0 >> 2,
                ((a0 & 3) << 4) | (a1 >> 4) == ((b0 & 3) << 4) | (b1 >> 4),
                ((a1 & 15) << 2) | (a2 >> 6) == ((b1 & 15) << 2) | (b2 >> 6),
                a2 & 63 == b2 & 63,
        ;
        assert(b64_enc(p1.skip(3)) =~= b64_enc(p1).skip(4));
        assert(b64_enc(p2.skip(3)) =~= b64_enc(p2).skip(4));
        lemma_enc_injective(p1.skip(3), p2.skip(3));
        assert(p1.len() == p2.len());
        assert forall|i: int| 0 <= i < p1.len() implies p1[i] == p2[i] by {
            if i >= 3 {
                assert(p1[i] == p1.skip(3)[i - 3]);
                assert(p2[i] == p2.skip(3)[i - 3]);
            }
        }
        assert(p1 =~= p2);
    }
}

/// Whether the third and fourth characters of the first group are padding
/// tells the input's length class apart.
proof fn lemma_pad_shape(p: Seq<u8>)
    requires
        p.len() > 0,
    ensures
        p.len() == 1 ==> b64_enc(p)[2] == 61 && b64_enc(p)[3] == 61,
        p.len() == 2 ==> b64_enc(p)[2] != 61 && b64_enc(p)[3] == 61,
        p.len() >= 3 ==> b64_enc(p)[2] != 61 && b64_enc(p)[3] != 61,
{
    if p.len() == 2 {
        let b1 = p[1];
        assert(((b1 & 15) << 2) < 64) by (bit_vector);
        lemma_char_range((b1 & 15) << 2);
    } else if p.len() >= 3 {
        let (b1, b2) = (p[1], p[2]);
        assert((((b1 & 15) << 2) | (b2 >> 6)) < 64 && (b2 & 63) < 64) by (bit_vector);
        lemma_char_range(((b1 & 15) << 2) | (b2 >> 6));
        lemma_char_range(b2 & 63);
    }
}

/// The character of a 6-bit value, computed.
fn b64_char_of(v: u8) -> (c: u8)
    requires
        v < 64,
    ensures
        c == b64_char(v),
{
    if v < 26 {
        65 + v
    } else if v < 52 {
        71 + v
    } else if v < 62 {
        v - 4
    } else if v == 62 {
        43
    } else {
        47
    }
}

/// The 6-bit value of an alphabet character, or `None` for a byte outside
/// the alphabet.
fn b64_val(c: u8) -> (r: Option<u8>)
    ensures
        match r {
            Some(v) => v < 64 && b64_char(v) == c,
            None => forall|v: u8| v < 64 ==> b64_char(v) != c,
        },
{
    if 65 <= c && c <= 90 {
        Some(c - 65)
    } else if 97 <= c && c <= 122 {
        Some(c - 71)
    } else if 48 <= c && c <= 57 {
        Some(c + 4)
    } else if c == 43 {
        Some(62)
    } else if c == 47 {
        Some(63)
    } else {
        proof {
            assert forall|v: u8| v < 64 implies b64_char(v) != c by {
                lemma_char_range(v);
            }
        }
        None
    }
}

/// Encodes a byte string in base64.
pub fn b64_encode(s: &Vec<u8>) -> (r: Vec<u8>)
    ensures
        r@ == b64_enc(s@),
{
    let mut r: Vec<u8> = Vec::new();
    let mut i: usize = 0;
    proof {
        assert(s@.skip(0) =~= s@);
        assert(b64_enc(s@) =~= r@ + b64_enc(s@.skip(0)));
    }
    while i < s.len() && s.len() - i >= 3
        invariant
            i <= s@.len(),
            i % 3 == 0,
            b64_enc(s@) == r@ + b64_enc(s@.skip(i as int)),
        decreases s@.len() - i,
    {
        let (b0, b1, b2) = (s[i], s[i + 1], s[i + 2]);
        let ghost r0 = r@;
        proof {
            assert(b0 >> 2 < 64 && (((b0 & 3) << 4) | (b1 >> 4)) < 64 && (((b1 & 15) << 2) | (b2
                >> 6)) < 64 && (b2 & 63) < 64) by (bit_vector);
            assert(s@.skip(i as int).len() >= 3);
            assert(s@.skip(i as int)[0] == b0 && s@.skip(i as int)[1] == b1 && s@.skip(i as int)[2]
                == b2);
            assert(s@.skip(i as int).skip(3) =~= s@.skip(i + 3 as int));
        }
        r.push(b64_char_of(b0 >> 2));
        r.push(b64_char_of(((b0 & 3) << 4) | (b1 >> 4)));
        r.push(b64_char_of(((b1 & 15) << 2) | (b2 >> 6)));
        r.push(b64_char_of(b2 & 63));
        i += 3;
        proof {
            assert(r@ =~= r0 + b64_group(b0, b1, b2));
            assert(b64_enc(s@) =~= r@ + b64_enc(s@.skip(i as int)));
        }
    }
    if i == s.len() {
        proof {
            assert(s@.skip(i as int) =~= Seq::<u8>::empty());
            assert(r@ =~= b64_enc(s@));
        }
    } else if i + 1 == s.len() {
        let b0 = s[i];
        let ghost r0 = r@;
        proof {
            assert(b0 >> 2 < 64 && (b0 & 3) << 4 < 64) by (bit_vector);
            assert(s@.skip(i as int).len() == 1 && s@.skip(i as int)[0] == b0);
        }
        r.push(b64_char_of(b0 >> 2));
        r.push(b64_char_of((b0 & 3) << 4));
        r.push(61);
        r.push(61);
        proof {
            assert(r@ =~= r0 + b64_enc(s@.skip(i as int)));
            assert(r@ =~= b64_enc(s@));
        }
    } else {
        let (b0, b1) = (s[i], s[i + 1]);
        let ghost r0 = r@;
        proof {
            assert(b0 >> 2 < 64 && (((b0 & 3) << 4) | (b1 >> 4)) < 64 && ((b1 & 15) << 2) < 64)
                by (bit_vector);
            assert(s@.skip(i as int).len() == 2 && s@.skip(i as int)[0] == b0 && s@.skip(
                i as int,
            )[1] == b1);
        }
        r.push(b64_char_of(b0 >> 2));
        r.push(b64_char_of(((b0 & 3) << 4) | (b1 >> 4)));
        r.push(b64_char_of((b1 & 15) << 2));
        r.push(61);
        proof {
            assert(r@ =~= r0 + b64_enc(s@.skip(i as int)));
            assert(r@ =~= b64_enc(s@));
        }
    }
    r
}


/// The first four characters of a non-empty input's encoding, by length
/// class; padding distinguishes the classes.
proof fn lemma_enc_head(t: Seq<u8>)
    requires
        t.len() > 0,
    ensures
        b64_enc(t).len() >= 4,
        b64_enc(t)[0] == b64_char(t[0] >> 2),
        b64_enc(t)[0] != 61,
        b64_enc(t)[1] != 61,
        t.len() == 1 ==> b64_enc(t) == seq![
            b64_char(t[0] >> 2),
            b64_char((t[0] & 3) << 4),
            61u8,
            61u8,
        ],
        t.len() == 2 ==> b64_enc(t) == seq![
            b64_char(t[0] >> 2),
            b64_char(((t[0] & 3) << 4) | (t[1] >> 4)),
            b64_char((t[1] & 15) << 2),
            61u8,
        ] && b64_enc(t)[2] != 61,
        t.len() >= 3 ==> b64_enc(t) == b64_group(t[0], t[1], t[2]) + b64_enc(t.skip(3))
            && b64_enc(t)[1] == b64_char(((t[0] & 3) << 4) | (t[1] >> 4)) && b64_enc(t)[2]
            == b64_char(((t[1] & 15) << 2) | (t[2] >> 6)) && b64_enc(t)[3] == b64_char(t[2] & 63)
            && b64_enc(t)[2] != 61 && b64_enc(t)[3] != 61,
{
    lemma_enc_len(t);
    if t.len() == 1 {
        let b0 = t[0];
        assert(b0 >> 2 < 64 && (b0 & 3) << 4 < 64) by (bit_vector);
        lemma_char_range(b0 >> 2);
        lemma_char_range((b0 & 3) << 4);
    } else if t.len() == 2 {
        let (b0, b1) = (t[0], t[1]);
        assert(b0 >> 2 < 64 && (((b0 & 3) << 4) | (b1 >> 4)) < 64 && ((b1 & 15) << 2) < 64)
            by (bit_vector);
        lemma_char_range(b0 >> 2);
        lemma_char_range(((b0 & 3) << 4) | (b1 >> 4));
        lemma_char_range((b1 & 15) << 2);
    } else {
        let (b0, b1, b2) = (t[0], t[1], t[2]);
        assert(b0 >> 2 < 64 && (((b0 & 3) << 4) | (b1 >> 4)) < 64 && (((b1 & 15) << 2) | (b2 >> 6))
            < 64 && (b2 & 63) < 64) by (bit_vector);
        lemma_char_range(b0 >> 2);
        lemma_char_range(((b0 & 3) << 4) | (b1 >> 4));
        lemma_char_range(((b1 & 15) << 2) | (b2 >> 6));
        lemma_char_range(b2 & 63);
    }
}

/// Decodes a canonical base64 encoding; `None` for any byte string that is
/// the encoding of nothing.
#[verifier::rlimit(100)]
pub fn b64_decode(s: &Vec<u8>) -> (r: Option<Vec<u8>>)
    ensures
        match r {
            Some(v) => s@ == b64_enc(v@),
            None => forall|p: Seq<u8>| b64_enc(p) != s@,
        },
{
    let mut out: Vec<u8> = Vec::new();
    let mut i: usize = 0;
    let ghost mut k: int = 0;
    proof {
        assert(b64_enc(out@) =~= s@.take(0));
        assert forall|p: Seq<u8>| b64_enc(p) == s@ implies p.len() >= out@.len() && p.take(
            out@.len() as int,
        ) == out@ && b64_enc(p.skip(out@.len() as int)) == s@.skip(i as int) by {
            assert(p.take(0) =~= out@);
            assert(p.skip(0) =~= p);
            assert(s@.skip(0) =~= s@);
        }
    }
    while i < s.len()
        invariant
            i <= s@.len(),
            i == 4 * k,
            out@.len() == 3 * k,
            b64_enc(out@) == s@.take(i as int),
            forall|p: Seq<u8>| #[trigger] b64_enc(p) == s@ ==> p.len() >= out@.len() && p.take(
                out@.len() as int,
            ) == out@ && b64_enc(p.skip(out@.len() as int)) == s@.skip(i as int),
        decreases s@.len() - i,
    {
        let ghost m = out@.len() as int;
        let ghost out0 = out@;
        if s.len() - i < 4 {
            proof {
                assert forall|p: Seq<u8>| b64_enc(p) != s@ by {
                    if b64_enc(p) == s@ {
                        lemma_enc_len(p.skip(m));
                        assert(s@.skip(i as int).len() == s@.len() - i);
                        assert(b64_enc(p.skip(m)).len() % 4 == 0);
                    }
                }
            }
            return None;
        }
        let (c0, c1, c2, c3) = (s[i], s[i + 1], s[i + 2], s[i + 3]);
        proof {
            assert(s@.skip(i as int)[0] == c0 && s@.skip(i as int)[1] == c1 && s@.skip(i as int)[2]
                == c2 && s@.skip(i as int)[3] == c3);
        }
        let v0 = match b64_val(c0) {
            Some(v) => v,
            None => {
                proof {
                    assert forall|p: Seq<u8>| b64_enc(p) != s@ by {
                        if b64_enc(p) == s@ {
                            let t = p.skip(m);
                            assert(t.len() > 0);
                            lemma_enc_head(t);
                            let x = t[0];
                            assert(x >> 2 < 64) by (bit_vector);
                        }
                    }
                }
                return None;
            },
        };
        let v1 = match b64_val(c1) {
            Some(v) => v,
            None => {
                proof {
                    assert forall|p: Seq<u8>| b64_enc(p) != s@ by {
                        if b64_enc(p) == s@ {
                            let t = p.skip(m);
                            assert(t.len() > 0);
                            lemma_enc_head(t);
                            if t.len() == 1 {
                                let x = t[0];
                                assert((x & 3) << 4 < 64) by (bit_vector);
                            } else {
                                let (x, y) = (t[0], t[1]);
                                assert(((x & 3) << 4) | (y >> 4) < 64) by (bit_vector);
                            }
                        }
                    }
                }
                return None;
            },
        };
        if c2 == 61 {
            // one trailing byte: `xx==`, and it must end the input
            if c3 != 61 || i + 4 != s.len() {
                proof {
                    assert forall|p: Seq<u8>| b64_enc(p) != s@ by {
                        if b64_enc(p) == s@ {
                            let t = p.skip(m);
                            assert(t.len() > 0);
                            lemma_enc_head(t);
                            assert(t.len() == 1);
                            assert(b64_enc(t).len() == 4);
                        }
                    }
                }
                return None;
            }
            if v1 & 15 != 0 {
                proof {
                    assert forall|p: Seq<u8>| b64_enc(p) != s@ by {
                        if b64_enc(p) == s@ {
                            let t = p.skip(m);
                            assert(t.len() > 0);
                            lemma_enc_head(t);
                            assert(t.len() == 1);
                            let x = t[0];
                            assert((x & 3) << 4 < 64) by (bit_vector);
                            lemma_char_inj(v1, (x & 3) << 4);
                            assert(((x & 3) << 4) & 15 == 0) by (bit_vector);
                        }
                    }
                }
                return None;
            }
            let b0 = (v0 << 2) | (v1 >> 4);
            out.push(b0);
            proof {
                assert(b0 >> 2 == v0 && (b0 & 3) << 4 == v1) by (bit_vector)
                    requires
                        v0 < 64,
                        v1 < 64,
                        v1 & 15 == 0,
                        b0 == (v0 << 2) | (v1 >> 4),
                ;
                assert(out@.take(m) =~= out0);
                lemma_enc_split(out@, k);
                assert(out@.skip(m) =~= seq![b0]);
                assert(b64_enc(seq![b0]) =~= seq![c0, c1, 61u8, 61u8]);
                assert(b64_enc(out@) =~= s@);
            }
            return Some(out);
        }
        let v2 = match b64_val(c2) {
            Some(v) => v,
            None => {
                proof {
                    assert forall|p: Seq<u8>| b64_enc(p) != s@ by {
                        if b64_enc(p) == s@ {
                            let t = p.skip(m);
                            assert(t.len() > 0);
                            lemma_enc_head(t);
                            if t.len() == 2 {
                                let y = t[1];
                                assert((y & 15) << 2 < 64) by (bit_vector);
                            } else if t.len() >= 3 {
                                let (y, z) = (t[1], t[2]);
                                assert(((y & 15) << 2) | (z >> 6) < 64) by (bit_vector);
                            }
                        }
                    }
                }
                return None;
            },
        };
        if c3 == 61 {
            // two trailing bytes: `xxx=`, and it must end the input
            if i + 4 != s.len() {
                proof {
                    assert forall|p: Seq<u8>| b64_enc(p) != s@ by {
                        if b64_enc(p) == s@ {
                            let t = p.skip(m);
                            assert(t.len() > 0);
                            lemma_enc_head(t);
                            assert(t.len() == 2);
                            assert(b64_enc(t).len() == 4);
                        }
                    }
                }
                return None;
            }
            if v2 & 3 != 0 {
                proof {
                    assert forall|p: Seq<u8>| b64_enc(p) != s@ by {
                        if b64_enc(p) == s@ {
                            let t = p.skip(m);
                            assert(t.len() > 0);
                            lemma_enc_head(t);
                            assert(t.len() == 2);
                            let y = t[1];
                            assert((y & 15) << 2 < 64) by (bit_vector);
                            lemma_char_inj(v2, (y & 15) << 2);
                            assert(((y & 15) << 2) & 3 == 0) by (bit_vector);
                        }
                    }
                }
                return None;
            }
            let b0 = (v0 << 2) | (v1 >> 4);
            let b1 = (v1 << 4) | (v2 >> 2);
            proof {
                assert(b0 >> 2 == v0 && ((b0 & 3) << 4) | (b1 >> 4) == v1 && (b1 & 15) << 2 == v2)
                    by (bit_vector)
                    requires
                        v0 < 64,
                        v1 < 64,
                        v2 < 64,
                        v2 & 3 == 0,
                        b0 == (v0 << 2) | (v1 >> 4),
                        b1 == (v1 << 4) | (v2 >> 2),
                ;
            }
            out.push(b0);
            out.push(b1);
            proof {
                assert(out@.take(m) =~= out0);
                lemma_enc_split(out@, k);
                assert(out@.skip(m) =~= seq![b0, b1]);
                assert(b64_enc(seq![b0, b1]) =~= seq![c0, c1, c2, 61u8]);
                assert(b64_enc(out@) =~= s@);
            }
            return Some(out);
        }
        let v3 = match b64_val(c3) {
            Some(v) => v,
            None => {
                proof {
                    assert forall|p: Seq<u8>| b64_enc(p) != s@ by {
                        if b64_enc(p) == s@ {
                            let t = p.skip(m);
                            assert(t.len() > 0);
                            lemma_enc_head(t);
                            assert(t.len() >= 3);
                            let z = t[2];
                            assert(z & 63 < 64) by (bit_vector);
                        }
                    }
                }
                return None;
            },
        };
        let b0 = (v0 << 2) | (v1 >> 4);
        let b1 = (v1 << 4) | (v2 >> 2);
        let b2 = (v2 << 6) | v3;
        proof {
            assert(b0 >> 2 == v0 && ((b0 & 3) << 4) | (b1 >> 4) == v1 && ((b1 & 15) << 2) | (b2
                >> 6) == v2 && b2 & 63 == v3) by (bit_vector)
                requires
                    v0 < 64,
                    v1 < 64,
                    v2 < 64,
                    v3 < 64,
                    b0 == (v0 << 2) | (v1 >> 4),
                    b1 == (v1 << 4) | (v2 >> 2),
                    b2 == (v2 << 6) | v3,
            ;
        }
        out.push(b0);
        out.push(b1);
        out.push(b2);
        i += 4;
        proof {
            k = k + 1;
            assert(out@.take(m) =~= out0);
            lemma_enc_split(out@, k - 1);
            assert(out@.skip(m) =~= seq![b0, b1, b2]);
            assert(seq![b0, b1, b2].skip(3) =~= Seq::<u8>::empty());
            assert(b64_enc(seq![b0, b1, b2]) == b64_group(b0, b1, b2) + b64_enc(
                seq![b0, b1, b2].skip(3),
            ));
            assert(b64_group(b0, b1, b2) =~= seq![c0, c1, c2, c3]);
            assert(b64_enc(seq![b0, b1, b2]) =~= seq![c0, c1, c2, c3]);
            assert(b64_enc(out@) =~= s@.take(i as int));
            assert forall|p: Seq<u8>| #[trigger] b64_enc(p) == s@ implies p.len() >= out@.len()
                && p.take(out@.len() as int) == out@ && b64_enc(p.skip(out@.len() as int))
                == s@.skip(i as int) by {
                let t = p.skip(m);
                assert(t.len() > 0);
                lemma_enc_head(t);
                assert(t.len() >= 3);
                let (t0, t1, t2) = (t[0], t[1], t[2]);
                assert(t0 >> 2 < 64 && (((t0 & 3) << 4) | (t1 >> 4)) < 64 && (((t1 & 15) << 2) | (
                t2 >> 6)) < 64 && (t2 & 63) < 64) by (bit_vector);
                lemma_char_inj(v0, t0 >> 2);
                lemma_char_inj(v1, ((t0 & 3) << 4) | (t1 >> 4));
                lemma_char_inj(v2, ((t1 & 15) << 2) | (t2 >> 6));
                lemma_char_inj(v3, t2 & 63);
                assert(b0 == t0 && b1 == t1 && b2 == t2) by (bit_vector)
                    requires
                        v0 == t0 >> 2,
                        v1 == ((t0 & 3) << 4) | (t1 >> 4),
                        v2 == ((t1 & 15) << 2) | (t2 >> 6),
                        v3 == t2 & 63,
                        b0 == (v0 << 2) | (v1 >> 4),
                        b1 == (v1 << 4) | (v2 >> 2),
                        b2 == (v2 << 6) | v3,
                ;
                assert(p.take(out@.len() as int) =~= out@);
                assert(p.skip(out@.len() as int) =~= t.skip(3));
                assert(b64_enc(t).skip(4) =~= b64_enc(t.skip(3)));
                assert(s@.skip(i as int) =~= s@.skip(i - 4).skip(4));
            }
        }
    }
    proof {
        assert(s@.take(i as int) =~= s@);
    }
    Some(out)
}

} // verus!
