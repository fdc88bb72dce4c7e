//! JSON string framing of byte strings: a quoted region in which the quote
//! and the backslash are escaped with a backslash, and every other byte
//! stands as itself.
//!
//! The parser accepts exactly what the encoder produces: the two escapes
//! `\"` and `\\`, and any other byte unescaped.

use vstd::prelude::*;

use crate::wire::BYTE_BACKSLASH;
use crate::wire::BYTE_QUOTE;

verus! {

/// How one byte stands inside a quoted region.
pub open spec fn esc_byte(b: u8) -> Seq<u8> {
    if b == BYTE_QUOTE || b == BYTE_BACKSLASH {
        seq![BYTE_BACKSLASH, b]
    } else {
        seq![b]
    }
}

/// The escaped form of a byte string.
pub open spec fn esc(s: Seq<u8>) -> Seq<u8>
    decreases s.len(),
{
    if s.len() == 0 {
        Seq::empty()
    } else {
        esc_byte(s[0]) + esc(s.drop_first())
    }
}

/// The quoted JSON string carrying a byte string.
pub open spec fn enc_jstr(s: Seq<u8>) -> Seq<u8> {
    seq![BYTE_QUOTE] + esc(s) + seq![BYTE_QUOTE]
}

/// A quoted JSON string carrying `q` stands at `start` in `s`.
pub open spec fn jstr_at(s: Seq<u8>, start: int, q: Seq<u8>) -> bool {
    0 <= start && start + enc_jstr(q).len() <= s.len() && s.subrange(
        start,
        start + enc_jstr(q).len(),
    ) == enc_jstr(q)
}

/// Escaping distributes over concatenation.
pub proof fn lemma_esc_concat(a: Seq<u8>, b: Seq<u8>)
    ensures
        esc(a + b) == esc(a) + esc(b),
    decreases a.len(),
{
    if a.len() == 0 {
        assert(a + b =~= b);
        assert(esc(a) + esc(b) =~= esc(b));
    } else {
        lemma_esc_concat(a.drop_first(), b);
        assert((a + b).drop_first() =~= a.drop_first() + b);
        assert((a + b)[0] == a[0]);
        assert(esc(a + b) =~= esc(a) + esc(b));
    }
}

/// The escaped form splits at any input position.
pub proof fn lemma_esc_split(q: Seq<u8>, k: int)
    requires
        0 <= k < q.len(),
    ensures
        esc(q) == esc(q.take(k)) + esc_byte(q[k]) + esc(q.skip(k + 1)),
        esc(q.take(k + 1)) == esc(q.take(k)) + esc_byte(q[k]),
        esc(q.take(k)).len() <= esc(q).len() - 1,
{
    assert(q =~= q.take(k) + (seq![q[k]] + q.skip(k + 1)));
    lemma_esc_concat(q.take(k), seq![q[k]] + q.skip(k + 1));
    lemma_esc_concat(seq![q[k]], q.skip(k + 1));
    assert(seq![q[k]].drop_first() =~= Seq::<u8>::empty());
    assert(esc(Seq::<u8>::empty()) =~= Seq::<u8>::empty());
    assert(esc(seq![q[k]]) =~= esc_byte(q[k]));
    assert(esc(q) =~= esc(q.take(k)) + esc_byte(q[k]) + esc(q.skip(k + 1)));
    assert(q.take(k + 1) =~= q.take(k) + seq![q[k]]);
    lemma_esc_concat(q.take(k), seq![q[k]]);
    assert(esc(q.take(k + 1)) =~= esc(q.take(k)) + esc_byte(q[k]));
}

/// Builds the quoted JSON string carrying `s`.
pub fn enc_jstr_vec(s: &Vec<u8>) -> (r: Vec<u8>)
    ensures
        r@ == enc_jstr(s@),
{
    let mut r: Vec<u8> = Vec::new();
    r.push(BYTE_QUOTE);
    let mut i: usize = 0;
    proof {
        assert(esc(s@.take(0)) =~= Seq::<u8>::empty());
        assert(r@ =~= seq![BYTE_QUOTE] + esc(s@.take(0)));
    }
    while i < s.len()
        invariant
            i <= s@.len(),
            r@ == seq![BYTE_QUOTE] + esc(s@.take(i as int)),
        decreases s@.len() - i,
    {
        let ghost r0 = r@;
        let b = s[i];
        if b == BYTE_QUOTE || b == BYTE_BACKSLASH {
            r.push(BYTE_BACKSLASH);
            r.push(b);
        } else {
            r.push(b);
        }
        proof {
            lemma_esc_split(s@, i as int);
            assert(r@ =~= r0 + esc_byte(b));
            assert(r@ =~= seq![BYTE_QUOTE] + esc(s@.take(i + 1)));
        }
        i += 1;
    }
    r.push(BYTE_QUOTE);
    proof {
        assert(s@.take(s@.len() as int) =~= s@);
        assert(r@ =~= enc_jstr(s@));
    }
    r
}

/// Inside a quoted string standing at `start`, the byte at offset `x` of
/// the escaped region is the corresponding byte of the escaped form, and the
/// bytes around the region are the quotes.
proof fn lemma_jstr_index(s: Seq<u8>, start: int, q: Seq<u8>)
    requires
        jstr_at(s, start, q),
    ensures
        s[start] == BYTE_QUOTE,
        s[start + 1 + esc(q).len()] == BYTE_QUOTE,
        forall|x: int| 0 <= x < esc(q).len() ==> s[start + 1 + x] == esc(q)[x],
{
    let e = enc_jstr(q);
    assert(e[0] == BYTE_QUOTE);
    assert(e[1 + esc(q).len() as int] == BYTE_QUOTE);
    assert(s[start] == s.subrange(start, start + e.len() as int)[0]);
    assert(s[start + 1 + esc(q).len()] == s.subrange(start, start + e.len() as int)[1 + esc(
        q,
    ).len() as int]);
    assert forall|x: int| 0 <= x < esc(q).len() implies s[start + 1 + x] == esc(q)[x] by {
        assert(s[start + 1 + x] == s.subrange(start, start + e.len() as int)[1 + x]);
        assert(e[1 + x] == esc(q)[x]);
    }
}

/// Parses a quoted JSON string standing at `start`, returning the carried
/// bytes and the position after the closing quote.  `None` where no quoted
/// string stands there; where one does, it is returned, and it is the only
/// one standing there.
#[verifier::rlimit(100)]
pub fn parse_jstr(s: &Vec<u8>, start: usize) -> (r: Option<(Vec<u8>, usize)>)
    ensures
        match r {
            Some((v, j)) => {
                &&& start + enc_jstr(v@).len() == j <= s@.len()
                &&& s@.subrange(start as int, j as int) == enc_jstr(v@)
                &&& forall|q: Seq<u8>| jstr_at(s@, start as int, q) ==> q == v@
            },
            None => forall|q: Seq<u8>| !jstr_at(s@, start as int, q),
        },
{
    if start >= s.len() || s[start] != BYTE_QUOTE {
        proof {
            assert forall|q: Seq<u8>| !jstr_at(s@, start as int, q) by {
                if jstr_at(s@, start as int, q) {
                    lemma_jstr_index(s@, start as int, q);
                }
            }
        }
        return None;
    }
    let mut out: Vec<u8> = Vec::new();
    let mut j: usize = start + 1;
    proof {
        assert(esc(Seq::<u8>::empty()) =~= Seq::<u8>::empty());
        assert(s@.subrange(start + 1, start + 1) =~= esc(out@));
        assert forall|q: Seq<u8>| jstr_at(s@, start as int, q) implies out@.len() <= q.len()
            && out@ == q.take(out@.len() as int) by {
            assert(q.take(0) =~= out@);
        }
    }
    loop
        invariant
            start + 1 <= j <= s@.len(),
            s@[start as int] == BYTE_QUOTE,
            j == start + 1 + esc(out@).len(),
            s@.subrange(start + 1, j as int) == esc(out@),
            forall|q: Seq<u8>| jstr_at(s@, start as int, q) ==> out@.len() <= q.len() && out@
                == q.take(out@.len() as int),
        decreases s@.len() - j,
    {
        let ghost out0 = out@;
        let ghost k = out@.len() as int;
        if j >= s.len() {
            proof {
                assert forall|q: Seq<u8>| !jstr_at(s@, start as int, q) by {
                    if jstr_at(s@, start as int, q) {
                        if k < q.len() {
                            lemma_esc_split(q, k);
                        } else {
                            assert(q.take(k) =~= q);
                        }
                        assert(esc(out0).len() <= esc(q).len());
                    }
                }
            }
            return None;
        }
        let b = s[j];
        proof {
            assert forall|q: Seq<u8>|
                jstr_at(s@, start as int, q) implies (k < q.len() ==> s@[j as int] == esc_byte(
                q[k],
            )[0]) && (k == q.len() ==> s@[j as int] == BYTE_QUOTE) by {
                lemma_jstr_index(s@, start as int, q);
                if k < q.len() {
                    lemma_esc_split(q, k);
                    assert(esc(q)[esc(q.take(k)).len() as int] == esc_byte(q[k])[0]);
                    assert(s@[start + 1 + esc(out0).len()] == esc(q)[esc(out0).len() as int]);
                } else {
                    assert(q.take(k) =~= q);
                }
            }
        }
        if b == BYTE_QUOTE {
            proof {
                assert forall|q: Seq<u8>| jstr_at(s@, start as int, q) implies q == out0 by {
                    if k < q.len() {
                        assert(esc_byte(q[k])[0] == BYTE_QUOTE);
                        assert(false);
                    } else {
                        assert(q.take(k) =~= q);
                    }
                }
                assert(s@.subrange(start as int, j + 1) =~= seq![BYTE_QUOTE] + esc(out0) + seq![
                    BYTE_QUOTE,
                ]);
            }
            return Some((out, j + 1));
        } else if b == BYTE_BACKSLASH {
            // a backslash introduces one of the two escapes
            proof {
                assert forall|q: Seq<u8>| jstr_at(s@, start as int, q) implies k < q.len() && (q[k]
                    == BYTE_QUOTE || q[k] == BYTE_BACKSLASH) && j + 1 < s@.len() && s@[j + 1]
                    == q[k] by {
                    lemma_jstr_index(s@, start as int, q);
                    assert(k < q.len());
                    lemma_esc_split(q, k);
                    assert(esc_byte(q[k])[0] == BYTE_BACKSLASH);
                    assert(q[k] == BYTE_QUOTE || q[k] == BYTE_BACKSLASH);
                    assert(esc(q)[esc(q.take(k)).len() + 1 as int] == esc_byte(q[k])[1]);
                    assert(s@[start + 1 + (esc(out0).len() + 1)] == esc(q)[esc(out0).len()
                        + 1 as int]);
                    assert(esc(out0).len() + 1 < esc(q).len());
                }
            }
            if j + 1 >= s.len() {
                proof {
                    assert forall|q: Seq<u8>| !jstr_at(s@, start as int, q) by {}
                }
                return None;
            }
            let c = s[j + 1];
            if c == BYTE_QUOTE || c == BYTE_BACKSLASH {
                out.push(c);
                j += 2;
                proof {
                    assert forall|q: Seq<u8>|
                        jstr_at(s@, start as int, q) implies out@.len() <= q.len() && out@
                        == q.take(out@.len() as int) by {
                        assert(q[k] == c);
                        assert(q.take(k + 1) =~= q.take(k).push(c));
                        assert(out@ =~= q.take(k + 1));
                    }
                    assert(esc_byte(c) =~= seq![BYTE_BACKSLASH, c]);
                    assert(esc(out@) =~= esc(out0) + esc_byte(c)) by {
                        lemma_esc_split(out@, k);
                        assert(out@.take(k) =~= out0);
                        assert(out@.take(k + 1) =~= out@);
                    }
                    assert(s@.subrange(start + 1, j as int) =~= esc(out@));
                }
            } else {
                proof {
                    assert forall|q: Seq<u8>| !jstr_at(s@, start as int, q) by {
                        if jstr_at(s@, start as int, q) {
                            assert(s@[j + 1] == q[k]);
                        }
                    }
                }
                return None;
            }
        } else {
            out.push(b);
            j += 1;
            proof {
                assert forall|q: Seq<u8>| jstr_at(s@, start as int, q) implies out@.len() <= q.len()
                    && out@ == q.take(out@.len() as int) by {
                    assert(k < q.len());
                    if q[k] == BYTE_QUOTE || q[k] == BYTE_BACKSLASH {
                        assert(esc_byte(q[k])[0] == BYTE_BACKSLASH);
                        assert(false);
                    }
                    assert(q[k] == b);
                    assert(q.take(k + 1) =~= q.take(k).push(b));
                    assert(out@ =~= q.take(k + 1));
                }
                assert(esc_byte(b) =~= seq![b]);
                assert(esc(out@) =~= esc(out0) + esc_byte(b)) by {
                    lemma_esc_split(out@, k);
                    assert(out@.take(k) =~= out0);
                    assert(out@.take(k + 1) =~= out@);
                }
                assert(s@.subrange(start + 1, j as int) =~= esc(out@));
            }
        }
    }
}

} // verus!
