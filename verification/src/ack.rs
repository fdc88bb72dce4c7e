//! The acknowledgment and its wire format, and the per-sub-query outcomes
//! it carries.
//!
//! An acknowledgment is a two-variant tagged envelope: `{"ok":"<base64>"}`
//! carrying the serialized outcome sequence on success, or
//! `{"error":"<message>"}` for a protocol-level failure.  A sub-query's own
//! outcome uses the same envelope, and the outcome sequence is
//! `{"results":["<base64>",...]}` with each serialized outcome base64
//! encoded, in sub-query order.

use vstd::prelude::*;

use crate::b64::b64_enc;
use crate::b64::b64_decode;
use crate::b64::b64_encode;
use crate::b64::lemma_enc_injective;
use crate::b64::lemma_enc_quote_free;
use crate::jstr::enc_jstr;
use crate::jstr::enc_jstr_vec;
use crate::jstr::jstr_at;
use crate::jstr::parse_jstr;
use crate::packet::join_msgs;
use crate::packet::lemma_extract;
use crate::packet::lemma_join_push;
use crate::state::copy_range;
use crate::state::match_at;
use crate::wire::close_brace;
use crate::wire::close_brace_vec;
use crate::wire::error_key;
use crate::wire::error_key_vec;
use crate::wire::ok_prefix;
use crate::wire::ok_prefix_vec;
use crate::wire::quote_close;
use crate::wire::quote_close_vec;
use crate::wire::results_close;
use crate::wire::results_close_vec;
use crate::wire::results_prefix;
use crate::wire::results_prefix_vec;
use crate::wire::BYTE_COMMA;
use crate::wire::BYTE_QUOTE;

verus! {

/// The acknowledgment returned for every inbound packet: the serialized
/// outcome sequence, or a protocol-level error message.  Only a failure of
/// the packet itself (it cannot be decoded) produces the error variant; a
/// failing sub-query is recorded in its own outcome and never escalates.
pub enum StdAck {
    Success(Vec<u8>),
    Error(Vec<u8>),
}

/// The mathematical value of an acknowledgment.
pub enum AckView {
    Success(Seq<u8>),
    Error(Seq<u8>),
}

impl View for StdAck {
    type V = AckView;

    open spec fn view(&self) -> AckView {
        match self {
            StdAck::Success(p) => AckView::Success(p@),
            StdAck::Error(m) => AckView::Error(m@),
        }
    }
}

/// The wire form of an acknowledgment.
pub open spec fn enc_ack(a: AckView) -> Seq<u8> {
    match a {
        AckView::Success(p) => ok_prefix() + b64_enc(p) + quote_close(),
        AckView::Error(m) => error_key() + enc_jstr(m) + close_brace(),
    }
}

/// One sub-query's outcome: the engine's serialized answer, or the message
/// of its domain-level failure.  One stands at each position of the outcome
/// sequence; a failure never aborts the batch.
pub enum QueryOutcome {
    Success(Vec<u8>),
    Failure(Vec<u8>),
}

/// The mathematical value of one outcome.
pub enum OutcomeView {
    Success(Seq<u8>),
    Failure(Seq<u8>),
}

impl View for QueryOutcome {
    type V = OutcomeView;

    open spec fn view(&self) -> OutcomeView {
        match self {
            QueryOutcome::Success(p) => OutcomeView::Success(p@),
            QueryOutcome::Failure(m) => OutcomeView::Failure(m@),
        }
    }
}

/// The wire form of one outcome: the same tagged envelope as an
/// acknowledgment.
pub open spec fn enc_outcome(o: OutcomeView) -> Seq<u8> {
    match o {
        OutcomeView::Success(p) => ok_prefix() + b64_enc(p) + quote_close(),
        OutcomeView::Failure(m) => error_key() + enc_jstr(m) + close_brace(),
    }
}

/// The successful remote answer to one packet: the serialized outcome of
/// each sub-query, in sub-query order.
pub struct IbcQueryResponse {
    pub results: Vec<Vec<u8>>,
}

impl View for IbcQueryResponse {
    type V = Seq<Seq<u8>>;

    open spec fn view(&self) -> Seq<Seq<u8>> {
        self.results@.map_values(|m: Vec<u8>| m@)
    }
}

/// One element of the outcome array: the serialized outcome, base64
/// encoded and quoted.
pub open spec fn enc_result_item(r: Seq<u8>) -> Seq<u8> {
    seq![BYTE_QUOTE] + b64_enc(r) + seq![BYTE_QUOTE]
}

/// The wire form of the outcome sequence.
pub open spec fn enc_response(rs: Seq<Seq<u8>>) -> Seq<u8> {
    results_prefix() + join_msgs(rs.map_values(|r: Seq<u8>| enc_result_item(r))) + results_close()
}

/// Encodes an acknowledgment into its wire form.
pub fn encode_ack(a: &StdAck) -> (r: Vec<u8>)
    ensures
        r@ == enc_ack(a@),
{
    match a {
        StdAck::Success(p) => {
            let mut out = ok_prefix_vec();
            let mut body = b64_encode(p);
            out.append(&mut body);
            let mut close = quote_close_vec();
            out.append(&mut close);
            proof {
                assert(out@ =~= enc_ack(a@));
            }
            out
        },
        StdAck::Error(m) => {
            let mut out = error_key_vec();
            let mut body = enc_jstr_vec(m);
            out.append(&mut body);
            let mut close = close_brace_vec();
            out.append(&mut close);
            proof {
                assert(out@ =~= enc_ack(a@));
            }
            out
        },
    }
}

/// Encodes one outcome into its wire form.
pub fn encode_outcome(o: &QueryOutcome) -> (r: Vec<u8>)
    ensures
        r@ == enc_outcome(o@),
{
    match o {
        QueryOutcome::Success(p) => {
            let mut out = ok_prefix_vec();
            let mut body = b64_encode(p);
            out.append(&mut body);
            let mut close = quote_close_vec();
            out.append(&mut close);
            proof {
                assert(out@ =~= enc_outcome(o@));
            }
            out
        },
        QueryOutcome::Failure(m) => {
            let mut out = error_key_vec();
            let mut body = enc_jstr_vec(m);
            out.append(&mut body);
            let mut close = close_brace_vec();
            out.append(&mut close);
            proof {
                assert(out@ =~= enc_outcome(o@));
            }
            out
        },
    }
}

/// Encodes the outcome sequence into its wire form.
pub fn encode_response(response: &IbcQueryResponse) -> (r: Vec<u8>)
    ensures
        r@ == enc_response(response@),
{
    let rs = &response.results;
    let ghost rv = rs@.map_values(|m: Vec<u8>| m@);
    let ghost items = rv.map_values(|r: Seq<u8>| enc_result_item(r));
    let mut out = results_prefix_vec();
    let mut k: usize = 0;
    proof {
        assert(join_msgs(items.take(0)) =~= Seq::<u8>::empty());
        assert(out@ =~= results_prefix() + join_msgs(items.take(0)));
    }
    while k < rs.len()
        invariant
            k <= rs@.len(),
            rv == rs@.map_values(|m: Vec<u8>| m@),
            items == rv.map_values(|r: Seq<u8>| enc_result_item(r)),
            out@ == results_prefix() + join_msgs(items.take(k as int)),
        decreases rs@.len() - k,
    {
        let ghost out0 = out@;
        if k > 0 {
            out.push(BYTE_COMMA);
        }
        out.push(BYTE_QUOTE);
        let mut body = b64_encode(&rs[k]);
        out.append(&mut body);
        out.push(BYTE_QUOTE);
        proof {
            lemma_join_push(items.take(k as int), items[k as int]);
            assert(items.take(k + 1) =~= items.take(k as int).push(items[k as int]));
            if k > 0 {
                assert(out@ =~= out0 + seq![BYTE_COMMA] + items[k as int]);
            } else {
                assert(out@ =~= out0 + items[k as int]);
                assert(items.take(0).len() == 0);
            }
            assert(out@ =~= results_prefix() + join_msgs(items.take(k + 1)));
        }
        k += 1;
    }
    let mut close = results_close_vec();
    out.append(&mut close);
    proof {
        assert(items.take(items.len() as int) =~= items);
        assert(out@ =~= enc_response(response@));
    }
    out
}

/// Decodes an acknowledgment's wire form: the one acknowledgment it
/// encodes, or `None` for an input that encodes none.  Together with
/// `encode_ack` this is the round trip: decoding the encoding of any
/// acknowledgment yields an equal value.
#[verifier::rlimit(100)]
pub fn decode_ack(s: &Vec<u8>) -> (r: Option<StdAck>)
    ensures
        match r {
            Some(a) => s@ == enc_ack(a@) && forall|v: AckView| enc_ack(v) == s@ ==> v == a@,
            None => forall|v: AckView| enc_ack(v) != s@,
        },
{
    let n = s.len();
    proof {
        assert(s@.len() == n <= usize::MAX);
    }
    let okp = ok_prefix_vec();
    if match_at(s, 0, &okp) {
        let mut x: usize = okp.len();
        loop
            invariant
                s@.len() <= usize::MAX,
                7 <= x <= s@.len(),
                s@.subrange(0, 7) == ok_prefix(),
                forall|t: int| 7 <= t < x ==> s@[t] != BYTE_QUOTE,
            decreases s@.len() - x,
        {
            if x >= s.len() {
                proof {
                    assert forall|v: AckView| enc_ack(v) != s@ by {
                        if enc_ack(v) == s@ {
                            match v {
                                AckView::Success(p) => {
                                    lemma_extract(s@, ok_prefix(), b64_enc(p), quote_close());
                                    lemma_enc_quote_free(p);
                                    assert(s@[7 + b64_enc(p).len() as int] == quote_close()[0]);
                                },
                                AckView::Error(m) => {
                                    lemma_extract(s@, error_key(), enc_jstr(m), close_brace());
                                    assert(s@[2] == error_key()[2]);
                                    assert(s@[2] == ok_prefix()[2]);
                                },
                            }
                        }
                    }
                }
                return None;
            }
            if s[x] == BYTE_QUOTE {
                proof {
                    assert forall|v: AckView|
                        enc_ack(v) == s@ implies (v matches AckView::Success(p) && x == 7 + b64_enc(
                        p,
                    ).len() && s@.subrange(7, x as int) == b64_enc(p) && s@.len() == x + 2
                        && s@.subrange(x as int, s@.len() as int) == quote_close()) by {
                        match v {
                            AckView::Success(p) => {
                                lemma_extract(s@, ok_prefix(), b64_enc(p), quote_close());
                                lemma_enc_quote_free(p);
                                if x < 7 + b64_enc(p).len() {
                                    assert(s@[x as int] == b64_enc(p)[x - 7]);
                                    assert(false);
                                }
                                if x > 7 + b64_enc(p).len() {
                                    assert(s@[7 + b64_enc(p).len() as int] == quote_close()[0]);
                                    assert(false);
                                }
                            },
                            AckView::Error(m) => {
                                lemma_extract(s@, error_key(), enc_jstr(m), close_brace());
                                assert(s@[2] == error_key()[2]);
                                assert(s@[2] == ok_prefix()[2]);
                                assert(false);
                            },
                        }
                    }
                }
                let c = copy_range(s, 7, x);
                let w = match b64_decode(&c) {
                    Some(w) => w,
                    None => {
                        proof {
                            assert forall|v: AckView| enc_ack(v) != s@ by {
                                if enc_ack(v) == s@ {
                                    assert(v matches AckView::Success(p) && c@ == b64_enc(p));
                                }
                            }
                        }
                        return None;
                    },
                };
                let qc = quote_close_vec();
                if !match_at(s, x, &qc) || x + 2 != s.len() {
                    proof {
                        assert forall|v: AckView| enc_ack(v) != s@ by {
                            if enc_ack(v) == s@ {
                                assert(v matches AckView::Success(p) && s@.subrange(
                                    x as int,
                                    s@.len() as int,
                                ) == quote_close() && s@.len() == x + 2);
                            }
                        }
                    }
                    return None;
                }
                let a = StdAck::Success(w);
                proof {
                    assert(s@ =~= s@.subrange(0, 7) + s@.subrange(7, x as int) + s@.subrange(
                        x as int,
                        s@.len() as int,
                    ));
                    assert(c@ == b64_enc(w@));
                    assert(s@ =~= enc_ack(a@));
                    assert forall|v: AckView| enc_ack(v) == s@ implies v == a@ by {
                        assert(v matches AckView::Success(p) && s@.subrange(7, x as int)
                            == b64_enc(p));
                        match v {
                            AckView::Success(p) => {
                                lemma_enc_injective(p, w@);
                            },
                            AckView::Error(m) => {},
                        }
                    }
                }
                return Some(a);
            }
            x += 1;
        }
    }
    let ek = error_key_vec();
    if !match_at(s, 0, &ek) {
        proof {
            assert forall|v: AckView| enc_ack(v) != s@ by {
                if enc_ack(v) == s@ {
                    match v {
                        AckView::Success(p) => {
                            lemma_extract(s@, ok_prefix(), b64_enc(p), quote_close());
                        },
                        AckView::Error(m) => {
                            lemma_extract(s@, error_key(), enc_jstr(m), close_brace());
                        },
                    }
                }
            }
        }
        return None;
    }
    proof {
        assert forall|v: AckView|
            enc_ack(v) == s@ implies (v matches AckView::Error(m) && jstr_at(s@, 9, m) && s@.len()
            == 9 + enc_jstr(m).len() + 1 && s@.subrange(
            9 + enc_jstr(m).len() as int,
            s@.len() as int,
        ) == close_brace()) by {
            match v {
                AckView::Success(p) => {
                    lemma_extract(s@, ok_prefix(), b64_enc(p), quote_close());
                    assert(false);
                },
                AckView::Error(m) => {
                    lemma_extract(s@, error_key(), enc_jstr(m), close_brace());
                },
            }
        }
    }
    match parse_jstr(s, 9) {
        None => {
            proof {
                assert forall|v: AckView| enc_ack(v) != s@ by {
                    if enc_ack(v) == s@ {
                        assert(v matches AckView::Error(m) && jstr_at(s@, 9, m));
                    }
                }
            }
            None
        },
        Some((m, j)) => {
            let cb = close_brace_vec();
            if !match_at(s, j, &cb) || j + 1 != s.len() {
                proof {
                    assert forall|v: AckView| enc_ack(v) != s@ by {
                        if enc_ack(v) == s@ {
                            assert(v matches AckView::Error(m2) && m2 == m@);
                        }
                    }
                }
                return None;
            }
            let a = StdAck::Error(m);
            proof {
                assert(s@ =~= s@.subrange(0, 9) + s@.subrange(9, j as int) + s@.subrange(
                    j as int,
                    s@.len() as int,
                ));
                assert(s@ =~= enc_ack(a@));
                assert forall|v: AckView| enc_ack(v) == s@ implies v == a@ by {
                    assert(v matches AckView::Error(m2) && m2 == m@);
                }
            }
            Some(a)
        },
    }
}

} // verus!
