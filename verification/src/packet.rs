//! The query packet and its wire format.
//!
//! On the wire a packet is the single-variant tagged envelope
//! `{"ibc_query":{"msgs":[...],"callback":...}}`: the serialized sub-queries
//! stand verbatim in the array, in order, and the callback is a JSON string
//! or `null`.  The callback field is always present and nullable: an absent
//! callback is encoded as `null`.
//!
//! The decoder accepts exactly the encodings: decoding is proved to return
//! the one packet an input encodes, and to reject every other input.

use vstd::prelude::*;

use crate::jstr::enc_jstr;
use crate::jstr::enc_jstr_vec;
use crate::jstr::jstr_at;
use crate::jstr::parse_jstr;
use crate::scan::blob_ok;
use crate::scan::lemma_scan_ok_at;
use crate::scan::scan_element;
use crate::scan::scan_init;
use crate::scan::scan_ok;
use crate::state::clone_bytes;
use crate::state::copy_range;
use crate::state::match_at;
use crate::wire::callback_infix;
use crate::wire::callback_infix_vec;
use crate::wire::null_literal;
use crate::wire::null_literal_vec;
use crate::wire::object_close;
use crate::wire::object_close_vec;
use crate::wire::packet_prefix;
use crate::wire::packet_prefix_vec;
use crate::wire::BYTE_COMMA;
use crate::wire::BYTE_N;
use crate::wire::BYTE_RBRACKET;

verus! {

/// A packet sent over a channel: a batch of opaque serialized sub-queries,
/// executed in order by the receiver, and an optional callback address to
/// which the origin forwards the acknowledgment.
pub enum PacketMsg {
    IbcQuery { msgs: Vec<Vec<u8>>, callback: Option<Vec<u8>> },
}

/// The mathematical value of a packet.
pub struct PacketView {
    pub msgs: Seq<Seq<u8>>,
    pub callback: Option<Seq<u8>>,
}

impl View for PacketMsg {
    type V = PacketView;

    open spec fn view(&self) -> PacketView {
        match self {
            PacketMsg::IbcQuery { msgs, callback } => PacketView {
                msgs: msgs@.map_values(|m: Vec<u8>| m@),
                callback: match callback {
                    Some(c) => Some(c@),
                    None => None,
                },
            },
        }
    }
}

/// Every sub-query is a well-formed opaque serialized value.
pub open spec fn packet_wf(v: PacketView) -> bool {
    forall|k: int| 0 <= k < v.msgs.len() ==> blob_ok(#[trigger] v.msgs[k])
}

/// Elements each preceded by a comma.
pub open spec fn comma_join(x: Seq<Seq<u8>>) -> Seq<u8>
    decreases x.len(),
{
    if x.len() == 0 {
        Seq::empty()
    } else {
        seq![BYTE_COMMA] + x[0] + comma_join(x.drop_first())
    }
}

/// The elements of the array, separated by commas.
pub open spec fn join_msgs(m: Seq<Seq<u8>>) -> Seq<u8> {
    if m.len() == 0 {
        Seq::empty()
    } else {
        m[0] + comma_join(m.drop_first())
    }
}

/// The wire form of the callback field.
pub open spec fn enc_callback(cb: Option<Seq<u8>>) -> Seq<u8> {
    match cb {
        None => null_literal(),
        Some(c) => enc_jstr(c),
    }
}

/// The wire bytes after the element array: the callback field and the
/// closing braces.
pub open spec fn enc_cb_tail(v: PacketView) -> Seq<u8> {
    callback_infix() + enc_callback(v.callback) + object_close()
}

/// The wire form of a packet.
pub open spec fn enc_packet(v: PacketView) -> Seq<u8> {
    packet_prefix() + join_msgs(v.msgs) + enc_cb_tail(v)
}

/// Joining distributes over concatenation of comma-prefixed runs.
pub proof fn lemma_comma_join_concat(a: Seq<Seq<u8>>, b: Seq<Seq<u8>>)
    ensures
        comma_join(a + b) == comma_join(a) + comma_join(b),
    decreases a.len(),
{
    if a.len() == 0 {
        assert(a + b =~= b);
        assert(comma_join(a) + comma_join(b) =~= comma_join(b));
    } else {
        lemma_comma_join_concat(a.drop_first(), b);
        assert((a + b).drop_first() =~= a.drop_first() + b);
        assert((a + b)[0] == a[0]);
        assert(comma_join(a + b) =~= comma_join(a) + comma_join(b));
    }
}

/// Appending one element extends the joined array by a comma and the
/// element, or starts it.
pub proof fn lemma_join_push(m: Seq<Seq<u8>>, e: Seq<u8>)
    ensures
        m.len() == 0 ==> join_msgs(m.push(e)) == e,
        m.len() > 0 ==> join_msgs(m.push(e)) == join_msgs(m) + seq![BYTE_COMMA] + e,
{
    if m.len() == 0 {
        assert(m.push(e)[0] == e);
        assert(m.push(e).drop_first() =~= Seq::<Seq<u8>>::empty());
        assert(join_msgs(m.push(e)) =~= e);
    } else {
        assert(m.push(e)[0] == m[0]);
        assert(m.push(e).drop_first() =~= m.drop_first() + seq![e]);
        lemma_comma_join_concat(m.drop_first(), seq![e]);
        assert(seq![e].drop_first() =~= Seq::<Seq<u8>>::empty());
        assert(comma_join(Seq::<Seq<u8>>::empty()) == Seq::<u8>::empty());
        assert(seq![e][0] == e);
        assert(comma_join(seq![e]) =~= seq![BYTE_COMMA] + e);
        assert(join_msgs(m.push(e)) =~= join_msgs(m) + seq![BYTE_COMMA] + e);
    }
}

/// The joined array splits after its first `k` elements.
pub proof fn lemma_join_split(m: Seq<Seq<u8>>, k: int)
    requires
        1 <= k <= m.len(),
    ensures
        join_msgs(m) == join_msgs(m.take(k)) + comma_join(m.skip(k)),
{
    assert(m.take(k)[0] == m[0]);
    assert(m.drop_first() =~= m.take(k).drop_first() + m.skip(k));
    lemma_comma_join_concat(m.take(k).drop_first(), m.skip(k));
    assert(join_msgs(m) =~= join_msgs(m.take(k)) + comma_join(m.skip(k)));
}

/// The wire bytes of a packet, laid out around its element `k`.
pub proof fn lemma_packet_layout(v: PacketView, k: int)
    requires
        0 <= k < v.msgs.len(),
    ensures
        enc_packet(v) == packet_prefix() + join_msgs(v.msgs.take(k)) + (if k > 0 {
            seq![BYTE_COMMA]
        } else {
            Seq::<u8>::empty()
        }) + v.msgs[k] + comma_join(v.msgs.skip(k + 1)) + enc_cb_tail(v),
{
    if k == 0 {
        assert(v.msgs.drop_first() =~= v.msgs.skip(1));
        assert(join_msgs(v.msgs.take(0)) =~= Seq::<u8>::empty());
        assert(enc_packet(v) =~= packet_prefix() + join_msgs(v.msgs.take(0)) + Seq::<u8>::empty()
            + v.msgs[0] + comma_join(v.msgs.skip(1)) + enc_cb_tail(v));
    } else {
        lemma_join_split(v.msgs, k);
        assert(comma_join(v.msgs.skip(k))[0] == BYTE_COMMA);
        assert(v.msgs.skip(k)[0] == v.msgs[k]);
        assert(v.msgs.skip(k).drop_first() =~= v.msgs.skip(k + 1));
        assert(comma_join(v.msgs.skip(k)) == seq![BYTE_COMMA] + v.msgs[k] + comma_join(
            v.msgs.skip(k + 1),
        ));
        assert(enc_packet(v) =~= packet_prefix() + join_msgs(v.msgs.take(k)) + seq![BYTE_COMMA]
            + v.msgs[k] + comma_join(v.msgs.skip(k + 1)) + enc_cb_tail(v));
    }
}

/// Encodes a packet into its wire form.
pub fn encode_packet(packet: &PacketMsg) -> (r: Vec<u8>)
    ensures
        r@ == enc_packet(packet@),
{
    let PacketMsg::IbcQuery { msgs, callback } = packet;
    let ghost mv = msgs@.map_values(|m: Vec<u8>| m@);
    let mut out = packet_prefix_vec();
    let mut k: usize = 0;
    proof {
        assert(join_msgs(mv.take(0)) =~= Seq::<u8>::empty());
        assert(out@ =~= packet_prefix() + join_msgs(mv.take(0)));
    }
    while k < msgs.len()
        invariant
            k <= msgs@.len(),
            mv == msgs@.map_values(|m: Vec<u8>| m@),
            out@ == packet_prefix() + join_msgs(mv.take(k as int)),
        decreases msgs@.len() - k,
    {
        let ghost out0 = out@;
        if k > 0 {
            out.push(BYTE_COMMA);
        }
        let mut piece = clone_bytes(&msgs[k]);
        out.append(&mut piece);
        proof {
            lemma_join_push(mv.take(k as int), mv[k as int]);
            assert(mv.take(k + 1) =~= mv.take(k as int).push(mv[k as int]));
            if k > 0 {
                assert(out@ =~= out0 + seq![BYTE_COMMA] + mv[k as int]);
            } else {
                assert(out@ =~= out0 + mv[k as int]);
                assert(mv.take(0).len() == 0);
            }
            assert(out@ =~= packet_prefix() + join_msgs(mv.take(k + 1)));
        }
        k += 1;
    }
    proof {
        assert(mv.take(mv.len() as int) =~= mv);
    }
    let mut infix = callback_infix_vec();
    out.append(&mut infix);
    match callback {
        None => {
            let mut lit = null_literal_vec();
            out.append(&mut lit);
        },
        Some(c) => {
            let mut js = enc_jstr_vec(c);
            out.append(&mut js);
        },
    }
    let mut close = object_close_vec();
    out.append(&mut close);
    proof {
        assert(out@ =~= enc_packet(packet@));
    }
    out
}


/// A well-formed packet whose wire form is exactly `s`.
pub open spec fn encodes(s: Seq<u8>, p: PacketView) -> bool {
    packet_wf(p) && enc_packet(p) == s
}

/// The pieces of a three-part concatenation, by position.
pub(crate) proof fn lemma_extract(s: Seq<u8>, a: Seq<u8>, b: Seq<u8>, c: Seq<u8>)
    requires
        s == a + b + c,
    ensures
        s.len() == a.len() + b.len() + c.len(),
        s.take(a.len() as int) == a,
        s.subrange(a.len() as int, a.len() + b.len() as int) == b,
        s.subrange(a.len() + b.len() as int, s.len() as int) == c,
{
    assert(s.take(a.len() as int) =~= a);
    assert(s.subrange(a.len() as int, a.len() + b.len() as int) =~= b);
    assert(s.subrange(a.len() + b.len() as int, s.len() as int) =~= c);
}

/// Parses the callback field and the closing braces, the elements having
/// been consumed up to the closing bracket at `i`.
#[verifier::rlimit(100)]
fn parse_tail(s: &Vec<u8>, i: usize, parts: Vec<Vec<u8>>) -> (r: Option<PacketMsg>)
    requires
        i <= s@.len(),
        s@.take(i as int) == packet_prefix() + join_msgs(parts@.map_values(|m: Vec<u8>| m@)),
        forall|k: int| 0 <= k < parts@.len() ==> blob_ok((#[trigger] parts@[k])@),
        forall|p: PacketView|
            #[trigger] encodes(s@, p) ==> p.msgs == parts@.map_values(|m: Vec<u8>| m@),
    ensures
        match r {
            Some(q) => encodes(s@, q@) && forall|p: PacketView|
                #[trigger] encodes(s@, p) ==> p == q@,
            None => forall|p: PacketView| !encodes(s@, p),
        },
{
    let n = s.len();
    proof {
        assert(s@.len() == n <= usize::MAX);
    }
    let ghost partsv = parts@.map_values(|m: Vec<u8>| m@);
    let ghost head = packet_prefix() + join_msgs(partsv);
    proof {
        assert(head.len() == i);
        assert forall|p: PacketView| #[trigger] encodes(s@, p) implies s@ == head + callback_infix()
            + (enc_callback(p.callback) + object_close()) by {
            assert(s@ =~= head + callback_infix() + (enc_callback(p.callback) + object_close()));
        }
    }
    let infix = callback_infix_vec();
    if !match_at(s, i, &infix) {
        proof {
            assert forall|p: PacketView| !encodes(s@, p) by {
                if encodes(s@, p) {
                    lemma_extract(
                        s@,
                        head,
                        callback_infix(),
                        enc_callback(p.callback) + object_close(),
                    );
                }
            }
        }
        return None;
    }
    let i2 = i + infix.len();
    proof {
        assert forall|p: PacketView| #[trigger] encodes(s@, p) implies s@ == (head
            + callback_infix()) + enc_callback(p.callback) + object_close() && s@.len() == i2
            + enc_callback(p.callback).len() + 2 by {
            assert(s@ =~= (head + callback_infix()) + enc_callback(p.callback) + object_close());
            lemma_extract(
                s@,
                head + callback_infix(),
                enc_callback(p.callback),
                object_close(),
            );
        }
    }
    let cb: Option<Vec<u8>>;
    let i3: usize;
    if i2 < s.len() && s[i2] == BYTE_N {
        let nul = null_literal_vec();
        if !match_at(s, i2, &nul) {
            proof {
                assert forall|p: PacketView| !encodes(s@, p) by {
                    if encodes(s@, p) {
                        lemma_extract(
                            s@,
                            head + callback_infix(),
                            enc_callback(p.callback),
                            object_close(),
                        );
                        match p.callback {
                            None => {},
                            Some(c) => {
                                assert(s@[i2 as int] == enc_jstr(c)[0]);
                            },
                        }
                    }
                }
            }
            return None;
        }
        cb = None;
        i3 = i2 + 4;
        proof {
            assert forall|p: PacketView| #[trigger] encodes(s@, p) implies p.callback
                == Option::<Seq<u8>>::None by {
                lemma_extract(
                    s@,
                    head + callback_infix(),
                    enc_callback(p.callback),
                    object_close(),
                );
                match p.callback {
                    None => {},
                    Some(c) => {
                        assert(s@[i2 as int] == enc_jstr(c)[0]);
                    },
                }
            }
        }
    } else {
        match parse_jstr(s, i2) {
            None => {
                proof {
                    assert forall|p: PacketView| !encodes(s@, p) by {
                        if encodes(s@, p) {
                            lemma_extract(
                                s@,
                                head + callback_infix(),
                                enc_callback(p.callback),
                                object_close(),
                            );
                            match p.callback {
                                None => {
                                    assert(s@[i2 as int] == null_literal()[0]);
                                },
                                Some(c) => {
                                    assert(jstr_at(s@, i2 as int, c));
                                },
                            }
                        }
                    }
                }
                return None;
            },
            Some((v, j2)) => {
                proof {
                    assert forall|p: PacketView| #[trigger] encodes(s@, p) implies p.callback
                        == Some(v@) && j2 == i2 + enc_jstr(v@).len() by {
                        lemma_extract(
                            s@,
                            head + callback_infix(),
                            enc_callback(p.callback),
                            object_close(),
                        );
                        match p.callback {
                            None => {
                                assert(s@[i2 as int] == null_literal()[0]);
                            },
                            Some(c) => {
                                assert(jstr_at(s@, i2 as int, c));
                            },
                        }
                    }
                }
                cb = Some(v);
                i3 = j2;
            },
        }
    }
    let ghost cbv: Option<Seq<u8>> = match cb {
        Some(ref c) => Some(c@),
        None => None,
    };
    let close = object_close_vec();
    if !match_at(s, i3, &close) || i3 + 2 != s.len() {
        proof {
            assert forall|p: PacketView| !encodes(s@, p) by {
                if encodes(s@, p) {
                    lemma_extract(
                        s@,
                        head + callback_infix(),
                        enc_callback(p.callback),
                        object_close(),
                    );
                    assert(enc_callback(p.callback).len() == i3 - i2);
                    assert(s@.subrange(i3 as int, i3 + 2) == object_close());
                }
            }
        }
        return None;
    }
    proof {
        let qv = PacketView { msgs: partsv, callback: cbv };
        assert(s@ =~= s@.take(i as int) + s@.subrange(i as int, i2 as int) + s@.subrange(
            i2 as int,
            i3 as int,
        ) + s@.subrange(i3 as int, s@.len() as int));
        assert(s@.subrange(i as int, i2 as int) == callback_infix());
        match cbv {
            None => {
                assert(s@.subrange(i2 as int, i3 as int) == null_literal());
            },
            Some(c) => {
                assert(s@.subrange(i2 as int, i3 as int) == enc_jstr(c));
            },
        }
        assert(s@.subrange(i3 as int, s@.len() as int) == object_close());
        assert(s@ =~= enc_packet(qv));
        assert(packet_wf(qv));
    }
    let q = PacketMsg::IbcQuery { msgs: parts, callback: cb };
    proof {
        assert(q@.msgs == partsv);
        assert(q@.callback == cbv);
        assert(q@ == PacketView { msgs: partsv, callback: cbv });
        assert forall|p: PacketView| #[trigger] encodes(s@, p) implies p == q@ by {}
    }
    Some(q)
}

/// Decodes a packet's wire form: the one packet it encodes, or `None` for
/// an input that encodes no packet.  Together with `encode_packet` this is
/// the round trip: decoding the encoding of any well-formed packet yields
/// an equal value.
#[verifier::rlimit(100)]
pub fn decode_packet(s: &Vec<u8>) -> (r: Option<PacketMsg>)
    ensures
        match r {
            Some(q) => encodes(s@, q@) && forall|p: PacketView|
                #[trigger] encodes(s@, p) ==> p == q@,
            None => forall|p: PacketView| !encodes(s@, p),
        },
{
    let prefix = packet_prefix_vec();
    if !match_at(s, 0, &prefix) {
        proof {
            assert forall|p: PacketView| !encodes(s@, p) by {
                if encodes(s@, p) {
                    assert(s@ =~= Seq::<u8>::empty() + packet_prefix() + (join_msgs(p.msgs)
                        + enc_cb_tail(p)));
                    lemma_extract(
                        s@,
                        Seq::<u8>::empty(),
                        packet_prefix(),
                        join_msgs(p.msgs) + enc_cb_tail(p),
                    );
                }
            }
        }
        return None;
    }
    let mut i = prefix.len();
    proof {
        assert forall|p: PacketView| #[trigger] encodes(s@, p) implies s@.len() > i by {
            assert(s@ =~= Seq::<u8>::empty() + packet_prefix() + (join_msgs(p.msgs) + enc_cb_tail(
                p,
            )));
            lemma_extract(
                s@,
                Seq::<u8>::empty(),
                packet_prefix(),
                join_msgs(p.msgs) + enc_cb_tail(p),
            );
        }
    }
    if i >= s.len() {
        proof {
            assert forall|p: PacketView| !encodes(s@, p) by {}
        }
        return None;
    }
    let mut parts: Vec<Vec<u8>> = Vec::new();
    proof {
        let partsv = parts@.map_values(|m: Vec<u8>| m@);
        assert(partsv =~= Seq::<Seq<u8>>::empty());
        assert(join_msgs(partsv) =~= Seq::<u8>::empty());
        assert(s@.take(i as int) =~= packet_prefix() + join_msgs(partsv));
    }
    if s[i] == BYTE_RBRACKET {
        proof {
            let partsv = parts@.map_values(|m: Vec<u8>| m@);
            assert forall|p: PacketView| #[trigger] encodes(s@, p) implies p.msgs == partsv by {
                if p.msgs.len() > 0 {
                    lemma_packet_layout(p, 0);
                    let b = p.msgs[0];
                    assert(s@ =~= packet_prefix() + b + (comma_join(p.msgs.skip(1)) + enc_cb_tail(
                        p,
                    )));
                    lemma_extract(
                        s@,
                        packet_prefix(),
                        b,
                        comma_join(p.msgs.skip(1)) + enc_cb_tail(p),
                    );
                    assert(s@[i as int] == b[0]);
                    lemma_scan_ok_at(scan_init(), b, 0);
                    assert(b.take(0) =~= Seq::<u8>::empty());
                    assert(false);
                }
                assert(p.msgs =~= partsv);
            }
        }
        return parse_tail(s, i, parts);
    }
    proof {
        let partsv = parts@.map_values(|m: Vec<u8>| m@);
        assert forall|p: PacketView| #[trigger] encodes(s@, p) implies parts@.len() < p.msgs.len()
            && partsv == p.msgs.take(parts@.len() as int) by {
            if p.msgs.len() == 0 {
                assert(join_msgs(p.msgs) =~= Seq::<u8>::empty());
                assert(s@ =~= packet_prefix() + callback_infix() + (enc_callback(p.callback)
                    + object_close()));
                lemma_extract(
                    s@,
                    packet_prefix(),
                    callback_infix(),
                    enc_callback(p.callback) + object_close(),
                );
                assert(s@[i as int] == callback_infix()[0]);
                assert(false);
            }
            assert(partsv =~= p.msgs.take(0));
        }
    }
    loop
        invariant
            s@.len() <= usize::MAX,
            packet_prefix().len() <= i <= s@.len(),
            s@.take(i as int) == packet_prefix() + join_msgs(parts@.map_values(|m: Vec<u8>| m@))
                + (if parts@.len() > 0 {
                seq![BYTE_COMMA]
            } else {
                Seq::<u8>::empty()
            }),
            forall|k: int| 0 <= k < parts@.len() ==> blob_ok((#[trigger] parts@[k])@),
            forall|p: PacketView|
                #[trigger] encodes(s@, p) ==> parts@.len() < p.msgs.len() && parts@.map_values(
                    |m: Vec<u8>| m@,
                ) == p.msgs.take(parts@.len() as int),
        decreases s@.len() - i,
    {
        let ghost partsv = parts@.map_values(|m: Vec<u8>| m@);
        let ghost k = parts@.len() as int;
        let ghost head = packet_prefix() + join_msgs(partsv) + (if k > 0 {
            seq![BYTE_COMMA]
        } else {
            Seq::<u8>::empty()
        });
        proof {
            assert(head.len() == i);
            assert forall|p: PacketView| #[trigger] encodes(s@, p) implies s@ == head + p.msgs[k]
                + (comma_join(p.msgs.skip(k + 1)) + enc_cb_tail(p)) by {
                lemma_packet_layout(p, k);
                assert(join_msgs(p.msgs.take(k)) == join_msgs(partsv));
                assert(s@ =~= head + p.msgs[k] + (comma_join(p.msgs.skip(k + 1)) + enc_cb_tail(
                    p,
                )));
            }
        }
        let j = match scan_element(s, i) {
            Some(j) => j,
            None => {
                proof {
                    assert forall|p: PacketView| !encodes(s@, p) by {
                        if encodes(s@, p) {
                            let b = p.msgs[k];
                            let rest = comma_join(p.msgs.skip(k + 1)) + enc_cb_tail(p);
                            lemma_extract(s@, head, b, rest);
                            assert(rest.len() > 0);
                            assert(rest[0] == BYTE_COMMA || rest[0] == BYTE_RBRACKET) by {
                                if p.msgs.skip(k + 1).len() > 0 {
                                    assert(comma_join(p.msgs.skip(k + 1))[0] == BYTE_COMMA);
                                } else {
                                    assert(comma_join(p.msgs.skip(k + 1)) =~= Seq::<u8>::empty());
                                    assert(rest =~= enc_cb_tail(p));
                                    assert(rest[0] == callback_infix()[0]);
                                }
                            }
                            assert(s@[i + b.len()] == rest[0]);
                            let whole = s@.subrange(i as int, s@.len() as int);
                            lemma_scan_ok_at(scan_init(), whole, b.len() as int);
                            assert(whole.take(b.len() as int) =~= b);
                            assert(whole[b.len() as int] == rest[0]);
                            assert(false);
                        }
                    }
                }
                return None;
            },
        };
        proof {
            assert forall|p: PacketView| #[trigger] encodes(s@, p) implies j == i
                + p.msgs[k].len() by {
                let b = p.msgs[k];
                let rest = comma_join(p.msgs.skip(k + 1)) + enc_cb_tail(p);
                lemma_extract(s@, head, b, rest);
                assert(rest.len() > 0);
                assert(rest[0] == BYTE_COMMA || rest[0] == BYTE_RBRACKET) by {
                    if p.msgs.skip(k + 1).len() > 0 {
                        assert(comma_join(p.msgs.skip(k + 1))[0] == BYTE_COMMA);
                    } else {
                        assert(comma_join(p.msgs.skip(k + 1)) =~= Seq::<u8>::empty());
                        assert(rest =~= enc_cb_tail(p));
                        assert(rest[0] == callback_infix()[0]);
                    }
                }
                assert(s@[i + b.len()] == rest[0]);
                if j < i + b.len() {
                    let got = s@.subrange(i as int, j as int);
                    assert(got =~= b.take(j - i));
                    lemma_scan_ok_at(scan_init(), b, j - i);
                    assert(s@[j as int] == b[j - i]);
                    assert(false);
                }
                if j > i + b.len() {
                    let got = s@.subrange(i as int, j as int);
                    lemma_scan_ok_at(scan_init(), got, b.len() as int);
                    assert(got.take(b.len() as int) =~= b);
                    assert(got[b.len() as int] == s@[i + b.len()]);
                    assert(false);
                }
            }
        }
        if j == i {
            proof {
                assert forall|p: PacketView| !encodes(s@, p) by {
                    if encodes(s@, p) {
                        assert(p.msgs[k].len() > 0);
                    }
                }
            }
            return None;
        }
        let e = copy_range(s, i, j);
        parts.push(e);
        proof {
            assert(parts@.map_values(|m: Vec<u8>| m@) =~= partsv.push(s@.subrange(
                i as int,
                j as int,
            )));
            assert(blob_ok(s@.subrange(i as int, j as int)));
        }
        let d = s[j];
        if d == BYTE_COMMA {
            let ghost iold = i;
            i = j + 1;
            proof {
                let e0 = s@.subrange(iold as int, j as int);
                let newv = parts@.map_values(|m: Vec<u8>| m@);
                lemma_join_push(partsv, e0);
                assert(s@.take(i as int) =~= s@.take(iold as int) + e0 + seq![BYTE_COMMA]);
                assert(s@.take(i as int) =~= packet_prefix() + join_msgs(newv) + seq![BYTE_COMMA]);
                assert forall|p: PacketView| #[trigger] encodes(s@, p) implies parts@.len()
                    < p.msgs.len() && newv == p.msgs.take(parts@.len() as int) by {
                    let b = p.msgs[k];
                    let rest = comma_join(p.msgs.skip(k + 1)) + enc_cb_tail(p);
                    lemma_extract(s@, head, b, rest);
                    assert(e0 =~= b);
                    if k + 1 == p.msgs.len() {
                        assert(comma_join(p.msgs.skip(k + 1)) =~= Seq::<u8>::empty());
                        assert(rest =~= enc_cb_tail(p));
                        assert(s@[j as int] == callback_infix()[0]);
                        assert(false);
                    }
                    assert(p.msgs.take(k + 1) =~= p.msgs.take(k).push(b));
                    assert(newv =~= p.msgs.take(k + 1));
                }
            }
        } else if d == BYTE_RBRACKET {
            proof {
                let newv = parts@.map_values(|m: Vec<u8>| m@);
                let e0 = s@.subrange(i as int, j as int);
                lemma_join_push(partsv, e0);
                assert(s@.take(j as int) =~= s@.take(i as int) + e0);
                assert(s@.take(j as int) =~= packet_prefix() + join_msgs(newv));
                assert forall|p: PacketView| #[trigger] encodes(s@, p) implies p.msgs == newv by {
                    let b = p.msgs[k];
                    let rest = comma_join(p.msgs.skip(k + 1)) + enc_cb_tail(p);
                    lemma_extract(s@, head, b, rest);
                    assert(e0 =~= b);
                    if k + 1 < p.msgs.len() {
                        assert(comma_join(p.msgs.skip(k + 1))[0] == BYTE_COMMA);
                        assert(s@[j as int] == BYTE_COMMA);
                        assert(false);
                    }
                    assert(p.msgs.take(k + 1) =~= p.msgs);
                    assert(p.msgs =~= newv);
                }
            }
            return parse_tail(s, j, parts);
        } else {
            proof {
                assert forall|p: PacketView| !encodes(s@, p) by {
                    if encodes(s@, p) {
                        let b = p.msgs[k];
                        let rest = comma_join(p.msgs.skip(k + 1)) + enc_cb_tail(p);
                        lemma_extract(s@, head, b, rest);
                        assert(rest[0] == BYTE_COMMA || rest[0] == BYTE_RBRACKET) by {
                            if p.msgs.skip(k + 1).len() > 0 {
                                assert(comma_join(p.msgs.skip(k + 1))[0] == BYTE_COMMA);
                            } else {
                                assert(comma_join(p.msgs.skip(k + 1)) =~= Seq::<u8>::empty());
                                assert(rest =~= enc_cb_tail(p));
                                assert(rest[0] == callback_infix()[0]);
                            }
                        }
                        assert(s@[j as int] == rest[0]);
                        assert(false);
                    }
                }
            }
            return None;
        }
    }
}

} // verus!
