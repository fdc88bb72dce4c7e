//! The packet path: inbound query execution, and acknowledgment processing
//! on the originating side.
//!
//! An inbound packet is decoded and each sub-query routed to the host's
//! local query engine; every answer, success or domain-level failure,
//! becomes one outcome at the sub-query's position, and a single success
//! acknowledgment carries them all.  Only a packet that cannot be decoded
//! produces the error acknowledgment.  On the ack path the origin decodes
//! its own original packet, overwrites the per-channel result cache, and,
//! where the packet named a callback, emits exactly one forwarding call.
//! A timeout changes no state.

use vstd::prelude::*;

use crate::ack::enc_ack;
use crate::ack::enc_outcome;
use crate::ack::enc_response;
use crate::ack::encode_ack;
use crate::ack::encode_outcome;
use crate::ack::encode_response;
use crate::ack::AckView;
use crate::ack::IbcQueryResponse;
use crate::ack::OutcomeView;
use crate::ack::QueryOutcome;
use crate::ack::StdAck;
use crate::contract::ContractError;
use crate::packet::decode_packet;
use crate::packet::encodes;
use crate::packet::PacketMsg;
use crate::packet::PacketView;
use crate::state::clone_bytes;
use crate::state::IbcQueryResultResponse;
use crate::state::PendingChannel;
use crate::state::ResultStore;
use crate::state::ResultView;
use crate::wire::decode_failure_note;
use crate::wire::decode_failure_note_vec;
use crate::wire::forward_prefix;
use crate::wire::forward_prefix_vec;
use crate::wire::object_close;
use crate::wire::object_close_vec;

verus! {

/// The host's local query engine, as handed to the inbound executor: a
/// querier borrowed from the host for the span of one invocation.  The
/// wrapped querier is opaque to the verifier; the host adapter and the
/// tests construct this directly from their querier.
#[verifier::external_body]
pub struct QueryEngine<'a> {
    pub querier: cosmwasm_std::QuerierWrapper<'a, cosmwasm_std::Empty>,
}

/// Relies on `cosmwasm_std::QuerierWrapper::raw_query`: routes one
/// serialized sub-query to the host's local query engine.  The answer
/// depends on host state, so nothing is promised of it; the caller records
/// whatever comes back.
#[verifier::external_body]
fn engine_raw_query(engine: &QueryEngine<'_>, request: &Vec<u8>) -> Result<Vec<u8>, Vec<u8>> {
    match engine.querier.raw_query(request.as_slice()) {
        cosmwasm_std::SystemResult::Ok(cosmwasm_std::ContractResult::Ok(value)) => {
            Ok(value.into())
        },
        cosmwasm_std::SystemResult::Ok(cosmwasm_std::ContractResult::Err(err)) => {
            Err(err.into_bytes())
        },
        cosmwasm_std::SystemResult::Err(err) => Err(err.to_string().into_bytes()),
    }
}

/// The success acknowledgment carrying these outcomes, in order.
pub open spec fn success_ack_for(outs: Seq<OutcomeView>) -> Seq<u8> {
    enc_ack(
        AckView::Success(enc_response(outs.map_values(|o: OutcomeView| enc_outcome(o)))),
    )
}

/// Encodes the success acknowledgment for an outcome sequence: exactly one
/// serialized outcome per entry, at the entry's position.
pub fn ack_for_outcomes(outcomes: &Vec<QueryOutcome>) -> (ack: Vec<u8>)
    ensures
        ack@ == success_ack_for(outcomes@.map_values(|o: QueryOutcome| o@)),
{
    let ghost ov = outcomes@.map_values(|o: QueryOutcome| o@);
    let mut results: Vec<Vec<u8>> = Vec::new();
    let mut k: usize = 0;
    while k < outcomes.len()
        invariant
            k <= outcomes@.len(),
            ov == outcomes@.map_values(|o: QueryOutcome| o@),
            results@.len() == k,
            forall|t: int| 0 <= t < k ==> (#[trigger] results@[t])@ == enc_outcome(ov[t]),
        decreases outcomes@.len() - k,
    {
        let piece = encode_outcome(&outcomes[k]);
        results.push(piece);
        k += 1;
    }
    let response = IbcQueryResponse { results };
    let payload = encode_response(&response);
    let ack = encode_ack(&StdAck::Success(payload));
    proof {
        assert(response@ =~= ov.map_values(|o: OutcomeView| enc_outcome(o)));
    }
    ack
}

/// Executes each sub-query of an inbound batch against the local query
/// engine, strictly in order, and encodes the success acknowledgment: one
/// outcome per sub-query, a domain-level failure recorded at its position
/// and never aborting the batch.
pub fn receive_query(engine: &QueryEngine<'_>, msgs: &Vec<Vec<u8>>) -> (ack: Vec<u8>)
    ensures
        exists|outs: Seq<OutcomeView>|
            outs.len() == msgs@.len() && ack@ == success_ack_for(outs),
{
    let mut outcomes: Vec<QueryOutcome> = Vec::new();
    let mut k: usize = 0;
    while k < msgs.len()
        invariant
            k <= msgs@.len(),
            outcomes@.len() == k,
        decreases msgs@.len() - k,
    {
        let outcome = match engine_raw_query(engine, &msgs[k]) {
            Ok(value) => QueryOutcome::Success(value),
            Err(message) => QueryOutcome::Failure(message),
        };
        outcomes.push(outcome);
        k += 1;
    }
    let ack = ack_for_outcomes(&outcomes);
    proof {
        let outs = outcomes@.map_values(|o: QueryOutcome| o@);
        assert(outs.len() == msgs@.len());
        assert(ack@ == success_ack_for(outs));
    }
    ack
}

/// Handles one inbound packet: a packet that decodes has each of its
/// sub-queries executed in order and acknowledged positionally; one that
/// does not produces the error acknowledgment, with no other effect.
pub fn ibc_packet_receive(engine: &QueryEngine<'_>, packet_data: &Vec<u8>) -> (ack: Vec<u8>)
    ensures
        forall|p: PacketView|
            encodes(packet_data@, p) ==> exists|outs: Seq<OutcomeView>|
                outs.len() == p.msgs.len() && ack@ == success_ack_for(outs),
        (forall|p: PacketView| !encodes(packet_data@, p)) ==> ack@ == enc_ack(
            AckView::Error(decode_failure_note()),
        ),
{
    match decode_packet(packet_data) {
        Some(packet) => {
            let PacketMsg::IbcQuery { msgs, .. } = &packet;
            receive_query(engine, msgs)
        },
        None => {
            let note = decode_failure_note_vec();
            encode_ack(&StdAck::Error(note))
        },
    }
}

/// Records that a channel establishment completed: the id is kept in the
/// single-slot pending registry for follow-up logic; nothing else changes.
pub fn ibc_channel_connect(pending: &mut PendingChannel, channel_id: &Vec<u8>)
    ensures
        final(pending)@ == Some(channel_id@),
{
    pending.save(channel_id);
}

/// Acknowledges a channel close.  There is nothing to reclaim: the result
/// cache is untouched.
pub fn ibc_channel_close(results: &mut ResultStore)
    requires
        old(results).wf(),
    ensures
        final(results).wf(),
        final(results)@ == old(results)@,
{
}

/// Handles a packet timeout signalled by the transport: no store-mutating
/// action is taken; the caller must re-dispatch to retry.
pub fn ibc_packet_timeout(results: &mut ResultStore)
    requires
        old(results).wf(),
    ensures
        final(results).wf(),
        final(results)@ == old(results)@,
{
}

/// One forwarding call: execute the callback contract at this address with
/// this payload, attaching no funds.
#[derive(Debug)]
pub struct ForwardCall {
    pub contract_addr: Vec<u8>,
    pub msg: Vec<u8>,
}

/// The forwarding envelope: the acknowledgment event, verbatim, wrapped
/// for the callback target's receive entry point.
pub open spec fn enc_forward(m: Seq<u8>) -> Seq<u8> {
    forward_prefix() + m + object_close()
}

/// Builds the forwarding envelope around an acknowledgment event.
pub fn encode_forward(m: &Vec<u8>) -> (r: Vec<u8>)
    ensures
        r@ == enc_forward(m@),
{
    let mut out = forward_prefix_vec();
    let mut body = clone_bytes(m);
    out.append(&mut body);
    let mut close = object_close_vec();
    out.append(&mut close);
    proof {
        assert(out@ =~= enc_forward(m@));
    }
    out
}

/// Processes one acknowledgment at the origin: overwrites the channel's
/// cache entry with the event and its arrival time — last write wins, no
/// history — and, where a callback was named, emits exactly one forwarding
/// call carrying the event verbatim; with none, the store write is the
/// only effect.  The callback's own execution is fire-and-forget.
pub fn acknowledge_query(
    results: &mut ResultStore,
    env_time: u64,
    channel_id: &Vec<u8>,
    callback: &Option<Vec<u8>>,
    ack_event: &Vec<u8>,
) -> (r: Option<ForwardCall>)
    requires
        old(results).wf(),
    ensures
        final(results).wf(),
        final(results)@ == old(results)@.insert(
            channel_id@,
            ResultView { last_update_time: env_time, response: ack_event@ },
        ),
        match callback {
            Some(cb) => r matches Some(f) && f.contract_addr@ == cb@ && f.msg@ == enc_forward(
                ack_event@,
            ),
            None => r is None,
        },
{
    let record = IbcQueryResultResponse {
        last_update_time: env_time,
        response: clone_bytes(ack_event),
    };
    results.save(channel_id, record);
    match callback {
        Some(cb) => Some(
            ForwardCall { contract_addr: clone_bytes(cb), msg: encode_forward(ack_event) },
        ),
        None => None,
    }
}

/// The acknowledgment event as the transport delivers it: which local
/// channel the packet left from, the original packet's bytes, and the
/// event verbatim.
pub struct PacketAckEvent {
    pub src_channel_id: Vec<u8>,
    pub original_packet_data: Vec<u8>,
    pub raw: Vec<u8>,
}

/// Handles one acknowledgment event: decodes the original packet to learn
/// the callback, then processes the acknowledgment.  An original packet
/// that cannot be decoded is a hard invocation failure: the store is left
/// unchanged.
pub fn ibc_packet_ack(results: &mut ResultStore, env_time: u64, ev: &PacketAckEvent) -> (r:
    Result<Option<ForwardCall>, ContractError>)
    requires
        old(results).wf(),
    ensures
        final(results).wf(),
        r is Err ==> r == Err::<Option<ForwardCall>, ContractError>(ContractError::PacketDecode)
            && final(results)@ == old(results)@ && (forall|p: PacketView|
            !encodes(ev.original_packet_data@, p)),
        forall|p: PacketView|
            encodes(ev.original_packet_data@, p) ==> (r matches Ok(f) && final(results)@ == old(
                results,
            )@.insert(
                ev.src_channel_id@,
                ResultView { last_update_time: env_time, response: ev.raw@ },
            ) && (match p.callback {
                Some(cb) => f matches Some(fc) && fc.contract_addr@ == cb && fc.msg@ == enc_forward(
                    ev.raw@,
                ),
                None => f is None,
            })),
{
    match decode_packet(&ev.original_packet_data) {
        None => Err(ContractError::PacketDecode),
        Some(packet) => {
            let PacketMsg::IbcQuery { callback, .. } = &packet;
            Ok(acknowledge_query(results, env_time, &ev.src_channel_id, callback, &ev.raw))
        },
    }
}

} // verus!
