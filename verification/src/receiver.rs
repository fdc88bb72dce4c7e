//! The callback target: the contract that receives forwarded
//! acknowledgments and serves the latest per-channel result.
//!
//! Its execute surface takes the forwarded acknowledgment event and
//! overwrites its own per-channel cache entry, exactly as the origin does;
//! its query surface returns the latest entry for a channel, or a
//! not-found error where no acknowledgment was ever forwarded for it.

use vstd::prelude::*;

use crate::contract::ContractError;
use crate::contract::MessageInfo;
use crate::contract::PaymentError;
use crate::contract::nonpayable;
use crate::ibc::PacketAckEvent;
use crate::state::clone_bytes;
use crate::state::IbcQueryResultResponse;
use crate::state::ResultStore;
use crate::state::ResultView;

verus! {

/// The receiver's initialization message: it needs nothing.
pub struct InstantiateMsg {}

/// The forwarding entry point's payload: the acknowledgment event,
/// delivered verbatim by the forwarding call.
pub struct ReceiveIbcResponseMsg {
    pub msg: PacketAckEvent,
}

/// The receiver's execute surface: accept one forwarded acknowledgment.
pub enum ExecuteMsg {
    ReceiveIbcResponse(ReceiveIbcResponseMsg),
}

/// The receiver's query surface: the latest result on a channel.
pub enum QueryMsg {
    LatestQueryResult { channel_id: Vec<u8> },
}

/// No acknowledgment was ever recorded for the queried channel.
#[derive(Clone, Copy, PartialEq, Eq, Structural, Debug)]
pub enum QueryError {
    NotFound,
}

/// Records one forwarded acknowledgment: the channel's entry is
/// overwritten with the event and its arrival time; nothing else changes.
pub fn execute_receive(results: &mut ResultStore, env_time: u64, msg: &ReceiveIbcResponseMsg)
    requires
        old(results).wf(),
    ensures
        final(results).wf(),
        final(results)@ == old(results)@.insert(
            msg.msg.src_channel_id@,
            ResultView { last_update_time: env_time, response: msg.msg.raw@ },
        ),
{
    let record = IbcQueryResultResponse {
        last_update_time: env_time,
        response: clone_bytes(&msg.msg.raw),
    };
    results.save(&msg.msg.src_channel_id, record);
}

/// Handles one execute-surface call: rejects any attached payment, then
/// records the forwarded acknowledgment.
pub fn execute(
    results: &mut ResultStore,
    env_time: u64,
    info: &MessageInfo,
    msg: &ExecuteMsg,
) -> (r: Result<(), ContractError>)
    requires
        old(results).wf(),
    ensures
        final(results).wf(),
        info.funds@.len() > 0 ==> r == Err::<(), ContractError>(
            ContractError::Payment(PaymentError::NonPayable),
        ) && final(results)@ == old(results)@,
        info.funds@.len() == 0 ==> r is Ok && match msg {
            ExecuteMsg::ReceiveIbcResponse(m) => final(results)@ == old(results)@.insert(
                m.msg.src_channel_id@,
                ResultView { last_update_time: env_time, response: m.msg.raw@ },
            ),
        },
{
    match nonpayable(info) {
        Ok(()) => {},
        Err(e) => {
            return Err(ContractError::Payment(e));
        },
    }
    match msg {
        ExecuteMsg::ReceiveIbcResponse(m) => {
            execute_receive(results, env_time, m);
            Ok(())
        },
    }
}

/// Returns the latest recorded result for a channel, or `NotFound` where
/// no acknowledgment was ever recorded for it — if and only if.
pub fn query_latest_ibc_query_result<'a>(results: &'a ResultStore, channel_id: &Vec<u8>) -> (r:
    Result<&'a IbcQueryResultResponse, QueryError>)
    requires
        results.wf(),
    ensures
        match r {
            Ok(v) => results@.contains_key(channel_id@) && results@[channel_id@] == v@,
            Err(e) => e == QueryError::NotFound && !results@.contains_key(channel_id@),
        },
{
    match results.load(channel_id) {
        Some(v) => Ok(v),
        None => Err(QueryError::NotFound),
    }
}

/// Handles one query-surface call.
pub fn query<'a>(results: &'a ResultStore, msg: &QueryMsg) -> (r: Result<
    &'a IbcQueryResultResponse,
    QueryError,
>)
    requires
        results.wf(),
    ensures
        match msg {
            QueryMsg::LatestQueryResult { channel_id } => match r {
                Ok(v) => results@.contains_key(channel_id@) && results@[channel_id@] == v@,
                Err(e) => e == QueryError::NotFound && !results@.contains_key(channel_id@),
            },
        },
{
    match msg {
        QueryMsg::LatestQueryResult { channel_id } => query_latest_ibc_query_result(
            results,
            channel_id,
        ),
    }
}

} // verus!
