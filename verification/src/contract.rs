//! The dispatch side: configuration, the execute surface, and the outbound
//! query dispatcher.
//!
//! A dispatch request names a channel, a non-empty ordered batch of opaque
//! serialized sub-queries, and an optional callback address.  The operation
//! is fee-less: any attached payment is rejected before anything else.  A
//! supplied callback must have passed the host's address validation, whose
//! verdict the host adapter hands in; an invalid callback is rejected
//! before any packet is built.  On success exactly one send directive is
//! produced: the channel, the encoded packet, and an absolute expiry of the
//! current time plus the configured packet lifetime.

use vstd::prelude::*;

use crate::packet::enc_packet;
use crate::packet::encode_packet;
use crate::packet::PacketMsg;
use crate::packet::PacketView;
use crate::scan::blob_ok;

verus! {

/// The initialization message: how long a packet lives, in seconds.
pub struct InstantiateMsg {
    pub packet_lifetime: u64,
}

/// The process-wide configuration, set once at initialization and read on
/// every outbound send.
pub struct Config {
    pub packet_lifetime: u64,
}

/// Builds the configuration from the initialization message.
pub fn instantiate(msg: &InstantiateMsg) -> (cfg: Config)
    ensures
        cfg.packet_lifetime == msg.packet_lifetime,
{
    Config { packet_lifetime: msg.packet_lifetime }
}

/// One attached coin: a denomination and an amount.
pub struct Coin {
    pub denom: Vec<u8>,
    pub amount: u128,
}

/// Who invoked the contract, and what funds came with the call.
pub struct MessageInfo {
    pub sender: Vec<u8>,
    pub funds: Vec<Coin>,
}

/// Payment was attached where none is accepted.
#[derive(Clone, Copy, PartialEq, Eq, Structural, Debug)]
pub enum PaymentError {
    NonPayable,
}

/// Accepts exactly the calls that attach no funds.
pub fn nonpayable(info: &MessageInfo) -> (r: Result<(), PaymentError>)
    ensures
        r is Ok <==> info.funds@.len() == 0,
        r is Err ==> r == Err::<(), PaymentError>(PaymentError::NonPayable),
{
    if info.funds.len() == 0 {
        Ok(())
    } else {
        Err(PaymentError::NonPayable)
    }
}

/// Why an invocation failed.  Each failure aborts the invocation before any
/// state changes.
#[derive(Clone, Copy, PartialEq, Eq, Structural, Debug)]
pub enum ContractError {
    /// Payment was attached to a fee-less operation.
    Payment(PaymentError),
    /// The supplied callback address failed the host's validation.
    InvalidCallbackAddress,
    /// The original packet on the acknowledgment path could not be decoded.
    PacketDecode,
}

/// The single directive handed to the host transport: send these bytes on
/// this channel, to expire at this absolute time.
#[derive(Debug)]
pub struct SendPacket {
    pub channel_id: Vec<u8>,
    pub data: Vec<u8>,
    pub timeout: u64,
}

/// The execute surface: initiate one batched query dispatch.
pub enum ExecuteMsg {
    IbcQuery { channel_id: Vec<u8>, msgs: Vec<Vec<u8>>, callback: Option<Vec<u8>> },
}

/// A dispatch request the dispatcher accepts: a non-empty batch of
/// well-formed opaque serialized sub-queries.
pub open spec fn execute_msg_wf(m: ExecuteMsg) -> bool {
    match m {
        ExecuteMsg::IbcQuery { msgs, .. } => msgs@.len() > 0 && forall|k: int|
            0 <= k < msgs@.len() ==> blob_ok((#[trigger] msgs@[k])@),
    }
}

/// Builds the send directive for one dispatch: the packet's wire form and
/// an expiry of now plus the packet lifetime.  `callback_valid` is the
/// host's verdict on the supplied callback address; with no callback it is
/// not consulted.
pub fn execute_ibc_query(
    env_time: u64,
    packet_lifetime: u64,
    callback_valid: bool,
    channel_id: Vec<u8>,
    msgs: Vec<Vec<u8>>,
    callback: Option<Vec<u8>>,
) -> (r: Result<SendPacket, ContractError>)
    requires
        msgs@.len() > 0,
        forall|k: int| 0 <= k < msgs@.len() ==> blob_ok((#[trigger] msgs@[k])@),
        env_time + packet_lifetime <= u64::MAX,
    ensures
        r is Err <==> (callback matches Some(_)) && !callback_valid,
        r is Err ==> r == Err::<SendPacket, ContractError>(ContractError::InvalidCallbackAddress),
        r matches Ok(sp) ==> sp.channel_id@ == channel_id@ && sp.timeout == env_time
            + packet_lifetime && sp.data@ == enc_packet(
            PacketView {
                msgs: msgs@.map_values(|m: Vec<u8>| m@),
                callback: match callback {
                    Some(c) => Some(c@),
                    None => None,
                },
            },
        ),
{
    match callback {
        Some(_) => {
            if !callback_valid {
                return Err(ContractError::InvalidCallbackAddress);
            }
        },
        None => {},
    }
    let packet = PacketMsg::IbcQuery { msgs, callback };
    let data = encode_packet(&packet);
    Ok(SendPacket { channel_id, data, timeout: env_time + packet_lifetime })
}

/// Handles one execute-surface call: rejects any attached payment, then
/// dispatches the query.
pub fn execute(
    env_time: u64,
    packet_lifetime: u64,
    info: &MessageInfo,
    callback_valid: bool,
    msg: ExecuteMsg,
) -> (r: Result<SendPacket, ContractError>)
    requires
        execute_msg_wf(msg),
        env_time + packet_lifetime <= u64::MAX,
    ensures
        info.funds@.len() > 0 ==> r == Err::<SendPacket, ContractError>(
            ContractError::Payment(PaymentError::NonPayable),
        ),
        info.funds@.len() == 0 ==> match msg {
            ExecuteMsg::IbcQuery { channel_id, msgs, callback } => {
                &&& (r is Err <==> (callback matches Some(_)) && !callback_valid)
                &&& r is Err ==> r == Err::<SendPacket, ContractError>(
                    ContractError::InvalidCallbackAddress,
                )
                &&& r matches Ok(sp) ==> sp.channel_id@ == channel_id@ && sp.timeout == env_time
                    + packet_lifetime && sp.data@ == enc_packet(
                    PacketView {
                        msgs: msgs@.map_values(|m: Vec<u8>| m@),
                        callback: match callback {
                            Some(c) => Some(c@),
                            None => None,
                        },
                    },
                )
            },
        },
{
    match nonpayable(info) {
        Ok(()) => {},
        Err(e) => {
            return Err(ContractError::Payment(e));
        },
    }
    match msg {
        ExecuteMsg::IbcQuery { channel_id, msgs, callback } => execute_ibc_query(
            env_time,
            packet_lifetime,
            callback_valid,
            channel_id,
            msgs,
            callback,
        ),
    }
}

} // verus!
