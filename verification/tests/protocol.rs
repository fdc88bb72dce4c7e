//! Protocol tests: the handshake, dispatch, inbound execution against the
//! host's mock query engine, acknowledgment processing, and the result
//! cache.

use cosmwasm_std::testing::mock_dependencies;
use cosmwasm_std::{BankQuery, Empty, QueryRequest};
use cw_ibc_queries::ack::{decode_ack, QueryOutcome, StdAck};
use cw_ibc_queries::contract::{
    execute, instantiate, Coin, ContractError, ExecuteMsg, InstantiateMsg, MessageInfo,
    PaymentError,
};
use cw_ibc_queries::handshake::{ibc_channel_open, ChannelOrder, SimpleIcaError};
use cw_ibc_queries::ibc::{
    ack_for_outcomes, acknowledge_query, ibc_channel_connect, ibc_packet_ack,
    ibc_packet_timeout, receive_query, PacketAckEvent, QueryEngine,
};
use cw_ibc_queries::receiver;
use cw_ibc_queries::state::{PendingChannel, ResultStore};

fn bytes(s: &str) -> Vec<u8> {
    s.as_bytes().to_vec()
}

fn plain_info(sender: &str) -> MessageInfo {
    MessageInfo { sender: bytes(sender), funds: vec![] }
}

#[test]
fn instantiate_works() {
    let cfg = instantiate(&InstantiateMsg { packet_lifetime: 60u64 });
    assert_eq!(cfg.packet_lifetime, 60u64);
}

#[test]
fn enforce_version_in_handshake() {
    let wrong_order =
        ibc_channel_open(&ChannelOrder::Ordered, &Some(bytes("simple-ica-v1")));
    assert_eq!(wrong_order, Err(SimpleIcaError::InvalidChannelOrder));

    let wrong_version = ibc_channel_open(&ChannelOrder::Unordered, &Some(bytes("reflect")));
    assert_eq!(wrong_version, Err(SimpleIcaError::InvalidVersion));

    let valid_handshake =
        ibc_channel_open(&ChannelOrder::Unordered, &Some(bytes("simple-ica-v1")));
    assert_eq!(valid_handshake, Ok(bytes("simple-ica-v1")));
}

#[test]
fn proper_handshake_flow() {
    let channel_id = bytes("channel-1234");

    // first we open with a valid proposal; no counterparty version exists yet
    let open = ibc_channel_open(&ChannelOrder::Unordered, &None);
    assert_eq!(open, Ok(bytes("simple-ica-v1")));

    // then we connect, which records the pending channel and nothing else
    let mut pending = PendingChannel::new();
    ibc_channel_connect(&mut pending, &channel_id);
    assert_eq!(pending.take(), Some(channel_id));
}

#[test]
fn try_receive_query() {
    let deps = mock_dependencies();
    let engine = QueryEngine { querier: deps.as_ref().querier };

    let request = cosmwasm_std::to_json_vec(&QueryRequest::<Empty>::Bank(
        BankQuery::AllBalances { address: String::from("test") },
    ))
    .unwrap();
    let ack = receive_query(&engine, &vec![request]);
    match decode_ack(&ack) {
        Some(StdAck::Success(_)) => {},
        _ => panic!("a batch acknowledgment must be the success variant"),
    }
}

#[test]
fn try_acknowledge_query() {
    let mut results = ResultStore::new();
    let event = PacketAckEvent {
        src_channel_id: bytes("channel-42"),
        original_packet_data: bytes("{}"),
        raw: vec![],
    };
    let forward = acknowledge_query(&mut results, 7, &event.src_channel_id, &None, &event.raw);
    assert!(forward.is_none());
    let stored = results.load(&bytes("channel-42")).unwrap();
    assert_eq!(stored.last_update_time, 7);
    assert_eq!(stored.response, Vec::<u8>::new());
}

#[test]
fn executor_keeps_order_and_count() {
    let outcomes = vec![
        QueryOutcome::Success(bytes("hi")),
        QueryOutcome::Failure(bytes("bad key")),
    ];
    let ack = ack_for_outcomes(&outcomes);
    assert_eq!(
        ack,
        bytes(
            "{\"ok\":\"eyJyZXN1bHRzIjpbImV5SnZheUk2SW1GSGF6MGlmUT09IiwiZXlKbGNuSnZjaUk2SW1KaFpDQnJaWGtpZlE9PSJdfQ==\"}"
        )
    );
    // an empty batch still acknowledges, with zero entries
    let empty = ack_for_outcomes(&vec![]);
    assert_eq!(empty, bytes("{\"ok\":\"eyJyZXN1bHRzIjpbXX0=\"}"));
}

#[test]
fn ack_overwrites_not_appends() {
    let mut results = ResultStore::new();
    let channel = bytes("c1");
    acknowledge_query(&mut results, 1, &channel, &None, &bytes("first"));
    acknowledge_query(&mut results, 2, &channel, &None, &bytes("second"));
    let stored = results.load(&channel).unwrap();
    assert_eq!(stored.last_update_time, 2);
    assert_eq!(stored.response, bytes("second"));
    // a different channel keeps its own entry
    acknowledge_query(&mut results, 3, &bytes("c2"), &None, &bytes("other"));
    assert_eq!(results.load(&channel).unwrap().response, bytes("second"));
}

#[test]
fn callback_forwarding_counts() {
    let mut results = ResultStore::new();
    let with_callback = acknowledge_query(
        &mut results,
        5,
        &bytes("c1"),
        &Some(bytes("contractY")),
        &bytes("the ack"),
    );
    let forward = with_callback.expect("a named callback gets exactly one forwarding call");
    assert_eq!(forward.contract_addr, bytes("contractY"));
    assert_eq!(
        forward.msg,
        bytes("{\"receive_ibc_response\":{\"msg\":the ack}}")
    );

    let without_callback =
        acknowledge_query(&mut results, 6, &bytes("c1"), &None, &bytes("later ack"));
    assert!(without_callback.is_none());
    assert_eq!(results.load(&bytes("c1")).unwrap().response, bytes("later ack"));
}

#[test]
fn dispatch_rejects_payment_and_bad_callback() {
    let msg = || ExecuteMsg::IbcQuery {
        channel_id: bytes("c1"),
        msgs: vec![bytes("{\"a\":1}")],
        callback: Some(bytes("contractY")),
    };
    let paid = MessageInfo {
        sender: bytes("caller"),
        funds: vec![Coin { denom: bytes("uatom"), amount: 5 }],
    };
    let r = execute(1000, 60, &paid, true, msg());
    assert_eq!(r.unwrap_err(), ContractError::Payment(PaymentError::NonPayable));

    let r = execute(1000, 60, &plain_info("caller"), false, msg());
    assert_eq!(r.unwrap_err(), ContractError::InvalidCallbackAddress);
}

#[test]
fn timeout_leaves_store_unchanged() {
    let mut results = ResultStore::new();
    acknowledge_query(&mut results, 1, &bytes("c1"), &None, &bytes("kept"));
    ibc_packet_timeout(&mut results);
    assert_eq!(results.load(&bytes("c1")).unwrap().response, bytes("kept"));
}

#[test]
fn full_query_flow() {
    // open channel "c1": unordered is accepted, the canonical version returned
    let open = ibc_channel_open(&ChannelOrder::Unordered, &None);
    assert_eq!(open, Ok(bytes("simple-ica-v1")));

    // dispatch a one-query batch with a callback; expiry is now + lifetime
    let sent = execute(
        1000,
        60,
        &plain_info("caller"),
        true,
        ExecuteMsg::IbcQuery {
            channel_id: bytes("c1"),
            msgs: vec![bytes("{\"balance\":{\"addr\":\"x\"}}")],
            callback: Some(bytes("contractY")),
        },
    )
    .unwrap();
    assert_eq!(sent.channel_id, bytes("c1"));
    assert_eq!(sent.timeout, 1060);
    assert_eq!(
        sent.data,
        bytes(
            "{\"ibc_query\":{\"msgs\":[{\"balance\":{\"addr\":\"x\"}}],\"callback\":\"contractY\"}}"
        )
    );

    // the acknowledgment arrives: one successful outcome
    let raw_ack = ack_for_outcomes(&vec![QueryOutcome::Success(bytes("{\"balance\":100}"))]);
    let mut results = ResultStore::new();
    let event = PacketAckEvent {
        src_channel_id: bytes("c1"),
        original_packet_data: sent.data.clone(),
        raw: raw_ack.clone(),
    };
    let forward = ibc_packet_ack(&mut results, 2000, &event).unwrap();
    let forward = forward.expect("the packet named a callback");
    assert_eq!(forward.contract_addr, bytes("contractY"));

    // the store holds exactly the delivered acknowledgment
    let stored = results.load(&bytes("c1")).unwrap();
    assert_eq!(stored.last_update_time, 2000);
    assert_eq!(stored.response, raw_ack);

    // an original packet that does not decode is a hard failure, no write
    let mut untouched = ResultStore::new();
    let bad = PacketAckEvent {
        src_channel_id: bytes("c1"),
        original_packet_data: bytes("garbage"),
        raw: raw_ack,
    };
    assert_eq!(
        ibc_packet_ack(&mut untouched, 2000, &bad).unwrap_err(),
        ContractError::PacketDecode
    );
    assert!(untouched.load(&bytes("c1")).is_none());
}

#[test]
fn receiver_records_and_serves_results() {
    let mut results = ResultStore::new();

    // nothing recorded yet: not found
    let missing = receiver::query(
        &results,
        &receiver::QueryMsg::LatestQueryResult { channel_id: bytes("c1") },
    );
    assert_eq!(missing.unwrap_err(), receiver::QueryError::NotFound);

    // a forwarded acknowledgment is recorded under its channel
    let msg = receiver::ExecuteMsg::ReceiveIbcResponse(receiver::ReceiveIbcResponseMsg {
        msg: PacketAckEvent {
            src_channel_id: bytes("c1"),
            original_packet_data: bytes("{}"),
            raw: bytes("the ack event"),
        },
    });
    receiver::execute(&mut results, 42, &plain_info("origin"), &msg).unwrap();
    let stored = receiver::query(
        &results,
        &receiver::QueryMsg::LatestQueryResult { channel_id: bytes("c1") },
    )
    .unwrap();
    assert_eq!(stored.last_update_time, 42);
    assert_eq!(stored.response, bytes("the ack event"));

    // the receiver too is fee-less
    let paid = MessageInfo {
        sender: bytes("origin"),
        funds: vec![Coin { denom: bytes("uatom"), amount: 1 }],
    };
    let r = receiver::execute(&mut results, 43, &paid, &msg);
    assert_eq!(r.unwrap_err(), ContractError::Payment(PaymentError::NonPayable));
}

#[test]
fn pending_registry_single_slot() {
    let mut pending = PendingChannel::new();
    assert_eq!(pending.take(), None);
    ibc_channel_connect(&mut pending, &bytes("c1"));
    ibc_channel_connect(&mut pending, &bytes("c2"));
    // at most one marker is outstanding: the later connect overwrote
    assert_eq!(pending.take(), Some(bytes("c2")));
    assert_eq!(pending.take(), None);
}
