//! Wire-format tests: exact encodings, and decode of the encoding giving
//! back an equal value.

use cw_ibc_queries::ack::{decode_ack, encode_ack, StdAck};
use cw_ibc_queries::b64::{b64_decode, b64_encode};
use cw_ibc_queries::packet::{decode_packet, encode_packet, PacketMsg};
use cw_ibc_queries::scan::check_blob;

fn bytes(s: &str) -> Vec<u8> {
    s.as_bytes().to_vec()
}

#[test]
fn b64_known_vectors() {
    assert_eq!(b64_encode(&bytes("")), bytes(""));
    assert_eq!(b64_encode(&bytes("f")), bytes("Zg=="));
    assert_eq!(b64_encode(&bytes("fo")), bytes("Zm8="));
    assert_eq!(b64_encode(&bytes("foo")), bytes("Zm9v"));
    assert_eq!(b64_encode(&bytes("Man")), bytes("TWFu"));
}

#[test]
fn b64_round_trip_and_rejection() {
    for input in [
        bytes(""),
        bytes("a"),
        bytes("ab"),
        bytes("abc"),
        vec![0u8, 255, 7, 128, 63, 64],
    ] {
        let enc = b64_encode(&input);
        assert_eq!(b64_decode(&enc), Some(input));
    }
    // not a multiple of four characters
    assert_eq!(b64_decode(&bytes("Zg=")), None);
    // a byte outside the alphabet
    assert_eq!(b64_decode(&bytes("Z@==")), None);
    // non-canonical padding bits
    assert_eq!(b64_decode(&bytes("Zh==")), None);
}

#[test]
fn packet_encoding_is_exact() {
    let packet = PacketMsg::IbcQuery {
        msgs: vec![bytes("{\"bank\":{\"all_balances\":{\"address\":\"test\"}}}")],
        callback: Some(bytes("contractY")),
    };
    let data = encode_packet(&packet);
    assert_eq!(
        data,
        bytes(
            "{\"ibc_query\":{\"msgs\":[{\"bank\":{\"all_balances\":{\"address\":\"test\"}}}],\"callback\":\"contractY\"}}"
        )
    );
}

#[test]
fn packet_round_trip() {
    let cases = vec![
        (vec![], None),
        (vec![bytes("{\"a\":1}")], None),
        (vec![bytes("{\"a\":1}"), bytes("[1,2,{\"b\":\"x,y]\"}]")], Some(bytes("addr1"))),
        (vec![bytes("\"quoted,string\\\"with]brace}\"")], Some(bytes("odd\"addr\\x"))),
    ];
    for (msgs, callback) in cases {
        let packet = PacketMsg::IbcQuery { msgs: msgs.clone(), callback: callback.clone() };
        let data = encode_packet(&packet);
        match decode_packet(&data) {
            Some(PacketMsg::IbcQuery { msgs: m2, callback: c2 }) => {
                assert_eq!(m2, msgs);
                assert_eq!(c2, callback);
            },
            None => panic!("a packet's own encoding must decode"),
        }
    }
}

#[test]
fn packet_decode_rejects_malformed() {
    assert!(decode_packet(&bytes("")).is_none());
    assert!(decode_packet(&bytes("{\"other\":1}")).is_none());
    assert!(decode_packet(&bytes("{\"ibc_query\":{\"msgs\":[],\"callback\":null}")).is_none());
    assert!(decode_packet(&bytes("{\"ibc_query\":{\"msgs\":[,],\"callback\":null}}")).is_none());
    assert!(
        decode_packet(&bytes("{\"ibc_query\":{\"msgs\":[{}],\"callback\":null}} ")).is_none()
    );
}

#[test]
fn ack_encoding_is_exact() {
    assert_eq!(encode_ack(&StdAck::Success(bytes("abc"))), bytes("{\"ok\":\"YWJj\"}"));
    assert_eq!(encode_ack(&StdAck::Error(bytes("boom"))), bytes("{\"error\":\"boom\"}"));
}

#[test]
fn ack_round_trip() {
    let cases = vec![
        StdAck::Success(bytes("")),
        StdAck::Success(bytes("payload bytes")),
        StdAck::Error(bytes("")),
        StdAck::Error(bytes("cannot decode \"this\" \\ packet")),
    ];
    for ack in cases {
        let data = encode_ack(&ack);
        match (decode_ack(&data), &ack) {
            (Some(StdAck::Success(p2)), StdAck::Success(p1)) => assert_eq!(&p2, p1),
            (Some(StdAck::Error(m2)), StdAck::Error(m1)) => assert_eq!(&m2, m1),
            _ => panic!("an acknowledgment's own encoding must decode to it"),
        }
    }
}

#[test]
fn ack_decode_rejects_malformed() {
    assert!(decode_ack(&bytes("")).is_none());
    assert!(decode_ack(&bytes("{\"ok\":\"Zg=\"}")).is_none());
    assert!(decode_ack(&bytes("{\"ok\":\"YWJj\"} ")).is_none());
    assert!(decode_ack(&bytes("{\"error\":\"unterminated")).is_none());
}

#[test]
fn blob_check_accepts_serialized_values() {
    assert!(check_blob(&bytes("{\"a\":1}")));
    assert!(check_blob(&bytes("[1,2,3]")));
    assert!(check_blob(&bytes("\"a,b]}\"")));
    assert!(check_blob(&bytes("123")));
    assert!(!check_blob(&bytes("")));
    assert!(!check_blob(&bytes("1,2")));
    assert!(!check_blob(&bytes("}")));
    assert!(!check_blob(&bytes("{\"open\":1")));
    assert!(!check_blob(&bytes("\"unterminated")));
}
