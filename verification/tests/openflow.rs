use hull::openflow::client::{encode_barrier_request, encode_hello, on_message, Connection, Error, Expect, Step};
use hull::openflow::protocol::action::Action;
use hull::openflow::protocol::constants::{ETH_TYPE_ARP, OFPP_IN_PORT};
use hull::openflow::protocol::error::OfErr;
use hull::openflow::protocol::header::Header;
use hull::openflow::protocol::instruction::Instruction;
use hull::openflow::protocol::message::{decode, Message};
use hull::openflow::protocol::ofmatch::Match;
use hull::openflow::protocol::oxm;
use hull::openflow::protocol::rule::Rule;

#[test]
fn header_round_trip() {
    let h = Header { version: 6, msg_type: 14, length: 56, xid: 0x0102_0304 };
    let mut out = Vec::new();
    h.encode(&mut out);
    assert_eq!(out, vec![6, 14, 0, 56, 1, 2, 3, 4]);
    let back = Header::parse(&out).unwrap();
    assert_eq!((back.version, back.msg_type, back.length, back.xid), (6, 14, 56, 0x0102_0304));
}

#[test]
fn header_parse_errors() {
    assert!(matches!(Header::parse(&[6, 0, 0, 8]), Err(OfErr::ShortBuffer)));
    assert!(matches!(Header::parse(&[4, 0, 0, 8, 0, 0, 0, 0]), Err(OfErr::UnsupportedVersion(4))));
    assert!(matches!(Header::parse(&[6, 0, 0, 7, 0, 0, 0, 0]), Err(OfErr::InvalidLength(7))));
}

#[test]
fn hello_and_barrier_frames() {
    assert_eq!(encode_hello(7), vec![6, 0, 0, 8, 0, 0, 0, 7]);
    assert_eq!(encode_barrier_request(9), vec![6, 20, 0, 8, 0, 0, 0, 9]);
    let mut c = Connection::new(());
    let first = c.hello_frame();
    let (xid, barrier) = c.barrier_frame();
    assert_eq!(first[4..8], [0, 0, 0, 1]);
    assert_eq!(xid, 2);
    assert_eq!(barrier, vec![6, 20, 0, 8, 0, 0, 0, 2]);
}

#[test]
fn decode_messages() {
    assert!(matches!(decode(&[6, 0, 0, 8, 0, 0, 0, 1]), Ok(Message::Hello)));
    assert!(matches!(decode(&[6, 21, 0, 8, 0, 0, 0, 5]), Ok(Message::BarrierReply { xid: 5 })));
    match decode(&[6, 1, 0, 14, 0, 0, 0, 1, 0, 3, 0, 4, 9, 9]) {
        Ok(Message::Error { error_type, code, data }) => {
            assert_eq!((error_type, code), (3, 4));
            assert_eq!(data, vec![9, 9]);
        }
        other => panic!("unexpected {other:?}"),
    }
    assert!(matches!(decode(&[6, 1, 0, 10, 0, 0, 0, 1, 0, 0]), Err(OfErr::InvalidLength(10))));
    assert!(matches!(decode(&[6, 0, 0, 16, 0, 0, 0, 1]), Err(OfErr::ShortBuffer)));
    assert!(matches!(decode(&[6, 2, 0, 8, 0, 0, 0, 1]), Ok(Message::Ignored)));
    let mut features = vec![6, 6, 0, 32, 0, 0, 0, 1];
    features.extend([0u8; 24]);
    assert!(matches!(decode(&features), Ok(Message::FeaturesReply(_))));
    assert!(matches!(decode(&features[..16]), Err(OfErr::ShortBuffer)));
}

#[test]
fn handshake_steps() {
    assert!(matches!(on_message(Expect::Hello, Message::Hello), Step::Done));
    assert!(matches!(
        on_message(Expect::Hello, Message::BarrierReply { xid: 1 }),
        Step::Fail(Error::UnexpectedMessage { expected: "hello", .. })
    ));
    assert!(matches!(on_message(Expect::Barrier(3), Message::BarrierReply { xid: 2 }), Step::Continue));
    assert!(matches!(on_message(Expect::Barrier(3), Message::BarrierReply { xid: 3 }), Step::Done));
    assert!(matches!(on_message(Expect::FeaturesReply, Message::Ignored), Step::Continue));
    assert!(matches!(
        on_message(Expect::Barrier(1), Message::Error { error_type: 1, code: 2, data: vec![] }),
        Step::Fail(Error::Remote { error_type: 1, code: 2, .. })
    ));
}

#[test]
fn oxm_fields_encode_as_tlvs() {
    assert_eq!(oxm::eth_type(ETH_TYPE_ARP), vec![0x80, 0x00, 5 << 1, 2, 0x08, 0x06]);
    assert_eq!(oxm::in_port(3), vec![0x80, 0x00, 0, 4, 0, 0, 0, 3]);
    assert_eq!(
        oxm::ipv4_dst_masked([10, 0, 0, 0], [255, 0, 0, 0]),
        vec![0x80, 0x00, (12 << 1) | 1, 8, 10, 0, 0, 0, 255, 0, 0, 0]
    );
    assert_eq!(oxm::copy_field_ids(4, 6, 3, 6), vec![0x80, 0x00, 4 << 1, 6, 0x80, 0x00, 3 << 1, 6]);
}

#[test]
fn flow_mod_is_padded_and_framed() {
    let m = Match::new(vec![oxm::eth_type(ETH_TYPE_ARP), oxm::arp_op(1)]);
    let rule = Rule::add(
        0,
        0,
        280,
        m,
        vec![Instruction::apply_actions(vec![Action::SetField(oxm::arp_op(2)), Action::output(OFPP_IN_PORT)])],
    )
    .with_cookie(0xabc);
    let bytes = rule.encode();
    assert_eq!(bytes.len() % 8, 0);
    assert_eq!(usize::from(u16::from_be_bytes([bytes[2], bytes[3]])), bytes.len());
    assert_eq!(bytes[1], 14);
    assert_eq!(bytes[8..16], 0xabcu64.to_be_bytes());
    let h = Header::parse(&bytes).unwrap();
    assert_eq!(usize::from(h.length), bytes.len());
}

#[test]
fn delete_flows_frame_targets_cookie() {
    let mut c = Connection::new(());
    let bytes = c.delete_flows_frame(Some(7));
    assert_eq!(bytes[1], 14);
    assert_eq!(bytes[8..16], 7u64.to_be_bytes());
    assert_eq!(bytes[16..24], u64::MAX.to_be_bytes());
    let all = c.delete_flows_frame(None);
    assert_eq!(all[16..24], [0u8; 8]);
}
