use paxos::codec::{decode_msg, encode_msg};
use paxos::protocol::{Ballot, PaxosMsg};

fn round_trip(m: PaxosMsg) {
    let bytes = encode_msg(&m);
    let back = decode_msg(&bytes);
    assert_eq!(back, Some(m));
}

#[test]
fn codec_prepare_round_trip() {
    round_trip(PaxosMsg::Prepare { ballot: Ballot(3, 1), holes: vec![0, 2, 5, 7] });
    round_trip(PaxosMsg::Prepare { ballot: Ballot(0, 0), holes: vec![0] });
}

#[test]
fn codec_promise_round_trip() {
    round_trip(PaxosMsg::Promise {
        ballot: Ballot(9, 4),
        accepted: vec![
            (0, Ballot(1, 2), b"alpha".to_vec()),
            (3, Ballot(2, 0), Vec::new()),
            (7, Ballot(9, 4), b"b".to_vec()),
        ],
    });
    round_trip(PaxosMsg::Promise { ballot: Ballot(1, 1), accepted: Vec::new() });
}

#[test]
fn codec_propose_round_trip() {
    round_trip(PaxosMsg::Propose { index: 12, ballot: Ballot(7, 3), value: b"cmd".to_vec() });
    round_trip(PaxosMsg::Propose { index: 0, ballot: Ballot(0, 0), value: Vec::new() });
}

#[test]
fn codec_accept_round_trip() {
    round_trip(PaxosMsg::Accept { index: 42, ballot: Ballot(17, 2) });
}

#[test]
fn codec_learn_round_trip() {
    round_trip(PaxosMsg::Learn { index: 3, ballot: Ballot(2, 2), value: b"chosen".to_vec() });
}

#[test]
fn codec_nack_round_trip() {
    round_trip(PaxosMsg::Nack { ballot: Ballot(100, 1) });
}

#[test]
fn codec_client_request_round_trip() {
    round_trip(PaxosMsg::ClientRequest(b"deposit 100".to_vec()));
    round_trip(PaxosMsg::ClientRequest(Vec::new()));
}

#[test]
fn codec_rejects_malformed_input() {
    // empty buffer
    assert_eq!(decode_msg(&Vec::new()), None);
    // unknown tags
    assert_eq!(decode_msg(&vec![0]), None);
    assert_eq!(decode_msg(&vec![8]), None);
    assert_eq!(decode_msg(&vec![255]), None);
    // truncated Accept
    let bytes = encode_msg(&PaxosMsg::Accept { index: 1, ballot: Ballot(1, 1) });
    assert_eq!(decode_msg(&bytes[..bytes.len() - 1].to_vec()), None);
    // trailing garbage is rejected
    let mut bytes = encode_msg(&PaxosMsg::Nack { ballot: Ballot(1, 2) });
    bytes.push(0);
    assert_eq!(decode_msg(&bytes), None);
}

#[test]
fn codec_encoding_is_deterministic() {
    let m = PaxosMsg::Learn { index: 5, ballot: Ballot(3, 1), value: b"v".to_vec() };
    assert_eq!(encode_msg(&m), encode_msg(&m.clone()));
}

#[test]
fn codec_value_bytes_survive_exactly() {
    let payload: Vec<u8> = (0..=255).collect();
    round_trip(PaxosMsg::ClientRequest(payload));
}
