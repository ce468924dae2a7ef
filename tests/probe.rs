use canzero_cli::fingerprint::{
    decode_reply_fragment, encode_fingerprint_request, fingerprint_request_frame, is_reply_for,
    join_fragments, Frame, MessageIdentity,
};
use canzero_cli::prober::{
    probe_all, probe_node, rx_get_resp_hash_code, NodeIdentity, NodeProbe, NodeState, ProbeOutcome, ProbePhase,
    ProbeSettings, TimedFrame,
};

const REPLY: MessageIdentity = MessageIdentity { id: 0x123, extended: false };
const LOCAL: u64 = 0xAABB_CCDD_1122_3344;

fn fragment(originator: u8, node: u8, half: u32, elapsed_ms: u64) -> TimedFrame {
    let data = ((half as u64) << 32) | ((node as u64) << 24) | ((originator as u64) << 16);
    TimedFrame { frame: Frame { identity: REPLY, dlc: 8, data }, elapsed_ms }
}

fn node(id: u8) -> NodeIdentity {
    NodeIdentity { node_id: id, name: format!("node{id}"), object_entry_id: 7 }
}

fn settings() -> ProbeSettings {
    ProbeSettings { reply: REPLY, local_fingerprint: LOCAL, timeout_ms: 250 }
}

#[test]
fn request_payload_layout() {
    let r = encode_fingerprint_request(0x0123, 5);
    assert_eq!(r, 0x0123 | (0xFF << 13) | (5 << 21));
    assert_eq!(r & 0x1FFF, 0x0123);
    assert_eq!((r >> 13) & 0xFF, 0xFF);
    assert_eq!((r >> 21) & 0xFF, 5);
    let f = fingerprint_request_frame(MessageIdentity { id: 0x200, extended: true }, 4, 0x1FFF, 255);
    assert_eq!(f.identity, MessageIdentity { id: 0x200, extended: true });
    assert_eq!(f.dlc, 4);
    assert_eq!(f.data, 0x1FFF | (0xFF << 13) | (255 << 21));
}

#[test]
fn reply_fragment_fields() {
    let f = decode_reply_fragment(0xDEAD_BEEF_0AFF_1234);
    assert_eq!(f.originator_id, 0xFF);
    assert_eq!(f.responder_node_id, 0x0A);
    assert_eq!(f.fragment, 0xDEAD_BEEF);
}

#[test]
fn fragments_join_low_then_high() {
    assert_eq!(join_fragments(0x1122_3344, 0xAABB_CCDD), LOCAL);
    assert_eq!(join_fragments(0, 0), 0);
    assert_eq!(join_fragments(u32::MAX, u32::MAX), u64::MAX);
}

#[test]
fn reply_filter_checks_identity_originator_and_responder() {
    assert!(is_reply_for(&fragment(0xFF, 3, 1, 0).frame, REPLY, 3));
    assert!(!is_reply_for(&fragment(0x01, 3, 1, 0).frame, REPLY, 3));
    assert!(!is_reply_for(&fragment(0xFF, 4, 1, 0).frame, REPLY, 3));
    let mut other = fragment(0xFF, 3, 1, 0).frame;
    other.identity.extended = true;
    assert!(!is_reply_for(&other, REPLY, 3));
}

#[test]
fn matching_fingerprint_is_online() {
    let frames = vec![fragment(0xFF, 1, 0x1122_3344, 10), fragment(0xFF, 1, 0xAABB_CCDD, 40)];
    let s = probe_node(&node(1), &frames, settings());
    assert_eq!(s.state, NodeState::Online);
    assert_eq!(s.round_trip_ms, Some(40));
    assert_eq!(s.node.node_id, 1);
    assert_eq!(s.node.name, "node1");
}

#[test]
fn differing_fingerprint_is_desync_whatever_the_latency() {
    for t in [1u64, 100, 249] {
        let frames = vec![fragment(0xFF, 2, 0x1122_3344, 0), fragment(0xFF, 2, 0xAABB_CCDE, t)];
        let s = probe_node(&node(2), &frames, settings());
        assert_eq!(s.state, NodeState::Desync);
        assert_eq!(s.round_trip_ms, Some(t));
    }
}

#[test]
fn one_fragment_is_offline() {
    let frames = vec![fragment(0xFF, 1, 0x1122_3344, 10)];
    let s = probe_node(&node(1), &frames, settings());
    assert_eq!(s.state, NodeState::Offline);
    assert_eq!(s.round_trip_ms, None);
    let s = probe_node(&node(1), &vec![], settings());
    assert_eq!(s.state, NodeState::Offline);
}

#[test]
fn fragment_after_deadline_does_not_count() {
    let frames = vec![fragment(0xFF, 1, 0x1122_3344, 10), fragment(0xFF, 1, 0xAABB_CCDD, 250)];
    let s = probe_node(&node(1), &frames, settings());
    assert_eq!(s.state, NodeState::Offline);
    assert_eq!(s.round_trip_ms, None);
}

#[test]
fn frames_after_a_late_frame_are_ignored() {
    let late = TimedFrame { frame: Frame { identity: MessageIdentity { id: 9, extended: false }, dlc: 0, data: 0 }, elapsed_ms: 300 };
    let frames = vec![
        fragment(0xFF, 1, 0x1122_3344, 10),
        late,
        fragment(0xFF, 1, 0xAABB_CCDD, 20),
    ];
    let s = probe_node(&node(1), &frames, settings());
    assert_eq!(s.state, NodeState::Offline);
}

#[test]
fn foreign_fragments_are_ignored() {
    let background = TimedFrame { frame: Frame { identity: MessageIdentity { id: 0x50, extended: false }, dlc: 8, data: u64::MAX }, elapsed_ms: 1 };
    let frames = vec![
        background,
        fragment(0x01, 1, 0xFFFF_FFFF, 2),
        fragment(0xFF, 7, 0xFFFF_FFFF, 3),
        fragment(0xFF, 1, 0x1122_3344, 4),
        fragment(0x02, 1, 0, 5),
        fragment(0xFF, 2, 0, 6),
        fragment(0xFF, 1, 0xAABB_CCDD, 7),
    ];
    let s = probe_node(&node(1), &frames, settings());
    assert_eq!(s.state, NodeState::Online);
    assert_eq!(s.round_trip_ms, Some(7));
}

#[test]
fn state_machine_steps() {
    let mut p = NodeProbe::new(1, REPLY, LOCAL, 250);
    assert_eq!(p.phase, ProbePhase::WaitingFirstFragment);
    p.on_frame(fragment(0xFF, 9, 0x1, 5));
    assert_eq!(p.phase, ProbePhase::WaitingFirstFragment);
    p.on_frame(fragment(0xFF, 1, 0x1122_3344, 6));
    assert_eq!(p.phase, ProbePhase::WaitingSecondFragment { low: 0x1122_3344 });
    assert!(!p.is_done());
    p.on_frame(fragment(0xFF, 1, 0xAABB_CCDD, 7));
    assert!(p.is_done());
    let done = ProbePhase::Classified { outcome: ProbeOutcome { state: NodeState::Online, round_trip_ms: Some(7) } };
    assert_eq!(p.phase, done);
    p.on_frame(fragment(0xFF, 1, 0, 8));
    p.on_deadline();
    assert_eq!(p.phase, done);
}

#[test]
fn deadline_classifies_offline() {
    let mut p = NodeProbe::new(1, REPLY, LOCAL, 250);
    p.on_frame(fragment(0xFF, 1, 0x1122_3344, 6));
    p.on_deadline();
    assert_eq!(p.phase, ProbePhase::Classified { outcome: ProbeOutcome { state: NodeState::Offline, round_trip_ms: None } });
}

#[test]
fn three_nodes_end_to_end() {
    let nodes = vec![node(1), node(2), node(3)];
    let streams = vec![
        vec![fragment(0xFF, 1, 0x1122_3344, 20), fragment(0xFF, 1, 0xAABB_CCDD, 50)],
        vec![fragment(0xFF, 2, 0, 20), fragment(0xFF, 2, 0, 30)],
        vec![],
    ];
    let r = probe_all(&nodes, &streams, settings());
    assert_eq!(r.len(), 3);
    assert_eq!((r[0].node.node_id, r[0].state), (1, NodeState::Online));
    assert_eq!((r[1].node.node_id, r[1].state), (2, NodeState::Desync));
    assert_eq!((r[2].node.node_id, r[2].state), (3, NodeState::Offline));
    assert_eq!(r[0].round_trip_ms, Some(50));
    assert_eq!(r[2].round_trip_ms, None);
}

#[test]
fn node_without_stream_is_offline() {
    let nodes = vec![node(1), node(2)];
    let streams = vec![vec![fragment(0xFF, 1, 0x1122_3344, 20), fragment(0xFF, 1, 0xAABB_CCDD, 50)]];
    let r = probe_all(&nodes, &streams, settings());
    assert_eq!(r[0].state, NodeState::Online);
    assert_eq!(r[1].state, NodeState::Offline);
}

#[test]
fn hash_code_from_first_two_fragments() {
    let frames = vec![
        fragment(0x01, 4, 0x9999_9999, 0),
        fragment(0xFF, 4, 0x1122_3344, 0),
        fragment(0xFF, 5, 0x7777_7777, 0),
        fragment(0xFF, 4, 0xAABB_CCDD, 0),
        fragment(0xFF, 4, 0x0000_0001, 0),
    ];
    assert_eq!(rx_get_resp_hash_code(&frames, REPLY, 4), Some(LOCAL));
    assert_eq!(rx_get_resp_hash_code(&frames, REPLY, 5), None);
    assert_eq!(rx_get_resp_hash_code(&vec![], REPLY, 4), None);
}
