//! The per-node fingerprint probe: correlation of reply fragments with the
//! outstanding request, reassembly of the fingerprint, and classification of
//! the node by the deadline.
use vstd::prelude::*;
use crate::fingerprint::{
    accepts, fragment_of, is_reply_for, join_fragments, joined, Frame, MessageIdentity,
};

verus! {

/// How a node answered the fingerprint request.
#[derive(Clone, Copy, Debug, PartialEq, Eq, Structural)]
pub enum NodeState {
    /// Both fragments came in time and match the local fingerprint.
    Online,
    /// Both fragments came in time and differ from the local fingerprint.
    Desync,
    /// Fewer than two fragments came before the deadline.
    Offline,
}

/// A frame taken from the shared inbound stream, stamped with the
/// milliseconds that had passed since the request was sent.
#[derive(Clone, Copy, Debug, PartialEq, Eq, Structural)]
pub struct TimedFrame {
    pub frame: Frame,
    pub elapsed_ms: u64,
}

/// What a probe settles on: the node's state and, unless it is offline,
/// the round trip in milliseconds.
#[derive(Clone, Copy, Debug, PartialEq, Eq, Structural)]
pub struct ProbeOutcome {
    pub state: NodeState,
    pub round_trip_ms: Option<u64>,
}

/// How many frames, counted from the first, arrived before the deadline.
pub open spec fn arrived_before(frames: Seq<TimedFrame>, timeout_ms: u64) -> nat
    decreases frames.len(),
{
    if frames.len() == 0 || frames[0].elapsed_ms >= timeout_ms {
        0
    } else {
        1 + arrived_before(frames.drop_first(), timeout_ms)
    }
}

/// The frames among `frames` that are reply fragments for node `node_id`,
/// in order of arrival.
pub open spec fn accepted_frames(frames: Seq<TimedFrame>, reply: MessageIdentity, node_id: u8) -> Seq<
    TimedFrame,
>
    decreases frames.len(),
{
    if frames.len() == 0 {
        Seq::empty()
    } else {
        let rest = accepted_frames(frames.drop_last(), reply, node_id);
        if accepts(frames.last().frame, reply, node_id) {
            rest.push(frames.last())
        } else {
            rest
        }
    }
}

/// The reply fragments for node `node_id` that arrived before the deadline.
pub open spec fn fragments_in_time(
    frames: Seq<TimedFrame>,
    reply: MessageIdentity,
    node_id: u8,
    timeout_ms: u64,
) -> Seq<TimedFrame> {
    accepted_frames(frames.take(arrived_before(frames, timeout_ms) as int), reply, node_id)
}

/// The classification from the accepted fragments: the first gives the low
/// half of the node's fingerprint, the second the high half.
pub open spec fn outcome_of(accepted: Seq<TimedFrame>, local_fingerprint: u64) -> ProbeOutcome {
    if accepted.len() < 2 {
        ProbeOutcome { state: NodeState::Offline, round_trip_ms: None }
    } else {
        let remote = joined(fragment_of(accepted[0].frame.data), fragment_of(accepted[1].frame.data));
        ProbeOutcome {
            state: if remote == local_fingerprint {
                NodeState::Online
            } else {
                NodeState::Desync
            },
            round_trip_ms: Some(accepted[1].elapsed_ms),
        }
    }
}

/// The outcome of probing node `node_id` when `frames` is the inbound
/// stream after the request was sent.
pub open spec fn probe_outcome(
    frames: Seq<TimedFrame>,
    reply: MessageIdentity,
    node_id: u8,
    local_fingerprint: u64,
    timeout_ms: u64,
) -> ProbeOutcome {
    outcome_of(fragments_in_time(frames, reply, node_id, timeout_ms), local_fingerprint)
}

/// Where a probe stands.
#[derive(Clone, Copy, Debug, PartialEq, Eq, Structural)]
pub enum ProbePhase {
    WaitingFirstFragment,
    WaitingSecondFragment { low: u32 },
    Classified { outcome: ProbeOutcome },
}

/// The probe of one node, driven by the frames of the inbound stream and by
/// its deadline.
pub struct NodeProbe {
    pub node_id: u8,
    pub reply: MessageIdentity,
    pub local_fingerprint: u64,
    pub timeout_ms: u64,
    pub phase: ProbePhase,
    /// The frames taken in while the probe was open.
    pub seen: Ghost<Seq<TimedFrame>>,
}

impl NodeProbe {
    pub open spec fn accepted(&self) -> Seq<TimedFrame> {
        accepted_frames(self.seen@, self.reply, self.node_id)
    }

    pub open spec fn is_classified(&self) -> bool {
        self.phase is Classified
    }

    pub open spec fn wf(&self) -> bool {
        &&& forall|i: int| 0 <= i < self.seen@.len() ==> #[trigger] self.seen@[i].elapsed_ms < self.timeout_ms
        &&& match self.phase {
            ProbePhase::WaitingFirstFragment => self.accepted().len() == 0,
            ProbePhase::WaitingSecondFragment { low } => {
                &&& self.accepted().len() == 1
                &&& low == fragment_of(self.accepted()[0].frame.data)
            },
            ProbePhase::Classified { outcome } => {
                &&& self.accepted().len() <= 2
                &&& outcome == outcome_of(self.accepted(), self.local_fingerprint)
            },
        }
    }

    /// A probe whose request has just been sent.
    pub fn new(node_id: u8, reply: MessageIdentity, local_fingerprint: u64, timeout_ms: u64) -> (r: NodeProbe)
        ensures
            r.wf(),
            r.node_id == node_id,
            r.reply == reply,
            r.local_fingerprint == local_fingerprint,
            r.timeout_ms == timeout_ms,
            r.phase == ProbePhase::WaitingFirstFragment,
            r.seen@ == Seq::<TimedFrame>::empty(),
    {
        NodeProbe {
            node_id,
            reply,
            local_fingerprint,
            timeout_ms,
            phase: ProbePhase::WaitingFirstFragment,
            seen: Ghost(Seq::empty()),
        }
    }

    /// Takes in one frame of the inbound stream. A frame stamped at or after
    /// the deadline closes the probe; once classified the probe ignores
    /// every further frame; a frame that is no reply fragment for this node
    /// leaves the phase as it was.
    pub fn on_frame(&mut self, f: TimedFrame)
        requires
            old(self).wf(),
        ensures
            final(self).wf(),
            final(self).node_id == old(self).node_id,
            final(self).reply == old(self).reply,
            final(self).local_fingerprint == old(self).local_fingerprint,
            final(self).timeout_ms == old(self).timeout_ms,
            old(self).is_classified() ==> *final(self) == *old(self),
            !old(self).is_classified() && f.elapsed_ms < old(self).timeout_ms
                ==> final(self).seen@ == old(self).seen@.push(f),
            !old(self).is_classified() && f.elapsed_ms >= old(self).timeout_ms ==> {
                &&& final(self).seen@ == old(self).seen@
                &&& final(self).is_classified()
            },
            !old(self).is_classified() && f.elapsed_ms < old(self).timeout_ms
                && !accepts(f.frame, old(self).reply, old(self).node_id)
                ==> final(self).phase == old(self).phase,
            !old(self).is_classified() && f.elapsed_ms < old(self).timeout_ms && final(self).is_classified()
                ==> final(self).accepted().len() == 2,
    {
        if self.is_done() {
            return;
        }
        if f.elapsed_ms >= self.timeout_ms {
            self.phase = ProbePhase::Classified {
                outcome: ProbeOutcome { state: NodeState::Offline, round_trip_ms: None },
            };
            return;
        }
        let ghost before = self.seen@;
        self.seen = Ghost(self.seen@.push(f));
        assert(self.seen@.drop_last() == before);
        if !is_reply_for(&f.frame, self.reply, self.node_id) {
            return;
        }
        let fragment = crate::fingerprint::decode_reply_fragment(f.frame.data).fragment;
        match self.phase {
            ProbePhase::WaitingFirstFragment => {
                self.phase = ProbePhase::WaitingSecondFragment { low: fragment };
            },
            ProbePhase::WaitingSecondFragment { low } => {
                let remote = join_fragments(low, fragment);
                let state = if remote == self.local_fingerprint {
                    NodeState::Online
                } else {
                    NodeState::Desync
                };
                self.phase = ProbePhase::Classified {
                    outcome: ProbeOutcome { state, round_trip_ms: Some(f.elapsed_ms) },
                };
            },
            ProbePhase::Classified { .. } => {},
        }
    }

    /// The deadline has passed: a probe still waiting is classified offline.
    pub fn on_deadline(&mut self)
        requires
            old(self).wf(),
        ensures
            final(self).wf(),
            final(self).is_classified(),
            final(self).seen@ == old(self).seen@,
            final(self).node_id == old(self).node_id,
            final(self).reply == old(self).reply,
            final(self).local_fingerprint == old(self).local_fingerprint,
            final(self).timeout_ms == old(self).timeout_ms,
            old(self).is_classified() ==> final(self).phase == old(self).phase,
            !old(self).is_classified() ==> final(self).phase == (ProbePhase::Classified {
                outcome: ProbeOutcome { state: NodeState::Offline, round_trip_ms: None },
            }),
    {
        if !self.is_done() {
            self.phase = ProbePhase::Classified {
                outcome: ProbeOutcome { state: NodeState::Offline, round_trip_ms: None },
            };
        }
    }

    /// Whether the probe is classified.
    pub fn is_done(&self) -> (r: bool)
        ensures
            r == self.is_classified(),
    {
        match self.phase {
            ProbePhase::Classified { .. } => true,
            _ => false,
        }
    }
}

/// A node of the network as the configuration describes it.
#[derive(Debug)]
pub struct NodeIdentity {
    pub node_id: u8,
    pub name: String,
    /// The object entry that holds the node's configuration fingerprint.
    pub object_entry_id: u16,
}

/// What the probe found for one node.
#[derive(Debug)]
pub struct NodeStatus {
    pub node: NodeIdentity,
    pub state: NodeState,
    pub round_trip_ms: Option<u64>,
}

/// What all probes of one session share.
#[derive(Clone, Copy, Debug, PartialEq, Eq, Structural)]
pub struct ProbeSettings {
    /// The identity of fingerprint reply frames.
    pub reply: MessageIdentity,
    /// The fingerprint of the configuration loaded here.
    pub local_fingerprint: u64,
    /// How long each node has to answer, in milliseconds.
    pub timeout_ms: u64,
}

pub open spec fn node_outcome(node_id: u8, frames: Seq<TimedFrame>, settings: ProbeSettings) -> ProbeOutcome {
    probe_outcome(frames, settings.reply, node_id, settings.local_fingerprint, settings.timeout_ms)
}

proof fn lemma_arrived_at_least(frames: Seq<TimedFrame>, timeout_ms: u64, i: int)
    requires
        0 <= i <= frames.len(),
        forall|j: int| 0 <= j < i ==> #[trigger] frames[j].elapsed_ms < timeout_ms,
    ensures
        arrived_before(frames, timeout_ms) >= i,
        arrived_before(frames, timeout_ms) <= frames.len(),
        i < frames.len() && frames[i].elapsed_ms >= timeout_ms ==> arrived_before(frames, timeout_ms) == i,
    decreases frames.len(),
{
    if frames.len() > 0 && frames[0].elapsed_ms < timeout_ms {
        let rest = frames.drop_first();
        let i2 = if i > 0 { i - 1 } else { 0 };
        assert forall|j: int| 0 <= j < i2 implies #[trigger] rest[j].elapsed_ms < timeout_ms by {
            assert(rest[j] == frames[j + 1]);
        }
        lemma_arrived_at_least(rest, timeout_ms, i2);
    }
}

proof fn lemma_accepted_prefix(frames: Seq<TimedFrame>, reply: MessageIdentity, node_id: u8, k: int, n: int)
    requires
        0 <= k <= n <= frames.len(),
    ensures
        accepted_frames(frames.take(k), reply, node_id).len() <= accepted_frames(frames.take(n), reply, node_id).len(),
        forall|j: int| 0 <= j < accepted_frames(frames.take(k), reply, node_id).len()
            ==> #[trigger] accepted_frames(frames.take(n), reply, node_id)[j]
                == accepted_frames(frames.take(k), reply, node_id)[j],
    decreases n - k,
{
    if k < n {
        lemma_accepted_prefix(frames, reply, node_id, k, n - 1);
        assert(frames.take(n).drop_last() == frames.take(n - 1));
    }
}

/// Probes one node: `frames` is the inbound stream from the moment the
/// request was sent, each frame stamped with its arrival time. The frames
/// are taken in until the probe is classified or the deadline has passed;
/// a stream that ends first leaves the node offline.
pub fn probe_node(node: &NodeIdentity, frames: &Vec<TimedFrame>, settings: ProbeSettings) -> (r: NodeStatus)
    ensures
        r.node.node_id == node.node_id,
        r.node.name@ == node.name@,
        r.node.object_entry_id == node.object_entry_id,
        r.state == node_outcome(node.node_id, frames@, settings).state,
        r.round_trip_ms == node_outcome(node.node_id, frames@, settings).round_trip_ms,
{
    let mut probe = NodeProbe::new(node.node_id, settings.reply, settings.local_fingerprint, settings.timeout_ms);
    let mut i: usize = 0;
    let mut late = false;
    assert(frames@.take(0) == Seq::<TimedFrame>::empty());
    while i < frames.len() && !probe.is_done()
        invariant
            probe.wf(),
            probe.node_id == node.node_id,
            probe.reply == settings.reply,
            probe.local_fingerprint == settings.local_fingerprint,
            probe.timeout_ms == settings.timeout_ms,
            0 <= i <= frames.len(),
            !late ==> probe.seen@ == frames@.take(i as int),
            !late && probe.is_classified() ==> probe.accepted().len() == 2,
            late ==> {
                &&& i > 0
                &&& probe.seen@ == frames@.take(i - 1)
                &&& frames@[i - 1].elapsed_ms >= settings.timeout_ms
                &&& probe.phase == (ProbePhase::Classified {
                    outcome: ProbeOutcome { state: NodeState::Offline, round_trip_ms: None },
                })
            },
        decreases frames.len() - i,
    {
        let f = frames[i];
        if f.elapsed_ms >= settings.timeout_ms {
            late = true;
        }
        probe.on_frame(f);
        i = i + 1;
        proof {
            if !late {
                assert(frames@.take(i as int) == frames@.take(i - 1).push(f));
            }
        }
    }
    probe.on_deadline();
    let ghost fs = frames@;
    let ghost n: int = if late { i - 1 } else { i as int };
    let ghost t = settings.timeout_ms;
    proof {
        assert forall|j: int| 0 <= j < n implies #[trigger] fs[j].elapsed_ms < t by {
            assert(probe.seen@[j] == fs[j]);
        }
        lemma_arrived_at_least(fs, t, n);
        let a = arrived_before(fs, t) as int;
        if late {
            assert(a == n);
        } else if i == frames.len() {
            assert(a == n);
        } else {
            lemma_accepted_prefix(fs, settings.reply, node.node_id, n, a);
        }
        let m = accepted_frames(fs.take(n), settings.reply, node.node_id);
        let ma = accepted_frames(fs.take(a), settings.reply, node.node_id);
        assert(probe.accepted() == m);
        if m.len() < 2 {
            assert(a == n);
        } else {
            assert(ma[0] == m[0] && ma[1] == m[1]);
        }
    }
    let outcome = match probe.phase {
        ProbePhase::Classified { outcome } => outcome,
        _ => ProbeOutcome { state: NodeState::Offline, round_trip_ms: None },
    };
    NodeStatus {
        node: NodeIdentity {
            node_id: node.node_id,
            name: node.name.clone(),
            object_entry_id: node.object_entry_id,
        },
        state: outcome.state,
        round_trip_ms: outcome.round_trip_ms,
    }
}

/// `status` is what probing `node` gives when `stream` follows its request.
pub open spec fn reports(status: NodeStatus, node: NodeIdentity, stream: Seq<TimedFrame>, settings: ProbeSettings) -> bool {
    &&& status.node.node_id == node.node_id
    &&& status.node.name@ == node.name@
    &&& status.node.object_entry_id == node.object_entry_id
    &&& status.state == node_outcome(node.node_id, stream, settings).state
    &&& status.round_trip_ms == node_outcome(node.node_id, stream, settings).round_trip_ms
}

/// The stream that follows the request to the `i`-th node; a node without
/// one heard nothing.
pub open spec fn stream_for(streams: Seq<Vec<TimedFrame>>, i: int) -> Seq<TimedFrame> {
    if 0 <= i < streams.len() {
        streams[i]@
    } else {
        Seq::empty()
    }
}

/// Probes the nodes one after the other, in the given order: `streams[i]`
/// is the inbound stream after the request to `nodes[i]` was sent. The
/// result holds one status per node, in the order of `nodes`.
pub fn probe_all(nodes: &Vec<NodeIdentity>, streams: &Vec<Vec<TimedFrame>>, settings: ProbeSettings) -> (r: Vec<NodeStatus>)
    ensures
        r.len() == nodes.len(),
        forall|i: int| 0 <= i < nodes.len() ==> reports(#[trigger] r[i], nodes[i], stream_for(streams@, i), settings),
{
    let mut r: Vec<NodeStatus> = Vec::new();
    let empty: Vec<TimedFrame> = Vec::new();
    let mut i: usize = 0;
    while i < nodes.len()
        invariant
            0 <= i <= nodes.len(),
            r.len() == i,
            empty@ == Seq::<TimedFrame>::empty(),
            forall|k: int| 0 <= k < i ==> reports(#[trigger] r[k], nodes[k], stream_for(streams@, k), settings),
        decreases nodes.len() - i,
    {
        let stream = if i < streams.len() {
            &streams[i]
        } else {
            &empty
        };
        assert(stream@ == stream_for(streams@, i as int));
        let status = probe_node(&nodes[i], stream, settings);
        let ghost prev = r@;
        r.push(status);
        proof {
            assert forall|k: int| 0 <= k < i implies r[k] == prev[k] by {}
        }
        i = i + 1;
    }
    r
}

proof fn lemma_accepted_concat(x: Seq<TimedFrame>, y: Seq<TimedFrame>, reply: MessageIdentity, node_id: u8)
    ensures
        accepted_frames(x + y, reply, node_id) == accepted_frames(x, reply, node_id) + accepted_frames(y, reply, node_id),
    decreases y.len(),
{
    if y.len() == 0 {
        assert(x + y == x);
        assert(accepted_frames(x, reply, node_id) + Seq::<TimedFrame>::empty() == accepted_frames(x, reply, node_id));
    } else {
        lemma_accepted_concat(x, y.drop_last(), reply, node_id);
        assert((x + y).drop_last() == x + y.drop_last());
        assert((x + y).last() == y.last());
        let ax = accepted_frames(x, reply, node_id);
        let ay = accepted_frames(y.drop_last(), reply, node_id);
        assert((ax + ay).push(y.last()) == ax + ay.push(y.last()));
    }
}

proof fn lemma_arrived_concat(x: Seq<TimedFrame>, y: Seq<TimedFrame>, timeout_ms: u64)
    ensures
        arrived_before(x, timeout_ms) <= x.len(),
        arrived_before(x, timeout_ms) == x.len() ==> arrived_before(x + y, timeout_ms) == x.len()
            + arrived_before(y, timeout_ms),
        arrived_before(x, timeout_ms) < x.len() ==> arrived_before(x + y, timeout_ms) == arrived_before(
            x,
            timeout_ms,
        ),
    decreases x.len(),
{
    if x.len() == 0 {
        assert(x + y == y);
    } else {
        assert((x + y)[0] == x[0]);
        if x[0].elapsed_ms < timeout_ms {
            assert((x + y).drop_first() == x.drop_first() + y);
            lemma_arrived_concat(x.drop_first(), y, timeout_ms);
        }
    }
}

/// A node whose two fragments arrive before the deadline and join to the
/// local fingerprint is online.
pub proof fn lemma_matching_fingerprint_is_online(node_id: u8, frames: Seq<TimedFrame>, settings: ProbeSettings)
    requires
        fragments_in_time(frames, settings.reply, node_id, settings.timeout_ms).len() >= 2,
        joined(
            fragment_of(fragments_in_time(frames, settings.reply, node_id, settings.timeout_ms)[0].frame.data),
            fragment_of(fragments_in_time(frames, settings.reply, node_id, settings.timeout_ms)[1].frame.data),
        ) == settings.local_fingerprint,
    ensures
        node_outcome(node_id, frames, settings).state == NodeState::Online,
{
}

/// A node whose two fragments arrive before the deadline and join to a
/// value other than the local fingerprint is desynchronised, whatever the
/// round trip.
pub proof fn lemma_differing_fingerprint_is_desync(node_id: u8, frames: Seq<TimedFrame>, settings: ProbeSettings)
    requires
        fragments_in_time(frames, settings.reply, node_id, settings.timeout_ms).len() >= 2,
        joined(
            fragment_of(fragments_in_time(frames, settings.reply, node_id, settings.timeout_ms)[0].frame.data),
            fragment_of(fragments_in_time(frames, settings.reply, node_id, settings.timeout_ms)[1].frame.data),
        ) != settings.local_fingerprint,
    ensures
        node_outcome(node_id, frames, settings).state == NodeState::Desync,
        node_outcome(node_id, frames, settings).round_trip_ms
            == Some(fragments_in_time(frames, settings.reply, node_id, settings.timeout_ms)[1].elapsed_ms),
{
}

/// A node with fewer than two fragments before the deadline is offline and
/// has no round trip.
pub proof fn lemma_missing_fragments_is_offline(node_id: u8, frames: Seq<TimedFrame>, settings: ProbeSettings)
    requires
        fragments_in_time(frames, settings.reply, node_id, settings.timeout_ms).len() < 2,
    ensures
        node_outcome(node_id, frames, settings).state == NodeState::Offline,
        node_outcome(node_id, frames, settings).round_trip_ms == None::<u64>,
{
}

/// Nothing that arrives after the deadline changes the outcome: once a
/// frame stamped at or after the deadline has come, any frames may follow.
pub proof fn lemma_frames_after_deadline_ignored(
    node_id: u8,
    frames: Seq<TimedFrame>,
    later: Seq<TimedFrame>,
    settings: ProbeSettings,
)
    requires
        frames.len() > 0,
        frames.last().elapsed_ms >= settings.timeout_ms,
    ensures
        node_outcome(node_id, frames + later, settings) == node_outcome(node_id, frames, settings),
{
    let t = settings.timeout_ms;
    lemma_arrived_concat(frames, later, t);
    let a = arrived_before(frames, t);
    if a == frames.len() {
        lemma_arrived_prefix_on_time(frames, t, frames.len() - 1);
        assert(false);
    }
    assert((frames + later).take(a as int) =~= frames.take(a as int));
}

proof fn lemma_arrived_prefix_on_time(frames: Seq<TimedFrame>, timeout_ms: u64, j: int)
    requires
        0 <= j < arrived_before(frames, timeout_ms),
    ensures
        j < frames.len(),
        frames[j].elapsed_ms < timeout_ms,
    decreases j,
{
    assert(frames.len() > 0 && frames[0].elapsed_ms < timeout_ms);
    if j > 0 {
        lemma_arrived_prefix_on_time(frames.drop_first(), timeout_ms, j - 1);
        assert(frames.drop_first()[j - 1] == frames[j]);
    }
}

/// A frame that arrives in time and is no reply fragment for the probed
/// node (another identity, another originator than the wildcard, another
/// responder) neither completes nor alters the probe.
pub proof fn lemma_foreign_frame_ignored(
    node_id: u8,
    before: Seq<TimedFrame>,
    f: TimedFrame,
    after: Seq<TimedFrame>,
    settings: ProbeSettings,
)
    requires
        !accepts(f.frame, settings.reply, node_id),
        f.elapsed_ms < settings.timeout_ms,
    ensures
        node_outcome(node_id, before + seq![f] + after, settings) == node_outcome(node_id, before + after, settings),
{
    let t = settings.timeout_ms;
    let reply = settings.reply;
    let one = seq![f];
    assert(before + one + after == before + (one + after));
    lemma_arrived_concat(before, one + after, t);
    lemma_arrived_concat(before, after, t);
    lemma_arrived_concat(one, after, t);
    assert(one.drop_first() == Seq::<TimedFrame>::empty());
    assert(arrived_before(one, t) == 1);
    let ab = arrived_before(before, t) as int;
    if ab < before.len() {
        assert((before + (one + after)).take(ab) =~= before.take(ab));
        assert((before + after).take(ab) =~= before.take(ab));
    } else {
        let aa = arrived_before(after, t) as int;
        let tail = after.take(aa);
        lemma_arrived_concat(after, Seq::<TimedFrame>::empty(), t);
        assert((before + (one + after)).take(before.len() + 1 + aa) =~= before + (one + tail));
        assert((before + after).take(before.len() + aa) =~= before + tail);
        lemma_accepted_concat(before, one + tail, reply, node_id);
        lemma_accepted_concat(one, tail, reply, node_id);
        lemma_accepted_concat(before, tail, reply, node_id);
        assert(one.drop_last() =~= Seq::<TimedFrame>::empty());
        assert(one.last() == f);
        assert(accepted_frames(Seq::<TimedFrame>::empty(), reply, node_id) == Seq::<TimedFrame>::empty());
        assert(accepted_frames(one, reply, node_id) == Seq::<TimedFrame>::empty());
        assert(Seq::<TimedFrame>::empty() + accepted_frames(tail, reply, node_id) == accepted_frames(tail, reply, node_id));
    }
}

/// The fingerprint that node `node_id` reports in `frames`: its first two
/// reply fragments joined, low half first, or `None` when fewer than two
/// came. Arrival times play no part here: the caller hands over the frames
/// that arrived in time.
pub fn rx_get_resp_hash_code(frames: &Vec<TimedFrame>, reply: MessageIdentity, node_id: u8) -> (r: Option<u64>)
    ensures
        ({
            let m = accepted_frames(frames@, reply, node_id);
            &&& m.len() >= 2 ==> r == Some(joined(fragment_of(m[0].frame.data), fragment_of(m[1].frame.data)))
            &&& m.len() < 2 ==> r == None::<u64>
        }),
{
    let mut count: usize = 0;
    let mut low: u32 = 0;
    let mut high: u32 = 0;
    let mut i: usize = 0;
    assert(frames@.take(0) == Seq::<TimedFrame>::empty());
    while i < frames.len()
        invariant
            0 <= i <= frames@.len(),
            count <= 2,
            count == if accepted_frames(frames@.take(i as int), reply, node_id).len() < 2 {
                accepted_frames(frames@.take(i as int), reply, node_id).len()
            } else {
                2
            },
            count >= 1 ==> low == fragment_of(accepted_frames(frames@.take(i as int), reply, node_id)[0].frame.data),
            count >= 2 ==> high == fragment_of(accepted_frames(frames@.take(i as int), reply, node_id)[1].frame.data),
        decreases frames.len() - i,
    {
        let f = frames[i];
        if count < 2 && is_reply_for(&f.frame, reply, node_id) {
            let fragment = crate::fingerprint::decode_reply_fragment(f.frame.data).fragment;
            if count == 0 {
                low = fragment;
            } else {
                high = fragment;
            }
            count = count + 1;
        }
        i = i + 1;
        assert(frames@.take(i as int).drop_last() == frames@.take(i - 1));
    }
    assert(frames@.take(frames@.len() as int) == frames@);
    if count == 2 {
        Some(join_fragments(low, high))
    } else {
        None
    }
}

} // verus!
