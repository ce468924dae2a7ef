//! Packing of fingerprint requests and unpacking of fingerprint reply fragments.
use vstd::prelude::*;

verus! {

/// Originator id meaning "any requester may receive this reply".
pub const WILDCARD_ORIGINATOR: u8 = 0xFF;

/// Object entry ids occupy the low 13 bits of a request.
pub const OBJECT_ENTRY_ID_LIMIT: u16 = 0x2000;

/// The request payload: object entry id in bits 0..13, the wildcard
/// originator in bits 13..21 and the target node id in bits 21..29.
pub open spec fn request_payload(object_entry_id: u16, node_id: u8) -> u64 {
    (object_entry_id as int + 0xFF * 0x2000 + node_id as int * 0x20_0000) as u64
}

/// Packs a fingerprint request for `node_id`'s object entry `object_entry_id`.
pub fn encode_fingerprint_request(object_entry_id: u16, node_id: u8) -> (r: u64)
    requires
        object_entry_id < OBJECT_ENTRY_ID_LIMIT,
    ensures
        r == request_payload(object_entry_id, node_id),
{
    let oe = object_entry_id as u64;
    let node = node_id as u64;
    let r = oe | (0xFFu64 << 13u64) | (node << 21u64);
    assert(oe < 0x2000 && node < 0x100 ==> (oe | (0xFFu64 << 13u64) | (node << 21u64)) == oe
        + 0xFF * 0x2000 + node * 0x20_0000) by (bit_vector);
    r
}

/// The identity of a CAN message: its id and whether that id is extended.
#[derive(Clone, Copy, Debug, PartialEq, Eq, Structural)]
pub struct MessageIdentity {
    pub id: u32,
    pub extended: bool,
}

/// A CAN frame as the transport hands it over: identity, data length and
/// the 64-bit data field.
#[derive(Clone, Copy, Debug, PartialEq, Eq, Structural)]
pub struct Frame {
    pub identity: MessageIdentity,
    pub dlc: u8,
    pub data: u64,
}

/// One reply fragment as carried in a reply frame's data field.
#[derive(Clone, Copy, Debug, PartialEq, Eq, Structural)]
pub struct ReplyFragment {
    /// Bits 16..24.
    pub originator_id: u8,
    /// Bits 24..32.
    pub responder_node_id: u8,
    /// Bits 32..64: one half of a fingerprint.
    pub fragment: u32,
}

pub open spec fn originator_of(data: u64) -> u8 {
    ((data as int / 0x1_0000) % 0x100) as u8
}

pub open spec fn responder_of(data: u64) -> u8 {
    ((data as int / 0x100_0000) % 0x100) as u8
}

pub open spec fn fragment_of(data: u64) -> u32 {
    (data as int / 0x1_0000_0000) as u32
}

/// The 64-bit fingerprint whose low half is `low` and high half is `high`.
pub open spec fn joined(low: u32, high: u32) -> u64 {
    (low as int + high as int * 0x1_0000_0000) as u64
}

/// Unpacks the reply fragment carried in `data`.
pub fn decode_reply_fragment(data: u64) -> (r: ReplyFragment)
    ensures
        r.originator_id == originator_of(data),
        r.responder_node_id == responder_of(data),
        r.fragment == fragment_of(data),
{
    let originator_id = ((data >> 16u64) & 0xFFu64) as u8;
    let responder_node_id = ((data >> 24u64) & 0xFFu64) as u8;
    let fragment = (data >> 32u64) as u32;
    assert(((data >> 16u64) & 0xFFu64) == (data / 0x1_0000) % 0x100) by (bit_vector);
    assert(((data >> 24u64) & 0xFFu64) == (data / 0x100_0000) % 0x100) by (bit_vector);
    assert((data >> 32u64) == data / 0x1_0000_0000) by (bit_vector);
    ReplyFragment { originator_id, responder_node_id, fragment }
}

/// Joins two fragments into one fingerprint: `low` gives bits 0..32 and
/// `high` bits 32..64.
pub fn join_fragments(low: u32, high: u32) -> (r: u64)
    ensures
        r == joined(low, high),
        r as int == low as int + high as int * 0x1_0000_0000,
{
    let l = low as u64;
    let h = high as u64;
    assert(l < 0x1_0000_0000 && h < 0x1_0000_0000 ==> (l | (h << 32u64)) == l + h * 0x1_0000_0000)
        by (bit_vector);
    l | (h << 32u64)
}

/// Whether a frame is a reply fragment for the probe of node `node_id`:
/// it carries the reply identity, the wildcard originator and `node_id` as
/// responder.
pub open spec fn accepts(frame: Frame, reply: MessageIdentity, node_id: u8) -> bool {
    &&& frame.identity == reply
    &&& originator_of(frame.data) == WILDCARD_ORIGINATOR
    &&& responder_of(frame.data) == node_id
}

/// Decides [`accepts`] for one frame.
pub fn is_reply_for(frame: &Frame, reply: MessageIdentity, node_id: u8) -> (r: bool)
    ensures
        r == accepts(*frame, reply, node_id),
{
    if frame.identity.id != reply.id || frame.identity.extended != reply.extended {
        return false;
    }
    let f = decode_reply_fragment(frame.data);
    f.originator_id == WILDCARD_ORIGINATOR && f.responder_node_id == node_id
}

/// The frame that asks node `node_id` for its fingerprint, read from its
/// object entry `object_entry_id`, sent with the request identity `request`.
pub fn fingerprint_request_frame(request: MessageIdentity, dlc: u8, object_entry_id: u16, node_id: u8) -> (r: Frame)
    requires
        object_entry_id < OBJECT_ENTRY_ID_LIMIT,
    ensures
        r.identity == request,
        r.dlc == dlc,
        r.data == request_payload(object_entry_id, node_id),
{
    Frame { identity: request, dlc, data: encode_fingerprint_request(object_entry_id, node_id) }
}

} // verus!
