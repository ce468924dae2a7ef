//! Decisions of the trace dump: which frames are shown, under which bus and
//! message names, and which data bytes count.
use vstd::prelude::*;
use crate::errors::Error;
use crate::fingerprint::MessageIdentity;
use crate::repo::{chars_of, same_chars};

verus! {

/// A bus of the network configuration.
#[derive(Debug)]
pub struct BusInfo {
    pub id: u32,
    pub name: String,
}

/// A message of the network configuration.
#[derive(Debug)]
pub struct MessageInfo {
    pub identity: MessageIdentity,
    pub name: String,
}

/// Which frames the dump shows: with no names, all of them; else those of
/// a message whose name is listed.
#[derive(Debug)]
pub struct DumpFilter {
    pub message_names: Vec<String>,
}

impl DumpFilter {
    pub open spec fn admits(&self, name: Seq<char>) -> bool {
        self.message_names@.len() == 0 || exists|k: int|
            0 <= k < self.message_names@.len() && (#[trigger] self.message_names@[k])@ == name
    }

    pub fn passes(&self, message_name: &str) -> (r: bool)
        ensures
            r == self.admits(message_name@),
    {
        if self.message_names.len() == 0 {
            return true;
        }
        let want = chars_of(message_name);
        let mut k: usize = 0;
        while k < self.message_names.len()
            invariant
                0 <= k <= self.message_names@.len(),
                want@ == message_name@,
                forall|j: int| 0 <= j < k ==> (#[trigger] self.message_names@[j])@ != want@,
            decreases self.message_names.len() - k,
        {
            let n = chars_of(self.message_names[k].as_str());
            if same_chars(&n, &want) {
                return true;
            }
            k = k + 1;
        }
        false
    }
}

/// The filter of `dump --messages ... --ids ...`. Filtering by id is not
/// available yet, so any id is an error.
pub fn command_dump(filter_msg_names: Vec<String>, filter_ids: &Vec<String>) -> (r: Result<DumpFilter, Error>)
    ensures
        filter_ids@.len() > 0 ==> r == Err::<DumpFilter, Error>(Error::NotYetImplemented),
        filter_ids@.len() == 0 ==> (r matches Ok(f) && f.message_names@ == filter_msg_names@),
{
    if filter_ids.len() > 0 {
        return Err(Error::NotYetImplemented);
    }
    Ok(DumpFilter { message_names: filter_msg_names })
}

/// The bits of a data field that carry the `dlc` data bytes; a frame
/// without data bytes is shown whole.
pub open spec fn data_mask(dlc: u8) -> u64 {
    if dlc == 0 {
        u64::MAX
    } else {
        (pow2_bytes(dlc as nat) - 1) as u64
    }
}

pub open spec fn pow2_bytes(n: nat) -> int
    decreases n,
{
    if n == 0 {
        1
    } else {
        0x100 * pow2_bytes((n - 1) as nat)
    }
}

pub fn payload_mask(dlc: u8) -> (r: u64)
    requires
        dlc <= 8,
    ensures
        r == data_mask(dlc),
{
    let shift: u32 = 64u32 - (dlc as u32) * 8u32;
    let r = if shift >= 64 {
        u64::MAX
    } else {
        u64::MAX >> shift
    };
    proof {
        reveal_with_fuel(pow2_bytes, 9);
        if dlc == 1 {
            assert(u64::MAX >> 56u32 == 0xFF) by (bit_vector);
        } else if dlc == 2 {
            assert(u64::MAX >> 48u32 == 0xFFFF) by (bit_vector);
        } else if dlc == 3 {
            assert(u64::MAX >> 40u32 == 0xFF_FFFF) by (bit_vector);
        } else if dlc == 4 {
            assert(u64::MAX >> 32u32 == 0xFFFF_FFFF) by (bit_vector);
        } else if dlc == 5 {
            assert(u64::MAX >> 24u32 == 0xFF_FFFF_FFFF) by (bit_vector);
        } else if dlc == 6 {
            assert(u64::MAX >> 16u32 == 0xFFFF_FFFF_FFFF) by (bit_vector);
        } else if dlc == 7 {
            assert(u64::MAX >> 8u32 == 0xFF_FFFF_FFFF_FFFF) by (bit_vector);
        } else if dlc == 8 {
            assert(u64::MAX >> 0u32 == 0xFFFF_FFFF_FFFF_FFFF) by (bit_vector);
        }
    }
    r
}

/// The position of the first bus with id `id`, if any.
pub fn find_bus(buses: &Vec<BusInfo>, id: u32) -> (r: Option<usize>)
    ensures
        r matches Some(k) ==> k < buses@.len() && buses@[k as int].id == id && forall|j: int|
            0 <= j < k ==> (#[trigger] buses@[j]).id != id,
        r is None ==> forall|j: int| 0 <= j < buses@.len() ==> (#[trigger] buses@[j]).id != id,
{
    let mut k: usize = 0;
    while k < buses.len()
        invariant
            0 <= k <= buses@.len(),
            forall|j: int| 0 <= j < k ==> (#[trigger] buses@[j]).id != id,
        decreases buses.len() - k,
    {
        if buses[k].id == id {
            return Some(k);
        }
        k = k + 1;
    }
    None
}

/// The position of the first message with identity `identity`, if any.
pub fn find_message(messages: &Vec<MessageInfo>, identity: MessageIdentity) -> (r: Option<usize>)
    ensures
        r matches Some(k) ==> k < messages@.len() && messages@[k as int].identity == identity && forall|j: int|
            0 <= j < k ==> (#[trigger] messages@[j]).identity != identity,
        r is None ==> forall|j: int| 0 <= j < messages@.len() ==> (#[trigger] messages@[j]).identity != identity,
{
    let mut k: usize = 0;
    while k < messages.len()
        invariant
            0 <= k <= messages@.len(),
            forall|j: int| 0 <= j < k ==> (#[trigger] messages@[j]).identity != identity,
        decreases messages.len() - k,
    {
        if messages[k].identity.id == identity.id && messages[k].identity.extended == identity.extended {
            return Some(k);
        }
        k = k + 1;
    }
    None
}

} // verus!
