use canzero_cli::errors::Error;
use canzero_cli::fingerprint::MessageIdentity;
use canzero_cli::trace::{command_dump, find_bus, find_message, payload_mask, BusInfo, MessageInfo};

#[test]
fn masks_by_data_length() {
    assert_eq!(payload_mask(0), u64::MAX);
    assert_eq!(payload_mask(1), 0xFF);
    assert_eq!(payload_mask(2), 0xFFFF);
    assert_eq!(payload_mask(4), 0xFFFF_FFFF);
    assert_eq!(payload_mask(7), 0x00FF_FFFF_FFFF_FFFF);
    assert_eq!(payload_mask(8), u64::MAX);
}

#[test]
fn dump_filter_by_names() {
    let f = command_dump(vec![], &vec![]).unwrap();
    assert!(f.passes("anything"));
    let f = command_dump(vec!["a".to_string(), "bc".to_string()], &vec![]).unwrap();
    assert!(f.passes("a"));
    assert!(f.passes("bc"));
    assert!(!f.passes("b"));
    assert!(!f.passes(""));
}

#[test]
fn dump_by_id_is_not_available() {
    assert_eq!(command_dump(vec![], &vec!["0x12".to_string()]).unwrap_err(), Error::NotYetImplemented);
}

#[test]
fn lookups_take_the_first_match() {
    let buses = vec![
        BusInfo { id: 0, name: "can0".to_string() },
        BusInfo { id: 1, name: "can1".to_string() },
        BusInfo { id: 1, name: "dup".to_string() },
    ];
    assert_eq!(find_bus(&buses, 1), Some(1));
    assert_eq!(find_bus(&buses, 2), None);
    let std = MessageIdentity { id: 0x10, extended: false };
    let ext = MessageIdentity { id: 0x10, extended: true };
    let messages = vec![MessageInfo { identity: ext, name: "e".to_string() }];
    assert_eq!(find_message(&messages, ext), Some(0));
    assert_eq!(find_message(&messages, std), None);
}
