use canzero_cli::discovery::{
    collect_servers, encode_probe, parse_reply, Datagram, Endpoint, ServerCollector,
};

const SERVICE: &str = "CANzero";

fn reply(service: &str, port: u16, fingerprint: u64, build: u64, name: &[u8]) -> Vec<u8> {
    let mut p = vec![1u8];
    p.extend_from_slice(&port.to_le_bytes());
    p.extend_from_slice(&fingerprint.to_le_bytes());
    p.extend_from_slice(&build.to_le_bytes());
    p.push(service.len() as u8);
    p.extend_from_slice(service.as_bytes());
    p.extend_from_slice(name);
    p
}

fn from(address: u32, port: u16, payload: Vec<u8>) -> Datagram {
    Datagram { source: Endpoint { address, port }, payload }
}

#[test]
fn probe_is_kind_then_name() {
    assert_eq!(encode_probe(SERVICE), b"\x00CANzero".to_vec());
    assert_eq!(encode_probe(""), vec![0u8]);
}

#[test]
fn reply_fields_are_read() {
    let src = Endpoint { address: 0xC0A8_0001, port: 40000 };
    let p = reply(SERVICE, 9001, 0x0102_0304_0506_0708, 1_700_000_000, "pod-server".as_bytes());
    let d = parse_reply(SERVICE, src, &p).expect("a valid reply");
    assert_eq!(d.source, src);
    assert_eq!(d.service_port, 9001);
    assert_eq!(d.config_fingerprint, 0x0102_0304_0506_0708);
    assert_eq!(d.build_time_s, 1_700_000_000);
    assert_eq!(d.server_name, "pod-server");
}

#[test]
fn non_ascii_server_name_is_decoded() {
    let src = Endpoint { address: 1, port: 2 };
    let p = reply(SERVICE, 1, 0, 0, "zürich".as_bytes());
    assert_eq!(parse_reply(SERVICE, src, &p).unwrap().server_name, "zürich");
}

#[test]
fn malformed_replies_are_rejected() {
    let src = Endpoint { address: 1, port: 2 };
    let good = reply(SERVICE, 1, 2, 3, b"s");
    let mut probe_kind = good.clone();
    probe_kind[0] = 0;
    assert!(parse_reply(SERVICE, src, &probe_kind).is_none());
    assert!(parse_reply(SERVICE, src, &good[..19].to_vec()).is_none());
    assert!(parse_reply(SERVICE, src, &vec![]).is_none());
    assert!(parse_reply(SERVICE, src, &reply("CANzerO", 1, 2, 3, b"s")).is_none());
    assert!(parse_reply(SERVICE, src, &reply("CANzero2", 1, 2, 3, b"s")).is_none());
    assert!(parse_reply(SERVICE, src, &reply(SERVICE, 1, 2, 3, &[0xFF, 0xFE])).is_none());
    let mut long_name = good.clone();
    long_name[19] = 200;
    assert!(parse_reply(SERVICE, src, &long_name).is_none());
    assert!(parse_reply(SERVICE, src, &good).is_some());
}

#[test]
fn only_foreign_or_malformed_datagrams_give_no_server() {
    let ds = vec![
        from(1, 1, vec![]),
        from(2, 2, b"\x00CANzero".to_vec()),
        from(3, 3, reply("Other", 1, 2, 3, b"x")),
        from(4, 4, reply(SERVICE, 1, 2, 3, &[0xC3])),
    ];
    assert!(collect_servers(SERVICE, &ds).is_empty());
    assert!(collect_servers(SERVICE, &vec![]).is_empty());
}

#[test]
fn one_server_per_source_in_arrival_order() {
    let a = reply(SERVICE, 10, 1, 0, b"a");
    let b = reply(SERVICE, 20, 2, 0, b"b");
    let c = reply(SERVICE, 30, 3, 0, b"c");
    let once = vec![from(3, 9, c.clone()), from(1, 9, a.clone()), from(2, 9, b.clone())];
    let r = collect_servers(SERVICE, &once);
    assert_eq!(r.len(), 3);
    assert_eq!(r.iter().map(|d| d.service_port).collect::<Vec<_>>(), vec![30, 10, 20]);

    let twice = vec![
        from(3, 9, c.clone()),
        from(1, 9, a.clone()),
        from(3, 9, reply(SERVICE, 99, 3, 0, b"c2")),
        from(2, 9, b.clone()),
        from(1, 9, a),
        from(2, 9, b),
    ];
    let r = collect_servers(SERVICE, &twice);
    assert_eq!(r.len(), 3);
    assert_eq!(r[0].service_port, 30);
    assert_eq!(r[0].server_name, "c");
}

#[test]
fn same_address_other_port_is_another_source() {
    let p = reply(SERVICE, 10, 1, 0, b"a");
    let r = collect_servers(SERVICE, &vec![from(1, 9, p.clone()), from(1, 10, p)]);
    assert_eq!(r.len(), 2);
}

#[test]
fn collector_drops_repeats() {
    let mut c = ServerCollector::new();
    let d = from(5, 5, reply(SERVICE, 10, 1, 0, b"a"));
    c.on_datagram(SERVICE, &d);
    c.on_datagram(SERVICE, &d);
    c.on_datagram(SERVICE, &from(6, 6, vec![1, 2, 3]));
    assert_eq!(c.servers.len(), 1);
    assert_eq!(c.servers[0].source, Endpoint { address: 5, port: 5 });
}
