//! Discovery of bridge servers: the probe datagram, the lenient parse of
//! replies, and the collection of one descriptor per replying source.
//!
//! A reply datagram is laid out as follows, multi-byte fields little-endian:
//!
//! | bytes          | field                                        |
//! |----------------|----------------------------------------------|
//! | 0              | message kind, 1 for a reply                  |
//! | 1..3           | the server's service port                    |
//! | 3..11          | fingerprint of the server's configuration    |
//! | 11..19         | build time, seconds since the Unix epoch     |
//! | 19             | length `n` of the service name               |
//! | 20..20+n       | service name, UTF-8                          |
//! | 20+n..         | server name, UTF-8                           |
use vstd::prelude::*;
use vstd::string::StringSliceAdditionalSpecFns;
use vstd::utf8::{decode_utf8, valid_utf8};

verus! {

/// Message kind of a probe.
pub const PROBE_KIND: u8 = 0;

/// Message kind of a reply.
pub const REPLY_KIND: u8 = 1;

/// Length of the fixed part of a reply, up to and including the length of
/// the service name.
pub const REPLY_HEADER_LEN: usize = 20;

/// An IPv4 endpoint: the address as a 32-bit number (most significant byte
/// first in dotted notation) and a port.
#[derive(Clone, Copy, Debug, PartialEq, Eq, Structural)]
pub struct Endpoint {
    pub address: u32,
    pub port: u16,
}

/// One datagram received during a scan, with its sender.
#[derive(Debug)]
pub struct Datagram {
    pub source: Endpoint,
    pub payload: Vec<u8>,
}

/// A server that answered a scan.
#[derive(Debug)]
pub struct ServerDescriptor {
    /// Where the reply came from; its address is the server's address.
    pub source: Endpoint,
    pub server_name: String,
    /// The port on which the server offers its service.
    pub service_port: u16,
    /// When the server was built, in seconds since the Unix epoch.
    pub build_time_s: u64,
    pub config_fingerprint: u64,
}

pub open spec fn le_u16_at(p: Seq<u8>, at: int) -> u16 {
    (p[at] as int + p[at + 1] as int * 0x100) as u16
}

pub open spec fn le_u64_at(p: Seq<u8>, at: int) -> u64 {
    (p[at] as int + p[at + 1] as int * 0x100 + p[at + 2] as int * 0x1_0000 + p[at + 3] as int
        * 0x100_0000 + p[at + 4] as int * 0x1_0000_0000 + p[at + 5] as int * 0x100_0000_0000
        + p[at + 6] as int * 0x1_0000_0000_0000 + p[at + 7] as int * 0x100_0000_0000_0000) as u64
}

/// Where the server name starts in a reply.
pub open spec fn server_name_start(p: Seq<u8>) -> int {
    REPLY_HEADER_LEN as int + p[REPLY_HEADER_LEN as int - 1] as int
}

/// Whether `p` is a well-formed reply that advertises the service `service`
/// (given as its UTF-8 bytes).
pub open spec fn is_reply_to(service: Seq<u8>, p: Seq<u8>) -> bool {
    &&& p.len() >= REPLY_HEADER_LEN
    &&& p[0] == REPLY_KIND
    &&& server_name_start(p) <= p.len()
    &&& p.subrange(REPLY_HEADER_LEN as int, server_name_start(p)) == service
    &&& valid_utf8(p.subrange(server_name_start(p), p.len() as int))
}

/// `d` is the descriptor read from the reply `p` sent by `source`.
pub open spec fn describes(d: ServerDescriptor, source: Endpoint, p: Seq<u8>) -> bool {
    &&& d.source == source
    &&& d.service_port == le_u16_at(p, 1)
    &&& d.config_fingerprint == le_u64_at(p, 3)
    &&& d.build_time_s == le_u64_at(p, 11)
    &&& d.server_name@ == decode_utf8(p.subrange(server_name_start(p), p.len() as int))
}

/// The probe datagram for the service `service_name`: the probe kind
/// followed by the name.
pub fn encode_probe(service_name: &str) -> (r: Vec<u8>)
    ensures
        r@ == seq![PROBE_KIND] + service_name.spec_bytes(),
{
    let name = service_name.as_bytes();
    let mut r: Vec<u8> = Vec::new();
    r.push(PROBE_KIND);
    let mut i: usize = 0;
    while i < name.len()
        invariant
            0 <= i <= name@.len(),
            name@ == service_name.spec_bytes(),
            r@ == seq![PROBE_KIND] + name@.take(i as int),
        decreases name.len() - i,
    {
        r.push(name[i]);
        i = i + 1;
        assert(name@.take(i as int) == name@.take(i - 1).push(name@[i - 1]));
    }
    assert(name@.take(name@.len() as int) == name@);
    r
}

proof fn lemma_le_u64(b0: u64, b1: u64, b2: u64, b3: u64, b4: u64, b5: u64, b6: u64, b7: u64)
    by (bit_vector)
    requires
        b0 < 0x100 && b1 < 0x100 && b2 < 0x100 && b3 < 0x100,
        b4 < 0x100 && b5 < 0x100 && b6 < 0x100 && b7 < 0x100,
    ensures
        b0 | (b1 << 8u64) | (b2 << 16u64) | (b3 << 24u64) | (b4 << 32u64) | (b5 << 40u64) | (b6 << 48u64)
            | (b7 << 56u64) == b0 + b1 * 0x100 + b2 * 0x1_0000 + b3 * 0x100_0000 + b4 * 0x1_0000_0000
            + b5 * 0x100_0000_0000 + b6 * 0x1_0000_0000_0000 + b7 * 0x100_0000_0000_0000,
{
}

fn read_le_u64(p: &Vec<u8>, at: usize) -> (r: u64)
    requires
        at + 8 <= p@.len(),
    ensures
        r == le_u64_at(p@, at as int),
{
    let len = p.len();
    let b0 = p[at] as u64;
    let b1 = p[at + 1] as u64;
    let b2 = p[at + 2] as u64;
    let b3 = p[at + 3] as u64;
    let b4 = p[at + 4] as u64;
    let b5 = p[at + 5] as u64;
    let b6 = p[at + 6] as u64;
    let b7 = p[at + 7] as u64;
    proof {
        lemma_le_u64(b0, b1, b2, b3, b4, b5, b6, b7);
    }
    b0 | (b1 << 8u64) | (b2 << 16u64) | (b3 << 24u64) | (b4 << 32u64) | (b5 << 40u64) | (b6 << 48u64)
        | (b7 << 56u64)
}

/// Relies on std's `String::from_utf8`: it succeeds exactly when the bytes
/// are valid UTF-8, and the string then holds the characters they encode.
#[verifier::external_body]
fn string_from_utf8(bytes: Vec<u8>) -> (r: Option<String>)
    ensures
        r is Some <==> valid_utf8(bytes@),
        r matches Some(s) ==> s@ == decode_utf8(bytes@),
{
    String::from_utf8(bytes).ok()
}

/// Reads a reply datagram sent by `source`. Anything that is not a
/// well-formed reply advertising `service_name` gives `None`: a wrong kind,
/// a short payload, another service name, a server name that is not UTF-8.
pub fn parse_reply(service_name: &str, source: Endpoint, payload: &Vec<u8>) -> (r: Option<ServerDescriptor>)
    ensures
        r is Some <==> is_reply_to(service_name.spec_bytes(), payload@),
        r matches Some(d) ==> describes(d, source, payload@),
{
    let p = payload;
    if p.len() < REPLY_HEADER_LEN || p[0] != REPLY_KIND {
        return None;
    }
    let start = REPLY_HEADER_LEN + p[REPLY_HEADER_LEN - 1] as usize;
    if start > p.len() {
        return None;
    }
    let service = service_name.as_bytes();
    if service.len() != start - REPLY_HEADER_LEN {
        assert(p@.subrange(REPLY_HEADER_LEN as int, start as int).len() != service@.len());
        return None;
    }
    let mut i: usize = 0;
    while i < service.len()
        invariant
            0 <= i <= service@.len(),
            service@.len() == start - REPLY_HEADER_LEN,
            service@ == service_name.spec_bytes(),
            p@ == payload@,
            start <= p@.len(),
            start == server_name_start(p@),
            p@.len() >= REPLY_HEADER_LEN,
            p@[0] == REPLY_KIND,
            forall|j: int| 0 <= j < i ==> #[trigger] service@[j] == p@[REPLY_HEADER_LEN + j],
        decreases service.len() - i,
    {
        if service[i] != p[REPLY_HEADER_LEN + i] {
            assert(p@.subrange(REPLY_HEADER_LEN as int, start as int)[i as int] != service@[i as int]);
            assert(p@.subrange(REPLY_HEADER_LEN as int, start as int) != service@);
            return None;
        }
        i = i + 1;
    }
    assert(p@.subrange(REPLY_HEADER_LEN as int, start as int) =~= service@);
    let mut name_bytes: Vec<u8> = Vec::new();
    let mut k: usize = start;
    while k < p.len()
        invariant
            start <= k <= p@.len(),
            name_bytes@ == p@.subrange(start as int, k as int),
        decreases p.len() - k,
    {
        name_bytes.push(p[k]);
        k = k + 1;
        assert(name_bytes@ =~= p@.subrange(start as int, k as int));
    }
    let server_name = match string_from_utf8(name_bytes) {
        Some(s) => s,
        None => return None,
    };
    let service_port = ((p[1] as u16) | ((p[2] as u16) << 8u16)) as u16;
    proof {
        let b1 = p@[1] as u16;
        let b2 = p@[2] as u16;
        assert(b1 < 0x100 && b2 < 0x100 ==> (b1 | (b2 << 8u16)) == b1 + b2 * 0x100) by (bit_vector);
    }
    Some(ServerDescriptor {
        source,
        server_name,
        service_port,
        build_time_s: read_le_u64(p, 11),
        config_fingerprint: read_le_u64(p, 3),
    })
}

/// Whether datagram `i` of `ds` is the first reply advertising `service`
/// that its source sent.
pub open spec fn first_reply_from_source(service: Seq<u8>, ds: Seq<Datagram>, i: int) -> bool {
    &&& is_reply_to(service, ds[i].payload@)
    &&& forall|j: int|
        0 <= j < i && #[trigger] ds[j].source == ds[i].source ==> !is_reply_to(service, ds[j].payload@)
}

/// The positions in `ds` of the replies a scan keeps: the first reply from
/// each source, in order of arrival.
pub open spec fn kept_replies(service: Seq<u8>, ds: Seq<Datagram>) -> Seq<int>
    decreases ds.len(),
{
    if ds.len() == 0 {
        Seq::empty()
    } else {
        let prev = kept_replies(service, ds.drop_last());
        if first_reply_from_source(service, ds, ds.len() - 1) {
            prev.push(ds.len() - 1)
        } else {
            prev
        }
    }
}

/// Whether one of `servers` came from `source`.
pub open spec fn has_source(servers: Seq<ServerDescriptor>, source: Endpoint) -> bool {
    exists|k: int| 0 <= k < servers.len() && (#[trigger] servers[k]).source == source
}

/// The servers found so far in one scan, one per source.
#[derive(Debug)]
pub struct ServerCollector {
    pub servers: Vec<ServerDescriptor>,
}

impl ServerCollector {
    pub fn new() -> (r: ServerCollector)
        ensures
            r.servers@ == Seq::<ServerDescriptor>::empty(),
    {
        ServerCollector { servers: Vec::new() }
    }

    /// Takes in one received datagram. A reply advertising `service_name`
    /// from a source not heard before adds its server; anything else,
    /// malformed or foreign or repeated, is dropped.
    pub fn on_datagram(&mut self, service_name: &str, d: &Datagram)
        ensures
            ({
                let fresh = is_reply_to(service_name.spec_bytes(), d.payload@) && !has_source(
                    old(self).servers@,
                    d.source,
                );
                &&& fresh ==> final(self).servers@.len() == old(self).servers@.len() + 1
                    && final(self).servers@.drop_last() == old(self).servers@
                    && describes(final(self).servers@.last(), d.source, d.payload@)
                &&& !fresh ==> final(self).servers@ == old(self).servers@
            }),
    {
        let desc = match parse_reply(service_name, d.source, &d.payload) {
            Some(desc) => desc,
            None => return,
        };
        let mut k: usize = 0;
        while k < self.servers.len()
            invariant
                0 <= k <= self.servers@.len(),
                self.servers@ == old(self).servers@,
                forall|j: int| 0 <= j < k ==> (#[trigger] self.servers@[j]).source != d.source,
            decreases self.servers.len() - k,
        {
            if self.servers[k].source == d.source {
                assert(has_source(old(self).servers@, d.source)) by {
                    assert(self.servers@[k as int].source == d.source);
                }
                return;
            }
            k = k + 1;
        }
        let ghost prev = self.servers@;
        self.servers.push(desc);
        assert(self.servers@.drop_last() == prev);
    }
}

proof fn lemma_first_reply_prefix(service: Seq<u8>, ds: Seq<Datagram>, n: int, i: int)
    requires
        0 <= i < n <= ds.len(),
    ensures
        first_reply_from_source(service, ds.take(n), i) == first_reply_from_source(service, ds, i),
{
    let t = ds.take(n);
    assert(t[i] == ds[i]);
    assert forall|j: int| 0 <= j < i implies #[trigger] t[j] == ds[j] by {}
    if first_reply_from_source(service, ds, i) {
        assert forall|j: int| 0 <= j < i && #[trigger] t[j].source == t[i].source implies !is_reply_to(
            service,
            t[j].payload@,
        ) by {
            assert(t[j] == ds[j]);
        }
    }
    if first_reply_from_source(service, t, i) {
        assert forall|j: int| 0 <= j < i && #[trigger] ds[j].source == ds[i].source implies !is_reply_to(
            service,
            ds[j].payload@,
        ) by {
            assert(t[j] == ds[j]);
        }
    }
}

/// Collects the servers that answered a scan for `service_name`, given the
/// datagrams received during the collection window in order of arrival.
/// The result holds one descriptor per replying source, read from its first
/// reply, in order of arrival; it is empty when no reply came.
pub fn collect_servers(service_name: &str, datagrams: &Vec<Datagram>) -> (r: Vec<ServerDescriptor>)
    ensures
        r@.len() == kept_replies(service_name.spec_bytes(), datagrams@).len(),
        forall|k: int| 0 <= k < r@.len() ==> {
            let i = kept_replies(service_name.spec_bytes(), datagrams@)[k];
            describes(#[trigger] r@[k], datagrams@[i].source, datagrams@[i].payload@)
        },
{
    let ghost service = service_name.spec_bytes();
    let ghost ds = datagrams@;
    let mut c = ServerCollector::new();
    let mut i: usize = 0;
    assert(ds.take(0) == Seq::<Datagram>::empty());
    while i < datagrams.len()
        invariant
            0 <= i <= ds.len(),
            ds == datagrams@,
            service == service_name.spec_bytes(),
            c.servers@.len() == kept_replies(service, ds.take(i as int)).len(),
            forall|k: int| 0 <= k < c.servers@.len() ==> {
                let j = kept_replies(service, ds.take(i as int))[k];
                describes(#[trigger] c.servers@[k], ds[j].source, ds[j].payload@)
            },
            forall|e: Endpoint| #[trigger] has_source(c.servers@, e) <==> exists|j: int|
                0 <= j < i && is_reply_to(service, ds[j].payload@) && (#[trigger] ds[j]).source == e,
        decreases datagrams.len() - i,
    {
        let ghost prev = c.servers@;
        let ghost kp = kept_replies(service, ds.take(i as int));
        c.on_datagram(service_name, &datagrams[i]);
        let ghost n: int = i + 1;
        let ghost tn = ds.take(n);
        proof {
            assert(tn.drop_last() == ds.take(i as int));
            lemma_first_reply_prefix(service, ds, n as int, i as int);
            let first = first_reply_from_source(service, ds, i as int);
            let fresh = is_reply_to(service, ds[i as int].payload@) && !has_source(prev, ds[i as int].source);
            if fresh {
                assert forall|j: int| 0 <= j < i && #[trigger] ds[j].source == ds[i as int].source
                    implies !is_reply_to(service, ds[j].payload@) by {
                    if is_reply_to(service, ds[j].payload@) {
                        assert(has_source(prev, ds[i as int].source));
                    }
                }
                assert(first);
            }
            if first {
                if has_source(prev, ds[i as int].source) {
                    let j = choose|j: int|
                        0 <= j < i && is_reply_to(service, ds[j].payload@) && (#[trigger] ds[j]).source
                            == ds[i as int].source;
                    assert(false);
                }
            }
            assert(fresh == first);
            assert(tn.len() == n);
            assert(kept_replies(service, tn) == if first {
                kp.push(i as int)
            } else {
                kp
            });
            assert forall|k: int| 0 <= k < c.servers@.len() implies {
                let j = kept_replies(service, tn)[k];
                describes(#[trigger] c.servers@[k], ds[j].source, ds[j].payload@)
            } by {
                if k < prev.len() {
                    assert(c.servers@[k] == prev[k]);
                    assert(kept_replies(service, tn)[k] == kp[k]);
                } else {
                    assert(fresh);
                    assert(k == prev.len());
                    assert(c.servers@[k] == c.servers@.last());
                    assert(kept_replies(service, tn)[k] == i);
                }
            }
            assert forall|e: Endpoint| #[trigger] has_source(c.servers@, e) <==> exists|j: int|
                0 <= j < n && is_reply_to(service, ds[j].payload@) && (#[trigger] ds[j]).source == e by {
                if has_source(c.servers@, e) {
                    let k = choose|k: int| 0 <= k < c.servers@.len() && (#[trigger] c.servers@[k]).source == e;
                    if k < prev.len() {
                        assert(c.servers@[k] == prev[k]);
                        assert(has_source(prev, e));
                    } else {
                        assert(ds[i as int].source == e);
                    }
                }
                if exists|j: int| 0 <= j < n && is_reply_to(service, ds[j].payload@) && (#[trigger] ds[j]).source == e {
                    let j = choose|j: int|
                        0 <= j < n && is_reply_to(service, ds[j].payload@) && (#[trigger] ds[j]).source == e;
                    if j < i {
                        assert(has_source(prev, e));
                        let k = choose|k: int| 0 <= k < prev.len() && (#[trigger] prev[k]).source == e;
                        assert(c.servers@[k] == prev[k]);
                    } else if fresh {
                        assert(c.servers@[prev.len() as int].source == e);
                    } else {
                        let k = choose|k: int| 0 <= k < prev.len() && (#[trigger] prev[k]).source == e;
                        assert(c.servers@[k] == prev[k]);
                    }
                }
            }
        }
        i = i + 1;
        assert(ds.take(i as int) == tn);
    }
    assert(ds.take(ds.len() as int) == ds);
    c.servers
}

/// A scan in which no datagram is a reply advertising the service finds no
/// server: malformed and foreign datagrams only ever leave the result empty.
pub proof fn lemma_no_reply_no_server(service: Seq<u8>, ds: Seq<Datagram>)
    requires
        forall|i: int| 0 <= i < ds.len() ==> !is_reply_to(service, (#[trigger] ds[i]).payload@),
    ensures
        kept_replies(service, ds).len() == 0,
    decreases ds.len(),
{
    if ds.len() > 0 {
        let rest = ds.drop_last();
        assert forall|i: int| 0 <= i < rest.len() implies !is_reply_to(service, (#[trigger] rest[i]).payload@) by {
            assert(rest[i] == ds[i]);
        }
        lemma_no_reply_no_server(service, rest);
    }
}

proof fn lemma_kept_replies_facts(service: Seq<u8>, ds: Seq<Datagram>)
    ensures
        forall|k: int| 0 <= k < kept_replies(service, ds).len() ==> {
            &&& 0 <= #[trigger] kept_replies(service, ds)[k] < ds.len()
            &&& first_reply_from_source(service, ds, kept_replies(service, ds)[k])
        },
        forall|k1: int, k2: int| 0 <= k1 < k2 < kept_replies(service, ds).len()
            ==> #[trigger] kept_replies(service, ds)[k1] < #[trigger] kept_replies(service, ds)[k2],
        forall|j: int| 0 <= j < ds.len() && is_reply_to(service, (#[trigger] ds[j]).payload@) ==> exists|k: int|
            0 <= k < kept_replies(service, ds).len() && ds[#[trigger] kept_replies(service, ds)[k]].source == ds[j].source,
    decreases ds.len(),
{
    if ds.len() > 0 {
        let last = ds.len() - 1;
        let rest = ds.drop_last();
        lemma_kept_replies_facts(service, rest);
        let kr = kept_replies(service, rest);
        let kd = kept_replies(service, ds);
        assert(ds.take(last) == rest);
        assert forall|k: int| 0 <= k < kr.len() implies #[trigger] kd[k] == kr[k] && first_reply_from_source(
            service,
            ds,
            kr[k],
        ) by {
            lemma_first_reply_prefix(service, ds, last, kr[k]);
        }
        assert forall|j: int| 0 <= j < ds.len() && is_reply_to(service, (#[trigger] ds[j]).payload@) implies exists|k: int|
            0 <= k < kd.len() && ds[#[trigger] kd[k]].source == ds[j].source by {
            if j < last {
                assert(rest[j] == ds[j]);
                let k = choose|k: int| 0 <= k < kr.len() && rest[#[trigger] kr[k]].source == rest[j].source;
                assert(kd[k] == kr[k]);
                assert(rest[kr[k]] == ds[kr[k]]);
            } else if first_reply_from_source(service, ds, last) {
                assert(kd[kr.len() as int] == last);
            } else {
                let j2 = choose|j2: int| 0 <= j2 < last && #[trigger] ds[j2].source == ds[last].source && is_reply_to(
                    service,
                    ds[j2].payload@,
                );
                assert(rest[j2] == ds[j2]);
                let k = choose|k: int| 0 <= k < kr.len() && rest[#[trigger] kr[k]].source == rest[j2].source;
                assert(kd[k] == kr[k]);
                assert(rest[kr[k]] == ds[kr[k]]);
            }
        }
    }
}

/// When the replies come from the distinct endpoints `sources`, each of
/// which replies at least once (once or repeatedly), the scan finds exactly
/// one server per source.
pub proof fn lemma_one_server_per_source(service: Seq<u8>, ds: Seq<Datagram>, sources: Seq<Endpoint>)
    requires
        sources.no_duplicates(),
        forall|i: int| 0 <= i < ds.len() && is_reply_to(service, (#[trigger] ds[i]).payload@) ==> sources.contains(
            ds[i].source,
        ),
        forall|s: int| 0 <= s < sources.len() ==> exists|i: int|
            0 <= i < ds.len() && is_reply_to(service, (#[trigger] ds[i]).payload@) && ds[i].source == #[trigger] sources[s],
    ensures
        kept_replies(service, ds).len() == sources.len(),
{
    lemma_kept_replies_facts(service, ds);
    let kd = kept_replies(service, ds);
    let ks = kd.map_values(|i: int| ds[i].source);
    assert forall|a: int, b: int| 0 <= a < ks.len() && 0 <= b < ks.len() && a != b implies ks[a] != ks[b] by {
        if a < b {
            assert(kd[a] < kd[b]);
            assert(first_reply_from_source(service, ds, kd[b]));
        } else {
            assert(kd[b] < kd[a]);
            assert(first_reply_from_source(service, ds, kd[a]));
        }
    }
    assert(ks.no_duplicates());
    assert forall|e: Endpoint| ks.to_set().contains(e) <==> sources.to_set().contains(e) by {
        if ks.contains(e) {
            let k = choose|k: int| 0 <= k < ks.len() && ks[k] == e;
            assert(first_reply_from_source(service, ds, kd[k]));
        }
        if sources.contains(e) {
            let s = choose|s: int| 0 <= s < sources.len() && sources[s] == e;
            let i = choose|i: int| 0 <= i < ds.len() && is_reply_to(service, (#[trigger] ds[i]).payload@) && ds[i].source
                == sources[s];
            let k = choose|k: int| 0 <= k < kd.len() && ds[#[trigger] kd[k]].source == ds[i].source;
            assert(ks[k] == e);
        }
    }
    assert(ks.to_set() =~= sources.to_set());
    ks.unique_seq_to_set();
    sources.unique_seq_to_set();
}

} // verus!
