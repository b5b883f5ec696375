//! Container ports: a port number together with its transport protocol.

use vstd::prelude::*;
use vstd::string::*;
use crate::text::{
    decimal, push_decimal, find_first, index_of_first, lemma_find_first, split_around, parsed_u16,
    parse_u16, str_eq, lemma_decimal_digits, all_digits, digits_value,
};
use vstd::utf8::{encode_utf8, decode_utf8};

verus! {

/// A port inside the container, tagged with its protocol.
#[derive(Debug, Clone, Copy, PartialEq, Eq, Structural, Hash)]
pub enum ContainerPort {
    Tcp(u16),
    Udp(u16),
    Sctp(u16),
}

/// The protocol name of a port.
pub open spec fn protocol_text(p: ContainerPort) -> Seq<char> {
    match p {
        ContainerPort::Tcp(_) => seq!['t', 'c', 'p'],
        ContainerPort::Udp(_) => seq!['u', 'd', 'p'],
        ContainerPort::Sctp(_) => seq!['s', 'c', 't', 'p'],
    }
}

/// The port number of a port.
pub open spec fn port_number(p: ContainerPort) -> u16 {
    match p {
        ContainerPort::Tcp(n) => n,
        ContainerPort::Udp(n) => n,
        ContainerPort::Sctp(n) => n,
    }
}

/// The text form `"<number>/<protocol>"`, as Docker writes port keys.
pub open spec fn port_text(p: ContainerPort) -> Seq<char> {
    decimal(port_number(p) as nat) + seq!['/'] + protocol_text(p)
}

impl ContainerPort {
    /// The port number.
    pub fn as_u16(&self) -> (r: u16)
        ensures
            r == port_number(*self),
    {
        match self {
            ContainerPort::Tcp(n) => *n,
            ContainerPort::Udp(n) => *n,
            ContainerPort::Sctp(n) => *n,
        }
    }

    /// The protocol name: `"tcp"`, `"udp"` or `"sctp"`.
    pub fn as_str(&self) -> (r: &'static str)
        ensures
            r@ == protocol_text(*self),
    {
        match self {
            ContainerPort::Tcp(_) => {
                proof {
                    reveal_strlit("tcp");
                }
                "tcp"
            },
            ContainerPort::Udp(_) => {
                proof {
                    reveal_strlit("udp");
                }
                "udp"
            },
            ContainerPort::Sctp(_) => {
                proof {
                    reveal_strlit("sctp");
                }
                "sctp"
            },
        }
    }

    /// Appends `"<number>/<protocol>"` to `out`.
    pub fn push_text(&self, out: &mut String)
        ensures
            final(out)@ == old(out)@ + port_text(*self),
    {
        push_decimal(out, self.as_u16() as u128);
        out.append("/");
        out.append(self.as_str());
        proof {
            reveal_strlit("/");
            assert(final(out)@ =~= old(out)@ + port_text(*self));
        }
    }

    /// The text form `"<number>/<protocol>"`, such as `"80/tcp"`.
    pub fn to_string(&self) -> (r: String)
        ensures
            r@ == port_text(*self),
    {
        let mut out = String::new();
        self.push_text(&mut out);
        proof {
            assert(out@ =~= port_text(*self));
        }
        out
    }
}

/// Builds ports of each protocol from a bare number.
pub trait IntoContainerPort: Sized {
    /// The port number this value stands for.
    spec fn port_number_of(self) -> u16;

    /// The TCP port of that number.
    fn tcp(self) -> (r: ContainerPort)
        ensures
            r == ContainerPort::Tcp(self.port_number_of()),
    ;

    /// The UDP port of that number.
    fn udp(self) -> (r: ContainerPort)
        ensures
            r == ContainerPort::Udp(self.port_number_of()),
    ;

    /// The SCTP port of that number.
    fn sctp(self) -> (r: ContainerPort)
        ensures
            r == ContainerPort::Sctp(self.port_number_of()),
    ;
}

impl IntoContainerPort for u16 {
    open spec fn port_number_of(self) -> u16 {
        self
    }

    fn tcp(self) -> (r: ContainerPort) {
        ContainerPort::Tcp(self)
    }

    fn udp(self) -> (r: ContainerPort) {
        ContainerPort::Udp(self)
    }

    fn sctp(self) -> (r: ContainerPort) {
        ContainerPort::Sctp(self)
    }
}

/// A bare number is a TCP port.
impl From<u16> for ContainerPort {
    fn from(port: u16) -> (r: ContainerPort) {
        ContainerPort::Tcp(port)
    }
}

impl vstd::std_specs::convert::FromSpecImpl<u16> for ContainerPort {
    open spec fn obeys_from_spec() -> bool {
        true
    }

    open spec fn from_spec(v: u16) -> ContainerPort {
        ContainerPort::Tcp(v)
    }
}

/// A container port published on a host port.
#[derive(Debug, Clone, Copy, PartialEq, Eq, Structural)]
pub struct PortMapping {
    pub host_port: u16,
    pub container_port: ContainerPort,
}

impl PortMapping {
    /// Publishes `internal` on the host port `local`.
    pub fn new(local: u16, internal: ContainerPort) -> (r: PortMapping)
        ensures
            r.host_port == local,
            r.container_port == internal,
    {
        PortMapping { host_port: local, container_port: internal }
    }

    /// The host port.
    pub fn host_port(&self) -> (r: u16)
        ensures
            r == self.host_port,
    {
        self.host_port
    }

    /// The container port.
    pub fn container_port(&self) -> (r: ContainerPort)
        ensures
            r == self.container_port,
    {
        self.container_port
    }
}

/// The host port of `port` in a table of mappings: that of its first entry.
pub open spec fn port_lookup(table: Seq<(ContainerPort, u16)>, port: ContainerPort) -> Option<u16>
    decreases table.len(),
{
    if table.len() == 0 {
        None
    } else if table[0].0 == port {
        Some(table[0].1)
    } else {
        port_lookup(table.drop_first(), port)
    }
}

/// No container port occurs twice.
pub open spec fn keys_distinct(table: Seq<(ContainerPort, u16)>) -> bool {
    forall|i: int, j: int| 0 <= i < j < table.len() ==> table[i].0 != table[j].0
}

/// The host ports a container's ports are published on, per address family.
#[derive(Debug, Clone)]
pub struct Ports {
    pub ipv4: Vec<(ContainerPort, u16)>,
    pub ipv6: Vec<(ContainerPort, u16)>,
}

proof fn lemma_lookup_index(table: Seq<(ContainerPort, u16)>, i: int)
    requires
        keys_distinct(table),
        0 <= i < table.len(),
    ensures
        port_lookup(table, table[i].0) == Some(table[i].1),
    decreases table.len(),
{
    if i > 0 {
        assert(keys_distinct(table.drop_first()));
        lemma_lookup_index(table.drop_first(), i - 1);
    }
}

proof fn lemma_lookup_absent(table: Seq<(ContainerPort, u16)>, port: ContainerPort)
    requires
        forall|i: int| 0 <= i < table.len() ==> table[i].0 != port,
    ensures
        port_lookup(table, port) is None,
    decreases table.len(),
{
    if table.len() > 0 {
        lemma_lookup_absent(table.drop_first(), port);
    }
}

proof fn lemma_lookup_some(table: Seq<(ContainerPort, u16)>, port: ContainerPort)
    requires
        keys_distinct(table),
        port_lookup(table, port) is Some,
    ensures
        exists|i: int| 0 <= i < table.len() && table[i].0 == port && table[i].1 == port_lookup(table, port)->0,
    decreases table.len(),
{
    if table[0].0 != port {
        assert(keys_distinct(table.drop_first()));
        lemma_lookup_some(table.drop_first(), port);
        let i = choose|i: int| 0 <= i < table.drop_first().len() && table.drop_first()[i].0 == port
            && table.drop_first()[i].1 == port_lookup(table.drop_first(), port)->0;
        assert(table[i + 1] == table.drop_first()[i]);
    }
}

/// Records `host` for `port`, replacing an earlier host port of it.
fn table_insert(table: &mut Vec<(ContainerPort, u16)>, port: ContainerPort, host: u16)
    requires
        keys_distinct(old(table)@),
    ensures
        keys_distinct(final(table)@),
        forall|q: ContainerPort| #[trigger] port_lookup(final(table)@, q) == if q == port {
            Some(host)
        } else {
            port_lookup(old(table)@, q)
        },
{
    let ghost before = table@;
    let mut i: usize = 0;
    while i < table.len()
        invariant
            i <= table@.len(),
            table@ == before,
            before == old(table)@,
            keys_distinct(before),
            forall|k: int| 0 <= k < i ==> table@[k].0 != port,
        decreases table@.len() - i,
    {
        if table[i].0 == port {
            table.set(i, (port, host));
            proof {
                let t = table@;
                assert(t =~= before.update(i as int, (port, host)));
                assert forall|k: int| 0 <= k < t.len() implies t[k].0 == before[k].0 by {}
                assert forall|a: int, b: int| 0 <= a < b < t.len() implies t[a].0 != t[b].0 by {
                    assert(before[a].0 != before[b].0);
                }
                assert forall|q: ContainerPort| #[trigger] port_lookup(t, q) == if q == port {
                    Some(host)
                } else {
                    port_lookup(before, q)
                } by {
                    if q == port {
                        lemma_lookup_index(t, i as int);
                    } else {
                        if port_lookup(before, q) is Some {
                            lemma_lookup_some(before, q);
                            let k = choose|k: int| 0 <= k < before.len() && before[k].0 == q
                                && before[k].1 == port_lookup(before, q)->0;
                            lemma_lookup_index(t, k);
                        } else {
                            assert forall|k: int| 0 <= k < t.len() implies t[k].0 != q by {
                                if k != i && t[k].0 == q {
                                    lemma_lookup_index(before, k);
                                }
                            }
                            lemma_lookup_absent(t, q);
                        }
                    }
                }
            }
            return;
        }
        i += 1;
    }
    table.push((port, host));
    proof {
        let t = table@;
        assert(t =~= before.push((port, host)));
        assert forall|q: ContainerPort| #[trigger] port_lookup(t, q) == if q == port {
            Some(host)
        } else {
            port_lookup(before, q)
        } by {
            if q == port {
                lemma_lookup_index(t, before.len() as int);
            } else if port_lookup(before, q) is Some {
                lemma_lookup_some(before, q);
                let k = choose|k: int| 0 <= k < before.len() && before[k].0 == q
                    && before[k].1 == port_lookup(before, q)->0;
                lemma_lookup_index(t, k);
            } else {
                assert forall|k: int| 0 <= k < t.len() implies t[k].0 != q by {
                    if k < before.len() && t[k].0 == q {
                        lemma_lookup_index(before, k);
                    }
                }
                lemma_lookup_absent(t, q);
            }
        }
    }
}

fn table_get(table: &Vec<(ContainerPort, u16)>, port: ContainerPort) -> (r: Option<u16>)
    ensures
        r == port_lookup(table@, port),
{
    let mut i: usize = 0;
    assert(table@.skip(0) =~= table@);
    while i < table.len()
        invariant
            i <= table@.len(),
            port_lookup(table@, port) == port_lookup(table@.skip(i as int), port),
        decreases table@.len() - i,
    {
        proof {
            assert(table@.skip(i as int).drop_first() =~= table@.skip(i + 1));
        }
        if table[i].0 == port {
            return Some(table[i].1);
        }
        i += 1;
    }
    proof {
        assert(table@.skip(i as int) =~= Seq::<(ContainerPort, u16)>::empty());
    }
    None
}

impl Ports {
    /// Each family's table has no container port twice.
    pub open spec fn wf(&self) -> bool {
        keys_distinct(self.ipv4@) && keys_distinct(self.ipv6@)
    }

    /// No published ports.
    pub fn new() -> (r: Ports)
        ensures
            r.wf(),
            r.ipv4@.len() == 0 && r.ipv6@.len() == 0,
            forall|q: ContainerPort| port_lookup(r.ipv4@, q) is None && port_lookup(r.ipv6@, q) is None,
    {
        Ports { ipv4: Vec::new(), ipv6: Vec::new() }
    }

    /// Publishes `port` on the IPv4 host port `host` (replacing an earlier
    /// one).
    pub fn add_mapping(&mut self, port: ContainerPort, host: u16)
        requires
            old(self).wf(),
        ensures
            final(self).wf(),
            final(self).ipv6 == old(self).ipv6,
            forall|q: ContainerPort| #[trigger] port_lookup(final(self).ipv4@, q) == if q == port {
                Some(host)
            } else {
                port_lookup(old(self).ipv4@, q)
            },
    {
        table_insert(&mut self.ipv4, port, host);
    }

    /// Publishes `port` on the IPv6 host port `host` (replacing an earlier
    /// one).
    pub fn add_ipv6_mapping(&mut self, port: ContainerPort, host: u16)
        requires
            old(self).wf(),
        ensures
            final(self).wf(),
            final(self).ipv4 == old(self).ipv4,
            forall|q: ContainerPort| #[trigger] port_lookup(final(self).ipv6@, q) == if q == port {
                Some(host)
            } else {
                port_lookup(old(self).ipv6@, q)
            },
    {
        table_insert(&mut self.ipv6, port, host);
    }

    /// The IPv4 host port `port` is published on.
    pub fn map_to_host_port_ipv4(&self, port: ContainerPort) -> (r: Option<u16>)
        ensures
            r == port_lookup(self.ipv4@, port),
    {
        table_get(&self.ipv4, port)
    }

    /// The IPv6 host port `port` is published on.
    pub fn map_to_host_port_ipv6(&self, port: ContainerPort) -> (r: Option<u16>)
        ensures
            r == port_lookup(self.ipv6@, port),
    {
        table_get(&self.ipv6, port)
    }
}

impl Default for Ports {
    fn default() -> (r: Ports)
        ensures
            r.wf(),
            r.ipv4@.len() == 0 && r.ipv6@.len() == 0,
    {
        Ports::new()
    }
}

/// A published port reads back: after `add_mapping(port, host)` the IPv4
/// host port of `port` is `host`, and every other port keeps its own.
pub proof fn lemma_mapping_reads_back(
    before: Seq<(ContainerPort, u16)>,
    after: Seq<(ContainerPort, u16)>,
    port: ContainerPort,
    host: u16,
    other: ContainerPort,
)
    requires
        forall|q: ContainerPort| #[trigger] port_lookup(after, q) == if q == port {
            Some(host)
        } else {
            port_lookup(before, q)
        },
    ensures
        port_lookup(after, port) == Some(host),
        other != port ==> port_lookup(after, other) == port_lookup(before, other),
{
    assert(port_lookup(after, port) == Some(host));
    assert(port_lookup(after, other) == if other == port {
        Some(host)
    } else {
        port_lookup(before, other)
    });
}

/// A `"<port>/<protocol>"` text read as a container port: one slash, a
/// `u16` before it and `tcp`, `udp` or `sctp` after it.
pub open spec fn port_key(key: Seq<char>) -> Option<ContainerPort> {
    let b = encode_utf8(key);
    match find_first(b, 47) {
        None => None,
        Some(i) => {
            let rest = b.subrange(i + 1, b.len() as int);
            if rest.contains(47u8) {
                None
            } else {
                match parsed_u16(decode_utf8(b.take(i))) {
                    None => None,
                    Some(n) => {
                        let proto = decode_utf8(rest);
                        if proto == "tcp"@ {
                            Some(ContainerPort::Tcp(n))
                        } else if proto == "udp"@ {
                            Some(ContainerPort::Udp(n))
                        } else if proto == "sctp"@ {
                            Some(ContainerPort::Sctp(n))
                        } else {
                            None
                        }
                    },
                }
            }
        },
    }
}

/// Reads `"<port>/<protocol>"`, such as `"80/tcp"`.
pub fn parse_container_port(key: &str) -> (r: Option<ContainerPort>)
    ensures
        r == port_key(key@),
{
    let bytes = key.as_bytes();
    proof {
        lemma_find_first(bytes@, 47);
    }
    let i = match index_of_first(bytes, 47) {
        Some(i) => i,
        None => {
            return None;
        },
    };
    let (num, proto) = split_around(key, i);
    proof {
        vstd::utf8::encode_utf8_decode_utf8(num@);
        vstd::utf8::encode_utf8_decode_utf8(proto@);
        assert(bytes@.take(i as int) =~= bytes@.subrange(0, i as int));
    }
    let proto_bytes = proto.as_bytes();
    match index_of_first(proto_bytes, 47) {
        Some(_) => {
            proof {
                lemma_find_first(proto_bytes@, 47);
                let j = find_first(proto_bytes@, 47)->0;
                assert(proto_bytes@[j] == 47u8);
            }
            return None;
        },
        None => {
            proof {
                lemma_find_first(proto_bytes@, 47);
            }
        },
    }
    let n = match parse_u16(num) {
        Some(n) => n,
        None => {
            return None;
        },
    };
    if str_eq(proto, "tcp") {
        Some(ContainerPort::Tcp(n))
    } else if str_eq(proto, "udp") {
        Some(ContainerPort::Udp(n))
    } else if str_eq(proto, "sctp") {
        Some(ContainerPort::Sctp(n))
    } else {
        None
    }
}

/// Error of reading a container port from text.
#[derive(Debug, Clone, PartialEq, Eq)]
pub struct ParsePortError;

impl std::str::FromStr for ContainerPort {
    type Err = ParsePortError;

    fn from_str(s: &str) -> (r: Result<ContainerPort, ParsePortError>)
        ensures
            match port_key(s@) {
                Some(p) => r == Ok::<ContainerPort, ParsePortError>(p),
                None => r is Err,
            },
    {
        match parse_container_port(s) {
            Some(p) => Ok(p),
            None => Err(ParsePortError),
        }
    }
}

proof fn lemma_ascii_seq_encode(s: Seq<char>)
    requires
        vstd::utf8::is_ascii_chars(s),
    ensures
        encode_utf8(s).len() == s.len(),
        forall|i: int| 0 <= i < s.len() ==> encode_utf8(s)[i] == (#[trigger] s[i] as u32) as u8,
        decode_utf8(encode_utf8(s)) == s,
{
    vstd::utf8::is_ascii_chars_encode_utf8(s);
    vstd::utf8::encode_utf8_decode_utf8(s);
}

/// A port's text reads back as that port: `parse_container_port` of
/// `to_string` is the port itself, for every port.
pub proof fn lemma_port_text_round_trip(p: ContainerPort)
    ensures
        port_key(port_text(p)) == Some(p),
{
    let n = port_number(p);
    let d = decimal(n as nat);
    let proto = protocol_text(p);
    lemma_decimal_digits(n as nat);
    let t = port_text(p);
    assert(t == d + seq!['/'] + proto);
    assert(vstd::utf8::is_ascii_chars(d)) by {
        assert forall|i: int| 0 <= i < d.len() implies '\0' <= #[trigger] d[i] <= '\u{7f}' by {
            assert('0' <= d[i] && d[i] <= '9');
        }
    }
    assert(vstd::utf8::is_ascii_chars(proto)) by {
        reveal_strlit("tcp");
        reveal_strlit("udp");
        reveal_strlit("sctp");
    }
    assert(vstd::utf8::is_ascii_chars(t)) by {
        assert forall|i: int| 0 <= i < t.len() implies '\0' <= #[trigger] t[i] <= '\u{7f}' by {
            if i < d.len() {
                assert(t[i] == d[i]);
            } else if i > d.len() {
                assert(t[i] == proto[i - d.len() - 1]);
            }
        }
    }
    lemma_ascii_seq_encode(t);
    lemma_ascii_seq_encode(d);
    lemma_ascii_seq_encode(proto);
    let b = encode_utf8(t);
    let k = d.len() as int;
    assert(t[k] == '/');
    assert(b[k] == (t[k] as u32) as u8);
    assert(('/' as u32) as u8 == 47u8);
    assert(b[k] == 47u8);
    assert forall|j: int| 0 <= j < k implies b[j] != 47u8 by {
        assert(t[j] == d[j]);
        assert('0' <= d[j] && d[j] <= '9');
    }
    lemma_find_first(b, 47);
    assert(find_first(b, 47) == Some(k)) by {
        match find_first(b, 47) {
            Some(i) => {
                if i < k {
                } else if i > k {
                }
            },
            None => {},
        }
    }
    let rest = b.subrange(k + 1, b.len() as int);
    assert(rest =~= encode_utf8(proto)) by {
        assert forall|j: int| 0 <= j < rest.len() implies rest[j] == encode_utf8(proto)[j] by {
            assert(t[k + 1 + j] == proto[j]);
        }
    }
    assert(!rest.contains(47u8)) by {
        if rest.contains(47u8) {
            let j = choose|j: int| 0 <= j < rest.len() && rest[j] == 47u8;
            assert(rest[j] == (proto[j] as u32) as u8);
        }
    }
    assert(b.take(k) =~= encode_utf8(d)) by {
        assert forall|j: int| 0 <= j < k implies b.take(k)[j] == encode_utf8(d)[j] by {
            assert(t[j] == d[j]);
        }
    }
    assert(n as nat <= u16::MAX);
    assert(decode_utf8(b.take(k)) == d);
    assert(parsed_u16(d) == Some(n));
    assert(decode_utf8(rest) == proto);
    reveal_strlit("tcp");
    reveal_strlit("udp");
    reveal_strlit("sctp");
    match p {
        ContainerPort::Tcp(_) => {
            assert(proto =~= "tcp"@);
        },
        ContainerPort::Udp(_) => {
            assert(proto =~= "udp"@);
            assert(proto[0] != "tcp"@[0]);
        },
        ContainerPort::Sctp(_) => {
            assert(proto =~= "sctp"@);
            assert(proto.len() != "tcp"@.len());
        },
    }
}

} // verus!
