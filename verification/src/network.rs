//! Socket-table parsing and socket-to-process correlation.
//!
//! Socket table rows carry addresses as `AAAAAAAA:PPPP` hex pairs: the
//! four address bytes in reverse (little-endian) order, the port as a
//! big-endian two-byte value. Rows with fewer than ten fields are
//! skipped as malformed, as are rows whose local address does not parse.

use vstd::prelude::*;

use crate::strutil::{
    all_hex_digits, append_str, find_ch, find_char_from, hex_string, hex_val, is_prefix,
    lemma_find_ch, lemma_find_ch_char, lemma_hex_str_val, lemma_hex_val_nonneg, parse_u64_dec,
    parse_u64_hex, pow16, spec_fields, spec_hex_str, spec_lines, split_fields, split_lines,
    starts_with, str_eq, views_of,
};

verus! {

/// Network protocol of a socket table.
#[derive(Debug, Clone, Copy, PartialEq, Eq, Structural)]
pub enum Protocol {
    Tcp,
    Udp,
}

impl Protocol {
    /// Display name of the protocol.
    pub fn as_str(&self) -> (r: &str)
        ensures
            r@ == match self {
                Protocol::Tcp => "TCP"@,
                Protocol::Udp => "UDP"@,
            },
    {
        match self {
            Protocol::Tcp => "TCP",
            Protocol::Udp => "UDP",
        }
    }
}

/// Connection state of a socket, decoded from its hex state field.
#[derive(Debug, Clone, Copy, PartialEq, Eq, Structural)]
pub enum ConnectionState {
    Listen,
    Established,
    TimeWait,
    CloseWait,
    Unknown,
}

impl ConnectionState {
    /// Display name of the state.
    pub fn as_str(&self) -> (r: &str)
        ensures
            r@ == match self {
                ConnectionState::Listen => "LISTEN"@,
                ConnectionState::Established => "ESTABLISHED"@,
                ConnectionState::TimeWait => "TIME_WAIT"@,
                ConnectionState::CloseWait => "CLOSE_WAIT"@,
                ConnectionState::Unknown => "UNKNOWN"@,
            },
    {
        match self {
            ConnectionState::Listen => "LISTEN",
            ConnectionState::Established => "ESTABLISHED",
            ConnectionState::TimeWait => "TIME_WAIT",
            ConnectionState::CloseWait => "CLOSE_WAIT",
            ConnectionState::Unknown => "UNKNOWN",
        }
    }
}

/// An IPv4 address as four dotted-quad octets.
#[derive(Debug, Clone, Copy, PartialEq, Eq, Structural)]
pub struct Ipv4Addr {
    pub a: u8,
    pub b: u8,
    pub c: u8,
    pub d: u8,
}

/// The 32-bit value whose little-endian bytes are the octets of `addr`;
/// this is the number the kernel writes in hex for `addr`.
pub open spec fn le_val(addr: Ipv4Addr) -> int {
    addr.a + 256 * addr.b + 65536 * addr.c + 16777216 * addr.d
}

/// The address whose little-endian byte order spells `v`.
pub open spec fn addr_of_le(v: int) -> Ipv4Addr {
    Ipv4Addr {
        a: (v % 256) as u8,
        b: (v / 256 % 256) as u8,
        c: (v / 65536 % 256) as u8,
        d: (v / 16777216 % 256) as u8,
    }
}

/// Decoding of one `AAAAAAAA:PPPP` address field: exactly one colon,
/// both sides nonempty hex numerals in range.
pub open spec fn spec_parse_address(s: Seq<char>) -> Option<(Ipv4Addr, u16)> {
    let i = find_ch(s, ':', 0);
    if i == s.len() {
        None
    } else if find_ch(s, ':', i + 1) != s.len() {
        None
    } else {
        let ip_part = s.subrange(0, i);
        let port_part = s.subrange(i + 1, s.len() as int);
        if ip_part.len() > 0 && all_hex_digits(ip_part) && hex_val(ip_part) <= u32::MAX
            && port_part.len() > 0 && all_hex_digits(port_part) && hex_val(port_part) <= u16::MAX {
            Some((addr_of_le(hex_val(ip_part)), hex_val(port_part) as u16))
        } else {
            None
        }
    }
}

/// Parses a hex address field such as `"0100007F:EBF7"` into
/// `(127.0.0.1, 60407)`.
pub fn parse_address_v4(s: &str) -> (r: Option<(Ipv4Addr, u16)>)
    ensures
        r == spec_parse_address(s@),
{
    let n = s.unicode_len();
    let i = find_char_from(s, ':', 0);
    proof {
        lemma_find_ch(s@, ':', 0);
    }
    if i == n {
        return None;
    }
    let j = find_char_from(s, ':', i + 1);
    if j != n {
        return None;
    }
    let ip_part = s.substring_char(0, i);
    let port_part = s.substring_char(i + 1, n);
    proof {
        if ip_part@.len() > 0 && crate::strutil::all_hex_digits(ip_part@) {
            lemma_hex_val_nonneg(ip_part@);
        }
        if port_part@.len() > 0 && crate::strutil::all_hex_digits(port_part@) {
            lemma_hex_val_nonneg(port_part@);
        }
    }
    let ip_v = match parse_u64_hex(ip_part) {
        Some(v) => v,
        None => {
            return None;
        },
    };
    let port_v = match parse_u64_hex(port_part) {
        Some(v) => v,
        None => {
            return None;
        },
    };
    if ip_v > 0xFFFF_FFFF || port_v > 0xFFFF {
        return None;
    }
    let addr = Ipv4Addr {
        a: (ip_v % 256) as u8,
        b: (ip_v / 256 % 256) as u8,
        c: (ip_v / 65536 % 256) as u8,
        d: (ip_v / 16777216 % 256) as u8,
    };
    Some((addr, port_v as u16))
}

/// Encoding of an address and port as the kernel's socket tables spell
/// them: eight little-endian hex digits, a colon, four big-endian hex
/// digits.
pub open spec fn spec_encode_address(addr: Ipv4Addr, port: u16) -> Seq<char> {
    spec_hex_str(le_val(addr), 8) + seq![':'] + spec_hex_str(port as int, 4)
}

/// Renders an address and port in socket-table form, for example
/// `(127.0.0.1, 60407)` as `"0100007F:EBF7"`.
pub fn encode_address_v4(addr: &Ipv4Addr, port: u16) -> (r: String)
    ensures
        r@ == spec_encode_address(*addr, port),
{
    let v: u64 = addr.a as u64 + 256 * (addr.b as u64) + 65536 * (addr.c as u64) + 16777216 * (
    addr.d as u64);
    let mut out = hex_string(v, 8);
    out.push(':');
    let port_hex = hex_string(port as u64, 4);
    append_str(&mut out, port_hex.as_str());
    proof {
        assert(out@ =~= spec_encode_address(*addr, port));
    }
    out
}

proof fn lemma_pow16_small()
    ensures
        pow16(4) == 0x1_0000,
        pow16(8) == 0x1_0000_0000,
{
    assert(pow16(0) == 1);
    assert(pow16(1) == 16);
    assert(pow16(2) == 256);
    assert(pow16(3) == 4096);
    assert(pow16(4) == 0x1_0000);
    assert(pow16(5) == 0x10_0000);
    assert(pow16(6) == 0x100_0000);
    assert(pow16(7) == 0x1000_0000);
    assert(pow16(8) == 0x1_0000_0000);
}

/// Encoding an address and port and decoding the result reproduces the
/// pair exactly.
#[verifier::rlimit(50)]
pub proof fn lemma_address_round_trip(addr: Ipv4Addr, port: u16)
    ensures
        spec_parse_address(spec_encode_address(addr, port)) == Some((addr, port)),
{
    lemma_pow16_small();
    let v = le_val(addr);
    assert(0 <= v < pow16(8));
    lemma_hex_str_val(v, 8);
    lemma_hex_str_val(port as int, 4);
    let h1 = spec_hex_str(v, 8);
    let h2 = spec_hex_str(port as int, 4);
    let e = spec_encode_address(addr, port);
    assert(e.len() == 13);
    assert(e[8] == ':');
    assert forall|k: int| 0 <= k < 8 implies e[k] != ':' by {
        assert(e[k] == h1[k]);
        assert(all_hex_digits(h1) ==> crate::strutil::is_hex_digit(h1[k]));
    }
    assert forall|k: int| 9 <= k < 13 implies e[k] != ':' by {
        assert(e[k] == h2[k - 9]);
        assert(all_hex_digits(h2) ==> crate::strutil::is_hex_digit(h2[k - 9]));
    }
    lemma_find_ch_char(e, ':', 0, 8);
    lemma_find_ch_char(e, ':', 9, 13);
    assert(e.subrange(0, 8) =~= h1);
    assert(e.subrange(9, 13) =~= h2);
    assert(hex_val(e.subrange(0, 8)) == v);
    assert(hex_val(e.subrange(9, 13)) == port);
    assert(addr_of_le(v) == addr) by {
        assert(v % 256 == addr.a as int);
        assert(v / 256 % 256 == addr.b as int);
        assert(v / 65536 % 256 == addr.c as int);
        assert(v / 16777216 % 256 == addr.d as int);
    }
}

/// Decoding of the one-byte hex connection-state field.
pub open spec fn spec_parse_state(s: Seq<char>) -> ConnectionState {
    if s == "0A"@ {
        ConnectionState::Listen
    } else if s == "01"@ {
        ConnectionState::Established
    } else if s == "06"@ {
        ConnectionState::TimeWait
    } else if s == "08"@ {
        ConnectionState::CloseWait
    } else {
        ConnectionState::Unknown
    }
}

/// Maps a connection-state hex code to its state; anything unrecognized
/// is `Unknown`.
pub fn parse_state(hex_code: &str) -> (r: ConnectionState)
    ensures
        r == spec_parse_state(hex_code@),
{
    if str_eq(hex_code, "0A") {
        ConnectionState::Listen
    } else if str_eq(hex_code, "01") {
        ConnectionState::Established
    } else if str_eq(hex_code, "06") {
        ConnectionState::TimeWait
    } else if str_eq(hex_code, "08") {
        ConnectionState::CloseWait
    } else {
        ConnectionState::Unknown
    }
}

/// One socket-table row: protocol, local and remote endpoints,
/// connection state, and the socket's inode.
#[derive(Debug, Clone, Copy, PartialEq)]
pub struct NetworkBinding {
    pub protocol: Protocol,
    pub local_addr: Ipv4Addr,
    pub local_port: u16,
    pub remote_addr: Option<Ipv4Addr>,
    pub remote_port: Option<u16>,
    pub state: ConnectionState,
    pub inode: u64,
}

/// Decoding of one whitespace-split socket-table row. Rows with fewer
/// than ten fields, or whose local address does not parse, are dropped.
/// A malformed remote address falls back to `0.0.0.0:0`, a malformed
/// inode field to `0`.
pub open spec fn spec_row(fs: Seq<Seq<char>>, protocol: Protocol) -> Option<NetworkBinding> {
    if fs.len() < 10 {
        None
    } else {
        match spec_parse_address(fs[1]) {
            None => None,
            Some(local) => {
                let remote = match spec_parse_address(fs[2]) {
                    Some(x) => x,
                    None => (Ipv4Addr { a: 0, b: 0, c: 0, d: 0 }, 0u16),
                };
                let inode = match crate::strutil::spec_parse_u64_dec(fs[9]) {
                    Some(v) => v,
                    None => 0u64,
                };
                Some(
                    NetworkBinding {
                        protocol,
                        local_addr: local.0,
                        local_port: local.1,
                        remote_addr: Some(remote.0),
                        remote_port: Some(remote.1),
                        state: spec_parse_state(fs[3]),
                        inode,
                    },
                )
            },
        }
    }
}

/// The bindings decoded from a sequence of rows, in order.
pub open spec fn spec_rows(lines: Seq<Seq<char>>, protocol: Protocol) -> Seq<NetworkBinding>
    decreases lines.len(),
{
    if lines.len() == 0 {
        Seq::empty()
    } else {
        let rest = spec_rows(lines.subrange(1, lines.len() as int), protocol);
        match spec_row(spec_fields(lines[0]), protocol) {
            Some(b) => seq![b] + rest,
            None => rest,
        }
    }
}

/// The bindings encoded in a whole socket table: every row after the
/// header line that decodes.
pub open spec fn spec_connections(s: Seq<char>, protocol: Protocol) -> Seq<NetworkBinding> {
    let ls = spec_lines(s);
    if ls.len() == 0 {
        Seq::empty()
    } else {
        spec_rows(ls.subrange(1, ls.len() as int), protocol)
    }
}

/// Parses the text of a kernel socket table (its header line first)
/// into binding records, skipping malformed rows.
pub fn parse_connections(content: &str, protocol: Protocol) -> (r: Vec<NetworkBinding>)
    ensures
        r@ == spec_connections(content@, protocol),
{
    let lines = split_lines(content);
    let ghost ls = spec_lines(content@);
    let mut out: Vec<NetworkBinding> = Vec::new();
    if lines.len() == 0 {
        return out;
    }
    let mut i: usize = 1;
    proof {
        assert(views_of(lines@) == ls);
        assert(ls.subrange(1, ls.len() as int).subrange(0, 0) =~= Seq::<Seq<char>>::empty());
    }
    while i < lines.len()
        invariant
            1 <= i <= lines.len(),
            views_of(lines@) == ls,
            lines@.len() == ls.len(),
            spec_connections(content@, protocol) == out@ + spec_rows(
                ls.subrange(i as int, ls.len() as int),
                protocol,
            ),
        decreases lines.len() - i,
    {
        let fields = split_fields(lines[i].as_str());
        let ghost suffix = ls.subrange(i as int, ls.len() as int);
        proof {
            assert(lines@[i as int]@ == ls[i as int]);
            assert(suffix[0] == ls[i as int]);
            assert(suffix.subrange(1, suffix.len() as int) =~= ls.subrange(
                i + 1,
                ls.len() as int,
            ));
            assert(views_of(fields@) == spec_fields(ls[i as int]));
        }
        if fields.len() >= 10 {
            let local = parse_address_v4(fields[1].as_str());
            proof {
                assert(fields@[1]@ == spec_fields(ls[i as int])[1]);
                assert(fields@[2]@ == spec_fields(ls[i as int])[2]);
                assert(fields@[3]@ == spec_fields(ls[i as int])[3]);
                assert(fields@[9]@ == spec_fields(ls[i as int])[9]);
            }
            match local {
                Some(lp) => {
                    let remote = match parse_address_v4(fields[2].as_str()) {
                        Some(x) => x,
                        None => (Ipv4Addr { a: 0, b: 0, c: 0, d: 0 }, 0u16),
                    };
                    let state = parse_state(fields[3].as_str());
                    let inode = match parse_u64_dec(fields[9].as_str()) {
                        Some(v) => v,
                        None => 0u64,
                    };
                    let binding = NetworkBinding {
                        protocol,
                        local_addr: lp.0,
                        local_port: lp.1,
                        remote_addr: Some(remote.0),
                        remote_port: Some(remote.1),
                        state,
                        inode,
                    };
                    out.push(binding);
                    proof {
                        assert(spec_rows(suffix, protocol) =~= seq![binding] + spec_rows(
                            ls.subrange(i + 1, ls.len() as int),
                            protocol,
                        ));
                    }
                },
                None => {
                    proof {
                        assert(spec_rows(suffix, protocol) =~= spec_rows(
                            ls.subrange(i + 1, ls.len() as int),
                            protocol,
                        ));
                    }
                },
            }
        } else {
            proof {
                assert(spec_rows(suffix, protocol) =~= spec_rows(
                    ls.subrange(i + 1, ls.len() as int),
                    protocol,
                ));
            }
        }
        i = i + 1;
    }
    proof {
        assert(ls.subrange(i as int, ls.len() as int).len() == 0);
        assert(spec_connections(content@, protocol) =~= out@);
    }
    out
}

/// The socket inode named by an open-file-descriptor symlink target of
/// the form `socket:[934413]`.
pub open spec fn spec_socket_inode(s: Seq<char>) -> Option<u64> {
    if is_prefix("socket:["@, s) && s.len() > "socket:["@.len() + 1 && s.last() == ']' {
        crate::strutil::spec_parse_u64_dec(s.subrange("socket:["@.len() as int, s.len() - 1))
    } else {
        None
    }
}

/// Extracts the socket inode from a descriptor symlink target, if the
/// target identifies a socket.
pub fn parse_socket_inode(target: &str) -> (r: Option<u64>)
    ensures
        r == spec_socket_inode(target@),
{
    proof {
        reveal_strlit("socket:[");
    }
    let n = target.unicode_len();
    if !starts_with(target, "socket:[") {
        return None;
    }
    if n < 10 {
        return None;
    }
    if target.get_char(n - 1) != ']' {
        return None;
    }
    let middle = target.substring_char(8, n - 1);
    parse_u64_dec(middle)
}

/// The inode-to-pid pairs gathered from descriptor symlink targets, in
/// scan order: one pair for each target that identifies a socket.
pub open spec fn spec_inode_pairs(items: Seq<(u32, Seq<char>)>) -> Seq<(u64, u32)>
    decreases items.len(),
{
    if items.len() == 0 {
        Seq::empty()
    } else {
        let rest = spec_inode_pairs(items.subrange(1, items.len() as int));
        match spec_socket_inode(items[0].1) {
            Some(ino) => seq![(ino, items[0].0)] + rest,
            None => rest,
        }
    }
}

/// The view of a scan item: owning pid and symlink-target text.
pub open spec fn scan_views(items: Seq<(u32, String)>) -> Seq<(u32, Seq<char>)> {
    items.map_values(|p: (u32, String)| (p.0, p.1@))
}

/// Builds the inode-to-pid map from a descriptor scan: each item is an
/// owning pid with one symlink-target text.
pub fn build_inode_map(items: &Vec<(u32, String)>) -> (r: Vec<(u64, u32)>)
    ensures
        r@ == spec_inode_pairs(scan_views(items@)),
{
    let ghost iv = scan_views(items@);
    let mut out: Vec<(u64, u32)> = Vec::new();
    let mut i: usize = 0;
    proof {
        assert(iv.subrange(0, iv.len() as int) =~= iv);
    }
    while i < items.len()
        invariant
            0 <= i <= items.len(),
            iv == scan_views(items@),
            iv.len() == items@.len(),
            spec_inode_pairs(iv) == out@ + spec_inode_pairs(iv.subrange(i as int, iv.len() as int)),
        decreases items.len() - i,
    {
        let ghost suffix = iv.subrange(i as int, iv.len() as int);
        proof {
            assert(suffix[0] == iv[i as int]);
            assert(iv[i as int] == (items@[i as int].0, items@[i as int].1@));
            assert(suffix.subrange(1, suffix.len() as int) =~= iv.subrange(i + 1, iv.len() as int));
        }
        let pid = items[i].0;
        match parse_socket_inode(items[i].1.as_str()) {
            Some(ino) => {
                out.push((ino, pid));
                proof {
                    assert(spec_inode_pairs(suffix) =~= seq![(ino, pid)] + spec_inode_pairs(
                        iv.subrange(i + 1, iv.len() as int),
                    ));
                }
            },
            None => {
                proof {
                    assert(spec_inode_pairs(suffix) =~= spec_inode_pairs(
                        iv.subrange(i + 1, iv.len() as int),
                    ));
                }
            },
        }
        i = i + 1;
    }
    proof {
        assert(iv.subrange(i as int, iv.len() as int).len() == 0);
        assert(spec_inode_pairs(iv) =~= out@);
    }
    out
}

/// The pid recorded for `inode`: the last matching pair wins, as a
/// later insertion overwrites an earlier one.
pub open spec fn lookup_pid(map: Seq<(u64, u32)>, inode: u64) -> Option<u32>
    decreases map.len(),
{
    if map.len() == 0 {
        None
    } else if map.last().0 == inode {
        Some(map.last().1)
    } else {
        lookup_pid(map.drop_last(), inode)
    }
}

/// Looks up the owning pid of a socket inode.
pub fn find_pid_for_inode(map: &Vec<(u64, u32)>, inode: u64) -> (r: Option<u32>)
    ensures
        r == lookup_pid(map@, inode),
{
    let mut i: usize = map.len();
    proof {
        assert(map@.subrange(0, map@.len() as int) =~= map@);
    }
    while i > 0
        invariant
            0 <= i <= map@.len(),
            lookup_pid(map@, inode) == lookup_pid(map@.subrange(0, i as int), inode),
        decreases i,
    {
        i = i - 1;
        let pair = map[i];
        proof {
            let pre = map@.subrange(0, i + 1);
            assert(pre.last() == map@[i as int]);
            assert(pre.drop_last() =~= map@.subrange(0, i as int));
        }
        if pair.0 == inode {
            return Some(pair.1);
        }
    }
    proof {
        assert(map@.subrange(0, 0).len() == 0);
    }
    None
}

/// `b` is a listener on `port`.
pub open spec fn is_listener_on(b: NetworkBinding, port: u16) -> bool {
    b.local_port == port && b.state == ConnectionState::Listen
}

/// Some binding listens on `port`.
pub open spec fn has_listener(conns: Seq<NetworkBinding>, port: u16) -> bool {
    exists|i: int| 0 <= i < conns.len() && is_listener_on(#[trigger] conns[i], port)
}

/// The pid owning the first listener on `port` that the inode map
/// resolves, if any.
pub open spec fn spec_find_by_port(
    conns: Seq<NetworkBinding>,
    map: Seq<(u64, u32)>,
    port: u16,
) -> Option<u32>
    decreases conns.len(),
{
    if conns.len() == 0 {
        None
    } else if is_listener_on(conns[0], port) && lookup_pid(map, conns[0].inode).is_some() {
        lookup_pid(map, conns[0].inode)
    } else {
        spec_find_by_port(conns.subrange(1, conns.len() as int), map, port)
    }
}

/// With no listener on the port, the scan resolves nothing.
pub proof fn lemma_no_listener_no_find(
    conns: Seq<NetworkBinding>,
    map: Seq<(u64, u32)>,
    port: u16,
)
    ensures
        !has_listener(conns, port) ==> spec_find_by_port(conns, map, port) is None,
    decreases conns.len(),
{
    if conns.len() > 0 && !has_listener(conns, port) {
        assert(!is_listener_on(conns[0], port));
        let rest = conns.subrange(1, conns.len() as int);
        assert forall|j: int| 0 <= j < rest.len() implies !is_listener_on(
            #[trigger] rest[j],
            port,
        ) by {
            assert(rest[j] == conns[j + 1]);
        }
        lemma_no_listener_no_find(rest, map, port);
    }
}

/// Why a port lookup failed.
#[derive(Debug, Clone, Copy, PartialEq, Eq, Structural)]
pub enum PortLookupError {
    /// No binding at all listens on the queried port.
    NotFound,
    /// Listeners exist but none could be attributed to a process;
    /// reading their owners' descriptors typically needs elevated
    /// privileges.
    PermissionLikely,
}

/// Finds the process listening on `port`: the first listening binding
/// the inode map attributes to a pid. Distinguishes a port nobody
/// listens on (`NotFound`) from listeners that cannot be attributed
/// (`PermissionLikely`).
pub fn find_process_by_port(
    conns: &Vec<NetworkBinding>,
    map: &Vec<(u64, u32)>,
    port: u16,
) -> (r: Result<u32, PortLookupError>)
    ensures
        match r {
            Ok(pid) => spec_find_by_port(conns@, map@, port) == Some(pid),
            Err(PortLookupError::NotFound) => !has_listener(conns@, port),
            Err(PortLookupError::PermissionLikely) => has_listener(conns@, port)
                && spec_find_by_port(conns@, map@, port) is None,
        },
{
    let mut saw_listener = false;
    let mut i: usize = 0;
    proof {
        assert(conns@.subrange(0, conns@.len() as int) =~= conns@);
    }
    while i < conns.len()
        invariant
            0 <= i <= conns@.len(),
            spec_find_by_port(conns@, map@, port) == spec_find_by_port(
                conns@.subrange(i as int, conns@.len() as int),
                map@,
                port,
            ),
            saw_listener == exists|j: int|
                0 <= j < i && is_listener_on(#[trigger] conns@[j], port),
        decreases conns.len() - i,
    {
        let ghost suffix = conns@.subrange(i as int, conns@.len() as int);
        proof {
            assert(suffix[0] == conns@[i as int]);
            assert(suffix.subrange(1, suffix.len() as int) =~= conns@.subrange(
                i + 1,
                conns@.len() as int,
            ));
        }
        let b = conns[i];
        if b.local_port == port && matches!(b.state, ConnectionState::Listen) {
            match find_pid_for_inode(map, b.inode) {
                Some(pid) => {
                    return Ok(pid);
                },
                None => {
                    saw_listener = true;
                },
            }
        }
        i = i + 1;
    }
    proof {
        assert(conns@.subrange(i as int, conns@.len() as int).len() == 0);
    }
    if saw_listener {
        Err(PortLookupError::PermissionLikely)
    } else {
        Err(PortLookupError::NotFound)
    }
}

/// Every binding the inode map attributes to `pid`, in table order.
pub fn get_process_bindings(
    conns: &Vec<NetworkBinding>,
    map: &Vec<(u64, u32)>,
    pid: u32,
) -> (r: Vec<NetworkBinding>)
    ensures
        r@ == conns@.filter(|c: NetworkBinding| lookup_pid(map@, c.inode) == Some(pid)),
{
    let ghost pred = |c: NetworkBinding| lookup_pid(map@, c.inode) == Some(pid);
    let mut out: Vec<NetworkBinding> = Vec::new();
    let mut i: usize = 0;
    proof {
        assert(conns@.subrange(0, 0) =~= Seq::<NetworkBinding>::empty());
        reveal(Seq::filter);
    }
    while i < conns.len()
        invariant
            0 <= i <= conns@.len(),
            out@ == conns@.subrange(0, i as int).filter(pred),
            pred == (|c: NetworkBinding| lookup_pid(map@, c.inode) == Some(pid)),
        decreases conns.len() - i,
    {
        let b = conns[i];
        let owner = find_pid_for_inode(map, b.inode);
        proof {
            assert(conns@.subrange(0, i + 1).drop_last() =~= conns@.subrange(0, i as int));
            crate::strutil::lemma_filter_push(conns@.subrange(0, i as int), pred, conns@[i as int]);
            assert(conns@.subrange(0, i as int).push(conns@[i as int]) =~= conns@.subrange(
                0,
                i + 1,
            ));
        }
        if owner == Some(pid) {
            out.push(b);
        }
        i = i + 1;
    }
    proof {
        assert(conns@.subrange(0, i as int) =~= conns@);
    }
    out
}

} // verus!
