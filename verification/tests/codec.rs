//! Hex address codec, numeral parsing, and socket-table decoding.

use excalibur::network::{
    build_inode_map, encode_address_v4, find_pid_for_inode, find_process_by_port,
    get_process_bindings, parse_address_v4, parse_connections, parse_socket_inode, parse_state,
    ConnectionState, Ipv4Addr, PortLookupError, Protocol,
};

fn addr(a: u8, b: u8, c: u8, d: u8) -> Ipv4Addr {
    Ipv4Addr { a, b, c, d }
}

#[test]
fn address_round_trip_localhost() {
    let loopback = addr(127, 0, 0, 1);
    let encoded = encode_address_v4(&loopback, 60407);
    assert_eq!(encoded, "0100007F:EBF7");
    let decoded = parse_address_v4(&encoded).unwrap();
    assert_eq!(decoded.0, loopback);
    assert_eq!(decoded.1, 60407);
}

#[test]
fn address_round_trip_arbitrary() {
    for &(a, b, c, d, p) in &[
        (0u8, 0u8, 0u8, 0u8, 0u16),
        (255, 255, 255, 255, 65535),
        (10, 0, 42, 1, 8080),
        (192, 168, 1, 254, 22),
    ] {
        let ip = addr(a, b, c, d);
        let text = encode_address_v4(&ip, p);
        let (ip2, p2) = parse_address_v4(&text).unwrap();
        assert_eq!(ip2, ip);
        assert_eq!(p2, p);
    }
}

#[test]
fn address_rejects_malformed() {
    assert!(parse_address_v4("0100007F").is_none());
    assert!(parse_address_v4("0100007F:EBF7:01").is_none());
    assert!(parse_address_v4(":EBF7").is_none());
    assert!(parse_address_v4("0100007F:").is_none());
    assert!(parse_address_v4("XYZ0007F:EBF7").is_none());
    assert!(parse_address_v4("100007F00:EBF7").is_none());
    assert!(parse_address_v4("0100007F:EBF77").is_none());
}

#[test]
fn state_codes_map_to_states() {
    assert_eq!(parse_state("0A"), ConnectionState::Listen);
    assert_eq!(parse_state("01"), ConnectionState::Established);
    assert_eq!(parse_state("06"), ConnectionState::TimeWait);
    assert_eq!(parse_state("08"), ConnectionState::CloseWait);
    assert_eq!(parse_state("0B"), ConnectionState::Unknown);
    assert_eq!(parse_state(""), ConnectionState::Unknown);
}

#[test]
fn numeral_parsers_handle_edges() {
    assert_eq!(excalibur::parse_u64_dec("0"), Some(0));
    assert_eq!(excalibur::parse_u64_dec("18446744073709551615"), Some(u64::MAX));
    assert_eq!(excalibur::parse_u64_dec("18446744073709551616"), None);
    assert_eq!(excalibur::parse_u64_dec(""), None);
    assert_eq!(excalibur::parse_u64_dec("12a"), None);
    assert_eq!(excalibur::parse_u64_hex("ff"), Some(255));
    assert_eq!(excalibur::parse_u64_hex("FF"), Some(255));
    assert_eq!(excalibur::parse_u64_hex("10000000000000000"), None);
    assert_eq!(excalibur::parse_i64_dec("-5"), Some(-5));
    assert_eq!(excalibur::parse_i64_dec("-9223372036854775808"), Some(i64::MIN));
    assert_eq!(excalibur::parse_i64_dec("9223372036854775807"), Some(i64::MAX));
    assert_eq!(excalibur::parse_i64_dec("9223372036854775808"), None);
    assert_eq!(excalibur::u64_to_string(0), "0");
    assert_eq!(excalibur::u64_to_string(90210), "90210");
}

const TCP_SAMPLE: &str = "  sl  local_address rem_address   st tx_queue rx_queue tr tm->when retrnsmt   uid  timeout inode\n\
   0: 0100007F:1F90 00000000:0000 0A 00000000:00000000 00:00000000 00000000  1000        0 934413 1 0000000000000000 100 0 0 10 0\n\
   1: 0101A8C0:0016 0201A8C0:D431 01 00000000:00000000 00:00000000 00000000     0        0 700 1 0000000000000000 20 4 30 10 -1\n\
   2: malformed row\n";

#[test]
fn socket_table_parses_rows_and_skips_malformed() {
    let conns = parse_connections(TCP_SAMPLE, Protocol::Tcp);
    assert_eq!(conns.len(), 2);
    assert_eq!(conns[0].local_addr, addr(127, 0, 0, 1));
    assert_eq!(conns[0].local_port, 8080);
    assert_eq!(conns[0].state, ConnectionState::Listen);
    assert_eq!(conns[0].inode, 934413);
    assert_eq!(conns[1].local_addr, addr(192, 168, 1, 1));
    assert_eq!(conns[1].local_port, 22);
    assert_eq!(conns[1].state, ConnectionState::Established);
    assert_eq!(conns[1].inode, 700);
}

#[test]
fn socket_table_of_header_alone_is_empty() {
    let conns = parse_connections("  sl  local_address ...\n", Protocol::Udp);
    assert!(conns.is_empty());
}

#[test]
fn socket_inode_extraction() {
    assert_eq!(parse_socket_inode("socket:[934413]"), Some(934413));
    assert_eq!(parse_socket_inode("pipe:[123]"), None);
    assert_eq!(parse_socket_inode("socket:[]"), None);
    assert_eq!(parse_socket_inode("socket:[12x]"), None);
    assert_eq!(parse_socket_inode("/dev/null"), None);
}

#[test]
fn inode_map_attributes_sockets() {
    let scan = vec![
        (42u32, "socket:[934413]".to_string()),
        (42u32, "/dev/pts/0".to_string()),
        (77u32, "socket:[700]".to_string()),
    ];
    let map = build_inode_map(&scan);
    assert_eq!(map.len(), 2);
    assert_eq!(find_pid_for_inode(&map, 934413), Some(42));
    assert_eq!(find_pid_for_inode(&map, 700), Some(77));
    assert_eq!(find_pid_for_inode(&map, 1), None);
}

#[test]
fn port_resolution_distinguishes_failures() {
    let conns = parse_connections(TCP_SAMPLE, Protocol::Tcp);
    let scan = vec![(42u32, "socket:[934413]".to_string())];
    let map = build_inode_map(&scan);
    assert_eq!(find_process_by_port(&conns, &map, 8080), Ok(42));
    // Nothing listens on port 22 (that row is established, not listening).
    assert_eq!(find_process_by_port(&conns, &map, 22), Err(PortLookupError::NotFound));
    // A listener whose inode nobody could attribute hints at permissions.
    let empty_map: Vec<(u64, u32)> = Vec::new();
    assert_eq!(
        find_process_by_port(&conns, &empty_map, 8080),
        Err(PortLookupError::PermissionLikely)
    );
}

#[test]
fn bindings_filter_by_owner() {
    let conns = parse_connections(TCP_SAMPLE, Protocol::Tcp);
    let scan = vec![
        (42u32, "socket:[934413]".to_string()),
        (77u32, "socket:[700]".to_string()),
    ];
    let map = build_inode_map(&scan);
    let mine = get_process_bindings(&conns, &map, 42);
    assert_eq!(mine.len(), 1);
    assert_eq!(mine[0].inode, 934413);
    let none = get_process_bindings(&conns, &map, 1);
    assert!(none.is_empty());
}
