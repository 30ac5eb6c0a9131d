use paxos::network::{addr_to_node_id, node_id_to_addr};

#[test]
fn addr_round_trip_specific() {
    // 127.0.0.1:8080
    let ip: u32 = (127 << 24) | 1;
    let port: u16 = 8080;
    let id = addr_to_node_id(ip, port).unwrap();
    assert_eq!(id, ip as usize * 65536 + port as usize);
    assert_eq!(node_id_to_addr(id), (ip, port));
}

#[test]
fn addr_round_trip_edge_values() {
    for (ip, port) in [
        (0u32, 0u16),
        (0, 65535),
        (u32::MAX, 0),
        (u32::MAX, u16::MAX),
        (0x0A00_0001, 4242),
    ] {
        let id = addr_to_node_id(ip, port).unwrap();
        assert_eq!(node_id_to_addr(id), (ip, port));
    }
}

#[test]
fn node_id_round_trip() {
    for id in [0usize, 1, 65535, 65536, 1_000_000_007, (1usize << 48) - 1] {
        let (ip, port) = node_id_to_addr(id);
        assert_eq!(addr_to_node_id(ip, port).unwrap(), id);
    }
}
