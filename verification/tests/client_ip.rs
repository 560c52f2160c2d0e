use snake::ip::{
    any_net_holds, first_forwarded_entry, get_client_ip, ipv4_text, normalize_ip, IpAddress,
    TrustedNet,
};

fn v4(o: [u8; 4]) -> IpAddress {
    IpAddress::V4(o)
}

fn text_of(ip: IpAddress) -> String {
    match ip {
        IpAddress::V4(o) => ipv4_text(o),
        IpAddress::V6(_) => panic!("expected an IPv4 address"),
    }
}

#[test]
fn no_proxy_returns_socket_ip() {
    let ip = get_client_ip(v4([10, 0, 0, 1]), false, None, &Vec::new());
    assert_eq!(text_of(ip), "10.0.0.1");
}

#[test]
fn proxy_with_trusted_list_accepts_trusted_socket() {
    // The header "x-forwarded-for: 203.0.113.5" names the client.
    let entry = first_forwarded_entry("203.0.113.5");
    assert_eq!(entry, "203.0.113.5");
    let trusted = TrustedNet::new(v4([10, 0, 0, 0]), 8).unwrap();
    let ip = get_client_ip(
        v4([10, 0, 0, 1]),
        true,
        Some(v4([203, 0, 113, 5])),
        &vec![trusted],
    );
    assert_eq!(text_of(ip), "203.0.113.5");
}

#[test]
fn proxy_with_untrusted_socket_keeps_socket_ip() {
    let trusted = TrustedNet::new(v4([10, 0, 0, 0]), 8).unwrap();
    let ip = get_client_ip(
        v4([192, 168, 1, 7]),
        true,
        Some(v4([203, 0, 113, 5])),
        &vec![trusted],
    );
    assert_eq!(ip, v4([192, 168, 1, 7]));
}

#[test]
fn proxy_without_list_uses_forwarded_entry() {
    let ip = get_client_ip(v4([192, 168, 1, 7]), true, Some(v4([198, 51, 100, 2])), &Vec::new());
    assert_eq!(ip, v4([198, 51, 100, 2]));
}

#[test]
fn proxy_without_forwarded_header_keeps_socket_ip() {
    let trusted = TrustedNet::new(v4([10, 0, 0, 0]), 8).unwrap();
    let ip = get_client_ip(v4([10, 1, 2, 3]), true, None, &vec![trusted]);
    assert_eq!(ip, v4([10, 1, 2, 3]));
}

#[test]
fn mapped_ipv6_socket_is_normalized() {
    let mapped = IpAddress::V6([0, 0, 0, 0, 0, 0xffff, 0x0a00, 0x0001]);
    assert_eq!(normalize_ip(mapped), v4([10, 0, 0, 1]));
    let ip = get_client_ip(mapped, false, None, &Vec::new());
    assert_eq!(text_of(ip), "10.0.0.1");
}

#[test]
fn plain_ipv6_is_not_normalized() {
    let loopback = IpAddress::V6([0, 0, 0, 0, 0, 0, 0, 1]);
    assert_eq!(normalize_ip(loopback), loopback);
    let compat = IpAddress::V6([0, 0, 0, 0, 0, 0xfffe, 0x0a00, 0x0001]);
    assert_eq!(normalize_ip(compat), compat);
}

#[test]
fn forwarded_mapped_address_is_normalized() {
    let ip = get_client_ip(
        v4([10, 0, 0, 1]),
        true,
        Some(IpAddress::V6([0, 0, 0, 0, 0, 0xffff, 0xcb00, 0x7105])),
        &Vec::new(),
    );
    assert_eq!(text_of(ip), "203.0.113.5");
}

#[test]
fn first_forwarded_entry_takes_first_and_trims() {
    assert_eq!(first_forwarded_entry(" 203.0.113.5 , 10.0.0.2"), "203.0.113.5");
    assert_eq!(first_forwarded_entry("198.51.100.9"), "198.51.100.9");
    assert_eq!(first_forwarded_entry(""), "");
    assert_eq!(first_forwarded_entry(",10.0.0.2"), "");
}

#[test]
fn network_containment_follows_prefix() {
    let net = TrustedNet::new(v4([172, 16, 0, 0]), 12).unwrap();
    assert!(net.contains(v4([172, 31, 255, 255])));
    assert!(!net.contains(v4([172, 32, 0, 0])));
    let host = TrustedNet::new(v4([10, 0, 0, 1]), 32).unwrap();
    assert!(host.contains(v4([10, 0, 0, 1])));
    assert!(!host.contains(v4([10, 0, 0, 2])));
    let all = TrustedNet::new(v4([0, 0, 0, 0]), 0).unwrap();
    assert!(all.contains(v4([255, 255, 255, 255])));
    assert!(!all.contains(IpAddress::V6([0, 0, 0, 0, 0, 0, 0, 1])));
}

#[test]
fn ipv6_network_containment() {
    let net = TrustedNet::new(IpAddress::V6([0xfd00, 0x1234, 0, 0, 0, 0, 0, 0]), 24).unwrap();
    assert!(net.contains(IpAddress::V6([0xfd00, 0x12ff, 0xffff, 0, 0, 0, 0, 9])));
    assert!(!net.contains(IpAddress::V6([0xfd00, 0x1300, 0, 0, 0, 0, 0, 0])));
    assert!(any_net_holds(&vec![net], IpAddress::V6([0xfd00, 0x1200, 0, 0, 0, 0, 0, 0])));
}

#[test]
fn prefix_longer_than_address_is_refused() {
    assert!(TrustedNet::new(v4([10, 0, 0, 0]), 33).is_none());
    assert!(TrustedNet::new(IpAddress::V6([0; 8]), 129).is_none());
    assert!(TrustedNet::new(IpAddress::V6([0; 8]), 128).is_some());
}

#[test]
fn ipv4_text_writes_dotted_decimal() {
    assert_eq!(ipv4_text([0, 0, 0, 0]), "0.0.0.0");
    assert_eq!(ipv4_text([255, 10, 100, 7]), "255.10.100.7");
}
