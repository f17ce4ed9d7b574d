use mesh_vpn::net::{hex_digit, ipv4, push_decimal, push_hex, push_ip, IpAddress, SocketAddress};

#[test]
fn ipv4_text() {
    assert_eq!(ipv4(192, 168, 1, 10).to_text(), "192.168.1.10");
    assert_eq!(ipv4(0, 0, 0, 0).to_text(), "0.0.0.0");
    assert_eq!(ipv4(255, 255, 255, 255).to_text(), "255.255.255.255");
}

#[test]
fn ipv6_text_shortens_longest_zero_run() {
    assert_eq!(IpAddress::V6([0, 0, 0, 0, 0, 0, 0, 0]).to_text(), "::");
    assert_eq!(IpAddress::V6([0, 0, 0, 0, 0, 0, 0, 1]).to_text(), "::1");
    assert_eq!(IpAddress::V6([0x2001, 0xdb8, 0, 0, 0, 0, 0, 1]).to_text(), "2001:db8::1");
    assert_eq!(IpAddress::V6([0x2001, 0xdb8, 0, 0, 1, 0, 0, 1]).to_text(), "2001:db8::1:0:0:1");
    assert_eq!(IpAddress::V6([1, 0, 2, 0, 3, 0, 4, 0]).to_text(), "1:0:2:0:3:0:4:0");
    assert_eq!(IpAddress::V6([0xfe80, 0, 0, 0, 0xabcd, 0, 0, 0]).to_text(), "fe80::abcd:0:0:0");
    assert_eq!(IpAddress::V6([1, 2, 3, 4, 5, 6, 7, 0]).to_text(), "1:2:3:4:5:6:7:0");
}

#[test]
fn ipv6_mapped_ipv4_text() {
    assert_eq!(
        IpAddress::V6([0, 0, 0, 0, 0, 0xffff, 0xc000, 0x0280]).to_text(),
        "::ffff:192.0.2.128"
    );
}

#[test]
fn decimal_and_hex_digits() {
    let mut s = String::new();
    push_decimal(&mut s, 0);
    s.push(' ');
    push_decimal(&mut s, 51820);
    s.push(' ');
    push_decimal(&mut s, u64::MAX);
    assert_eq!(s, "0 51820 18446744073709551615");
    let mut h = String::new();
    push_hex(&mut h, 0);
    h.push(' ');
    push_hex(&mut h, 0xdb8);
    assert_eq!(h, "0 db8");
    assert_eq!(hex_digit(0), '0');
    assert_eq!(hex_digit(9), '9');
    assert_eq!(hex_digit(10), 'a');
    assert_eq!(hex_digit(15), 'f');
}

#[test]
fn socket_address_parts_and_equality() {
    let a = SocketAddress::new(ipv4(10, 0, 0, 1), 51820);
    assert_eq!(a.ip(), ipv4(10, 0, 0, 1));
    assert_eq!(a.port(), 51820);
    assert_eq!(a, SocketAddress::new(ipv4(10, 0, 0, 1), 51820));
    assert_ne!(a, SocketAddress::new(ipv4(10, 0, 0, 1), 51821));
    assert_ne!(a, SocketAddress::new(ipv4(10, 0, 0, 2), 51820));
    assert_ne!(ipv4(0, 0, 0, 0), IpAddress::V6([0; 8]));
    let mut s = String::from("at ");
    push_ip(&mut s, &ipv4(1, 2, 3, 4));
    assert_eq!(s, "at 1.2.3.4");
}

#[test]
fn socket_address_flow_and_scope() {
    let a = SocketAddress::new(IpAddress::V6([0xfe80, 0, 0, 0, 0, 0, 0, 1]), 80);
    assert_eq!(a.flowinfo, 0);
    assert_eq!(a.scope_id, 0);
    let mut b = a;
    b.scope_id = 3;
    assert_ne!(a, b);
    let mut c = a;
    c.flowinfo = 7;
    assert_ne!(a, c);
    assert_eq!(a, SocketAddress::new(IpAddress::V6([0xfe80, 0, 0, 0, 0, 0, 0, 1]), 80));
}
