use raddex::net::{Cidr, IpAddr, SocketAddr};

fn ip(text: &str) -> IpAddr {
    IpAddr::parse(text).expect("an IP literal")
}

fn network(text: &str) -> Cidr {
    match Cidr::parse(text) {
        Ok(c) => c,
        Err(m) => panic!("{m}"),
    }
}

fn failure(text: &str) -> String {
    match Cidr::parse(text) {
        Ok(_) => panic!("expected an error"),
        Err(m) => m,
    }
}

#[test]
fn four_part_addresses_are_read() {
    assert!(ip("127.0.0.1") == IpAddr::V4(0x7f00_0001));
    assert!(ip("255.255.255.255") == IpAddr::V4(u32::MAX));
    assert!(ip("0.0.0.0").is_unspecified());
    for bad in ["", "1.2.3", "1.2.3.4.5", "256.0.0.1", "01.2.3.4", "1.2.3.4 ", "1..2.3", "a.b.c.d"] {
        assert!(IpAddr::parse(bad).is_none(), "{bad}");
    }
}

#[test]
fn eight_group_addresses_are_read() {
    assert!(ip("::1") == IpAddr::V6(1));
    assert!(ip("::").is_unspecified());
    assert!(ip("2001:db8::1") == IpAddr::V6(0x2001_0db8_0000_0000_0000_0000_0000_0001));
    assert!(ip("1:2:3:4:5:6:7:8") == IpAddr::V6(0x0001_0002_0003_0004_0005_0006_0007_0008));
    assert!(ip("::ffff:192.0.2.1") == IpAddr::V6(0xffff_c000_0201));
    for bad in [":", ":::", "1:2:3:4:5:6:7", "1:2:3:4:5:6:7:8:9", "::1::2", "12345::", "g::1", "[::1]"] {
        assert!(IpAddr::parse(bad).is_none(), "{bad}");
    }
}

#[test]
fn addresses_are_shown_in_their_short_form() {
    for (written, shown) in [
        ("10.0.0.1", "10.0.0.1"),
        ("0:0:0:0:0:0:0:1", "::1"),
        ("0:0:0:0:0:0:0:0", "::"),
        ("2001:0DB8:0:0:0:0:0:1", "2001:db8::1"),
        ("2001:db8:0:1:1:1:1:1", "2001:db8:0:1:1:1:1:1"),
        ("1:0:0:2:0:0:0:3", "1:0:0:2::3"),
        ("1:0:0:2:3:0:0:4", "1::2:3:0:0:4"),
        ("fe80::", "fe80::"),
        ("::ffff:192.0.2.1", "::ffff:192.0.2.1"),
    ] {
        assert_eq!(ip(written).display(), shown);
        assert!(ip(shown) == ip(written), "{shown}");
    }
    assert_eq!(SocketAddr::new(ip("::1"), 443).display(), "[::1]:443");
    assert_eq!(SocketAddr::new(ip("10.0.0.1"), 80).display(), "10.0.0.1:80");
    let IpAddr::V6(link_local) = ip("fe80::1") else {
        panic!("an IPv6 address");
    };
    assert_eq!(SocketAddr::v6(link_local, 53, 7, 2).display(), "[fe80::1%2]:53");
    assert_eq!(SocketAddr::v6(link_local, 53, 7, 0).display(), "[fe80::1]:53");
}

#[test]
fn a_network_covers_its_own_address() {
    for text in ["10.1.2.3/8", "10.1.2.3/32", "10.1.2.3/0", "2001:db8::1/33", "::1/128", "::1/0"] {
        let c = network(text);
        let own = c.network;
        assert!(c.contains(own), "{text}");
    }
}

#[test]
fn a_prefix_decides_what_is_covered() {
    let c = network("10.1.0.0/20");
    assert!(c.contains(ip("10.1.15.255")));
    assert!(!c.contains(ip("10.1.16.0")));
    assert!(!c.contains(ip("::ffff:10.1.0.1")));
    let c = network("2001:db8::/33");
    assert!(c.contains(ip("2001:db8:7fff::1")));
    assert!(!c.contains(ip("2001:db8:8000::1")));
}

#[test]
fn a_full_prefix_is_one_host() {
    let c = network("192.0.2.7");
    assert!(c.prefix == 32);
    assert!(c.contains(ip("192.0.2.7")));
    assert!(!c.contains(ip("192.0.2.6")));
    let c = network("2001:db8::7");
    assert!(c.prefix == 128);
    assert!(c.contains(ip("2001:db8::7")));
    assert!(!c.contains(ip("2001:db8::6")));
}

#[test]
fn a_zero_prefix_covers_its_family() {
    let c = network("0.0.0.0/0");
    assert!(c.contains(ip("203.0.113.9")));
    assert!(!c.contains(ip("::1")));
    let c = network("::/0");
    assert!(c.contains(ip("2001:db8::1")));
    assert!(!c.contains(ip("203.0.113.9")));
}

#[test]
fn bad_networks_are_refused() {
    assert_eq!(failure("nonsense/8"), "invalid IP address 'nonsense'");
    assert_eq!(failure("10.0.0.0/x"), "invalid CIDR prefix 'x'");
    assert_eq!(failure("10.0.0.0/300"), "invalid CIDR prefix '300'");
    assert_eq!(
        failure("10.0.0.0/33"),
        "CIDR prefix 33 is too large for this address"
    );
    assert_eq!(
        failure("::/129"),
        "CIDR prefix 129 is too large for this address"
    );
}
