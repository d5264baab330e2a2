use procy::addr::resolve;
use procy::addr::resolve_pair;
use procy::addr::resolve_pairs;
use procy::addr::IpAddress;
use procy::addr::RawPair;
use procy::addr::ResolveError;
use procy::addr::ResolvedAddress;
use procy::addr::Role;

fn v4(a: u8, b: u8, c: u8, d: u8, port: u16) -> ResolvedAddress {
    ResolvedAddress { ip: IpAddress::V4(a, b, c, d), port }
}

#[test]
fn resolve_ip_and_port() {
    let got = resolve("127.0.0.1:9000", Role::Remote).unwrap();
    assert_eq!(got, v4(127, 0, 0, 1, 9000));
}

#[test]
fn resolve_bare_port_gives_wildcard_ip() {
    let got = resolve("9000", Role::Listen).unwrap();
    assert_eq!(got, v4(0, 0, 0, 0, 9000));
}

#[test]
fn resolve_bare_ip_gives_port_zero() {
    let got = resolve("127.0.0.1", Role::Local).unwrap();
    assert_eq!(got, v4(127, 0, 0, 1, 0));
}

#[test]
fn resolve_rejects_garbage() {
    let got = resolve("not-an-address", Role::Local);
    match got {
        Err(ResolveError::InvalidAddress(t)) => assert_eq!(t, "not-an-address"),
        _ => panic!("expected InvalidAddress"),
    }
}

#[test]
fn resolve_role_constraints() {
    // A listen address resolving to port 0 is rejected.
    assert!(resolve("127.0.0.1", Role::Listen).is_err());
    assert!(resolve("127.0.0.1:0", Role::Listen).is_err());
    // A remote address resolving to port 0 is rejected.
    assert!(resolve("127.0.0.1", Role::Remote).is_err());
    // A remote address resolving to the unspecified IP is rejected.
    assert!(resolve("0.0.0.0:9000", Role::Remote).is_err());
    assert!(resolve("9000", Role::Remote).is_err());
    assert!(resolve("[::]:9000", Role::Remote).is_err());
    // A local address with port 0 is accepted.
    assert_eq!(resolve("127.0.0.1", Role::Local).unwrap(), v4(127, 0, 0, 1, 0));
    assert_eq!(resolve("0.0.0.0:0", Role::Local).unwrap(), v4(0, 0, 0, 0, 0));
    // The wildcard listen address with a port is fine.
    assert_eq!(resolve("0.0.0.0:8080", Role::Listen).unwrap(), v4(0, 0, 0, 0, 8080));
}

#[test]
fn resolve_port_edges() {
    assert_eq!(resolve("65535", Role::Listen).unwrap(), v4(0, 0, 0, 0, 65535));
    assert!(resolve("65536", Role::Listen).is_err());
    assert!(resolve("99999999999999999999", Role::Listen).is_err());
    // A port may carry leading zeros.
    assert_eq!(resolve("007", Role::Listen).unwrap(), v4(0, 0, 0, 0, 7));
    assert_eq!(resolve("1.2.3.4:00080", Role::Remote).unwrap(), v4(1, 2, 3, 4, 80));
    assert!(resolve("", Role::Local).is_err());
    assert!(resolve("1.2.3.4:", Role::Local).is_err());
    assert!(resolve(":80", Role::Local).is_err());
}

#[test]
fn resolve_ipv4_edges() {
    assert_eq!(resolve("255.255.255.255", Role::Local).unwrap(), v4(255, 255, 255, 255, 0));
    // An octet above 255, with a leading zero, or empty is rejected.
    assert!(resolve("256.1.1.1", Role::Local).is_err());
    assert!(resolve("127.00.0.1", Role::Local).is_err());
    assert!(resolve("1..2.3", Role::Local).is_err());
    assert!(resolve("1.2.3", Role::Local).is_err());
    assert!(resolve("1.2.3.4.5", Role::Local).is_err());
    assert!(resolve("1.2.3.4 ", Role::Local).is_err());
}

fn v6(g: [u16; 8], port: u16) -> ResolvedAddress {
    ResolvedAddress {
        ip: IpAddress::V6(g[0], g[1], g[2], g[3], g[4], g[5], g[6], g[7]),
        port,
    }
}

#[test]
fn resolve_ipv6_forms() {
    assert_eq!(resolve("::1", Role::Local).unwrap(), v6([0, 0, 0, 0, 0, 0, 0, 1], 0));
    assert_eq!(resolve("[::1]:8080", Role::Remote).unwrap(), v6([0, 0, 0, 0, 0, 0, 0, 1], 8080));
    assert_eq!(resolve("[::]:9000", Role::Listen).unwrap(), v6([0, 0, 0, 0, 0, 0, 0, 0], 9000));
    assert_eq!(
        resolve("1:2:3:4:5:6:7:8", Role::Local).unwrap(),
        v6([1, 2, 3, 4, 5, 6, 7, 8], 0)
    );
    assert_eq!(
        resolve("[fe80::dead:Beef]:443", Role::Remote).unwrap(),
        v6([0xfe80, 0, 0, 0, 0, 0, 0xdead, 0xbeef], 443)
    );
    assert_eq!(resolve("1::", Role::Local).unwrap(), v6([1, 0, 0, 0, 0, 0, 0, 0], 0));
    assert_eq!(resolve("::", Role::Local).unwrap(), v6([0, 0, 0, 0, 0, 0, 0, 0], 0));
}

#[test]
fn resolve_ipv4_in_ipv6_tail() {
    assert_eq!(
        resolve("::ffff:127.0.0.1", Role::Local).unwrap(),
        v6([0, 0, 0, 0, 0, 0xffff, 0x7f00, 0x0001], 0)
    );
    assert_eq!(
        resolve("[::ffff:192.168.0.1]:80", Role::Remote).unwrap(),
        v6([0, 0, 0, 0, 0, 0xffff, 0xc0a8, 0x0001], 80)
    );
    assert_eq!(
        resolve("1:2:3:4:5:6:7.8.9.10", Role::Local).unwrap(),
        v6([1, 2, 3, 4, 5, 6, 0x0708, 0x090a], 0)
    );
    assert_eq!(
        resolve("::1.2.3.4", Role::Local).unwrap(),
        v6([0, 0, 0, 0, 0, 0, 0x0102, 0x0304], 0)
    );
    // The quad stands for the last two groups only, and only at the end.
    assert!(resolve("1:2:3:4:5:6:7:1.2.3.4", Role::Local).is_err());
    assert!(resolve("1.2.3.4::", Role::Local).is_err());
    assert!(resolve("::1.2.3", Role::Local).is_err());
    assert!(resolve("::1.2.3.4.5", Role::Local).is_err());
    assert!(resolve("::256.2.3.4", Role::Local).is_err());
    assert!(resolve("::1.2.3.4:5", Role::Local).is_err());
}

#[test]
fn resolve_ipv6_rejects_malformed() {
    // Two double colons, too many or too few groups, bad digits.
    assert!(resolve("1::2::3", Role::Local).is_err());
    assert!(resolve("1:2:3:4:5:6:7", Role::Local).is_err());
    assert!(resolve("1:2:3:4:5:6:7:8:9", Role::Local).is_err());
    assert!(resolve("1:2:3:4:5:6:7:8::", Role::Local).is_err());
    assert!(resolve("::1:2:3:4:5:6:7:8", Role::Local).is_err());
    assert!(resolve("12345::", Role::Local).is_err());
    assert!(resolve("g::1", Role::Local).is_err());
    assert!(resolve("[::1]", Role::Local).is_err());
    assert!(resolve("[::1]:", Role::Local).is_err());
    assert!(resolve(":::", Role::Local).is_err());
}

#[test]
fn resolve_pair_roles() {
    let raw = RawPair {
        listen: String::from("8080"),
        remote: String::from("127.0.0.1:9000"),
        local: None,
    };
    let pair = resolve_pair(&raw).unwrap();
    assert_eq!(pair.listen, v4(0, 0, 0, 0, 8080));
    assert_eq!(pair.remote, v4(127, 0, 0, 1, 9000));
    assert_eq!(pair.local, None);

    let raw = RawPair {
        listen: String::from("127.0.0.1:8080"),
        remote: String::from("[::1]:9000"),
        local: Some(String::from("0.0.0.0:0")),
    };
    let pair = resolve_pair(&raw).unwrap();
    assert_eq!(pair.local, Some(v4(0, 0, 0, 0, 0)));

    // The error names the offending member.
    let raw = RawPair {
        listen: String::from("8080"),
        remote: String::from("0.0.0.0:9000"),
        local: None,
    };
    match resolve_pair(&raw) {
        Err(ResolveError::InvalidAddress(t)) => assert_eq!(t, "0.0.0.0:9000"),
        _ => panic!("expected InvalidAddress"),
    }
}

#[test]
fn resolve_pairs_is_all_or_nothing() {
    let good = RawPair {
        listen: String::from("8080"),
        remote: String::from("127.0.0.1:9000"),
        local: None,
    };
    let bad = RawPair {
        listen: String::from("127.0.0.1"),
        remote: String::from("127.0.0.1:9000"),
        local: None,
    };
    let ok = resolve_pairs(&vec![good.clone(), good.clone()]).unwrap();
    assert_eq!(ok.len(), 2);
    // One invalid triple anywhere rejects the whole configuration, and
    // the error carries the first failing triple's offending text.
    match resolve_pairs(&vec![good.clone(), bad]) {
        Err(ResolveError::InvalidAddress(t)) => assert_eq!(t, "127.0.0.1"),
        _ => panic!("expected InvalidAddress"),
    }
    assert_eq!(resolve_pairs(&Vec::new()).unwrap().len(), 0);
}
