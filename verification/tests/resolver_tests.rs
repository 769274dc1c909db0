use re_epmd::resolver::{
    get_any_address, get_loopback_address, parse_socket_addrs, HostIp, SockAddr,
};

#[test]
fn test_parse_socket_addrs_blank() {
    let test_str = "";
    let use_ipv6 = false;
    let res = parse_socket_addrs(test_str, 0x1234, use_ipv6);
    println!("{:?}", res);
    assert_eq!(res[0], get_any_address(0x1234, use_ipv6));
    assert_eq!(res.len(), 1);
}

#[test]
fn test_parse_socket_addrs_blank_ipv6() {
    // With IPv6 requested, an empty specification binds the "any" address of
    // both families, the IPv4 one first.
    let test_str = "";
    let use_ipv6 = true;
    let res = parse_socket_addrs(test_str, 0x1234, use_ipv6);
    println!("{:?}", res);
    assert_eq!(res[0], get_any_address(0x1234, false));
    assert_eq!(res[1], get_any_address(0x1234, true));
    assert_eq!(res.len(), 2);
}

#[test]
fn test_parse_socket_addrs_just_commas() {
    let test_str = ",,,";
    let use_ipv6 = false;
    let res = parse_socket_addrs(test_str, 0x1234, use_ipv6);
    println!("{:?}", res);
    assert_eq!(res[0], get_loopback_address(0x1234, use_ipv6));
    assert_eq!(res.len(), 1);
}

#[test]
fn test_parse_socket_addrs_just_commas_ipv6() {
    // With IPv6 requested, a non-empty specification starts with the
    // loopback address of both families, the IPv4 one first.
    let test_str = ",,,";
    let use_ipv6 = true;
    let res = parse_socket_addrs(test_str, 0x1234, use_ipv6);
    println!("{:?}", res);
    assert_eq!(res[0], get_loopback_address(0x1234, false));
    assert_eq!(res[1], get_loopback_address(0x1234, true));
    assert_eq!(res.len(), 2);
}

#[test]
fn test_parse_socket_addrs_space_seperators() {
    let test_str = "123.123.123.123 234.234.234.234";
    let addr1 = SockAddr { ip: HostIp::V4(123, 123, 123, 123), port: 0x1234 };
    let addr2 = SockAddr { ip: HostIp::V4(234, 234, 234, 234), port: 0x1234 };
    let use_ipv6 = false;
    let res = parse_socket_addrs(test_str, 0x1234, use_ipv6);
    println!("{:?}", res);
    assert_eq!(res[0], get_loopback_address(0x1234, use_ipv6));
    assert_eq!(res[1], addr1);
    assert_eq!(res[2], addr2);
    assert_eq!(res.len(), 3);
}

#[test]
fn test_parse_socket_addrs_comma_seperators() {
    let test_str = "123.123.123.123, 234.234.234.234";
    let addr1 = SockAddr { ip: HostIp::V4(123, 123, 123, 123), port: 0x1234 };
    let addr2 = SockAddr { ip: HostIp::V4(234, 234, 234, 234), port: 0x1234 };
    let use_ipv6 = false;
    let res = parse_socket_addrs(test_str, 0x1234, use_ipv6);
    println!("{:?}", res);
    assert_eq!(res[0], get_loopback_address(0x1234, use_ipv6));
    assert_eq!(res[1], addr1);
    assert_eq!(res[2], addr2);
    assert_eq!(res.len(), 3);
}

#[test]
fn test_parse_socket_addrs_comma_seperators_ipv6() {
    // With IPv6 requested, the loopback addresses of both families come
    // first, then the listed addresses.
    let test_str = "2001:db8::2:1, 2001:db8:85a3::8a2e:370:7334";
    let addr1 = SockAddr { ip: HostIp::V6(0x2001, 0xdb8, 0, 0, 0, 0, 2, 1), port: 0x1234 };
    let addr2 = SockAddr {
        ip: HostIp::V6(0x2001, 0xdb8, 0x85a3, 0, 0, 0x8a2e, 0x370, 0x7334),
        port: 0x1234,
    };
    let use_ipv6 = true;
    let res = parse_socket_addrs(test_str, 0x1234, use_ipv6);
    println!("{:?}", res);
    assert_eq!(res.len(), 4);
    assert_eq!(res[0], get_loopback_address(0x1234, false));
    assert_eq!(res[1], get_loopback_address(0x1234, true));
    assert_eq!(res[2], addr1);
    assert_eq!(res[3], addr2);
}

#[test]
fn resolver_scenario_two_addresses_no_ipv6() {
    // Given "10.0.0.1, 10.0.0.2" with IPv6 disabled the resolver returns
    // exactly three addresses: loopback, 10.0.0.1, 10.0.0.2, in that order.
    let res = parse_socket_addrs("10.0.0.1, 10.0.0.2", 4369, false);
    assert_eq!(res.len(), 3);
    assert_eq!(res[0], SockAddr { ip: HostIp::V4(127, 0, 0, 1), port: 4369 });
    assert_eq!(res[1], SockAddr { ip: HostIp::V4(10, 0, 0, 1), port: 4369 });
    assert_eq!(res[2], SockAddr { ip: HostIp::V4(10, 0, 0, 2), port: 4369 });
}

#[test]
fn resolver_drops_bad_tokens_and_duplicates() {
    let res = parse_socket_addrs("10.0.0.1, not-an-address, 10.0.0.1, 300.1.2.3", 4369, false);
    assert_eq!(res.len(), 2);
    assert_eq!(res[1], SockAddr { ip: HostIp::V4(10, 0, 0, 1), port: 4369 });
}

#[test]
fn resolver_parses_ipv6_forms() {
    let res = parse_socket_addrs("::1 :: 1:2:3:4:5:6:7:8 ::ffff:1.2.3.4", 7, true);
    assert_eq!(res.len(), 5);
    // "::1" equals the IPv6 loopback already present, so it is dropped.
    assert_eq!(res[1], SockAddr { ip: HostIp::V6(0, 0, 0, 0, 0, 0, 0, 1), port: 7 });
    assert_eq!(res[2], SockAddr { ip: HostIp::V6(0, 0, 0, 0, 0, 0, 0, 0), port: 7 });
    assert_eq!(res[3], SockAddr { ip: HostIp::V6(1, 2, 3, 4, 5, 6, 7, 8), port: 7 });
    assert_eq!(
        res[4],
        SockAddr { ip: HostIp::V6(0, 0, 0, 0, 0, 0xffff, 0x0102, 0x0304), port: 7 }
    );
}

#[test]
fn resolver_rejects_malformed_ipv6() {
    // A lone colon, a triple colon, two double colons, and a leading zero
    // octet are not address literals.
    let res = parse_socket_addrs(": ::: 1::2::3 01.2.3.4 1:2:3", 7, false);
    assert_eq!(res.len(), 1);
}
