use change_flare::address::{ExternalAddress, IpAddress};

#[test]
fn parses_dotted_quads() {
    assert_eq!(IpAddress::parse("203.0.113.5"), Some(IpAddress::V4(203, 0, 113, 5)));
    assert_eq!(IpAddress::parse("0.0.0.0"), Some(IpAddress::V4(0, 0, 0, 0)));
    assert_eq!(IpAddress::parse("255.255.255.255"), Some(IpAddress::V4(255, 255, 255, 255)));
    assert_eq!(IpAddress::parse("127.0.0.1"), Some(IpAddress::V4(127, 0, 0, 1)));
}

#[test]
fn rejects_what_is_no_dotted_quad() {
    for text in [
        "", ".", "1", "1.2.3", "1.2.3.", ".1.2.3", "1.2.3.4.5", "1..2.3", "256.1.1.1",
        "1.2.3.256", "01.2.3.4", "1.2.3.04", "1.2.3.4 ", " 1.2.3.4", "1.2.3.a", "1.2.3.-4",
        "+1.2.3.4", "1.2.3.0004", "1.2.3.4\n", "１.2.3.4", "é",
    ] {
        assert_eq!(IpAddress::parse(text), None, "parsing {:?}", text);
    }
}

#[test]
fn parses_ipv6_texts() {
    assert_eq!(IpAddress::parse("::"), Some(IpAddress::V6(0, 0, 0, 0, 0, 0, 0, 0)));
    assert_eq!(IpAddress::parse("::1"), Some(IpAddress::V6(0, 0, 0, 0, 0, 0, 0, 1)));
    assert_eq!(IpAddress::parse("1::"), Some(IpAddress::V6(1, 0, 0, 0, 0, 0, 0, 0)));
    assert_eq!(
        IpAddress::parse("2001:db8::ff00:42:8329"),
        Some(IpAddress::V6(0x2001, 0xdb8, 0, 0, 0, 0xff00, 0x42, 0x8329))
    );
    assert_eq!(
        IpAddress::parse("2001:0DB8:0000:0000:0000:FF00:0042:8329"),
        Some(IpAddress::V6(0x2001, 0xdb8, 0, 0, 0, 0xff00, 0x42, 0x8329))
    );
    assert_eq!(
        IpAddress::parse("::ffff:192.0.2.128"),
        Some(IpAddress::V6(0, 0, 0, 0, 0, 0xffff, 0xc000, 0x0280))
    );
    assert_eq!(
        IpAddress::parse("1:2:3:4:5:6:7.8.9.10"),
        Some(IpAddress::V6(1, 2, 3, 4, 5, 6, 0x0708, 0x090a))
    );
    assert_eq!(
        IpAddress::parse("1:2:3:4:5:6:7::"),
        Some(IpAddress::V6(1, 2, 3, 4, 5, 6, 7, 0))
    );
}

#[test]
fn rejects_what_is_no_ipv6_text() {
    for text in [
        ":", ":::", "1:2:3:4:5:6:7", "1:2:3:4:5:6:7:8:9", "1:2:3:4:5:6:7:8::", "::1:2:3:4:5:6:7:8",
        "1::2::3", "12345::", "g::", "1:2:3:4:5:6:7:1.2.3.4", "1.2.3.4::", "1:2:3:4:5:6::1.2.3.4",
        "::1.2.3", "::01.2.3.4", ":1::2", "1::2:", "::1%eth0", "[::1]", "1:2:3:4:5:6:7:",
        "::1.2.3.4:5",
    ] {
        assert_eq!(IpAddress::parse(text), None, "parsing {:?}", text);
    }
}

#[test]
fn parses_every_way_of_leaving_groups_out() {
    let cases = [
        ("::1:2", IpAddress::V6(0, 0, 0, 0, 0, 0, 1, 2)),
        ("1:2::", IpAddress::V6(1, 2, 0, 0, 0, 0, 0, 0)),
        ("1:2:3:4:5:6:7:8", IpAddress::V6(1, 2, 3, 4, 5, 6, 7, 8)),
        ("::2:3:4:5:6:7:8", IpAddress::V6(0, 2, 3, 4, 5, 6, 7, 8)),
        ("1::3:4:5:6:7:8", IpAddress::V6(1, 0, 3, 4, 5, 6, 7, 8)),
        ("1:2:3:4::6:7:8", IpAddress::V6(1, 2, 3, 4, 0, 6, 7, 8)),
        ("::1.2.3.4", IpAddress::V6(0, 0, 0, 0, 0, 0, 0x0102, 0x0304)),
        ("1::1.2.3.4", IpAddress::V6(1, 0, 0, 0, 0, 0, 0x0102, 0x0304)),
        ("1:2:3:4:5::1.2.3.4", IpAddress::V6(1, 2, 3, 4, 5, 0, 0x0102, 0x0304)),
        ("64:ff9b::255.255.255.255", IpAddress::V6(0x64, 0xff9b, 0, 0, 0, 0, 0xffff, 0xffff)),
        ("fFfF::AbCd", IpAddress::V6(0xffff, 0, 0, 0, 0, 0, 0, 0xabcd)),
        ("0000:0000:0000:0000:0000:0000:0000:0000", IpAddress::V6(0, 0, 0, 0, 0, 0, 0, 0)),
        ("::ffff:0:0", IpAddress::V6(0, 0, 0, 0, 0, 0xffff, 0, 0)),
    ];
    for (text, address) in cases {
        assert_eq!(IpAddress::parse(text), Some(address), "parsing {:?}", text);
    }
}

#[test]
fn rejects_near_misses() {
    for text in [
        "001.2.3.4", "1.2.3.4.", "256.0.0.0", "00.0.0.0", "1.2.3.4x", "1:2:3:4:5:1.2.3.4",
        "1.2.3.4::1", "::1.2.3.4:1", "00000::", "::00000", "::::", "1:", ":1", "1:::2", "::g",
        "::1.2.3.256", "::1.2.3.04", "::1.2.3.4.5", " ::1", "::1 ", "::\u{ff11}", "1:2:3:4:5:6:7",
        "1::2:3:4:5:6:7:8",
    ] {
        assert_eq!(IpAddress::parse(text), None, "parsing {:?}", text);
    }
}

#[test]
fn what_is_written_reads_back() {
    let addresses = [
        IpAddress::V4(0, 0, 0, 0),
        IpAddress::V4(1, 2, 3, 4),
        IpAddress::V4(10, 20, 30, 40),
        IpAddress::V4(100, 200, 0, 9),
        IpAddress::V4(255, 255, 255, 255),
        IpAddress::V6(0, 0, 0, 0, 0, 0, 0, 0),
        IpAddress::V6(0, 0, 0, 0, 0, 0, 0, 1),
        IpAddress::V6(1, 0, 0, 0, 0, 0, 0, 0),
        IpAddress::V6(1, 2, 3, 4, 5, 6, 7, 8),
        IpAddress::V6(1, 0, 0, 4, 5, 6, 7, 8),
        IpAddress::V6(1, 0, 3, 4, 5, 6, 7, 8),
        IpAddress::V6(1, 0, 0, 4, 0, 0, 0, 8),
        IpAddress::V6(1, 0, 0, 0, 5, 0, 0, 0),
        IpAddress::V6(0, 0, 3, 4, 5, 6, 0, 0),
        IpAddress::V6(0, 0, 3, 0, 0, 6, 0, 0),
        IpAddress::V6(0, 0, 0, 0, 0, 0xffff, 0x0102, 0x0304),
        IpAddress::V6(0, 0, 0, 0, 0, 0xffff, 0, 0),
        IpAddress::V6(0, 0, 0, 0, 0, 0, 0x0102, 0x0304),
        IpAddress::V6(0, 0, 0, 0, 0, 0xfffe, 0x0102, 0x0304),
        IpAddress::V6(1, 0, 0, 0, 0, 0xffff, 0x0102, 0x0304),
        IpAddress::V6(0xffff, 0xffff, 0xffff, 0xffff, 0xffff, 0xffff, 0xffff, 0xffff),
        IpAddress::V6(0, 1, 0, 1, 0, 1, 0, 1),
        IpAddress::V6(1, 0, 1, 0, 1, 0, 1, 0),
        IpAddress::V6(0x10, 0x100, 0x1000, 0xabcd, 0, 0, 0, 0),
    ];
    for address in addresses {
        assert_eq!(IpAddress::parse(&address.to_text()), Some(address), "{:?}", address);
    }
}

#[test]
fn writes_the_longest_run_of_zero_groups_as_a_gap() {
    let cases = [
        (IpAddress::V6(0, 0, 0, 0, 0, 0, 0, 1), "::1"),
        (IpAddress::V6(1, 0, 0, 0, 0, 0, 0, 0), "1::"),
        (IpAddress::V6(1, 2, 3, 4, 5, 6, 7, 8), "1:2:3:4:5:6:7:8"),
        (IpAddress::V6(1, 0, 0, 4, 5, 6, 7, 8), "1::4:5:6:7:8"),
        (IpAddress::V6(1, 0, 3, 4, 5, 6, 7, 8), "1:0:3:4:5:6:7:8"),
        (IpAddress::V6(1, 0, 0, 4, 0, 0, 0, 8), "1:0:0:4::8"),
        (IpAddress::V6(1, 0, 0, 0, 5, 0, 0, 0), "1::5:0:0:0"),
        (IpAddress::V6(0, 0, 3, 4, 5, 6, 0, 0), "::3:4:5:6:0:0"),
        (IpAddress::V6(0, 0, 3, 0, 0, 6, 0, 0), "::3:0:0:6:0:0"),
        (IpAddress::V6(0, 0, 0, 0, 0, 0, 0x0102, 0x0304), "::102:304"),
        (IpAddress::V6(0, 0, 0, 0, 0, 0xfffe, 0x0102, 0x0304), "::fffe:102:304"),
        (IpAddress::V6(0, 0, 0, 0, 0, 0xffff, 0, 0), "::ffff:0.0.0.0"),
        (IpAddress::V6(0x10, 0x100, 0x1000, 0xabcd, 0, 0, 0, 0), "10:100:1000:abcd::"),
        (IpAddress::V6(0, 1, 0, 1, 0, 1, 0, 1), "0:1:0:1:0:1:0:1"),
    ];
    for (address, text) in cases {
        assert_eq!(address.to_text(), text, "{:?}", address);
    }
}

#[test]
fn writes_exact_texts() {
    assert_eq!(IpAddress::V4(203, 0, 113, 9).to_text(), "203.0.113.9");
    assert_eq!(IpAddress::V4(0, 10, 100, 255).to_text(), "0.10.100.255");
    assert_eq!(IpAddress::V6(0, 0, 0, 0, 0, 0, 0, 0).to_text(), "::");
    assert_eq!(IpAddress::V6(0x2001, 0xdb8, 0, 0, 1, 0, 0, 1).to_text(), "2001:db8::1:0:0:1");
    assert_eq!(IpAddress::V6(1, 0, 2, 0, 3, 0, 4, 0).to_text(), "1:0:2:0:3:0:4:0");
    assert_eq!(IpAddress::V6(0, 0, 0, 0, 0, 0xffff, 0xc000, 0x0280).to_text(), "::ffff:192.0.2.128");
}

#[test]
fn tells_the_address_families_apart() {
    assert!(IpAddress::V4(1, 2, 3, 4).is_ipv4());
    assert!(!IpAddress::V6(0, 0, 0, 0, 0, 0, 0, 1).is_ipv4());
    let endpoint = ExternalAddress::new(IpAddress::V4(198, 51, 100, 7), 3478);
    assert_eq!(endpoint.ip(), IpAddress::V4(198, 51, 100, 7));
    assert_eq!(endpoint.port(), 3478);
    assert!(endpoint.is_ipv4());
    assert!(!ExternalAddress::new(IpAddress::V6(1, 0, 0, 0, 0, 0, 0, 2), 1).is_ipv4());
}
