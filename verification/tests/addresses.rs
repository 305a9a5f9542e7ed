use zone_delta::address::{Ipv4Address, Ipv6Address};

fn ipv4_text(address: Ipv4Address) -> String {
    let mut out = String::new();
    address.append_to(&mut out);
    out
}

fn ipv6_text(address: Ipv6Address) -> String {
    let mut out = String::new();
    address.append_to(&mut out);
    out
}

#[test]
fn ipv4_is_written_in_dotted_decimal() {
    assert_eq!(ipv4_text(Ipv4Address { octets: [203, 0, 113, 5] }), "203.0.113.5");
    assert_eq!(ipv4_text(Ipv4Address { octets: [0, 0, 0, 0] }), "0.0.0.0");
    assert_eq!(ipv4_text(Ipv4Address { octets: [255, 255, 255, 255] }), "255.255.255.255");
    assert_eq!(ipv4_text(Ipv4Address { octets: [10, 100, 9, 99] }), "10.100.9.99");
}

#[test]
fn ipv4_text_appends_to_what_is_there() {
    let mut out = String::from("A ");
    Ipv4Address { octets: [192, 0, 2, 1] }.append_to(&mut out);
    assert_eq!(out, "A 192.0.2.1");
}

#[test]
fn ipv6_zero_runs_are_compressed() {
    assert_eq!(ipv6_text(Ipv6Address { segments: [0; 8] }), "::");
    assert_eq!(ipv6_text(Ipv6Address { segments: [0, 0, 0, 0, 0, 0, 0, 1] }), "::1");
    assert_eq!(ipv6_text(Ipv6Address { segments: [1, 0, 0, 0, 0, 0, 0, 0] }), "1::");
    assert_eq!(
        ipv6_text(Ipv6Address { segments: [0x2001, 0xdb8, 0, 0, 0, 0, 0, 0x1] }),
        "2001:db8::1"
    );
    assert_eq!(
        ipv6_text(Ipv6Address { segments: [0x2001, 0xdb8, 0, 0, 1, 0, 0, 1] }),
        "2001:db8::1:0:0:1"
    );
    assert_eq!(
        ipv6_text(Ipv6Address { segments: [0x2001, 0, 0, 1, 0, 0, 0, 1] }),
        "2001:0:0:1::1"
    );
}

#[test]
fn ipv6_single_zero_is_not_compressed() {
    assert_eq!(
        ipv6_text(Ipv6Address { segments: [0x2001, 0xdb8, 0, 1, 1, 1, 1, 1] }),
        "2001:db8:0:1:1:1:1:1"
    );
    assert_eq!(
        ipv6_text(Ipv6Address { segments: [1, 2, 3, 4, 5, 6, 7, 8] }),
        "1:2:3:4:5:6:7:8"
    );
    assert_eq!(
        ipv6_text(Ipv6Address { segments: [0xffff, 0xabcd, 0x10, 0x100, 0x1000, 0xf, 0xa0, 0] }),
        "ffff:abcd:10:100:1000:f:a0:0"
    );
}

#[test]
fn ipv6_that_stands_for_ipv4_is_written_dotted() {
    assert_eq!(
        ipv6_text(Ipv6Address { segments: [0, 0, 0, 0, 0, 0xffff, 0xc000, 0x0280] }),
        "::ffff:192.0.2.128"
    );
    assert!(Ipv6Address { segments: [0, 0, 0, 0, 0, 0xffff, 1, 2] }.stands_for_ipv4());
    assert!(!Ipv6Address { segments: [0, 0, 0, 0, 1, 0xffff, 1, 2] }.stands_for_ipv4());
    assert!(!Ipv6Address { segments: [0, 0, 0, 0, 0, 0xfffe, 1, 2] }.stands_for_ipv4());
}

#[test]
fn ipv6_first_of_equal_runs_is_compressed() {
    assert_eq!(
        ipv6_text(Ipv6Address { segments: [0, 0, 1, 0, 0, 1, 0, 0] }),
        "::1:0:0:1:0:0"
    );
    assert_eq!(
        ipv6_text(Ipv6Address { segments: [1, 0, 0, 2, 0, 0, 0, 3] }),
        "1:0:0:2::3"
    );
    assert_eq!(
        ipv6_text(Ipv6Address { segments: [0, 1, 0, 1, 0, 1, 0, 1] }),
        "0:1:0:1:0:1:0:1"
    );
    assert_eq!(
        ipv6_text(Ipv6Address { segments: [0, 0, 0, 0, 0, 0, 0xc000, 0x0280] }),
        "::c000:280"
    );
    assert_eq!(
        ipv6_text(Ipv6Address { segments: [0xfe80, 0, 0, 0, 0x0202, 0xb3ff, 0xfe1e, 0x8329] }),
        "fe80::202:b3ff:fe1e:8329"
    );
}

#[test]
fn same_address_is_told_by_every_part() {
    let a = Ipv4Address { octets: [1, 2, 3, 4] };
    assert!(a.same_as(&Ipv4Address { octets: [1, 2, 3, 4] }));
    assert!(!a.same_as(&Ipv4Address { octets: [1, 2, 3, 5] }));
    assert!(!a.same_as(&Ipv4Address { octets: [0, 2, 3, 4] }));
    let b = Ipv6Address { segments: [1, 2, 3, 4, 5, 6, 7, 8] };
    assert!(b.same_as(&Ipv6Address { segments: [1, 2, 3, 4, 5, 6, 7, 8] }));
    assert!(!b.same_as(&Ipv6Address { segments: [1, 2, 3, 4, 5, 6, 7, 9] }));
    assert!(!b.same_as(&Ipv6Address { segments: [0, 2, 3, 4, 5, 6, 7, 8] }));
}

#[test]
fn ipv4_is_read_from_dotted_decimal() {
    assert_eq!(Ipv4Address::parse("203.0.113.5"), Some(Ipv4Address { octets: [203, 0, 113, 5] }));
    assert_eq!(Ipv4Address::parse("0.0.0.0"), Some(Ipv4Address { octets: [0, 0, 0, 0] }));
    assert_eq!(
        Ipv4Address::parse("255.255.255.255"),
        Some(Ipv4Address { octets: [255, 255, 255, 255] })
    );
    assert_eq!(Ipv4Address::parse("1.20.3.40"), Some(Ipv4Address { octets: [1, 20, 3, 40] }));
}

#[test]
fn ipv4_rejects_what_is_not_an_address() {
    for text in [
        "",
        ".",
        "1",
        "1.2.3",
        "1.2.3.",
        ".1.2.3",
        "1.2.3.4.",
        "1.2.3.4.5",
        "1..2.3",
        "256.0.0.1",
        "1.2.3.256",
        "999.1.1.1",
        "1.2.3.1000",
        "01.2.3.4",
        "1.2.3.04",
        "1.2.3.00",
        "0001.2.3.4",
        " 1.2.3.4",
        "1.2.3.4 ",
        "1.2.3.4\n",
        "1.2. 3.4",
        "+1.2.3.4",
        "-1.2.3.4",
        "1.2.3.a",
        "0x1.2.3.4",
        "1,2,3,4",
        "1.2.3.4/24",
        "\u{661}.2.3.4",
        "example.com",
        "::1",
    ] {
        assert_eq!(Ipv4Address::parse(text), None, "{:?}", text);
    }
}

#[test]
fn ipv4_text_reads_back() {
    for octets in [[0, 0, 0, 0], [1, 2, 3, 4], [9, 10, 99, 100], [199, 200, 249, 255]] {
        let address = Ipv4Address { octets };
        assert_eq!(Ipv4Address::parse(&ipv4_text(address)), Some(address));
    }
}

fn v6(segments: [u16; 8]) -> Option<Ipv6Address> {
    Some(Ipv6Address { segments })
}

#[test]
fn ipv6_is_read_in_full() {
    assert_eq!(Ipv6Address::parse("1:2:3:4:5:6:7:8"), v6([1, 2, 3, 4, 5, 6, 7, 8]));
    assert_eq!(Ipv6Address::parse("0:0:0:0:0:0:0:0"), v6([0; 8]));
    assert_eq!(
        Ipv6Address::parse("2001:0db8:0000:0000:0000:0000:0000:0001"),
        v6([0x2001, 0xdb8, 0, 0, 0, 0, 0, 1])
    );
    assert_eq!(
        Ipv6Address::parse("FFFF:abcd:ABCD:aBcD:0:00:000:0000"),
        v6([0xffff, 0xabcd, 0xabcd, 0xabcd, 0, 0, 0, 0])
    );
}

#[test]
fn ipv6_is_read_with_a_gap() {
    assert_eq!(Ipv6Address::parse("::"), v6([0; 8]));
    assert_eq!(Ipv6Address::parse("::1"), v6([0, 0, 0, 0, 0, 0, 0, 1]));
    assert_eq!(Ipv6Address::parse("1::"), v6([1, 0, 0, 0, 0, 0, 0, 0]));
    assert_eq!(Ipv6Address::parse("2001:db8::1"), v6([0x2001, 0xdb8, 0, 0, 0, 0, 0, 1]));
    assert_eq!(Ipv6Address::parse("2001:DB8::1"), v6([0x2001, 0xdb8, 0, 0, 0, 0, 0, 1]));
    assert_eq!(Ipv6Address::parse("1:2:3:4:5:6:7::"), v6([1, 2, 3, 4, 5, 6, 7, 0]));
    assert_eq!(Ipv6Address::parse("::2:3:4:5:6:7:8"), v6([0, 2, 3, 4, 5, 6, 7, 8]));
    assert_eq!(Ipv6Address::parse("1:2:3::6:7:8"), v6([1, 2, 3, 0, 0, 6, 7, 8]));
    assert_eq!(Ipv6Address::parse("1:2:3:4::6:7:8"), v6([1, 2, 3, 4, 0, 6, 7, 8]));
    assert_eq!(Ipv6Address::parse("0::0"), v6([0; 8]));
}

#[test]
fn ipv6_is_read_with_dotted_tail() {
    assert_eq!(
        Ipv6Address::parse("::ffff:192.0.2.128"),
        v6([0, 0, 0, 0, 0, 0xffff, 0xc000, 0x0280])
    );
    assert_eq!(Ipv6Address::parse("::1.2.3.4"), v6([0, 0, 0, 0, 0, 0, 0x0102, 0x0304]));
    assert_eq!(
        Ipv6Address::parse("1:2:3:4:5:6:1.2.3.4"),
        v6([1, 2, 3, 4, 5, 6, 0x0102, 0x0304])
    );
    assert_eq!(
        Ipv6Address::parse("64:ff9b::255.255.255.255"),
        v6([0x64, 0xff9b, 0, 0, 0, 0, 0xffff, 0xffff])
    );
    assert_eq!(Ipv6Address::parse("1:2:3:4:5::1.2.3.4"), v6([1, 2, 3, 4, 5, 0, 0x0102, 0x0304]));
}

#[test]
fn ipv6_rejects_what_is_not_an_address() {
    for text in [
        "",
        ":",
        ":::",
        "1",
        "1:2:3:4:5:6:7",
        "1:2:3:4:5:6:7:",
        ":1:2:3:4:5:6:7",
        "1:2:3:4:5:6:7:8:9",
        "1:2:3:4:5:6:7:8:",
        "1:2:3:4:5:6:7:8::",
        "::1:2:3:4:5:6:7:8",
        "1::2:3:4:5:6:7:8",
        "1::2::3",
        "::1::",
        "12345::",
        "::12345",
        "1:2:3:4:5:6:7:g",
        "::g",
        " ::1",
        "::1 ",
        "::1%eth0",
        "[::1]",
        "::1/128",
        "1.2.3.4",
        "1.2.3.4::",
        "1:2:3:4:5:6:7:1.2.3.4",
        "1:2:3:4:5:1.2.3.4",
        "::1.2.3.4:5",
        "::1.2.3",
        "::1.2.3.256",
        "::01.2.3.4",
        "1:2:3:4:5:6::1.2.3.4",
        "::ffff:1.2.3.4.5",
        "0x1::",
        "-1::",
        "2001:db8:\u{661}::1",
    ] {
        assert_eq!(Ipv6Address::parse(text), None, "{:?}", text);
    }
}

#[test]
fn ipv6_text_reads_back() {
    for segments in [
        [0, 0, 0, 0, 0, 0, 0, 0],
        [0, 0, 0, 0, 0, 0, 0, 1],
        [1, 0, 0, 0, 0, 0, 0, 0],
        [0, 0, 0, 0, 0, 0xffff, 0xc000, 0x0280],
        [0, 0, 0, 0, 0, 0, 0xc000, 0x0280],
        [0, 0, 0, 0, 0, 0xffff, 0, 0],
        [0x2001, 0xdb8, 0, 0, 0, 0, 0, 1],
        [0x2001, 0xdb8, 0, 0, 1, 0, 0, 1],
        [0x2001, 0, 0, 1, 0, 0, 0, 1],
        [0x2001, 0xdb8, 0, 1, 1, 1, 1, 1],
        [1, 2, 3, 4, 5, 6, 7, 8],
        [1, 2, 3, 4, 5, 6, 0, 0],
        [0, 0, 3, 4, 5, 6, 7, 8],
        [0, 1, 0, 1, 0, 1, 0, 1],
        [1, 0, 1, 0, 1, 0, 1, 0],
        [0, 0, 1, 0, 0, 1, 0, 0],
        [0xffff, 0xffff, 0xffff, 0xffff, 0xffff, 0xffff, 0xffff, 0xffff],
    ] {
        let address = Ipv6Address { segments };
        assert_eq!(Ipv6Address::parse(&ipv6_text(address)), Some(address), "{:?}", segments);
    }
}
