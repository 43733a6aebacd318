//! Reading and writing IP addresses.

use tapo_exporter::address::IpAddress;

fn normalized(text: &str) -> Option<String> {
    IpAddress::parse(text).map(|address| address.text())
}

fn same(texts: &[(&str, &str)]) {
    for (text, canonical) in texts {
        assert_eq!(normalized(text).as_deref(), Some(*canonical), "{text}");
    }
}

fn rejected(texts: &[&str]) {
    for text in texts {
        assert_eq!(normalized(text), None, "{text}");
    }
}

#[test]
fn ipv4_addresses_are_read_and_written() {
    assert!(matches!(
        IpAddress::parse("192.168.1.100"),
        Some(IpAddress::V4([192, 168, 1, 100]))
    ));
    same(&[
        ("192.168.1.100", "192.168.1.100"),
        ("0.0.0.0", "0.0.0.0"),
        ("255.255.255.255", "255.255.255.255"),
        ("10.0.9.99", "10.0.9.99"),
    ]);
}

#[test]
fn texts_that_are_no_ipv4_address_are_rejected() {
    rejected(&[
        "",
        "1.2.3",
        "1.2.3.4.5",
        "256.0.0.1",
        "1.2.3.1000",
        "01.2.3.4",
        "1.2.3.00",
        "1..2.3",
        "1.2.3.4 ",
        " 1.2.3.4",
        "+1.2.3.4",
        "1.2.3.a",
        "0x1.2.3.4",
        "1.2.3.4:80",
        "1,2,3,4",
        "hub.local",
    ]);
}

#[test]
fn ipv6_addresses_are_written_in_canonical_form() {
    same(&[
        ("2001:0db8:0:0:0:0:0:1", "2001:db8::1"),
        ("2001:DB8::1", "2001:db8::1"),
        ("::", "::"),
        ("0:0:0:0:0:0:0:0", "::"),
        ("::1", "::1"),
        ("1::", "1::"),
        ("1:0:0:0:0:0:0:0", "1::"),
        ("8:9:a:b:c:d:e:f", "8:9:a:b:c:d:e:f"),
        ("ae::ffff:102:304", "ae::ffff:102:304"),
        ("1:2:3:4:5:6:0:8", "1:2:3:4:5:6:0:8"),
        ("1:2:3:4:5:6::8", "1:2:3:4:5:6:0:8"),
        ("1:0:0:4:0:0:0:8", "1:0:0:4::8"),
        ("1:0:0:4:5:0:0:8", "1::4:5:0:0:8"),
        ("1:2:3:4:5:6:7::", "1:2:3:4:5:6:7:0"),
        ("::2:3:4:5:6:7:8", "0:2:3:4:5:6:7:8"),
        ("fe80::0001:00ab", "fe80::1:ab"),
    ]);
}

#[test]
fn ipv4_addresses_within_ipv6_addresses_are_read() {
    same(&[
        ("::ffff:192.0.2.128", "::ffff:192.0.2.128"),
        ("::ffff:c000:280", "::ffff:192.0.2.128"),
        ("0:0:0:0:0:ffff:1.2.3.4", "::ffff:1.2.3.4"),
        ("::192.0.2.128", "::c000:280"),
        ("64:ff9b::1.2.3.4", "64:ff9b::102:304"),
        ("1:2:3:4:5:6:7.8.9.10", "1:2:3:4:5:6:708:90a"),
    ]);
}

#[test]
fn texts_that_are_no_ipv6_address_are_rejected() {
    rejected(&[
        ":",
        ":::",
        "1:2:3:4:5:6:7",
        "1:2:3:4:5:6:7:8:9",
        "1:2:3:4:5:6:7:8::",
        "1:2:3:4:5:6:7::8",
        "::1::",
        "1::2::3",
        ":1:2:3:4:5:6:7",
        "1:2:3:4:5:6:7:",
        "12345::",
        "g::",
        "1.2.3.4::",
        "1.2.3.4:1:2:3:4:5:6",
        "1:2:3:4:5:6:7:1.2.3.4",
        "1:2:3:4:5:6::1.2.3.4",
        "::1.2.3",
        "::01.2.3.4",
        "::1.2.3.4:5",
        "fe80::1%eth0",
        "[::1]",
        "::1 ",
    ]);
}

#[test]
fn reading_a_canonical_text_gives_back_the_address() {
    let groups: [[u16; 8]; 5] = [
        [0, 0, 0, 0, 0, 0xffff, 0xfffe, 1],
        [0, 0, 0, 0, 0, 0, 0, 0],
        [1, 0, 0, 2, 0, 0, 0, 3],
        [0xabcd, 0, 0xef, 0, 1, 0, 0x1000, 0],
        [0, 0, 1, 0, 0, 1, 0, 0],
    ];
    for expected in groups {
        let text = IpAddress::V6(expected).text();
        match IpAddress::parse(&text) {
            Some(IpAddress::V6(found)) => assert_eq!(found, expected),
            other => panic!("{text} was read as {other:?}"),
        }
    }
    match IpAddress::parse(&IpAddress::V4([9, 10, 99, 100]).text()) {
        Some(IpAddress::V4(found)) => assert_eq!(found, [9, 10, 99, 100]),
        other => panic!("read as {other:?}"),
    }
}

#[test]
fn normalizing_twice_changes_nothing_more() {
    for text in ["2001:0db8:0:0:0:0:0:1", "::FFFF:0102:0304", "0:0:0:1::", "10.0.0.1"] {
        let once = normalized(text).expect("a valid address");
        assert_eq!(normalized(&once), Some(once.clone()), "{text}");
    }
}
