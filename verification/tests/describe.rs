use zone_delta::address::{Ipv4Address, Ipv6Address};
use zone_delta::delta::describe_content;
use zone_delta::record::RecordContent;

#[test]
fn a_is_described_by_its_address() {
    let content = RecordContent::A { content: Ipv4Address { octets: [203, 0, 113, 5] } };
    assert_eq!(describe_content(&content), "A 203.0.113.5");
}

#[test]
fn aaaa_is_described_by_its_address() {
    let content = RecordContent::AAAA {
        content: Ipv6Address { segments: [0x2001, 0xdb8, 0, 0, 0, 0, 0, 1] },
    };
    assert_eq!(describe_content(&content), "AAAA 2001:db8::1");
}

#[test]
fn mx_is_described_by_target_and_priority() {
    let content = RecordContent::MX { content: "mail.example.com".to_string(), priority: 10 };
    assert_eq!(describe_content(&content), "MX mail.example.com 10");
    let content = RecordContent::MX { content: "m".to_string(), priority: 0 };
    assert_eq!(describe_content(&content), "MX m 0");
    let content = RecordContent::MX { content: "m".to_string(), priority: 65535 };
    assert_eq!(describe_content(&content), "MX m 65535");
}

#[test]
fn text_kinds_are_described_by_their_text() {
    let content = RecordContent::CNAME { content: "example.com".to_string() };
    assert_eq!(describe_content(&content), "CNAME example.com");
    let content = RecordContent::NS { content: "ns1.example.com".to_string() };
    assert_eq!(describe_content(&content), "NS ns1.example.com");
    let content = RecordContent::TXT { content: "v=spf1 -all".to_string() };
    assert_eq!(describe_content(&content), "TXT v=spf1 -all");
    let content = RecordContent::SRV { content: "0 5 5060 sip.example.com".to_string() };
    assert_eq!(describe_content(&content), "SRV 0 5 5060 sip.example.com");
    let content = RecordContent::TXT { content: String::new() };
    assert_eq!(describe_content(&content), "TXT ");
    let content = RecordContent::TXT { content: "gr\u{fc}\u{df}e \u{2603}".to_string() };
    assert_eq!(describe_content(&content), "TXT gr\u{fc}\u{df}e \u{2603}");
}
