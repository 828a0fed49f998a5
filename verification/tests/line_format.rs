use iana_services::line::{parse_line, split_port_protocol};
use iana_services::{ServiceRecord, TransportProtocol};

fn line_chars(s: &str) -> Vec<char> {
    s.chars().collect()
}

fn defined(name: &str, port: u16, protocol: TransportProtocol, description: &str) -> ServiceRecord {
    ServiceRecord {
        name: name.to_string(),
        port,
        protocol,
        description: description.to_string(),
        assignee: None,
        contact: None,
        registration_date: None,
        modification_date: None,
        reference: None,
        service_code: None,
        unauthorized_use: None,
        assignment_notes: None,
    }
}

fn parsed(s: &str) -> Option<ServiceRecord> {
    parse_line(&line_chars(s))
}

#[test]
fn line_with_name_port_and_protocol_defines_a_record() {
    assert_eq!(parsed("http 80/tcp"), Some(defined("http", 80, TransportProtocol::Tcp, "")));
    assert_eq!(parsed("domain\t53/udp"), Some(defined("domain", 53, TransportProtocol::Udp, "")));
}

#[test]
fn line_name_is_kept_as_written() {
    assert_eq!(parsed("X11-Fwd 6010/tcp"), Some(defined("X11-Fwd", 6010, TransportProtocol::Tcp, "")));
    assert_eq!(parsed("Ünï 1/udp"), Some(defined("Ünï", 1, TransportProtocol::Udp, "")));
}

#[test]
fn line_comment_is_the_description() {
    assert_eq!(
        parsed("ssh 22/tcp # Secure Shell"),
        Some(defined("ssh", 22, TransportProtocol::Tcp, "Secure Shell"))
    );
    assert_eq!(
        parsed("http 80/tcp www www-http #   WorldWideWeb HTTP  "),
        Some(defined("http", 80, TransportProtocol::Tcp, "WorldWideWeb HTTP"))
    );
}

#[test]
fn line_comment_ends_at_the_end_not_at_a_second_mark() {
    assert_eq!(parsed("a 1/tcp # b # c"), Some(defined("a", 1, TransportProtocol::Tcp, "b # c")));
    assert_eq!(parsed("a 1/tcp #"), Some(defined("a", 1, TransportProtocol::Tcp, "")));
}

#[test]
fn line_aliases_are_the_description_where_there_is_no_comment() {
    assert_eq!(parsed("http 80/tcp www"), Some(defined("http", 80, TransportProtocol::Tcp, "www")));
    assert_eq!(
        parsed("http   80/tcp   www \t www-http  "),
        Some(defined("http", 80, TransportProtocol::Tcp, "www www-http"))
    );
}

#[test]
fn line_mark_inside_the_name_starts_the_description() {
    assert_eq!(
        parsed("a#b 7/udp x"),
        Some(defined("a#b", 7, TransportProtocol::Udp, "b 7/udp x"))
    );
}

#[test]
fn line_surrounding_whitespace_does_not_count() {
    assert_eq!(
        parsed("  \t ssh 22/tcp  \r"),
        Some(defined("ssh", 22, TransportProtocol::Tcp, ""))
    );
}

#[test]
fn line_that_is_blank_or_a_comment_defines_nothing() {
    for s in ["", "   ", "\t\r", "# comment", "   # ssh 22/tcp", "#ssh 22/tcp"] {
        assert_eq!(parsed(s), None, "{:?}", s);
    }
}

#[test]
fn line_with_one_word_defines_nothing() {
    for s in ["bogus-line-no-slash", "22/tcp", "ssh"] {
        assert_eq!(parsed(s), None, "{:?}", s);
    }
}

#[test]
fn line_with_malformed_port_and_protocol_defines_nothing() {
    for s in [
        "name 1/bogus",
        "name notanumber/tcp",
        "name 22",
        "name 22/",
        "name /tcp",
        "name 22/tcp/udp",
        "name 22//tcp",
        "name 65536/tcp",
        "name -1/tcp",
        "name 22/sctp",
        "name 22/tcp#c",
        "name 22 /tcp",
    ] {
        assert_eq!(parsed(s), None, "{:?}", s);
    }
}

#[test]
fn line_port_may_carry_a_plus_and_leading_zeros() {
    assert_eq!(parsed("a +80/tcp"), Some(defined("a", 80, TransportProtocol::Tcp, "")));
    assert_eq!(parsed("a 0080/udp"), Some(defined("a", 80, TransportProtocol::Udp, "")));
    assert_eq!(parsed("a 0/udp"), Some(defined("a", 0, TransportProtocol::Udp, "")));
    assert_eq!(parsed("a 65535/udp"), Some(defined("a", 65535, TransportProtocol::Udp, "")));
}

#[test]
fn line_protocol_is_accepted_in_either_case() {
    for s in ["x 9/TCP", "x 9/Tcp", "x 9/tcp"] {
        assert_eq!(parsed(s), Some(defined("x", 9, TransportProtocol::Tcp, "")), "{:?}", s);
    }
    assert_eq!(parsed("x 9/UDP"), Some(defined("x", 9, TransportProtocol::Udp, "")));
}

#[test]
fn line_extended_fields_are_absent() {
    let record = parsed("ssh 22/tcp # Secure Shell").unwrap();
    assert_eq!(record.assignee, None);
    assert_eq!(record.contact, None);
    assert_eq!(record.registration_date, None);
    assert_eq!(record.modification_date, None);
    assert_eq!(record.reference, None);
    assert_eq!(record.service_code, None);
    assert_eq!(record.unauthorized_use, None);
    assert_eq!(record.assignment_notes, None);
}

#[test]
fn split_port_protocol_needs_exactly_one_slash() {
    let word = line_chars("22/tcp");
    let (port, protocol) = split_port_protocol(&word).unwrap();
    assert_eq!(port.to_vec(), line_chars("22"));
    assert_eq!(protocol.to_vec(), line_chars("tcp"));
    let word = line_chars("/");
    let (port, protocol) = split_port_protocol(&word).unwrap();
    assert!(port.is_empty());
    assert!(protocol.is_empty());
    for s in ["", "22", "22/tcp/", "/22/tcp", "a//b"] {
        assert!(split_port_protocol(&line_chars(s)).is_none(), "{:?}", s);
    }
}
