use iana_services::embedded::Registry;
use iana_services::{lookup_by_name, lookup_by_port, ServiceRecord, ServiceSource, TransportProtocol};

fn service(name: &str, port: u16, protocol: TransportProtocol, description: &str) -> ServiceRecord {
    ServiceRecord {
        name: name.to_string(),
        port,
        protocol,
        description: description.to_string(),
        assignee: None,
        contact: None,
        registration_date: None,
        modification_date: None,
        reference: None,
        service_code: None,
        unauthorized_use: None,
        assignment_notes: None,
    }
}

fn file_source() -> ServiceSource {
    ServiceSource::Runtime("ssh 22/tcp # Secure Shell\nhttp 80/tcp www\nhttp 80/udp\n".to_string())
}

fn registry_source() -> ServiceSource {
    let rows: Vec<Vec<String>> = vec![
        vec!["ssh".to_string(), "22".to_string(), "tcp".to_string(), "Secure Shell".to_string()],
        vec!["http".to_string(), "80".to_string(), "tcp".to_string(), "www".to_string()],
        vec!["http".to_string(), "80".to_string(), "udp".to_string(), "".to_string()],
        vec!["".to_string(), "9".to_string(), "udp".to_string(), "Unassigned".to_string()],
    ];
    ServiceSource::Embedded(Registry::build(&rows))
}

#[test]
fn facade_example_end_to_end() {
    let source = ServiceSource::Runtime("ssh 22/tcp # Secure Shell\nhttp 80/tcp www".to_string());
    assert_eq!(
        lookup_by_port(&source, 22),
        Some(vec![service("ssh", 22, TransportProtocol::Tcp, "Secure Shell")])
    );
    assert_eq!(
        lookup_by_port(&source, 80),
        Some(vec![service("http", 80, TransportProtocol::Tcp, "www")])
    );
}

#[test]
fn facade_answers_from_either_source() {
    for source in [file_source(), registry_source()] {
        assert_eq!(
            lookup_by_port(&source, 22),
            Some(vec![service("ssh", 22, TransportProtocol::Tcp, "Secure Shell")])
        );
        assert_eq!(
            lookup_by_port(&source, 80),
            Some(vec![
                service("http", 80, TransportProtocol::Tcp, "www"),
                service("http", 80, TransportProtocol::Udp, ""),
            ])
        );
        assert_eq!(
            lookup_by_name(&source, "http"),
            Some(vec![
                service("http", 80, TransportProtocol::Tcp, "www"),
                service("http", 80, TransportProtocol::Udp, ""),
            ])
        );
    }
}

#[test]
fn facade_not_found_is_nothing_not_an_empty_collection() {
    for source in [file_source(), registry_source()] {
        assert_eq!(lookup_by_port(&source, 65000), None);
        assert_eq!(lookup_by_name(&source, "nonexistent-service"), None);
        assert_eq!(lookup_by_name(&source, "SSH"), None);
        assert_eq!(lookup_by_name(&source, ""), None);
    }
}

#[test]
fn facade_lookups_repeat() {
    for source in [file_source(), registry_source()] {
        assert_eq!(lookup_by_port(&source, 80), lookup_by_port(&source, 80));
        assert_eq!(lookup_by_name(&source, "ssh"), lookup_by_name(&source, "ssh"));
        assert_eq!(lookup_by_port(&source, 1), lookup_by_port(&source, 1));
    }
}

#[test]
fn facade_records_can_be_copied_and_compared() {
    let record = service("ssh", 22, TransportProtocol::Tcp, "Secure Shell");
    let copy = record.clone();
    assert_eq!(copy, record);
    assert_ne!(copy, service("ssh", 22, TransportProtocol::Udp, "Secure Shell"));
    let full = ServiceRecord {
        assignee: Some("IESG".to_string()),
        assignment_notes: Some("notes".to_string()),
        ..service("ssh", 22, TransportProtocol::Tcp, "")
    };
    assert_eq!(full.clone(), full);
    assert_ne!(full, service("ssh", 22, TransportProtocol::Tcp, ""));
}
