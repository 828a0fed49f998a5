use iana_services::embedded::{lookup_by_name_impl, lookup_by_port_impl, Registry};
use iana_services::order::{name_le, sort_records};
use iana_services::query::{answer, select_name, select_port};
use iana_services::row::{parse_row, parse_rows};
use iana_services::{ServiceRecord, TransportProtocol};

fn row(columns: &[&str]) -> Vec<String> {
    columns.iter().map(|c| c.to_string()).collect()
}

fn plain(name: &str, port: u16, protocol: TransportProtocol, description: &str) -> ServiceRecord {
    ServiceRecord {
        name: name.to_string(),
        port,
        protocol,
        description: description.to_string(),
        assignee: None,
        contact: None,
        registration_date: None,
        modification_date: None,
        reference: None,
        service_code: None,
        unauthorized_use: None,
        assignment_notes: None,
    }
}

fn feed() -> Vec<Vec<String>> {
    vec![
        row(&["Service Name", "Port Number", "Transport Protocol", "Description"]),
        row(&["https", "443", "tcp", "http protocol over TLS/SSL"]),
        row(&["http", "80", "udp", "World Wide Web HTTP"]),
        row(&["http", "80", "tcp", "World Wide Web HTTP"]),
        row(&["www-http", "80", "tcp", "World Wide Web HTTP"]),
        row(&["", "80", "sctp", "unknown protocol"]),
        row(&["", "4", "tcp", "Unassigned"]),
        row(&["", "4", "udp", "Unassigned"]),
        row(&["ssh", "22", "tcp", "The Secure Shell (SSH) Protocol"]),
        row(&["", "1024-1026", "", "Reserved"]),
        row(&["https", "443", "udp", "http protocol over TLS/SSL"]),
        row(&["http", "8080", "tcp", "alternate"]),
    ]
}

fn names_and_protocols(records: &[ServiceRecord]) -> Vec<(String, u16, TransportProtocol)> {
    records.iter().map(|r| (r.name.clone(), r.port, r.protocol)).collect()
}

#[test]
fn row_with_every_column_defines_a_full_record() {
    let columns = row(&[
        " ssh ",
        " 22 ",
        " TCP ",
        " The Secure Shell (SSH) Protocol ",
        " IESG ",
        " IETF Chair ",
        "2000-01-01",
        "2017-10-12",
        "[RFC4251]",
        "SSH ",
        " no",
        " Defined TXT keys: u=<username> p=<password> ",
    ]);
    assert_eq!(
        parse_row(&columns),
        Some(ServiceRecord {
            name: "ssh".to_string(),
            port: 22,
            protocol: TransportProtocol::Tcp,
            description: "The Secure Shell (SSH) Protocol".to_string(),
            assignee: Some("IESG".to_string()),
            contact: Some("IETF Chair".to_string()),
            registration_date: Some("2000-01-01".to_string()),
            modification_date: Some("2017-10-12".to_string()),
            reference: Some("[RFC4251]".to_string()),
            service_code: Some("SSH".to_string()),
            unauthorized_use: Some("no".to_string()),
            assignment_notes: Some("Defined TXT keys: u=<username> p=<password>".to_string()),
        })
    );
}

#[test]
fn row_empty_columns_are_absent() {
    let columns = row(&["echo", "7", "udp", "", "", "  ", "", "\t", "", "", "", ""]);
    assert_eq!(parse_row(&columns), Some(plain("echo", 7, TransportProtocol::Udp, "")));
}

#[test]
fn row_missing_columns_are_absent() {
    assert_eq!(
        parse_row(&row(&["echo", "7", "udp"])),
        Some(plain("echo", 7, TransportProtocol::Udp, ""))
    );
    assert_eq!(
        parse_row(&row(&["echo", "7", "udp", "Echo", "Jon Postel"])),
        Some(ServiceRecord {
            assignee: Some("Jon Postel".to_string()),
            ..plain("echo", 7, TransportProtocol::Udp, "Echo")
        })
    );
}

#[test]
fn row_without_port_or_protocol_defines_nothing() {
    for columns in [
        row(&[]),
        row(&["echo"]),
        row(&["echo", "7"]),
        row(&["echo", "7", ""]),
        row(&["echo", "", "tcp"]),
        row(&["echo", "7-9", "tcp"]),
        row(&["echo", "70000", "tcp"]),
        row(&["echo", "7", "sctp"]),
        row(&["echo", "7", "dccp"]),
        row(&["Service Name", "Port Number", "Transport Protocol"]),
    ] {
        assert_eq!(parse_row(&columns), None, "{:?}", columns);
    }
}

#[test]
fn row_name_may_be_empty() {
    assert_eq!(
        parse_row(&row(&["", "4", "tcp", "Unassigned"])),
        Some(plain("", 4, TransportProtocol::Tcp, "Unassigned"))
    );
}

#[test]
fn row_protocol_is_accepted_in_either_case() {
    for protocol in ["TCP", "Tcp", "tcp"] {
        assert_eq!(
            parse_row(&row(&["x", "9", protocol])),
            Some(plain("x", 9, TransportProtocol::Tcp, ""))
        );
    }
}

#[test]
fn rows_that_define_nothing_are_dropped() {
    let records = parse_rows(&feed());
    assert_eq!(records.len(), 9);
    assert_eq!(records[0], plain("https", 443, TransportProtocol::Tcp, "http protocol over TLS/SSL"));
    assert_eq!(records[8], plain("http", 8080, TransportProtocol::Tcp, "alternate"));
    assert_eq!(parse_rows(&Vec::new()), Vec::new());
}

#[test]
fn name_order_is_that_of_texts() {
    let texts = ["", "a", "ab", "abc", "b", "B", "a-b", "é", "z", "\u{10000}", "\u{ffff}", "aa", "http", "https"];
    for a in texts {
        for b in texts {
            let left: Vec<char> = a.chars().collect();
            let right: Vec<char> = b.chars().collect();
            assert_eq!(name_le(&left, &right), a <= b, "{:?} {:?}", a, b);
        }
    }
}

#[test]
fn sort_orders_by_port_then_name_and_keeps_feed_order() {
    let sorted = sort_records(&parse_rows(&feed()));
    assert_eq!(
        names_and_protocols(&sorted),
        vec![
            ("".to_string(), 4, TransportProtocol::Tcp),
            ("".to_string(), 4, TransportProtocol::Udp),
            ("ssh".to_string(), 22, TransportProtocol::Tcp),
            ("http".to_string(), 80, TransportProtocol::Udp),
            ("http".to_string(), 80, TransportProtocol::Tcp),
            ("www-http".to_string(), 80, TransportProtocol::Tcp),
            ("https".to_string(), 443, TransportProtocol::Tcp),
            ("https".to_string(), 443, TransportProtocol::Udp),
            ("http".to_string(), 8080, TransportProtocol::Tcp),
        ]
    );
}

#[test]
fn sort_agrees_with_a_stable_sort_by_std() {
    let mut feed = Vec::new();
    let names = ["b", "a", "", "ab", "a", "é", "B", "a"];
    let mut seed: u32 = 12345;
    for i in 0..5000 {
        seed = seed.wrapping_mul(1103515245).wrapping_add(12345);
        let name = names[(seed >> 16) as usize % names.len()];
        let port = ((seed >> 8) % 5) as u16;
        feed.push(plain(name, port, TransportProtocol::Tcp, &i.to_string()));
    }
    let mut expected = feed.clone();
    expected.sort_by_key(|r| (r.port, r.name.clone()));
    assert_eq!(sort_records(&feed), expected);
    assert_eq!(sort_records(&Vec::new()), Vec::new());
}

#[test]
fn sort_of_a_feed_in_reverse_order() {
    let mut feed = Vec::new();
    for port in (0..50000u32).rev() {
        feed.push(plain("same", (port / 4) as u16, TransportProtocol::Udp, &port.to_string()));
    }
    let mut expected = feed.clone();
    expected.sort_by_key(|r| (r.port, r.name.clone()));
    assert_eq!(sort_records(&feed), expected);
}

#[test]
fn sort_keeps_the_feed_as_it_is() {
    let feed = vec![
        plain("b", 2, TransportProtocol::Tcp, ""),
        plain("a", 1, TransportProtocol::Tcp, ""),
    ];
    let sorted = sort_records(&feed);
    assert_eq!(feed[0].name, "b");
    assert_eq!(sorted[0].name, "a");
    assert_eq!(sorted.len(), feed.len());
}

#[test]
fn registry_duplicate_port_gives_both_records_in_stored_order() {
    let registry = Registry::build(&vec![row(&["foo", "80", "tcp"]), row(&["bar", "80", "udp"])]);
    assert_eq!(
        lookup_by_port_impl(&registry, 80),
        Some(vec![plain("bar", 80, TransportProtocol::Udp, ""), plain("foo", 80, TransportProtocol::Tcp, "")])
    );
}

#[test]
fn registry_lookup_by_port_gives_the_run_of_the_port() {
    let registry = Registry::build(&feed());
    assert_eq!(registry.len(), 9);
    assert_eq!(
        lookup_by_port_impl(&registry, 80),
        Some(vec![
            plain("http", 80, TransportProtocol::Udp, "World Wide Web HTTP"),
            plain("http", 80, TransportProtocol::Tcp, "World Wide Web HTTP"),
            plain("www-http", 80, TransportProtocol::Tcp, "World Wide Web HTTP"),
        ])
    );
    assert_eq!(
        lookup_by_port_impl(&registry, 22),
        Some(vec![plain("ssh", 22, TransportProtocol::Tcp, "The Secure Shell (SSH) Protocol")])
    );
    assert_eq!(
        lookup_by_port_impl(&registry, 4),
        Some(vec![
            plain("", 4, TransportProtocol::Tcp, "Unassigned"),
            plain("", 4, TransportProtocol::Udp, "Unassigned"),
        ])
    );
}

#[test]
fn registry_every_inserted_record_is_found_by_its_port() {
    let registry = Registry::build(&feed());
    for record in parse_rows(&feed()) {
        let found = lookup_by_port_impl(&registry, record.port).unwrap();
        assert!(found.contains(&record), "{:?}", record);
        assert!(found.iter().all(|r| r.port == record.port));
    }
}

#[test]
fn registry_port_without_record_is_not_found() {
    let registry = Registry::build(&feed());
    for port in [0, 1, 3, 5, 21, 23, 79, 81, 1024, 65000, 65535] {
        assert_eq!(lookup_by_port_impl(&registry, port), None, "{}", port);
    }
    let empty = Registry::build(&Vec::new());
    assert_eq!(empty.len(), 0);
    assert_eq!(lookup_by_port_impl(&empty, 80), None);
    assert_eq!(lookup_by_name_impl(&empty, "http"), None);
}

#[test]
fn registry_lookup_by_name_gives_every_record_of_the_name() {
    let registry = Registry::build(&feed());
    assert_eq!(
        lookup_by_name_impl(&registry, "http"),
        Some(vec![
            plain("http", 80, TransportProtocol::Udp, "World Wide Web HTTP"),
            plain("http", 80, TransportProtocol::Tcp, "World Wide Web HTTP"),
            plain("http", 8080, TransportProtocol::Tcp, "alternate"),
        ])
    );
    assert_eq!(
        lookup_by_name_impl(&registry, "https"),
        Some(vec![
            plain("https", 443, TransportProtocol::Tcp, "http protocol over TLS/SSL"),
            plain("https", 443, TransportProtocol::Udp, "http protocol over TLS/SSL"),
        ])
    );
}

#[test]
fn registry_lookup_by_name_is_exact() {
    let registry = Registry::build(&feed());
    for name in ["HTTP", "htt", "http ", "www", "nonexistent-service"] {
        assert_eq!(lookup_by_name_impl(&registry, name), None, "{:?}", name);
    }
}

#[test]
fn registry_empty_name_is_not_indexed() {
    let registry = Registry::build(&feed());
    assert_eq!(lookup_by_name_impl(&registry, ""), None);
    assert_eq!(lookup_by_port_impl(&registry, 4).unwrap().len(), 2);
}

#[test]
fn registry_duplicate_rows_are_kept() {
    let registry = Registry::build(&vec![
        row(&["echo", "7", "tcp", "Echo"]),
        row(&["echo", "7", "tcp", "Echo"]),
    ]);
    assert_eq!(
        lookup_by_port_impl(&registry, 7),
        Some(vec![plain("echo", 7, TransportProtocol::Tcp, "Echo"), plain("echo", 7, TransportProtocol::Tcp, "Echo")])
    );
    assert_eq!(lookup_by_name_impl(&registry, "echo").unwrap().len(), 2);
}

#[test]
fn registry_lookups_repeat() {
    let registry = Registry::build(&feed());
    assert_eq!(lookup_by_port_impl(&registry, 80), lookup_by_port_impl(&registry, 80));
    assert_eq!(lookup_by_port_impl(&registry, 81), lookup_by_port_impl(&registry, 81));
    assert_eq!(lookup_by_name_impl(&registry, "ssh"), lookup_by_name_impl(&registry, "ssh"));
}

#[test]
fn registry_holds_its_records_by_port_and_name() {
    let registry = Registry::build(&feed());
    assert_eq!(registry.entries(), &sort_records(&parse_rows(&feed())));
    assert_eq!(registry.entries().len(), registry.len());
    let ports: Vec<u16> = registry.entries().iter().map(|r| r.port).collect();
    assert_eq!(ports, vec![4, 4, 22, 80, 80, 80, 443, 443, 8080]);
}

#[test]
fn registry_from_records_sorts_them() {
    let registry = Registry::from_records(&vec![
        plain("b", 2, TransportProtocol::Tcp, ""),
        plain("a", 2, TransportProtocol::Udp, ""),
        plain("z", 1, TransportProtocol::Tcp, ""),
    ]);
    assert_eq!(
        lookup_by_port_impl(&registry, 2),
        Some(vec![plain("a", 2, TransportProtocol::Udp, ""), plain("b", 2, TransportProtocol::Tcp, "")])
    );
    assert_eq!(lookup_by_name_impl(&registry, "z"), Some(vec![plain("z", 1, TransportProtocol::Tcp, "")]));
}

#[test]
fn registry_agrees_with_a_scan_of_its_records() {
    let registry = Registry::build(&feed());
    let sorted = sort_records(&parse_rows(&feed()));
    for port in [4, 22, 80, 443, 8080, 9] {
        assert_eq!(lookup_by_port_impl(&registry, port), answer(select_port(&sorted, port)));
    }
    for name in ["http", "https", "ssh", "www-http", "none"] {
        assert_eq!(lookup_by_name_impl(&registry, name), answer(select_name(&sorted, name)));
    }
}

#[test]
fn select_keeps_the_order_and_answer_is_never_empty() {
    let records = vec![
        plain("a", 1, TransportProtocol::Tcp, "first"),
        plain("b", 2, TransportProtocol::Tcp, ""),
        plain("a", 1, TransportProtocol::Udp, "second"),
        plain("", 3, TransportProtocol::Udp, ""),
    ];
    assert_eq!(
        select_port(&records, 1),
        vec![plain("a", 1, TransportProtocol::Tcp, "first"), plain("a", 1, TransportProtocol::Udp, "second")]
    );
    assert_eq!(select_port(&records, 9), Vec::new());
    assert_eq!(select_name(&records, "b"), vec![plain("b", 2, TransportProtocol::Tcp, "")]);
    assert_eq!(select_name(&records, ""), vec![plain("", 3, TransportProtocol::Udp, "")]);
    assert_eq!(answer(Vec::new()), None);
    assert_eq!(answer(select_port(&records, 2)), Some(vec![plain("b", 2, TransportProtocol::Tcp, "")]));
}

#[test]
fn registry_of_a_long_feed_answers_for_every_port() {
    let mut rows = Vec::new();
    for port in 0..20000u32 {
        for (name, protocol) in [("zeta", "udp"), ("alpha", "tcp"), ("", "tcp"), ("alpha", "udp")] {
            rows.push(row(&[name, &port.to_string(), protocol, "d"]));
        }
    }
    let registry = Registry::build(&rows);
    assert_eq!(registry.len(), 80000);
    for port in [0u16, 1, 9999, 19999] {
        assert_eq!(
            names_and_protocols(&lookup_by_port_impl(&registry, port).unwrap()),
            vec![
                ("".to_string(), port, TransportProtocol::Tcp),
                ("alpha".to_string(), port, TransportProtocol::Tcp),
                ("alpha".to_string(), port, TransportProtocol::Udp),
                ("zeta".to_string(), port, TransportProtocol::Udp),
            ]
        );
    }
    assert_eq!(lookup_by_port_impl(&registry, 20000), None);
    let alphas = lookup_by_name_impl(&registry, "alpha").unwrap();
    assert_eq!(alphas.len(), 40000);
    assert!(alphas.windows(2).all(|w| w[0].port <= w[1].port));
    assert_eq!(lookup_by_name_impl(&registry, "zeta").unwrap().len(), 20000);
}
