use achilles::drill::{
    after_n, all_unprivileged, best_hostname, bracket_all, clone_names, copy_ports, count_levels,
    count_open, debug_filter, even_indexed, expand_subnets, find_ip, find_port_index,
    find_service, first_critical, first_n, format_command, greet, group_ports, has_hostname,
    has_privileged, highest_port, htb_only, join_hostnames, label_ports, lookup_hosts,
    lookup_service, lowest_port, numbered_lines, open_services, pair_hosts, parse_ports,
    passing_labels, privileged_ports, recon_summary, summary, total_ports, unique_targets,
    uppercase_all, word_stats, ReconData, Target,
};
use achilles::tally::tally_get;

fn strings(items: &[&str]) -> Vec<String> {
    items.iter().map(|s| s.to_string()).collect()
}

#[test]
fn labels_and_filters() {
    assert_eq!(label_ports(&[80, 443, 8080]), strings(&["port:80", "port:443", "port:8080"]));
    assert_eq!(privileged_ports(&[20, 80, 3306, 443, 8080, 9090]), vec![20, 80, 443]);
    assert_eq!(passing_labels(&[85, 42, 91, 67, 73, 55]), strings(&["PASS:85", "PASS:91", "PASS:73"]));
    assert_eq!(passing_labels(&[70, 69, -5]), strings(&["PASS:70"]));
    assert_eq!(parse_ports(&["80", "abc", "443", "", "8080", "99999"]), vec![80, 443, 8080]);
}

#[test]
fn subnets_and_joins() {
    assert_eq!(
        expand_subnets(&["10.0.0", "192.168.1"]),
        strings(&["10.0.0.1", "10.0.0.2", "10.0.0.3", "192.168.1.1", "192.168.1.2", "192.168.1.3"])
    );
    assert_eq!(join_hostnames(&["web.htb", "db.htb", "mail.htb"]), "web.htb, db.htb, mail.htb");
    assert_eq!(join_hostnames(&[]), "");
    // an empty first name leaves the text empty, so no separator follows it
    assert_eq!(join_hostnames(&["", "db.htb", "", "x"]), "db.htb, , x");
}

#[test]
fn level_counts() {
    let counts = count_levels(&["INFO", "ERROR", "INFO", "WARN", "ERROR", "INFO"]);
    assert_eq!(counts.len(), 3);
    assert_eq!(tally_get(&counts, "INFO"), 3);
    assert_eq!(tally_get(&counts, "ERROR"), 2);
    assert_eq!(tally_get(&counts, "WARN"), 1);
    let total: usize = counts.iter().map(|(_, c)| *c).sum();
    assert_eq!(total, 6);
}

#[test]
fn greetings_and_commands() {
    assert_eq!(greet(Some("phantom")), "Hello, PHANTOM!");
    assert_eq!(greet(None), "Hello, stranger!");
    assert_eq!(format_command(Some("scan")), "CMD:SCAN");
    assert_eq!(format_command(None), "CMD:NOP");
}

#[test]
fn lookups() {
    assert_eq!(find_ip("web.htb"), Some("10.0.0.1".to_string()));
    assert_eq!(find_ip("db.htb"), Some("10.0.0.2".to_string()));
    assert_eq!(find_ip("mail.htb"), None);
    assert_eq!(find_service("10.0.0.1"), Some("http".to_string()));
    assert_eq!(find_service("10.0.0.2"), None);
    assert_eq!(lookup_service("web.htb"), Some("http".to_string()));
    assert_eq!(lookup_service("db.htb"), None);
    assert_eq!(lookup_service("nowhere"), None);
}

#[test]
fn unique_and_indexed() {
    assert_eq!(
        unique_targets(&["10.0.0.1", "10.0.0.2"], &["10.0.0.2", "10.0.0.3"]),
        strings(&["10.0.0.1", "10.0.0.2", "10.0.0.3"])
    );
    assert_eq!(even_indexed(&["a", "b", "c", "d", "e"]), vec!["a", "c", "e"]);
    assert_eq!(even_indexed(&[]), Vec::<&str>::new());
}

#[test]
fn services_and_groups() {
    assert_eq!(
        open_services(&["10.0.0.1:80:OPEN", "10.0.0.2:22:CLOSED", "10.0.0.1:443:OPEN", "10.0.0.3:8080:OPEN"]),
        strings(&["10.0.0.1:80", "10.0.0.1:443", "10.0.0.3:8080"])
    );
    let groups = group_ports(&[("web.htb", 80), ("db.htb", 3306), ("web.htb", 443), ("web.htb", 80), ("db.htb", 5432)]);
    assert_eq!(groups.len(), 2);
    let web = groups.iter().find(|(h, _)| h == "web.htb").unwrap();
    let db = groups.iter().find(|(h, _)| h == "db.htb").unwrap();
    assert_eq!(web.1, vec![80, 443]);
    assert_eq!(db.1, vec![3306, 5432]);
}

#[test]
fn target_summaries() {
    let t = |ip: &str, h: Option<&str>, os: Option<&str>| Target {
        ip: ip.to_string(),
        hostname: h.map(|s| s.to_string()),
        os: os.map(|s| s.to_string()),
    };
    assert_eq!(summary(&t("1.1.1.1", Some("web"), Some("Linux"))), "1.1.1.1 (web) [Linux]");
    assert_eq!(summary(&t("2.2.2.2", None, Some("Windows"))), "2.2.2.2 [Windows]");
    assert_eq!(summary(&t("3.3.3.3", Some("db"), None)), "3.3.3.3 (db)");
    assert_eq!(summary(&t("1.1.1.1", None, None)), "1.1.1.1");
}

#[test]
fn privilege_checks_are_complementary() {
    let a = [20, 80, 3306, 8080];
    let b = [3306, 8080, 9090];
    assert!(has_privileged(&a));
    assert!(!all_unprivileged(&a));
    assert!(!has_privileged(&b));
    assert!(all_unprivileged(&b));
    assert!(!has_privileged(&[]));
    assert!(all_unprivileged(&[]));
    for ports in [&a[..], &b[..], &[][..], &[1023][..], &[1024][..]] {
        assert_eq!(has_privileged(ports), !all_unprivileged(ports));
    }
}

#[test]
fn criticals_and_open_counts() {
    assert_eq!(first_critical(&[("XSS", "High"), ("SQLi", "Critical"), ("IDOR", "Critical")]), Some("SQLi"));
    assert_eq!(first_critical(&[("Missing Headers", "Low"), ("Verbose Errors", "Medium")]), None);
    assert_eq!(count_open(&[("http", true), ("ssh", false), ("https", true), ("ftp", false)]), 2);
}

#[test]
fn first_and_after() {
    let hosts = ["a.htb", "b.htb", "c.htb", "d.htb", "e.htb"];
    assert_eq!(first_n(&hosts, 3), vec!["a.htb", "b.htb", "c.htb"]);
    assert_eq!(after_n(&hosts, 3), vec!["d.htb", "e.htb"]);
    assert_eq!(first_n(&hosts, 9), hosts.to_vec());
    assert_eq!(after_n(&hosts, 9), Vec::<&str>::new());
    for n in 0..7 {
        let mut joined = first_n(&hosts, n);
        joined.extend(after_n(&hosts, n));
        assert_eq!(joined, hosts.to_vec());
    }
}

#[test]
fn port_arithmetic() {
    let ports = [80, 443, 22, 8080];
    assert_eq!(total_ports(&ports), 8625);
    assert_eq!(lowest_port(&ports), Some(22));
    assert_eq!(highest_port(&ports), Some(8080));
    assert_eq!(total_ports(&[]), 0);
    assert_eq!(lowest_port(&[]), None);
    assert_eq!(highest_port(&[]), None);
    assert_eq!(find_port_index(&ports, 443), Some(1));
    assert_eq!(find_port_index(&ports, 9090), None);
    assert_eq!(find_port_index(&[7, 7], 7), Some(0));
    assert_eq!(copy_ports(&ports), ports.to_vec());
}

#[test]
fn pairs_and_lines() {
    assert_eq!(
        pair_hosts(&["web", "db", "mail"], &["10.0.0.1", "10.0.0.2", "10.0.0.3"]),
        strings(&["web -> 10.0.0.1", "db -> 10.0.0.2", "mail -> 10.0.0.3"])
    );
    assert_eq!(pair_hosts(&["web", "db"], &["10.0.0.1"]), strings(&["web -> 10.0.0.1"]));
    assert_eq!(
        numbered_lines(&["web.htb", "db.htb", "mail.htb"]),
        strings(&["\t[1] web.htb", "\t[2] db.htb", "\t[3] mail.htb"])
    );
    let names = strings(&["Phantom", "Loves", "Hacking"]);
    assert_eq!(clone_names(&names), names);
}

#[test]
fn filter_trace_and_partition() {
    let (trace, kept) = debug_filter(&[22, 80, 3306, 8080]);
    assert_eq!(kept, vec![3306, 8080]);
    assert_eq!(
        trace,
        strings(&[
            " checking port: 22",
            " checking port: 80",
            " checking port: 3306",
            " kept port: 3306",
            " checking port: 8080",
            " kept port: 8080",
        ])
    );
    let ports = [22, 80, 3306, 8080, 1023, 1024];
    assert_eq!(privileged_ports(&ports).len() + debug_filter(&ports).1.len(), ports.len());
}

#[test]
fn host_table_lookups() {
    let dns = vec![
        ("10.0.0.1".to_string(), "web.htb".to_string()),
        ("10.0.0.2".to_string(), "db.htb".to_string()),
    ];
    assert_eq!(
        lookup_hosts(&dns, &["10.0.0.1", "10.0.0.3", "10.0.0.2"]),
        strings(&["10.0.0.1 -> web.htb", "10.0.0.3 -> NOT FOUND", "10.0.0.2 -> db.htb"])
    );
}

#[test]
fn word_statistics() {
    let stats = word_stats(&["scan", "report", "scan", "alert", "scan"]);
    assert_eq!(stats.len(), 3);
    let get = |w: &str| stats.iter().find(|(k, _)| k == w).unwrap().1;
    assert_eq!(get("scan"), (3, 4));
    assert_eq!(get("report"), (1, 1));
    assert_eq!(get("alert"), (1, 3));
}

#[test]
fn optional_host_names() {
    assert!(has_hostname(&Some("web.htb".to_string())));
    assert!(!has_hostname(&None));
    assert_eq!(best_hostname(Some("web.htb"), Some("backup.htb")), Some("web.htb".to_string()));
    assert_eq!(best_hostname(None, Some("backup.htb")), Some("backup.htb".to_string()));
    assert_eq!(best_hostname(None, None), None);
    assert_eq!(htb_only(Some("web.htb")), Some("web.htb"));
    assert_eq!(htb_only(Some("google.com")), None);
    assert_eq!(htb_only(None), None);
}

#[test]
fn borrowed_and_transformed_names() {
    let hosts = strings(&["web.htb", "db.htb", "mail.htb"]);
    assert_eq!(uppercase_all(&hosts), strings(&["WEB.HTB", "DB.HTB", "MAIL.HTB"]));
    assert_eq!(bracket_all(hosts), strings(&["[web.htb]", "[db.htb]", "[mail.htb]"]));
}

#[test]
fn recon_report() {
    let data = ReconData {
        hosts: strings(&["10.0.0.1", "10.0.0.2", "10.0.0.1"]),
        ports: vec![
            ("10.0.0.1".into(), 22, true),
            ("10.0.0.1".into(), 80, true),
            ("10.0.0.1".into(), 443, true),
            ("10.0.0.2".into(), 3306, false),
        ],
        findings: vec![
            ("XSS Reflected".into(), "High".into()),
            ("SQL Injection".into(), "Critical".into()),
            ("Missing Headers".into(), "Low".into()),
            ("Open Redirect".into(), "High".into()),
        ],
    };
    assert_eq!(
        recon_summary(&data),
        "=== Recon Summary ===\nHosts: 3 total, 2 unique\nOpen ports: 22, 80, 443 (3 total)\nHighest open port: 443\nFindings: 4 total\n\tCritical: 1\n\tHigh: 2\n\tLow: 1\nHas critical findings: YES\nFirst critical: SQL Injection"
    );
    let empty = ReconData { hosts: vec![], ports: vec![], findings: vec![] };
    assert_eq!(
        recon_summary(&empty),
        "=== Recon Summary ===\nHosts: 0 total, 0 unique\nOpen ports:  (0 total)\nHighest open port: 0\nFindings: 0 total\n\tCritical: 0\n\tHigh: 0\n\tLow: 0\nHas critical findings: NO\nFirst critical: None"
    );
}
