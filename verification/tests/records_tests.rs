use achilles::hosts::{clean_hostnames, group_by_ip, Host as SeenHost};
use achilles::merge::{generate_report, merge_hosts, Host as MergeHost};
use achilles::options::{display_target, get_os_label, service_description, short_label, ScanResult};
use achilles::ports::{add_common_ports, configure_aggressive, sort_and_return, ScanConfig};

fn strings(items: &[&str]) -> Vec<String> {
    items.iter().map(|s| s.to_string()).collect()
}

#[test]
fn cleans_host_names() {
    let hosts = strings(&[
        "target.htb",
        "admin.target.htb",
        "target.htb",
        "mail.target.htb",
        "admin.target.htb",
        "dev.target.htb",
        "mail.target.htb",
    ]);
    assert_eq!(
        clean_hostnames(hosts),
        strings(&["admin.target.htb", "dev.target.htb", "mail.target.htb", "target.htb"])
    );
    assert_eq!(clean_hostnames(strings(&["Target.HTB", "target.htb", "DEV.htb"])), strings(&["dev.htb", "target.htb"]));
    assert_eq!(clean_hostnames(vec![]), Vec::<String>::new());
}

fn seen(ip: &str, hostname: Option<&str>, source: &str) -> SeenHost {
    SeenHost { ip: ip.to_string(), hostname: hostname.map(|s| s.to_string()), source: source.to_string() }
}

#[test]
fn groups_hosts_by_address() {
    let hosts = vec![
        seen("10.0.0.1", Some("web.target.htb"), "subfinder"),
        seen("10.0.0.2", None, "nmap"),
        seen("10.0.0.1", None, "nmap"),
        seen("10.0.0.3", Some("db.target.htb"), "subfinder"),
        seen("10.0.0.2", Some("api.target.htb"), "subfinder"),
    ];
    let groups = group_by_ip(hosts);
    assert_eq!(groups.len(), 3);
    let total: usize = groups.iter().map(|(_, g)| g.len()).sum();
    assert_eq!(total, 5);
    let one = &groups.iter().find(|(ip, _)| ip == "10.0.0.1").unwrap().1;
    assert_eq!(one.len(), 2);
    assert_eq!(one[0].hostname.as_deref(), Some("web.target.htb"));
    assert_eq!(one[1].source, "nmap");
    let two = &groups.iter().find(|(ip, _)| ip == "10.0.0.2").unwrap().1;
    assert_eq!(two[0].source, "nmap");
    assert_eq!(two[1].hostname.as_deref(), Some("api.target.htb"));
    for (ip, members) in &groups {
        assert!(members.iter().all(|h| &h.ip == ip));
    }
}

fn record(ip: &str, hostname: Option<&str>, ports: Vec<u16>, source: &str) -> MergeHost {
    MergeHost {
        ip: ip.to_string(),
        hostname: hostname.map(|s| s.to_string()),
        ports,
        source: source.to_string(),
    }
}

#[test]
fn merges_records_per_address() {
    let all = vec![
        record("10.0.0.1", None, vec![22, 80, 443], "nmap"),
        record("10.0.0.2", None, vec![80, 8080], "nmap"),
        record("10.0.0.1", Some("web.target.htb"), vec![], "subfinder"),
        record("10.0.0.3", Some("db.target.htb"), vec![], "subfinder"),
    ];
    let mut merged = merge_hosts(all);
    assert_eq!(merged.len(), 3);
    merged.sort_by(|a, b| a.ip.cmp(&b.ip));
    assert_eq!(merged[0].ip, "10.0.0.1");
    assert_eq!(merged[0].hostname.as_deref(), Some("web.target.htb"));
    assert_eq!(merged[0].ports, vec![22, 80, 443]);
    assert_eq!(merged[0].source, "merged (nmap, subfinder)");
    assert_eq!(merged[1].hostname, None);
    assert_eq!(merged[1].ports, vec![80, 8080]);
    assert_eq!(merged[1].source, "nmap");
    assert_eq!(merged[2].ports, Vec::<u16>::new());
    assert_eq!(merged[2].source, "subfinder");
    let report = generate_report(&merged);
    assert_eq!(
        report,
        "\n[10.0.0.1] web.target.htb\n\tPorts: 22, 80, 443\n\tSource: merged (nmap, subfinder)\n\
         \n[10.0.0.2] \n\tPorts: 80, 8080\n\tSource: nmap\n\
         \n[10.0.0.3] db.target.htb\n\tPorts: (none)\n\tSource: subfinder\n"
    );
}

#[test]
fn merge_keeps_first_name_and_sorted_tools() {
    let all = vec![
        record("10.0.0.9", None, vec![443, 22], "zmap"),
        record("10.0.0.9", Some("first.htb"), vec![22], "nmap"),
        record("10.0.0.9", Some("second.htb"), vec![80], "nmap"),
    ];
    let merged = merge_hosts(all);
    assert_eq!(merged.len(), 1);
    assert_eq!(merged[0].hostname.as_deref(), Some("first.htb"));
    assert_eq!(merged[0].ports, vec![22, 80, 443]);
    assert_eq!(merged[0].source, "merged (nmap, zmap)");
    assert_eq!(merge_hosts(vec![]).len(), 0);
    assert_eq!(generate_report(&[]), "");
}

fn scan(ip: &str, host: Option<&str>, os: Option<&str>, service: Option<&str>) -> ScanResult {
    ScanResult {
        ip: ip.to_string(),
        hostname: host.map(|s| s.to_string()),
        os: os.map(|s| s.to_string()),
        service: service.map(|s| s.to_string()),
    }
}

#[test]
fn option_labels() {
    let t1 = scan("10.0.0.1", Some("web.target.htb"), Some("linux 5.4"), Some("http"));
    let t2 = scan("10.0.0.2", None, None, None);
    assert_eq!(display_target(&t1), "web.target.htb (10.0.0.1)");
    assert_eq!(display_target(&t2), "10.0.0.2");
    assert_eq!(get_os_label(&t1), "LINUX 5.4");
    assert_eq!(get_os_label(&t2), "Unknown OS");
    assert_eq!(service_description(&t1), "http on 10.0.0.1");
    assert_eq!(service_description(&t2), "no service on 10.0.0.2");
    assert_eq!(short_label(&t1), "WEB.TARGET");
    assert_eq!(short_label(&t2), "UNKNOWN");
    assert_eq!(short_label(&scan("x", Some("db"), None, None)), "DB");
}

#[test]
fn common_ports_are_added_once() {
    let mut ports = vec![22, 80, 443];
    add_common_ports(&mut ports);
    assert_eq!(ports, vec![22, 80, 443, 8080, 8443, 3000, 3306]);
    let once = ports.clone();
    add_common_ports(&mut ports);
    assert_eq!(ports, once);
    let mut some = vec![3306, 8080];
    add_common_ports(&mut some);
    assert_eq!(some, vec![3306, 8080, 8443, 3000]);
}

#[test]
fn aggressive_configuration() {
    let mut config = ScanConfig { target: "10.10.10.100".to_string(), ports: vec![22, 80], timeout_secs: 30 };
    configure_aggressive(&mut config);
    assert_eq!(config.target, "10.10.10.100");
    assert_eq!(
        config.ports,
        vec![1, 21, 22, 23, 25, 53, 80, 110, 135, 139, 143, 443, 445, 993, 995, 1723, 3306, 3389, 5432, 5900, 8080, 8443]
    );
    assert_eq!(config.timeout_secs, 10);
}

#[test]
fn sorts_and_returns() {
    let mut data = vec![1, 5, 3, 8, 2];
    let sorted = sort_and_return(&mut data).clone();
    assert_eq!(sorted, vec![1, 2, 3, 5, 8]);
    assert_eq!(data, vec![1, 2, 3, 5, 8]);
}

#[test]
fn report_of_joined_lists_is_joined_reports() {
    let a = vec![MergeHost { ip: "10.0.0.1".into(), hostname: Some("dc01".into()), ports: vec![22, 445], source: "nmap".into() }];
    let b = vec![
        MergeHost { ip: "10.0.0.2".into(), hostname: None, ports: vec![], source: "masscan".into() },
        MergeHost { ip: "10.0.0.3".into(), hostname: None, ports: vec![80], source: "merged (masscan, nmap)".into() },
    ];
    let joined_report = generate_report(&[
        MergeHost { ip: "10.0.0.1".into(), hostname: Some("dc01".into()), ports: vec![22, 445], source: "nmap".into() },
        MergeHost { ip: "10.0.0.2".into(), hostname: None, ports: vec![], source: "masscan".into() },
        MergeHost { ip: "10.0.0.3".into(), hostname: None, ports: vec![80], source: "merged (masscan, nmap)".into() },
    ]);
    assert_eq!(joined_report, generate_report(&a) + &generate_report(&b));
    assert_eq!(
        generate_report(&b),
        "\n[10.0.0.2] \n\tPorts: (none)\n\tSource: masscan\n\n[10.0.0.3] \n\tPorts: 80\n\tSource: merged (masscan, nmap)\n"
    );
}
