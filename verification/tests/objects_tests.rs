use achilles::inventory::{
    count_by_severity, extract_hosts, open_targets, ports_above, unique_ips, ADCObject, Finding,
    Host, Port,
};
use achilles::preview;
use achilles::tally::tally_get;

fn inventory() -> Vec<ADCObject> {
    let host = |ip: &str, name: Option<&str>| ADCObject::Host(Host { ip: ip.into(), hostname: name.map(|s| s.into()) });
    let port = |n: u16, state: &str, ip: &str| {
        ADCObject::Port(Port { number: n, protocol: "tcp".into(), state: state.into(), host_ip: ip.into() })
    };
    let finding = |t: &str, s: &str, ip: &str| ADCObject::Finding(Finding { title: t.into(), severity: s.into(), host_ip: ip.into() });
    vec![
        host("10.0.0.1", Some("web.target.htb")),
        host("10.0.0.2", None),
        host("10.0.0.1", Some("admin.target.htb")),
        port(80, "OPEN", "10.0.0.1"),
        port(443, "OPEN", "10.0.0.1"),
        port(22, "CLOSED", "10.0.0.2"),
        port(3306, "OPEN", "10.0.0.2"),
        finding("XSS Reflected", "High", "10.0.0.1"),
        finding("SQL Injection", "Critical", "10.0.0.1"),
        finding("Missing Headers", "Low", "10.0.0.2"),
        finding("Open Redirect", "High", "10.0.0.1"),
    ]
}

#[test]
fn inventory_queries() {
    let objects = inventory();
    let hosts = extract_hosts(&objects);
    assert_eq!(hosts.len(), 3);
    assert_eq!(hosts[2].hostname.as_deref(), Some("admin.target.htb"));
    let mut ips = unique_ips(&objects);
    ips.sort();
    assert_eq!(ips, vec!["10.0.0.1".to_string(), "10.0.0.2".to_string()]);
    let severities = count_by_severity(&objects);
    assert_eq!(severities.len(), 3);
    assert_eq!(tally_get(&severities, "High"), 2);
    assert_eq!(tally_get(&severities, "Critical"), 1);
    assert_eq!(tally_get(&severities, "Low"), 1);
    let above: Vec<u16> = ports_above(&objects, 100).iter().map(|p| p.number).collect();
    assert_eq!(above, vec![443, 3306]);
    assert_eq!(
        open_targets(&objects),
        vec!["10.0.0.1:80".to_string(), "10.0.0.1:443".to_string(), "10.0.0.2:3306".to_string()]
    );
}

#[test]
fn preview_descriptions_and_counts() {
    let objects = vec![
        preview::ADCObject::Host(preview::Host { ip: "192.168.12.4".into(), hostname: None }),
        preview::ADCObject::Host(preview::Host { ip: "10.255.155.81".into(), hostname: Some("HellFire - Phoenix".into()) }),
        preview::ADCObject::Port(preview::Port { number: 80, protocol: "http".into(), state: "OPEN".into() }),
        preview::ADCObject::Port(preview::Port { number: 8080, protocol: "https".into(), state: "CLOSED".into() }),
        preview::ADCObject::Port(preview::Port { number: 22, protocol: "ssh".into(), state: "FILTERED".into() }),
        preview::ADCObject::Finding(preview::Finding {
            title: "nmap scan".into(),
            severity: "LOW".into(),
            host_ip: "10.255.155.81".into(),
        }),
    ];
    assert_eq!(preview::process_objects(&objects), "Hosts: 2, Ports: 3, Findings: 1");
    assert_eq!(preview::count_kinds(&objects), (2, 3, 1));
    assert_eq!(objects[0].describe(), "Target details: ip/host -> 192.168.12.4 (Unknown)");
    assert_eq!(objects[1].describe(), "Target details: ip/host -> 10.255.155.81 (HellFire - Phoenix)");
    assert_eq!(objects[2].describe(), "Port details:\n\tPort Number: 80\n\tProtocol: http\n\tState: OPEN");
    assert_eq!(
        objects[5].describe(),
        "Findings: nmap scan\n\tSeverity level: LOW\n\tHost IP: 10.255.155.81"
    );
    assert_eq!(preview::process_objects(&[]), "Hosts: 0, Ports: 0, Findings: 0");
}
