//! The data contract preview: hosts, ports and findings, described in text
//! and counted by kind.
use vstd::prelude::*;
use crate::text::decimal;

verus! {

broadcast use vstd::seq_lib::group_seq_properties;

/// A host: its address and, if known, its name.
#[derive(Debug)]
pub struct Host {
    pub ip: String,
    pub hostname: Option<String>,
}

/// A port with its protocol and state.
#[derive(Debug)]
pub struct Port {
    pub number: u16,
    pub protocol: String,
    pub state: String,
}

/// A finding on a host.
#[derive(Debug)]
pub struct Finding {
    pub title: String,
    pub severity: String,
    pub host_ip: String,
}

/// One object of the data contract.
#[derive(Debug)]
pub enum ADCObject {
    Host(Host),
    Port(Port),
    Finding(Finding),
}

/// The text that describes an object.
pub open spec fn description_of(o: ADCObject) -> Seq<char> {
    match o {
        ADCObject::Host(h) => "Target details: ip/host -> "@ + h.ip@ + " ("@ + (match h.hostname {
            Some(n) => n@,
            None => "Unknown"@,
        }) + ")"@,
        ADCObject::Port(p) => "Port details:\n\tPort Number: "@ + decimal(p.number as nat)
            + "\n\tProtocol: "@ + p.protocol@ + "\n\tState: "@ + p.state@,
        ADCObject::Finding(f) => "Findings: "@ + f.title@ + "\n\tSeverity level: "@ + f.severity@
            + "\n\tHost IP: "@ + f.host_ip@,
    }
}

impl ADCObject {
    /// Describes the object in text.
    pub fn describe(&self) -> (r: String)
        ensures
            r@ == description_of(*self),
    {
        match self {
            ADCObject::Host(h) => {
                let mut r = "Target details: ip/host -> ".to_owned();
                r.append(h.ip.as_str());
                r.append(" (");
                match &h.hostname {
                    Some(n) => r.append(n.as_str()),
                    None => r.append("Unknown"),
                }
                r.append(")");
                r
            },
            ADCObject::Port(p) => {
                let mut r = "Port details:\n\tPort Number: ".to_owned();
                crate::text::push_decimal(&mut r, p.number as u64);
                r.append("\n\tProtocol: ");
                r.append(p.protocol.as_str());
                r.append("\n\tState: ");
                r.append(p.state.as_str());
                r
            },
            ADCObject::Finding(f) => {
                let mut r = "Findings: ".to_owned();
                r.append(f.title.as_str());
                r.append("\n\tSeverity level: ");
                r.append(f.severity.as_str());
                r.append("\n\tHost IP: ");
                r.append(f.host_ip.as_str());
                r
            },
        }
    }
}

/// The number of hosts among the objects.
pub open spec fn host_count(objects: Seq<ADCObject>) -> nat {
    objects.filter(|o: ADCObject| o is Host).len()
}

/// The number of ports among the objects.
pub open spec fn port_count(objects: Seq<ADCObject>) -> nat {
    objects.filter(|o: ADCObject| o is Port).len()
}

/// The number of findings among the objects.
pub open spec fn finding_count(objects: Seq<ADCObject>) -> nat {
    objects.filter(|o: ADCObject| o is Finding).len()
}

/// Counts the objects of each kind: hosts, ports and findings.
pub fn count_kinds(objects: &[ADCObject]) -> (r: (usize, usize, usize))
    ensures
        r.0 == host_count(objects@),
        r.1 == port_count(objects@),
        r.2 == finding_count(objects@),
{
    let mut hosts: usize = 0;
    let mut ports: usize = 0;
    let mut findings: usize = 0;
    let n = objects.len();
    let mut i: usize = 0;
    while i < n
        invariant
            i <= n,
            n == objects@.len(),
            hosts == host_count(objects@.take(i as int)),
            ports == port_count(objects@.take(i as int)),
            findings == finding_count(objects@.take(i as int)),
            hosts + ports + findings == i,
        decreases n - i,
    {
        let ghost pre = objects@.take(i as int);
        let o = &objects[i];
        proof {
            pre.lemma_filter_push(*o, |o: ADCObject| o is Host);
            pre.lemma_filter_push(*o, |o: ADCObject| o is Port);
            pre.lemma_filter_push(*o, |o: ADCObject| o is Finding);
            assert(objects@.take(i + 1) =~= pre.push(*o));
        }
        match o {
            ADCObject::Host(_) => hosts = hosts + 1,
            ADCObject::Port(_) => ports = ports + 1,
            ADCObject::Finding(_) => findings = findings + 1,
        }
        i = i + 1;
    }
    assert(objects@.take(n as int) =~= objects@);
    (hosts, ports, findings)
}

/// The line that reports how many objects of each kind there are.
pub fn process_objects(objects: &[ADCObject]) -> (r: String)
    ensures
        r@ == "Hosts: "@ + decimal(host_count(objects@)) + ", Ports: "@ + decimal(port_count(objects@))
            + ", Findings: "@ + decimal(finding_count(objects@)),
{
    let (hosts, ports, findings) = count_kinds(objects);
    let mut r = "Hosts: ".to_owned();
    crate::text::push_decimal(&mut r, hosts as u64);
    r.append(", Ports: ");
    crate::text::push_decimal(&mut r, ports as u64);
    r.append(", Findings: ");
    crate::text::push_decimal(&mut r, findings as u64);
    r
}

} // verus!
