//! Queries over a mixed inventory of hosts, ports and findings.
use vstd::prelude::*;
use crate::text::{decimal, views};
use crate::tally::is_tally_of;

verus! {

broadcast use vstd::seq_lib::group_seq_properties;

/// A host: its address and, if known, its name.
#[derive(Debug)]
pub struct Host {
    pub ip: String,
    pub hostname: Option<String>,
}

/// A port observed on a host.
#[derive(Debug)]
pub struct Port {
    pub number: u16,
    pub protocol: String,
    pub state: String,
    pub host_ip: String,
}

/// A finding on a host.
#[derive(Debug)]
pub struct Finding {
    pub title: String,
    pub severity: String,
    pub host_ip: String,
}

/// One inventory entry.
#[derive(Debug)]
pub enum ADCObject {
    Host(Host),
    Port(Port),
    Finding(Finding),
}

/// The host of an entry, if it is one.
pub open spec fn host_of(o: ADCObject) -> Option<Host> {
    match o {
        ADCObject::Host(h) => Some(h),
        _ => None,
    }
}

/// The open targets of an inventory, in order.
pub open spec fn open_targets_in(objects: Seq<ADCObject>) -> Seq<Seq<char>> {
    objects.filter_map(|o: ADCObject| open_target_of(o))
}

/// The hosts of an inventory, in order.
pub open spec fn hosts_in(objects: Seq<ADCObject>) -> Seq<Host> {
    objects.filter_map(|o: ADCObject| host_of(o))
}

/// The severity of an entry, if it is a finding.
pub open spec fn severity_of(o: ADCObject) -> Option<Seq<char>> {
    match o {
        ADCObject::Finding(f) => Some(f.severity@),
        _ => None,
    }
}

/// The port of an entry, if it is one above a threshold.
pub open spec fn port_above(o: ADCObject, threshold: u16) -> Option<Port> {
    match o {
        ADCObject::Port(p) => if p.number > threshold {
            Some(p)
        } else {
            None
        },
        _ => None,
    }
}

/// `address:port` of an entry, if it is a port in state `OPEN`.
pub open spec fn open_target_of(o: ADCObject) -> Option<Seq<char>> {
    match o {
        ADCObject::Port(p) => if p.state@ == "OPEN"@ {
            Some(p.host_ip@ + ":"@ + decimal(p.number as nat))
        } else {
            None
        },
        _ => None,
    }
}

/// The open targets of an inventory are exactly its ports in state `OPEN`,
/// each written as `address:port`: every target comes from such a port, and
/// every such port gives a target.
pub proof fn lemma_open_targets_are_open_ports(objects: Seq<ADCObject>)
    ensures
        forall|t: Seq<char>|
            #[trigger] open_targets_in(objects).contains(t) ==> exists|j: int|
                #![trigger objects[j]]
                0 <= j < objects.len() && (objects[j] matches ADCObject::Port(p) && p.state@ == "OPEN"@
                    && t == p.host_ip@ + ":"@ + decimal(p.number as nat)),
        forall|j: int|
            #![trigger objects[j]]
            0 <= j < objects.len() ==> (objects[j] matches ADCObject::Port(p) ==> (p.state@ == "OPEN"@
                ==> open_targets_in(objects).contains(
                p.host_ip@ + ":"@ + decimal(p.number as nat),
            ))),
    decreases objects.len(),
{
    let f = |o: ADCObject| open_target_of(o);
    if objects.len() > 0 {
        let rest = objects.drop_last();
        lemma_open_targets_are_open_ports(rest);
        let last = objects.last();
        let n = objects.len() - 1;
        assert(objects[n] == last);
        let before = open_targets_in(rest);
        let after = open_targets_in(objects);
        assert(after == match f(last) {
            Some(x) => before + seq![x],
            None => before,
        });
        assert forall|t: Seq<char>| #[trigger] after.contains(t) implies exists|j: int|
            #![trigger objects[j]]
            0 <= j < objects.len() && (objects[j] matches ADCObject::Port(p) && p.state@ == "OPEN"@ && t
                == p.host_ip@ + ":"@ + decimal(p.number as nat)) by {
            let k = choose|k: int| 0 <= k < after.len() && after[k] == t;
            if k < before.len() {
                assert(after[k] == before[k]);
                assert(before.contains(t));
                let j = choose|j: int|
                    #![trigger rest[j]]
                    0 <= j < rest.len() && (rest[j] matches ADCObject::Port(p) && p.state@ == "OPEN"@ && t
                        == p.host_ip@ + ":"@ + decimal(p.number as nat));
                assert(objects[j] == rest[j]);
            } else {
                assert(objects[n] == last);
            }
        }
        assert forall|j: int|
            #![trigger objects[j]]
            0 <= j < objects.len() implies (objects[j] matches ADCObject::Port(p) ==> (p.state@ == "OPEN"@
                ==> after.contains(p.host_ip@ + ":"@ + decimal(p.number as nat)))) by {
            if j < rest.len() {
                assert(objects[j] == rest[j]);
                if let ADCObject::Port(p) = objects[j] {
                    if p.state@ == "OPEN"@ {
                        let x = p.host_ip@ + ":"@ + decimal(p.number as nat);
                        assert(before.contains(x));
                        let k = choose|k: int| 0 <= k < before.len() && before[k] == x;
                        assert(after[k] == before[k]);
                    }
                }
            } else {
                if let ADCObject::Port(p) = objects[j] {
                    if p.state@ == "OPEN"@ {
                        assert(after[after.len() - 1] == p.host_ip@ + ":"@ + decimal(p.number as nat));
                    }
                }
            }
        }
    }
}

/// The hosts of the inventory, in order.
pub fn extract_hosts<'a>(objects: &'a [ADCObject]) -> (r: Vec<&'a Host>)
    ensures
        r@.map_values(|h: &Host| *h) == hosts_in(objects@),
{
    let mut r: Vec<&'a Host> = Vec::new();
    let n = objects.len();
    let mut i: usize = 0;
    while i < n
        invariant
            i <= n,
            n == objects@.len(),
            r@.map_values(|h: &Host| *h) == hosts_in(objects@.take(i as int)),
        decreases n - i,
    {
        let ghost post = objects@.take(i + 1);
        assert(post.drop_last() =~= objects@.take(i as int));
        assert(post.last() == objects@[i as int]);
        let ghost before = r@.map_values(|h: &Host| *h);
        match &objects[i] {
            ADCObject::Host(h) => {
                r.push(h);
                assert(r@.map_values(|h: &Host| *h) =~= before + seq![*h]);
            },
            _ => {},
        }
        i = i + 1;
    }
    assert(objects@.take(n as int) =~= objects@);
    r
}

/// The addresses of the hosts.
fn host_addresses(objects: &[ADCObject]) -> (r: Vec<String>)
    ensures
        views(r@) == hosts_in(objects@).map_values(|h: Host| h.ip@),
{
    let mut r: Vec<String> = Vec::new();
    let n = objects.len();
    let mut i: usize = 0;
    while i < n
        invariant
            i <= n,
            n == objects@.len(),
            views(r@) == hosts_in(objects@.take(i as int)).map_values(|h: Host| h.ip@),
        decreases n - i,
    {
        let ghost post = objects@.take(i + 1);
        assert(post.drop_last() =~= objects@.take(i as int));
        assert(post.last() == objects@[i as int]);
        let ghost before = views(r@);
        let ghost hosts_before = hosts_in(objects@.take(i as int));
        match &objects[i] {
            ADCObject::Host(h) => {
                let ip = h.ip.clone();
                r.push(ip);
                assert(views(r@) =~= before.push(h.ip@));
                assert(hosts_in(post) =~= hosts_before + seq![*h]);
                assert(views(r@) =~= (hosts_before + seq![*h]).map_values(|h: Host| h.ip@));
            },
            _ => {},
        }
        i = i + 1;
    }
    assert(objects@.take(n as int) =~= objects@);
    r
}

/// The distinct host addresses, each once.
pub fn unique_ips(objects: &[ADCObject]) -> (r: Vec<String>)
    ensures
        views(r@).no_duplicates(),
        views(r@).to_set() == hosts_in(objects@).map_values(|h: Host| h.ip@).to_set(),
{
    let ips = host_addresses(objects);
    crate::tally::distinct_in_order(&ips)
}

/// How many findings there are of each severity.
pub fn count_by_severity(objects: &[ADCObject]) -> (r: Vec<(String, usize)>)
    ensures
        is_tally_of(r@, objects@.filter_map(|o: ADCObject| severity_of(o))),
{
    let mut severities: Vec<String> = Vec::new();
    let n = objects.len();
    let mut i: usize = 0;
    while i < n
        invariant
            i <= n,
            n == objects@.len(),
            views(severities@) == objects@.take(i as int).filter_map(|o: ADCObject| severity_of(o)),
        decreases n - i,
    {
        let ghost post = objects@.take(i + 1);
        assert(post.drop_last() =~= objects@.take(i as int));
        assert(post.last() == objects@[i as int]);
        let ghost before = views(severities@);
        match &objects[i] {
            ADCObject::Finding(f) => {
                severities.push(f.severity.clone());
                assert(views(severities@) =~= before + seq![f.severity@]);
            },
            _ => {},
        }
        i = i + 1;
    }
    assert(objects@.take(n as int) =~= objects@);
    crate::tally::tally(&severities)
}

/// The ports numbered above a threshold, in order.
pub fn ports_above<'a>(objects: &'a [ADCObject], threshold: u16) -> (r: Vec<&'a Port>)
    ensures
        r@.map_values(|p: &Port| *p) == objects@.filter_map(|o: ADCObject| port_above(o, threshold)),
{
    let mut r: Vec<&'a Port> = Vec::new();
    let n = objects.len();
    let mut i: usize = 0;
    while i < n
        invariant
            i <= n,
            n == objects@.len(),
            r@.map_values(|p: &Port| *p) == objects@.take(i as int).filter_map(
                |o: ADCObject| port_above(o, threshold),
            ),
        decreases n - i,
    {
        let ghost post = objects@.take(i + 1);
        assert(post.drop_last() =~= objects@.take(i as int));
        assert(post.last() == objects@[i as int]);
        let ghost before = r@.map_values(|p: &Port| *p);
        match &objects[i] {
            ADCObject::Port(p) => {
                if p.number > threshold {
                    r.push(p);
                    assert(r@.map_values(|p: &Port| *p) =~= before + seq![*p]);
                }
            },
            _ => {},
        }
        i = i + 1;
    }
    assert(objects@.take(n as int) =~= objects@);
    r
}

/// `address:port` of each open port, in order.
pub fn open_targets(objects: &[ADCObject]) -> (r: Vec<String>)
    ensures
        views(r@) == open_targets_in(objects@),
{
    let mut r: Vec<String> = Vec::new();
    let n = objects.len();
    let mut i: usize = 0;
    while i < n
        invariant
            i <= n,
            n == objects@.len(),
            views(r@) == objects@.take(i as int).filter_map(|o: ADCObject| open_target_of(o)),
        decreases n - i,
    {
        let ghost post = objects@.take(i + 1);
        assert(post.drop_last() =~= objects@.take(i as int));
        assert(post.last() == objects@[i as int]);
        let ghost before = views(r@);
        match &objects[i] {
            ADCObject::Port(p) => {
                if crate::text::str_eq(p.state.as_str(), "OPEN") {
                    let mut t = crate::text::concat2(p.host_ip.as_str(), ":");
                    crate::text::push_decimal(&mut t, p.number as u64);
                    let ghost tv = t@;
                    r.push(t);
                    assert(views(r@) =~= before + seq![tv]);
                }
            },
            _ => {},
        }
        i = i + 1;
    }
    assert(objects@.take(n as int) =~= objects@);
    r
}

} // verus!
