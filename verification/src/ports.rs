//! Port lists and scan configurations changed in place.
use vstd::prelude::*;
use crate::order::sorted_i32;

verus! {

/// The list with `p` appended, unless it already holds `p`.
pub open spec fn with_port(s: Seq<u16>, p: u16) -> Seq<u16> {
    if s.contains(p) {
        s
    } else {
        s.push(p)
    }
}

/// The list with the common service ports 8080, 8443, 3000 and 3306 added,
/// in that order, each unless it is already there.
pub open spec fn with_common_ports(s: Seq<u16>) -> Seq<u16> {
    with_port(with_port(with_port(with_port(s, 8080), 8443), 3000), 3306)
}

/// Whether a port list holds a port.
pub fn contains_port(ports: &Vec<u16>, p: u16) -> (r: bool)
    ensures
        r == ports@.contains(p),
{
    let n = ports.len();
    let mut i: usize = 0;
    while i < n
        invariant
            i <= n,
            n == ports@.len(),
            forall|k: int| 0 <= k < i ==> ports@[k] != p,
        decreases n - i,
    {
        if ports[i] == p {
            assert(ports@[i as int] == p);
            return true;
        }
        i = i + 1;
    }
    false
}

/// Appends `p` unless the list already holds it.
fn add_port(ports: &mut Vec<u16>, p: u16)
    ensures
        final(ports)@ == with_port(old(ports)@, p),
{
    if !contains_port(ports, p) {
        ports.push(p);
    }
}

/// Adds the common service ports that the list lacks.
pub fn add_common_ports(ports: &mut Vec<u16>)
    ensures
        final(ports)@ == with_common_ports(old(ports)@),
{
    add_port(ports, 8080);
    add_port(ports, 8443);
    add_port(ports, 3000);
    add_port(ports, 3306);
}

/// What to scan, which ports, and how long to wait.
#[derive(Debug)]
pub struct ScanConfig {
    pub target: String,
    pub ports: Vec<u16>,
    pub timeout_secs: u32,
}

/// The ports of an aggressive scan.
pub open spec fn aggressive_ports() -> Seq<u16> {
    seq![
        1u16, 21, 22, 23, 25, 53, 80, 110, 135, 139, 143, 443, 445, 993, 995, 1723, 3306, 3389,
        5432, 5900, 8080, 8443,
    ]
}

/// Switches a scan to the aggressive port list with a 10 second timeout;
/// the target stays.
pub fn configure_aggressive(config: &mut ScanConfig)
    ensures
        final(config).target == old(config).target,
        final(config).ports@ == aggressive_ports(),
        final(config).timeout_secs == 10,
{
    config.ports = vec![
        1, 21, 22, 23, 25, 53, 80, 110, 135, 139, 143, 443, 445, 993, 995, 1723, 3306, 3389, 5432,
        5900, 8080, 8443,
    ];
    config.timeout_secs = 10;
    assert(config.ports@ =~= aggressive_ports());
}

/// Sorts the numbers in place, keeping every entry, and hands them back.
pub fn sort_and_return(data: &mut Vec<i32>) -> (r: &Vec<i32>)
    ensures
        sorted_i32(final(data)@),
        final(data)@.to_multiset() == old(data)@.to_multiset(),
        r@ == final(data)@,
{
    crate::order::sort_i32(data);
    data
}

proof fn lemma_with_port_keeps(s: Seq<u16>, p: u16)
    ensures
        with_port(s, p).contains(p),
        forall|q: u16| s.contains(q) ==> #[trigger] with_port(s, p).contains(q),
{
    if !s.contains(p) {
        assert(s.push(p)[s.len() as int] == p);
        assert forall|q: u16| s.contains(q) implies #[trigger] with_port(s, p).contains(q) by {
            let i = choose|i: int| 0 <= i < s.len() && s[i] == q;
            assert(s.push(p)[i] == q);
        }
    }
}

/// Adding the common ports a second time changes nothing.
pub proof fn lemma_common_ports_idempotent(s: Seq<u16>)
    ensures
        with_common_ports(with_common_ports(s)) == with_common_ports(s),
{
    let a = with_port(s, 8080);
    let b = with_port(a, 8443);
    let c = with_port(b, 3000);
    let d = with_port(c, 3306);
    lemma_with_port_keeps(s, 8080);
    lemma_with_port_keeps(a, 8443);
    lemma_with_port_keeps(b, 3000);
    lemma_with_port_keeps(c, 3306);
    assert(d.contains(8080) && d.contains(8443) && d.contains(3000) && d.contains(3306));
}

} // verus!
