//! Host name lists cleaned up, and hosts grouped by address.
use vstd::prelude::*;
use crate::text::{lower_of, views};
use crate::order::strictly_sorted;

verus! {

broadcast use vstd::seq_lib::group_seq_properties;

/// The host names in lower case, each once, in increasing order.
pub fn clean_hostnames(hostnames: Vec<String>) -> (r: Vec<String>)
    ensures
        strictly_sorted(views(r@)),
        views(r@).to_set() == views(hostnames@).map_values(|h: Seq<char>| lower_of(h)).to_set(),
{
    let mut lowered: Vec<String> = Vec::new();
    let n = hostnames.len();
    let mut i: usize = 0;
    while i < n
        invariant
            i <= n,
            n == hostnames@.len(),
            views(lowered@) == views(hostnames@).take(i as int).map_values(
                |h: Seq<char>| lower_of(h),
            ),
        decreases n - i,
    {
        let l = crate::text::to_lower(hostnames[i].as_str());
        let ghost old_l = views(lowered@);
        lowered.push(l);
        assert(views(lowered@) =~= old_l.push(lower_of(hostnames@[i as int]@)));
        assert(views(hostnames@).take(i + 1) =~= views(hostnames@).take(i as int).push(
            hostnames@[i as int]@,
        ));
        i = i + 1;
    }
    assert(views(hostnames@).take(n as int) =~= views(hostnames@));
    crate::order::sorted_unique(&lowered)
}

/// A strictly sorted list repeats no entry.
pub proof fn lemma_strictly_sorted_no_duplicates(s: Seq<Seq<char>>)
    requires
        strictly_sorted(s),
    ensures
        s.no_duplicates(),
{
    assert forall|i: int, j: int| 0 <= i < s.len() && 0 <= j < s.len() && i != j implies s[i]
        != s[j] by {
        if i < j {
            crate::order::lemma_lex_irreflexive(s[i]);
        } else {
            crate::order::lemma_lex_irreflexive(s[j]);
        }
    }
}

/// A host seen by a tool: its address, a host name if one was found, and
/// the tool that saw it.
#[derive(Debug)]
pub struct Host {
    pub ip: String,
    pub hostname: Option<String>,
    pub source: String,
}

/// The addresses of hosts.
pub open spec fn host_ips(hosts: Seq<Host>) -> Seq<Seq<char>> {
    hosts.map_values(|h: Host| h.ip@)
}

/// The addresses that key a grouping.
pub open spec fn group_keys(g: Seq<(String, Vec<Host>)>) -> Seq<Seq<char>> {
    g.map_values(|e: (String, Vec<Host>)| e.0@)
}

/// The hosts with a given address, in their original order.
pub open spec fn with_ip(hosts: Seq<Host>, ip: Seq<char>) -> Seq<Host>
    decreases hosts.len(),
{
    if hosts.len() == 0 {
        seq![]
    } else {
        let w = with_ip(hosts.drop_last(), ip);
        if hosts.last().ip@ == ip {
            w.push(hosts.last())
        } else {
            w
        }
    }
}

/// `g` groups `hosts` by address: each address once, with the hosts of that
/// address in their original order.
pub open spec fn groups_hosts_of(g: Seq<(String, Vec<Host>)>, hosts: Seq<Host>) -> bool {
    &&& forall|i: int, j: int| 0 <= i < j < g.len() ==> #[trigger] g[i].0@ != #[trigger] g[j].0@
    &&& group_keys(g).to_set() == host_ips(hosts).to_set()
    &&& forall|i: int|
        0 <= i < g.len() ==> (#[trigger] g[i].1@) == with_ip(hosts, g[i].0@)
}

proof fn lemma_with_ip_none(hosts: Seq<Host>, ip: Seq<char>)
    requires
        forall|i: int| 0 <= i < hosts.len() ==> (#[trigger] hosts[i]).ip@ != ip,
    ensures
        with_ip(hosts, ip) == Seq::<Host>::empty(),
    decreases hosts.len(),
{
    if hosts.len() > 0 {
        let t = hosts.drop_last();
        assert forall|i: int| 0 <= i < t.len() implies (#[trigger] t[i]).ip@ != ip by {
            assert(t[i] == hosts[i]);
        }
        lemma_with_ip_none(t, ip);
    }
    assert(with_ip(hosts, ip) =~= Seq::<Host>::empty());
}

/// Groups hosts by address, keeping the order of the hosts within a group.
pub fn group_by_ip(hosts: Vec<Host>) -> (r: Vec<(String, Vec<Host>)>)
    ensures
        groups_hosts_of(r@, hosts@),
{
    let ghost all = hosts@;
    let mut rest = hosts;
    let mut g: Vec<(String, Vec<Host>)> = Vec::new();
    let n = rest.len();
    let mut i: usize = 0;
    assert(group_keys(g@).to_set() =~= host_ips(all.take(0)).to_set());
    while i < n
        invariant
            i <= n,
            n == all.len(),
            rest@ == all.skip(i as int),
            groups_hosts_of(g@, all.take(i as int)),
        decreases n - i,
    {
        let ghost pre = all.take(i as int);
        let ghost post = all.take(i + 1);
        let host = rest.remove(0);
        assert(host == all[i as int]);
        assert(rest@ =~= all.skip(i + 1));
        assert(post =~= pre.push(host));
        assert(host_ips(post) =~= host_ips(pre).push(host.ip@));
        let ghost old_g = g@;
        let ghost hip = host.ip@;
        assert forall|k: Seq<char>| #[trigger] with_ip(post, k) == if hip == k {
            with_ip(pre, k).push(host)
        } else {
            with_ip(pre, k)
        } by {
            assert(post.drop_last() =~= pre);
        }
        match crate::tally::find_key(&g, &host.ip) {
            Some(k) => {
                g[k].1.push(host);
                assert(group_keys(g@) =~= group_keys(old_g));
                assert forall|j: int| 0 <= j < g@.len() implies (#[trigger] g@[j].1@) == with_ip(post, g@[j].0@) by {
                    if j != k {
                        assert(g@[j] == old_g[j]);
                        assert(old_g[j].0@ != old_g[k as int].0@);
                    }
                }
                assert(group_keys(g@).contains(hip)) by {
                    assert(group_keys(g@)[k as int] == hip);
                }
                assert(host_ips(post).to_set() =~= host_ips(pre).to_set().insert(hip));
                assert(group_keys(g@).to_set() =~= group_keys(old_g).to_set().insert(hip));
            },
            None => {
                let key = host.ip.clone();
                let mut members: Vec<Host> = Vec::new();
                members.push(host);
                g.push((key, members));
                assert(group_keys(g@) =~= group_keys(old_g).push(hip));
                assert(!host_ips(pre).to_set().contains(hip)) by {
                    if host_ips(pre).to_set().contains(hip) {
                        assert(group_keys(old_g).to_set().contains(hip));
                        let m = choose|m: int| 0 <= m < old_g.len() && group_keys(old_g)[m] == hip;
                        assert(old_g[m].0@ == hip);
                    }
                }
                assert forall|m: int| 0 <= m < pre.len() implies (#[trigger] pre[m]).ip@ != hip by {
                    assert(host_ips(pre)[m] == pre[m].ip@);
                }
                proof {
                    lemma_with_ip_none(pre, hip);
                }
                assert(with_ip(post, hip) == with_ip(pre, hip).push(host));
                assert forall|j: int| 0 <= j < g@.len() implies (#[trigger] g@[j].1@) == with_ip(post, g@[j].0@) by {
                    if j < old_g.len() {
                        assert(g@[j] == old_g[j]);
                        assert(old_g[j].0@ != hip);
                    } else {
                        assert(g@[j].1@ =~= seq![host]);
                        assert(Seq::<Host>::empty().push(host) =~= seq![host]);
                    }
                }
                assert forall|a: int, b: int| 0 <= a < b < g@.len() implies #[trigger] g@[a].0@
                    != #[trigger] g@[b].0@ by {
                    if b == old_g.len() {
                        assert(old_g[a].0@ != hip);
                    } else {
                        assert(g@[a] == old_g[a]);
                        assert(g@[b] == old_g[b]);
                    }
                }
                assert(host_ips(post).to_set() =~= host_ips(pre).to_set().insert(hip));
                assert(group_keys(g@).to_set() =~= group_keys(old_g).to_set().insert(hip));
            },
        }
        i = i + 1;
    }
    assert(all.take(n as int) =~= all);
    g
}

/// The number of hosts over all groups.
pub open spec fn grouped_total(g: Seq<(String, Vec<Host>)>) -> nat
    decreases g.len(),
{
    if g.len() == 0 {
        0
    } else {
        grouped_total(g.drop_last()) + g.last().1@.len()
    }
}

/// The hosts whose address is not `ip`, in order.
pub open spec fn other_ips(hosts: Seq<Host>, ip: Seq<char>) -> Seq<Host>
    decreases hosts.len(),
{
    if hosts.len() == 0 {
        seq![]
    } else {
        let w = other_ips(hosts.drop_last(), ip);
        if hosts.last().ip@ == ip {
            w
        } else {
            w.push(hosts.last())
        }
    }
}

proof fn lemma_other_ips(hosts: Seq<Host>, ip: Seq<char>)
    ensures
        other_ips(hosts, ip).len() + with_ip(hosts, ip).len() == hosts.len(),
        forall|y: Seq<char>| y != ip ==> with_ip(#[trigger] other_ips(hosts, ip), y) == with_ip(hosts, y),
        forall|y: Seq<char>| #[trigger] host_ips(other_ips(hosts, ip)).contains(y) <==> (host_ips(
            hosts,
        ).contains(y) && y != ip),
    decreases hosts.len(),
{
    if hosts.len() > 0 {
        let d = hosts.drop_last();
        let last = hosts.last();
        lemma_other_ips(d, ip);
        let w = other_ips(d, ip);
        assert(d.push(last) =~= hosts);
        assert(other_ips(hosts, ip) == if last.ip@ == ip {
            w
        } else {
            w.push(last)
        });
        assert forall|y: Seq<char>| y != ip implies with_ip(#[trigger] other_ips(hosts, ip), y)
            == with_ip(hosts, y) by {
            assert(with_ip(w, y) == with_ip(d, y));
            if last.ip@ != ip {
                assert(w.push(last).drop_last() =~= w);
            }
        }
        assert forall|y: Seq<char>| #[trigger] host_ips(other_ips(hosts, ip)).contains(y) <==> (
        host_ips(hosts).contains(y) && y != ip) by {
            let o = other_ips(hosts, ip);
            if host_ips(o).contains(y) {
                let i = choose|i: int| 0 <= i < host_ips(o).len() && host_ips(o)[i] == y;
                if i < w.len() {
                    assert(o[i] == w[i]);
                    assert(host_ips(w)[i] == y);
                    assert(host_ips(w).contains(y));
                    assert(host_ips(d).contains(y));
                    let j = choose|j: int| 0 <= j < host_ips(d).len() && host_ips(d)[j] == y;
                    assert(host_ips(hosts)[j] == y);
                } else {
                    assert(o[i] == last);
                    assert(host_ips(hosts)[hosts.len() - 1] == y);
                }
            }
            if host_ips(hosts).contains(y) && y != ip {
                let i = choose|i: int| 0 <= i < host_ips(hosts).len() && host_ips(hosts)[i] == y;
                if i < d.len() {
                    assert(host_ips(d)[i] == y);
                    assert(host_ips(w).contains(y));
                    let j = choose|j: int| 0 <= j < host_ips(w).len() && host_ips(w)[j] == y;
                    assert(o[j] == w[j]);
                    assert(host_ips(o)[j] == y);
                } else {
                    assert(host_ips(o)[w.len() as int] == y);
                }
            }
        }
    }
}

/// Grouping by address loses and duplicates no host: the groups together
/// hold as many hosts as were grouped.
pub proof fn lemma_groups_cover(g: Seq<(String, Vec<Host>)>, hosts: Seq<Host>)
    requires
        groups_hosts_of(g, hosts),
    ensures
        grouped_total(g) == hosts.len(),
    decreases g.len(),
{
    if g.len() == 0 {
        if hosts.len() > 0 {
            assert(host_ips(hosts).to_set().contains(host_ips(hosts)[0]));
            assert(group_keys(g).to_set().contains(host_ips(hosts)[0]));
        }
    } else {
        let k = g.last().0@;
        let d = g.drop_last();
        let rest = other_ips(hosts, k);
        lemma_other_ips(hosts, k);
        assert forall|i: int| 0 <= i < d.len() implies #[trigger] d[i].0@ != k by {
            assert(g[i].0@ != g[g.len() - 1].0@);
        }
        assert forall|y: Seq<char>| #[trigger] group_keys(d).to_set().contains(y) <==> host_ips(
            rest,
        ).to_set().contains(y) by {
            if group_keys(d).contains(y) {
                let m = choose|m: int| 0 <= m < d.len() && group_keys(d)[m] == y;
                assert(group_keys(g)[m] == y);
                assert(group_keys(g).to_set().contains(y));
            }
            if host_ips(rest).contains(y) {
                assert(host_ips(hosts).to_set().contains(y));
                assert(group_keys(g).to_set().contains(y));
                let m = choose|m: int| 0 <= m < g.len() && group_keys(g)[m] == y;
                assert(m != g.len() - 1);
                assert(group_keys(d)[m] == y);
            }
        }
        assert(group_keys(d).to_set() =~= host_ips(rest).to_set());
        assert forall|i: int| 0 <= i < d.len() implies (#[trigger] d[i].1@) == with_ip(rest, d[i].0@) by {
            assert(g[i] == d[i]);
        }
        lemma_groups_cover(d, rest);
    }
}

} // verus!
