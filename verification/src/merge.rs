//! Merging host records that several tools reported for the same address,
//! and the report over merged hosts.
use vstd::prelude::*;
use crate::text::{decimal, join_with, occurs_in, views};
use crate::order::{increasing_u16, strictly_sorted};

verus! {

broadcast use vstd::seq_lib::group_seq_properties;

/// A host record from one tool: address, host name if found, open ports and
/// the tool's name.
#[derive(Debug)]
pub struct Host {
    pub ip: String,
    pub hostname: Option<String>,
    pub ports: Vec<u16>,
    pub source: String,
}

/// The view of an optional owned string.
pub open spec fn name_view(o: Option<String>) -> Option<Seq<char>> {
    match o {
        Some(s) => Some(s@),
        None => None,
    }
}

/// The addresses of the records, in order.
pub open spec fn ips_of(hosts: Seq<Host>) -> Seq<Seq<char>> {
    hosts.map_values(|h: Host| h.ip@)
}

/// The first host name among the records for an address.
pub open spec fn first_name_for(hosts: Seq<Host>, ip: Seq<char>) -> Option<Seq<char>>
    decreases hosts.len(),
{
    if hosts.len() == 0 {
        None
    } else {
        let prev = first_name_for(hosts.drop_last(), ip);
        if prev is Some {
            prev
        } else if hosts.last().ip@ == ip {
            name_view(hosts.last().hostname)
        } else {
            None
        }
    }
}

/// The ports of all records for an address.
pub open spec fn ports_for(hosts: Seq<Host>, ip: Seq<char>) -> Set<u16> {
    Set::new(
        |p: u16|
            exists|j: int|
                0 <= j < hosts.len() && #[trigger] hosts[j].ip@ == ip && hosts[j].ports@.contains(p),
    )
}

/// The tools that reported an address.
pub open spec fn sources_for(hosts: Seq<Host>, ip: Seq<char>) -> Set<Seq<char>> {
    Set::new(
        |s: Seq<char>|
            exists|j: int| 0 <= j < hosts.len() && #[trigger] hosts[j].ip@ == ip && hosts[j].source@ == s,
    )
}

/// The source of a merged record: the one tool, or `merged (` and the tools
/// joined with `, ` and `)`.
pub open spec fn merged_source(sources: Seq<Seq<char>>) -> Seq<char> {
    if sources.len() > 1 {
        "merged ("@ + join_with(sources, ", "@) + ")"@
    } else {
        sources[0]
    }
}

/// The source of a merged record names every tool that reported it.
pub proof fn lemma_merged_source_names_all(sources: Seq<Seq<char>>)
    requires
        sources.len() > 0,
    ensures
        forall|i: int| 0 <= i < sources.len() ==> occurs_in(#[trigger] sources[i], merged_source(sources)),
{
    crate::text::lemma_join_keeps_parts(sources, ", "@);
    if sources.len() > 1 {
        assert forall|i: int| 0 <= i < sources.len() implies occurs_in(
            #[trigger] sources[i],
            merged_source(sources),
        ) by {
            assert(occurs_in(sources[i], join_with(sources, ", "@)));
            crate::text::lemma_occurs_in_wider(sources[i], "merged ("@, join_with(sources, ", "@), ")"@);
        }
    } else {
        assert(join_with(sources, ", "@) == sources[0]);
    }
}

/// `m` merges the records of `hosts` for its address: the first host name
/// found, the distinct ports in increasing order, and the distinct tools in
/// increasing order.
pub open spec fn merges(m: Host, hosts: Seq<Host>) -> bool {
    &&& name_view(m.hostname) == first_name_for(hosts, m.ip@)
    &&& increasing_u16(m.ports@)
    &&& m.ports@.to_set() == ports_for(hosts, m.ip@)
    &&& exists|sources: Seq<Seq<char>>|
        #![trigger merged_source(sources)]
        strictly_sorted(sources) && sources.to_set() == sources_for(hosts, m.ip@) && m.source@
            == merged_source(sources)
}

/// One more record adds its ports and its tool to those of its own address,
/// and changes nothing for another address.
proof fn lemma_push_record(pre: Seq<Host>, h: Host, ip: Seq<char>)
    ensures
        ports_for(pre.push(h), ip) == (if h.ip@ == ip {
            ports_for(pre, ip).union(h.ports@.to_set())
        } else {
            ports_for(pre, ip)
        }),
        sources_for(pre.push(h), ip) == (if h.ip@ == ip {
            sources_for(pre, ip).insert(h.source@)
        } else {
            sources_for(pre, ip)
        }),
{
    let post = pre.push(h);
    let last = pre.len() as int;
    assert forall|k: int| 0 <= k < pre.len() implies #[trigger] post[k] == pre[k] by {}
    assert(post[last] == h);
    let expected_ports = if h.ip@ == ip {
        ports_for(pre, ip).union(h.ports@.to_set())
    } else {
        ports_for(pre, ip)
    };
    assert forall|p: u16| #[trigger] ports_for(post, ip).contains(p) <==> expected_ports.contains(p) by {
        if ports_for(post, ip).contains(p) {
            let k = choose|k: int|
                0 <= k < post.len() && #[trigger] post[k].ip@ == ip && post[k].ports@.contains(p);
            if k < pre.len() {
                assert(pre[k] == post[k]);
            }
        }
        if ports_for(pre, ip).contains(p) {
            let k = choose|k: int| 0 <= k < pre.len() && #[trigger] pre[k].ip@ == ip && pre[k].ports@.contains(p);
            assert(post[k] == pre[k]);
        }
        if h.ip@ == ip && h.ports@.contains(p) {
            assert(post[last].ip@ == ip);
        }
    }
    assert(ports_for(post, ip) =~= expected_ports);
    let expected_sources = if h.ip@ == ip {
        sources_for(pre, ip).insert(h.source@)
    } else {
        sources_for(pre, ip)
    };
    assert forall|t: Seq<char>| #[trigger] sources_for(post, ip).contains(t) <==> expected_sources.contains(t) by {
        if sources_for(post, ip).contains(t) {
            let k = choose|k: int| 0 <= k < post.len() && #[trigger] post[k].ip@ == ip && post[k].source@ == t;
            if k < pre.len() {
                assert(pre[k] == post[k]);
            }
        }
        if sources_for(pre, ip).contains(t) {
            let k = choose|k: int| 0 <= k < pre.len() && #[trigger] pre[k].ip@ == ip && pre[k].source@ == t;
            assert(post[k] == pre[k]);
        }
        if h.ip@ == ip && t == h.source@ {
            assert(post[last].ip@ == ip);
        }
    }
    assert(sources_for(post, ip) =~= expected_sources);
}

/// A copy of an optional string.
fn copy_name(o: &Option<String>) -> (r: Option<String>)
    ensures
        name_view(r) == name_view(*o),
{
    match o {
        Some(s) => Some(s.clone()),
        None => None,
    }
}

/// Merges the records of one address that occurs among them.
fn merge_one(hosts: &Vec<Host>, ip: &String) -> (r: Host)
    requires
        ips_of(hosts@).contains(ip@),
    ensures
        r.ip@ == ip@,
        merges(r, hosts@),
{
    let n = hosts.len();
    let mut name: Option<String> = None;
    let mut ports: Vec<u16> = Vec::new();
    let mut sources: Vec<String> = Vec::new();
    let mut j: usize = 0;
    assert(ports@.to_set() =~= ports_for(hosts@.take(0), ip@));
    assert(views(sources@).to_set() =~= sources_for(hosts@.take(0), ip@));
    while j < n
        invariant
            j <= n,
            n == hosts@.len(),
            name_view(name) == first_name_for(hosts@.take(j as int), ip@),
            increasing_u16(ports@),
            ports@.to_set() == ports_for(hosts@.take(j as int), ip@),
            views(sources@).to_set() == sources_for(hosts@.take(j as int), ip@),
        decreases n - j,
    {
        let ghost pre = hosts@.take(j as int);
        let ghost post = hosts@.take(j + 1);
        let h = &hosts[j];
        assert(post =~= pre.push(*h));
        assert(post.drop_last() =~= pre);
        proof {
            lemma_push_record(pre, *h, ip@);
        }
        if h.ip == *ip {
            if name.is_none() {
                name = copy_name(&h.hostname);
            }
            let m = h.ports.len();
            let mut q: usize = 0;
            while q < m
                invariant
                    q <= m,
                    m == h.ports@.len(),
                    increasing_u16(ports@),
                    ports@.to_set() == ports_for(pre, ip@).union(h.ports@.take(q as int).to_set()),
                decreases m - q,
            {
                crate::order::insert_increasing_u16(&mut ports, h.ports[q]);
                assert(h.ports@.take(q + 1) =~= h.ports@.take(q as int).push(h.ports@[q as int]));
                assert(ports@.to_set() =~= ports_for(pre, ip@).union(
                    h.ports@.take(q + 1).to_set(),
                ));
                q = q + 1;
            }
            assert(h.ports@.take(m as int) =~= h.ports@);
            assert(ports@.to_set() =~= ports_for(post, ip@));
            let ghost old_s = views(sources@);
            sources.push(h.source.clone());
            assert(views(sources@) =~= old_s.push(h.source@));
            assert(views(sources@).to_set() =~= sources_for(post, ip@));
        }
        j = j + 1;
    }
    assert(hosts@.take(n as int) =~= hosts@);
    let sorted = crate::order::sorted_unique(&sources);
    assert(views(sorted@).len() > 0) by {
        let k = choose|k: int| 0 <= k < ips_of(hosts@).len() && ips_of(hosts@)[k] == ip@;
        assert(sources_for(hosts@, ip@).contains(hosts@[k].source@));
        assert(views(sorted@).to_set().contains(hosts@[k].source@));
    }
    let source = if sorted.len() > 1 {
        let joined = crate::text::join(&sorted, ", ");
        crate::text::concat3("merged (", joined.as_str(), ")")
    } else {
        assert(views(sorted@)[0] == sorted@[0]@);
        sorted[0].clone()
    };
    let r = Host { ip: ip.clone(), hostname: name, ports, source };
    assert(merged_source(views(sorted@)) == r.source@);
    r
}

/// The addresses of the records.
fn address_list(hosts: &Vec<Host>) -> (r: Vec<String>)
    ensures
        views(r@) == ips_of(hosts@),
{
    let mut r: Vec<String> = Vec::new();
    let n = hosts.len();
    let mut i: usize = 0;
    while i < n
        invariant
            i <= n,
            n == hosts@.len(),
            views(r@) == ips_of(hosts@.take(i as int)),
        decreases n - i,
    {
        let ghost old_r = views(r@);
        r.push(hosts[i].ip.clone());
        assert(views(r@) =~= old_r.push(hosts@[i as int].ip@));
        assert(ips_of(hosts@.take(i + 1)) =~= ips_of(hosts@.take(i as int)).push(hosts@[i as int].ip@));
        i = i + 1;
    }
    assert(hosts@.take(n as int) =~= hosts@);
    r
}

/// Merges the records of each address into one: one record per distinct
/// address, with the first host name found, the union of the ports in
/// increasing order, and the tools that reported it.
pub fn merge_hosts(hosts: Vec<Host>) -> (r: Vec<Host>)
    ensures
        ips_of(r@).no_duplicates(),
        ips_of(r@).to_set() == ips_of(hosts@).to_set(),
        r@.len() == ips_of(hosts@).to_set().len(),
        forall|i: int| 0 <= i < r@.len() ==> merges(#[trigger] r@[i], hosts@),
{
    let addresses = address_list(&hosts);
    let distinct = crate::tally::distinct_in_order(&addresses);
    let mut r: Vec<Host> = Vec::new();
    let n = distinct.len();
    let mut k: usize = 0;
    while k < n
        invariant
            k <= n,
            n == distinct@.len(),
            views(distinct@).no_duplicates(),
            views(distinct@).to_set() == ips_of(hosts@).to_set(),
            ips_of(r@) == views(distinct@).take(k as int),
            forall|i: int| 0 <= i < r@.len() ==> merges(#[trigger] r@[i], hosts@),
        decreases n - k,
    {
        assert(views(distinct@).to_set().contains(distinct@[k as int]@)) by {
            assert(views(distinct@)[k as int] == distinct@[k as int]@);
        }
        let m = merge_one(&hosts, &distinct[k]);
        let ghost old_ips = ips_of(r@);
        r.push(m);
        assert(ips_of(r@) =~= old_ips.push(distinct@[k as int]@));
        assert(views(distinct@).take(k + 1) =~= views(distinct@).take(k as int).push(
            distinct@[k as int]@,
        ));
        k = k + 1;
    }
    assert(views(distinct@).take(n as int) =~= views(distinct@));
    proof {
        ips_of(r@).unique_seq_to_set();
    }
    r
}

/// The ports of a record as shown in a report.
pub open spec fn ports_text(ports: Seq<u16>) -> Seq<char> {
    if ports.len() > 0 {
        join_with(ports.map_values(|p: u16| decimal(p as nat)), ", "@)
    } else {
        "(none)"@
    }
}

/// The ports line of a record shows every port of it, and `(none)` when it
/// has none.
pub proof fn lemma_ports_text_shows_all(ports: Seq<u16>)
    ensures
        ports.len() == 0 ==> ports_text(ports) == "(none)"@,
        forall|i: int| 0 <= i < ports.len() ==> occurs_in(decimal(#[trigger] ports[i] as nat), ports_text(ports)),
{
    let texts = ports.map_values(|p: u16| decimal(p as nat));
    crate::text::lemma_join_keeps_parts(texts, ", "@);
    assert forall|i: int| 0 <= i < ports.len() implies occurs_in(
        decimal(#[trigger] ports[i] as nat),
        ports_text(ports),
    ) by {
        assert(texts[i] == decimal(ports[i] as nat));
    }
}

/// The report entry of one record.
pub open spec fn report_entry(h: Host) -> Seq<char> {
    "\n["@ + h.ip@ + "] "@ + (match h.hostname {
        Some(n) => n@,
        None => seq![],
    }) + "\n\tPorts: "@ + ports_text(h.ports@) + "\n\tSource: "@ + h.source@ + "\n"@
}

/// The report over a list of records: their entries one after another.
pub open spec fn report_text(hosts: Seq<Host>) -> Seq<char>
    decreases hosts.len(),
{
    if hosts.len() == 0 {
        seq![]
    } else {
        report_text(hosts.drop_last()) + report_entry(hosts.last())
    }
}

/// The report over two lists of records, one after the other, is the report
/// over the first followed by the report over the second.
pub proof fn lemma_report_concat(a: Seq<Host>, b: Seq<Host>)
    ensures
        report_text(a + b) == report_text(a) + report_text(b),
    decreases b.len(),
{
    if b.len() == 0 {
        assert(a + b =~= a);
        assert(report_text(b) =~= Seq::<char>::empty());
        assert(report_text(a) + report_text(b) =~= report_text(a));
    } else {
        lemma_report_concat(a, b.drop_last());
        assert((a + b).drop_last() =~= a + b.drop_last());
        assert((a + b).last() == b.last());
        assert(report_text(a + b) =~= report_text(a) + report_text(b));
    }
}

/// The ports of a record in a report.
fn render_ports(ports: &Vec<u16>) -> (r: String)
    ensures
        r@ == ports_text(ports@),
{
    if ports.len() == 0 {
        return "(none)".to_owned();
    }
    let mut texts: Vec<String> = Vec::new();
    let n = ports.len();
    let mut i: usize = 0;
    while i < n
        invariant
            i <= n,
            n == ports@.len(),
            views(texts@) == ports@.take(i as int).map_values(|p: u16| decimal(p as nat)),
        decreases n - i,
    {
        let t = crate::text::u64_text(ports[i] as u64);
        let ghost old_t = views(texts@);
        let ghost tv = t@;
        texts.push(t);
        assert(views(texts@) =~= old_t.push(tv));
        assert(ports@.take(i + 1) =~= ports@.take(i as int).push(ports@[i as int]));
        i = i + 1;
    }
    assert(ports@.take(n as int) =~= ports@);
    crate::text::join(&texts, ", ")
}

/// A text report of the records, one entry each.
pub fn generate_report(hosts: &[Host]) -> (r: String)
    ensures
        r@ == report_text(hosts@),
{
    let mut result = String::new();
    let n = hosts.len();
    let mut i: usize = 0;
    while i < n
        invariant
            i <= n,
            n == hosts@.len(),
            result@ == report_text(hosts@.take(i as int)),
        decreases n - i,
    {
        let h = &hosts[i];
        assert(hosts@.take(i + 1).drop_last() =~= hosts@.take(i as int));
        result.append("\n[");
        result.append(h.ip.as_str());
        result.append("] ");
        match &h.hostname {
            Some(name) => result.append(name.as_str()),
            None => {},
        }
        result.append("\n\tPorts: ");
        let ports = render_ports(&h.ports);
        result.append(ports.as_str());
        result.append("\n\tSource: ");
        result.append(h.source.as_str());
        result.append("\n");
        i = i + 1;
    }
    assert(hosts@.take(n as int) =~= hosts@);
    result
}

} // verus!
