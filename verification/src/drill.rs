//! Drills over port lists, host names, lookups and findings.
use vstd::prelude::*;
use crate::text::{decimal, signed_decimal, parse_u16_spec, upper_of, views, str_views, fields_of, ends_with_spec, join_with};
use crate::tally::{is_tally_of, occurrences};
use crate::order::{strictly_sorted, increasing_u16};

verus! {

broadcast use vstd::seq_lib::group_seq_properties;

/// The view of an optional owned string.
pub open spec fn opt_view(o: Option<String>) -> Option<Seq<char>> {
    match o {
        Some(s) => Some(s@),
        None => None,
    }
}

/// The view of an optional string slice.
pub open spec fn opt_str_view(o: Option<&str>) -> Option<Seq<char>> {
    match o {
        Some(s) => Some(s@),
        None => None,
    }
}

/// `port:` and the port number, for each port.
pub fn label_ports(ports: &[u16]) -> (r: Vec<String>)
    ensures
        views(r@) == ports@.map_values(|p: u16| "port:"@ + decimal(p as nat)),
{
    let mut r: Vec<String> = Vec::new();
    let n = ports.len();
    let mut i: usize = 0;
    while i < n
        invariant
            i <= n,
            n == ports@.len(),
            views(r@) == ports@.take(i as int).map_values(|p: u16| "port:"@ + decimal(p as nat)),
        decreases n - i,
    {
        let mut label = "port:".to_owned();
        crate::text::push_decimal(&mut label, ports[i] as u64);
        let ghost old_r = views(r@);
        let ghost lv = label@;
        r.push(label);
        assert(views(r@) =~= old_r.push(lv));
        assert(ports@.take(i + 1) =~= ports@.take(i as int).push(ports@[i as int]));
        assert(views(r@) =~= ports@.take(i + 1).map_values(|p: u16| "port:"@ + decimal(p as nat)));
        i = i + 1;
    }
    assert(ports@.take(n as int) =~= ports@);
    r
}

/// The ports below 1024, which only a privileged process may bind, in order.
pub fn privileged_ports(ports: &[u16]) -> (r: Vec<u16>)
    ensures
        r@ == ports@.filter(|p: u16| p < 1024),
{
    let mut r: Vec<u16> = Vec::new();
    let n = ports.len();
    let mut i: usize = 0;
    while i < n
        invariant
            i <= n,
            n == ports@.len(),
            r@ == ports@.take(i as int).filter(|p: u16| p < 1024),
        decreases n - i,
    {
        proof {
            ports@.take(i as int).lemma_filter_push(ports@[i as int], |p: u16| p < 1024);
            assert(ports@.take(i + 1) =~= ports@.take(i as int).push(ports@[i as int]));
        }
        if ports[i] < 1024 {
            r.push(ports[i]);
        }
        i = i + 1;
    }
    assert(ports@.take(n as int) =~= ports@);
    r
}

/// `PASS:` and the score, for each score of at least 70, in order.
pub fn passing_labels(scores: &[i32]) -> (r: Vec<String>)
    ensures
        views(r@) == scores@.filter(|s: i32| s >= 70).map_values(
            |s: i32| "PASS:"@ + signed_decimal(s as int),
        ),
{
    let mut r: Vec<String> = Vec::new();
    let n = scores.len();
    let mut i: usize = 0;
    while i < n
        invariant
            i <= n,
            n == scores@.len(),
            views(r@) == scores@.take(i as int).filter(|s: i32| s >= 70).map_values(
                |s: i32| "PASS:"@ + signed_decimal(s as int),
            ),
        decreases n - i,
    {
        let s = scores[i];
        proof {
            scores@.take(i as int).lemma_filter_push(s, |s: i32| s >= 70);
            assert(scores@.take(i + 1) =~= scores@.take(i as int).push(s));
        }
        if s >= 70 {
            let mut label = "PASS:".to_owned();
            let text = crate::text::i64_text(s as i64);
            label.append(text.as_str());
            let ghost old_r = views(r@);
            r.push(label);
            assert(views(r@) =~= old_r.push("PASS:"@ + signed_decimal(s as int)));
        }
        i = i + 1;
    }
    assert(scores@.take(n as int) =~= scores@);
    r
}

/// The entries that parse as port numbers, parsed, in order; the others are
/// skipped.
pub fn parse_ports(raw: &[&str]) -> (r: Vec<u16>)
    ensures
        r@ == str_views(raw@).filter_map(|s: Seq<char>| parse_u16_spec(s)),
{
    let mut r: Vec<u16> = Vec::new();
    let n = raw.len();
    let mut i: usize = 0;
    while i < n
        invariant
            i <= n,
            n == raw@.len(),
            r@ == str_views(raw@).take(i as int).filter_map(|s: Seq<char>| parse_u16_spec(s)),
        decreases n - i,
    {
        let ghost pre = str_views(raw@).take(i as int);
        let ghost post = str_views(raw@).take(i + 1);
        assert(post.drop_last() =~= pre);
        assert(post.last() == raw@[i as int]@);
        match crate::text::parse_u16(raw[i]) {
            Some(p) => {
                r.push(p);
                assert(r@ =~= pre.filter_map(|s: Seq<char>| parse_u16_spec(s)) + seq![p]);
            },
            None => {},
        }
        i = i + 1;
    }
    assert(str_views(raw@).take(n as int) =~= str_views(raw@));
    r
}

/// The first three host addresses of a subnet prefix.
pub open spec fn subnet_hosts(s: Seq<char>) -> Seq<Seq<char>> {
    seq![s + "."@ + decimal(1), s + "."@ + decimal(2), s + "."@ + decimal(3)]
}

/// The addresses `.1`, `.2` and `.3` of each subnet prefix, in order.
pub fn expand_subnets(subnets: &[&str]) -> (r: Vec<String>)
    ensures
        views(r@) == str_views(subnets@).flat_map(|s: Seq<char>| subnet_hosts(s)),
{
    let mut r: Vec<String> = Vec::new();
    let n = subnets.len();
    let mut i: usize = 0;
    while i < n
        invariant
            i <= n,
            n == subnets@.len(),
            views(r@) == str_views(subnets@).take(i as int).flat_map(
                |s: Seq<char>| subnet_hosts(s),
            ),
        decreases n - i,
    {
        let ghost old_r = views(r@);
        let subnet = subnets[i];
        let mut k: u64 = 1;
        while k <= 3
            invariant
                1 <= k <= 4,
                views(r@) == old_r + subnet_hosts(subnet@).take(k - 1),
            decreases 4 - k,
        {
            let mut host = crate::text::concat2(subnet, ".");
            crate::text::push_decimal(&mut host, k);
            let ghost before = views(r@);
            r.push(host);
            assert(subnet_hosts(subnet@).take(k as int) =~= subnet_hosts(subnet@).take(k - 1).push(
                subnet@ + "."@ + decimal(k as nat),
            ));
            assert(views(r@) =~= before.push(subnet@ + "."@ + decimal(k as nat)));
            k = k + 1;
        }
        proof {
            str_views(subnets@).take(i as int).lemma_flat_map_push(
                |s: Seq<char>| subnet_hosts(s),
                subnet@,
            );
            assert(str_views(subnets@).take(i + 1) =~= str_views(subnets@).take(i as int).push(
                subnet@,
            ));
            assert(subnet_hosts(subnet@).take(3) =~= subnet_hosts(subnet@));
        }
        i = i + 1;
    }
    assert(str_views(subnets@).take(n as int) =~= str_views(subnets@));
    r
}

/// The names folded into one text: each name after the first non-empty
/// text so far is preceded by `, `; a name met while the text is still empty
/// is appended as it is.
pub open spec fn joined_hosts(hosts: Seq<Seq<char>>) -> Seq<char>
    decreases hosts.len(),
{
    if hosts.len() == 0 {
        seq![]
    } else {
        let acc = joined_hosts(hosts.drop_last());
        if acc.len() == 0 {
            hosts.last()
        } else {
            acc + ", "@ + hosts.last()
        }
    }
}

/// Joins host names with `, `.
pub fn join_hostnames(hosts: &[&str]) -> (r: String)
    ensures
        r@ == joined_hosts(str_views(hosts@)),
{
    let mut acc = String::new();
    let n = hosts.len();
    let mut i: usize = 0;
    while i < n
        invariant
            i <= n,
            n == hosts@.len(),
            acc@ == joined_hosts(str_views(hosts@).take(i as int)),
        decreases n - i,
    {
        let ghost post = str_views(hosts@).take(i + 1);
        assert(post.drop_last() =~= str_views(hosts@).take(i as int));
        assert(post.last() == hosts@[i as int]@);
        if acc.as_str().is_empty() {
            acc.append(hosts[i]);
            assert(acc@ =~= hosts@[i as int]@);
        } else {
            acc.append(", ");
            acc.append(hosts[i]);
        }
        i = i + 1;
    }
    assert(str_views(hosts@).take(n as int) =~= str_views(hosts@));
    acc
}

/// Owned copies of string slices.
pub fn to_owned_all(items: &[&str]) -> (r: Vec<String>)
    ensures
        views(r@) == str_views(items@),
{
    let mut r: Vec<String> = Vec::new();
    let n = items.len();
    let mut i: usize = 0;
    while i < n
        invariant
            i <= n,
            n == items@.len(),
            views(r@) == str_views(items@).take(i as int),
        decreases n - i,
    {
        let ghost old_r = views(r@);
        let x = items[i].to_owned();
        r.push(x);
        assert(views(r@) =~= old_r.push(items@[i as int]@));
        assert(views(r@) =~= str_views(items@).take(i + 1));
        i = i + 1;
    }
    assert(str_views(items@).take(n as int) =~= str_views(items@));
    r
}

/// How often each log level occurs.
pub fn count_levels(levels: &[&str]) -> (r: Vec<(String, usize)>)
    ensures
        is_tally_of(r@, str_views(levels@)),
{
    let owned = to_owned_all(levels);
    crate::tally::tally(&owned)
}

/// A greeting for a user name, shouted, or for a stranger.
pub fn greet(username: Option<&str>) -> (r: String)
    ensures
        username matches Some(name) ==> r@ == "Hello, "@ + upper_of(name@) + "!"@,
        username is None ==> r@ == "Hello, stranger!"@,
{
    match username {
        Some(name) => {
            let upper = crate::text::to_upper(name);
            crate::text::concat3("Hello, ", upper.as_str(), "!")
        },
        None => "Hello, stranger!".to_owned(),
    }
}

/// A command tag: `CMD:` and the command in upper case, or `CMD:NOP`.
pub fn format_command(cmd: Option<&str>) -> (r: String)
    ensures
        cmd matches Some(c) ==> r@ == "CMD:"@ + upper_of(c@),
        cmd is None ==> r@ == "CMD:NOP"@,
{
    match cmd {
        Some(c) => {
            let upper = crate::text::to_upper(c);
            crate::text::concat2("CMD:", upper.as_str())
        },
        None => "CMD:NOP".to_owned(),
    }
}

/// The address on record for a host name.
pub open spec fn ip_of_host(hostname: Seq<char>) -> Option<Seq<char>> {
    if hostname == "web.htb"@ {
        Some("10.0.0.1"@)
    } else if hostname == "db.htb"@ {
        Some("10.0.0.2"@)
    } else {
        None
    }
}

/// The service on record for an address.
pub open spec fn service_of_ip(ip: Seq<char>) -> Option<Seq<char>> {
    if ip == "10.0.0.1"@ {
        Some("http"@)
    } else {
        None
    }
}

/// Looks up the address of a host name.
pub fn find_ip(hostname: &str) -> (r: Option<String>)
    ensures
        opt_view(r) == ip_of_host(hostname@),
{
    if crate::text::str_eq(hostname, "web.htb") {
        Some("10.0.0.1".to_owned())
    } else if crate::text::str_eq(hostname, "db.htb") {
        Some("10.0.0.2".to_owned())
    } else {
        None
    }
}

/// Looks up the service at an address.
pub fn find_service(ip: &str) -> (r: Option<String>)
    ensures
        opt_view(r) == service_of_ip(ip@),
{
    if crate::text::str_eq(ip, "10.0.0.1") {
        Some("http".to_owned())
    } else {
        None
    }
}

/// Looks up the service of a host name through its address.
pub fn lookup_service(hostname: &str) -> (r: Option<String>)
    ensures
        opt_view(r) == (match ip_of_host(hostname@) {
            Some(ip) => service_of_ip(ip),
            None => None,
        }),
{
    match find_ip(hostname) {
        Some(ip) => find_service(ip.as_str()),
        None => None,
    }
}

/// The distinct addresses reported by either scanner, in increasing order.
pub fn unique_targets(nmap_ips: &[&str], subfinder_ips: &[&str]) -> (r: Vec<String>)
    ensures
        strictly_sorted(views(r@)),
        views(r@).to_set() == str_views(nmap_ips@).to_set().union(str_views(subfinder_ips@).to_set()),
{
    let mut all = to_owned_all(nmap_ips);
    let more = to_owned_all(subfinder_ips);
    let ghost a = views(all@);
    let ghost b = views(more@);
    let n = more.len();
    let mut i: usize = 0;
    while i < n
        invariant
            i <= n,
            n == more@.len(),
            b == views(more@),
            views(all@) == a + b.take(i as int),
        decreases n - i,
    {
        let ghost before = views(all@);
        all.push(more[i].clone());
        assert(views(all@) =~= before.push(b[i as int]));
        assert(b.take(i + 1) =~= b.take(i as int).push(b[i as int]));
        i = i + 1;
    }
    assert(b.take(n as int) =~= b);
    let r = crate::order::sorted_unique(&all);
    assert forall|x: Seq<char>| #[trigger] (a + b).to_set().contains(x) <==> a.to_set().union(
        b.to_set(),
    ).contains(x) by {
        if (a + b).contains(x) {
            let k = choose|k: int| 0 <= k < (a + b).len() && (a + b)[k] == x;
            if k < a.len() {
                assert(a[k] == x);
            } else {
                assert(b[k - a.len()] == x);
            }
        }
        if a.contains(x) {
            let k = choose|k: int| 0 <= k < a.len() && a[k] == x;
            assert((a + b)[k] == x);
        }
        if b.contains(x) {
            let k = choose|k: int| 0 <= k < b.len() && b[k] == x;
            assert((a + b)[a.len() + k] == x);
        }
    }
    assert((a + b).to_set() =~= a.to_set().union(b.to_set()));
    r
}

/// The entries at even positions (the first, third, ...).
pub fn even_indexed<'a>(items: &[&'a str]) -> (r: Vec<&'a str>)
    ensures
        r@.len() == (items@.len() + 1) / 2,
        forall|k: int| 0 <= k < r@.len() ==> #[trigger] r@[k] == items@[2 * k],
{
    let mut r: Vec<&'a str> = Vec::new();
    let n = items.len();
    let mut take = true;
    let mut i: usize = 0;
    while i < n
        invariant
            i <= n,
            n == items@.len(),
            take <==> i % 2 == 0,
            r@.len() == (i + 1) / 2,
            forall|k: int| 0 <= k < r@.len() ==> #[trigger] r@[k] == items@[2 * k],
        decreases n - i,
    {
        if take {
            r.push(items[i]);
        }
        take = !take;
        i = i + 1;
    }
    r
}

/// The `address:port` of a `address:port:state` line whose state is `OPEN`.
pub open spec fn open_entry(line: Seq<char>) -> Option<Seq<char>> {
    let f = fields_of(line, ':');
    if f[2] == "OPEN"@ {
        Some(f[0] + ":"@ + f[1])
    } else {
        None
    }
}

/// The `address:port` of each open entry among `address:port:state` lines,
/// in order.
pub fn open_services(lines: &[&str]) -> (r: Vec<String>)
    requires
        forall|i: int| 0 <= i < lines@.len() ==> fields_of(#[trigger] lines@[i]@, ':').len() >= 3,
    ensures
        views(r@) == str_views(lines@).filter_map(|l: Seq<char>| open_entry(l)),
{
    let mut r: Vec<String> = Vec::new();
    let n = lines.len();
    let mut i: usize = 0;
    while i < n
        invariant
            i <= n,
            n == lines@.len(),
            forall|i: int| 0 <= i < lines@.len() ==> fields_of(#[trigger] lines@[i]@, ':').len() >= 3,
            views(r@) == str_views(lines@).take(i as int).filter_map(|l: Seq<char>| open_entry(l)),
        decreases n - i,
    {
        let ghost pre = str_views(lines@).take(i as int);
        let ghost post = str_views(lines@).take(i + 1);
        assert(post.drop_last() =~= pre);
        assert(post.last() == lines@[i as int]@);
        let parts = crate::text::split_fields(lines[i], ':');
        assert(parts@.len() >= 3);
        assert(views(parts@)[2] == parts@[2]@);
        if crate::text::str_eq(parts[2].as_str(), "OPEN") {
            let entry = crate::text::concat3(parts[0].as_str(), ":", parts[1].as_str());
            let ghost before = views(r@);
            r.push(entry);
            assert(views(parts@)[0] == parts@[0]@);
            assert(views(parts@)[1] == parts@[1]@);
            assert(views(r@) =~= before + seq![open_entry(lines@[i as int]@)->0]);
        }
        i = i + 1;
    }
    assert(str_views(lines@).take(n as int) =~= str_views(lines@));
    r
}

/// The ports paired with a host.
pub open spec fn ports_of_host(pairs: Seq<(&str, u16)>, host: Seq<char>) -> Set<u16> {
    Set::new(|p: u16| exists|i: int| 0 <= i < pairs.len() && #[trigger] pairs[i].0@ == host && pairs[i].1 == p)
}

/// The hosts of a list of pairs.
pub open spec fn pair_hosts_of(pairs: Seq<(&str, u16)>) -> Seq<Seq<char>> {
    pairs.map_values(|e: (&str, u16)| e.0@)
}

/// The keys of a grouping of ports.
pub open spec fn group_keys(g: Seq<(String, Vec<u16>)>) -> Seq<Seq<char>> {
    g.map_values(|e: (String, Vec<u16>)| e.0@)
}

/// `g` groups the ports of `pairs` by host: each host once, with its
/// distinct ports in increasing order.
pub open spec fn groups_ports_of(g: Seq<(String, Vec<u16>)>, pairs: Seq<(&str, u16)>) -> bool {
    &&& forall|i: int, j: int| 0 <= i < j < g.len() ==> #[trigger] g[i].0@ != #[trigger] g[j].0@
    &&& group_keys(g).to_set() == pair_hosts_of(pairs).to_set()
    &&& forall|i: int| 0 <= i < g.len() ==> increasing_u16(#[trigger] g[i].1@)
    &&& forall|i: int| 0 <= i < g.len() ==> (#[trigger] g[i].1@).to_set() == ports_of_host(pairs, g[i].0@)
}

/// Groups ports by host, each group sorted and without repeats.
pub fn group_ports(pairs: &[(&str, u16)]) -> (r: Vec<(String, Vec<u16>)>)
    ensures
        groups_ports_of(r@, pairs@),
{
    let mut g: Vec<(String, Vec<u16>)> = Vec::new();
    let n = pairs.len();
    let mut i: usize = 0;
    assert(group_keys(g@).to_set() =~= pair_hosts_of(pairs@.take(0)).to_set());
    while i < n
        invariant
            i <= n,
            n == pairs@.len(),
            groups_ports_of(g@, pairs@.take(i as int)),
        decreases n - i,
    {
        let ghost pre = pairs@.take(i as int);
        let ghost post = pairs@.take(i + 1);
        let (host, port) = pairs[i];
        assert(post =~= pre.push((host, port)));
        assert(pair_hosts_of(post) =~= pair_hosts_of(pre).push(host@));
        let key = host.to_owned();
        let ghost old_g = g@;
        assert forall|h: Seq<char>, q: u16| #[trigger] ports_of_host(post, h).contains(q) <==> (
        ports_of_host(pre, h).contains(q) || (h == host@ && q == port)) by {
            if ports_of_host(post, h).contains(q) {
                let k = choose|k: int| 0 <= k < post.len() && #[trigger] post[k].0@ == h && post[k].1 == q;
                if k < pre.len() {
                    assert(pre[k] == post[k]);
                }
            }
            if ports_of_host(pre, h).contains(q) {
                let k = choose|k: int| 0 <= k < pre.len() && #[trigger] pre[k].0@ == h && pre[k].1 == q;
                assert(post[k] == pre[k]);
            }
            if h == host@ && q == port {
                assert(post[i as int].0@ == h);
            }
        }
        match crate::tally::find_key(&g, &key) {
            Some(k) => {
                crate::order::insert_increasing_u16(&mut g[k].1, port);
                assert(group_keys(g@) =~= group_keys(old_g));
                assert forall|j: int| 0 <= j < g@.len() implies (#[trigger] g@[j].1@).to_set()
                    == ports_of_host(post, g@[j].0@) by {
                    if j != k {
                        assert(g@[j] == old_g[j]);
                        assert(old_g[j].0@ != host@);
                        assert(ports_of_host(post, g@[j].0@) =~= ports_of_host(pre, g@[j].0@));
                    } else {
                        assert(ports_of_host(post, host@) =~= ports_of_host(pre, host@).insert(port));
                    }
                }
                assert forall|j: int| 0 <= j < g@.len() implies increasing_u16(#[trigger] g@[j].1@) by {
                    if j != k {
                        assert(g@[j] == old_g[j]);
                    }
                }
                assert(group_keys(g@).contains(host@)) by {
                    assert(group_keys(g@)[k as int] == host@);
                }
                assert(pair_hosts_of(post).to_set() =~= pair_hosts_of(pre).to_set().insert(host@));
                assert(group_keys(g@).to_set() =~= group_keys(old_g).to_set().insert(host@));
            },
            None => {
                let mut ports: Vec<u16> = Vec::new();
                ports.push(port);
                g.push((key, ports));
                assert(group_keys(g@) =~= group_keys(old_g).push(host@));
                assert forall|j: int| 0 <= j < g@.len() implies (#[trigger] g@[j].1@).to_set()
                    == ports_of_host(post, g@[j].0@) by {
                    if j < old_g.len() {
                        assert(g@[j] == old_g[j]);
                        assert(old_g[j].0@ != host@);
                        assert(ports_of_host(post, g@[j].0@) =~= ports_of_host(pre, g@[j].0@));
                    } else {
                        assert(!pair_hosts_of(pre).to_set().contains(host@)) by {
                            if pair_hosts_of(pre).to_set().contains(host@) {
                                assert(group_keys(old_g).to_set().contains(host@));
                                let m = choose|m: int| 0 <= m < old_g.len() && group_keys(old_g)[m] == host@;
                                assert(old_g[m].0@ == host@);
                            }
                        }
                        assert forall|q: u16| !ports_of_host(pre, host@).contains(q) by {
                            if ports_of_host(pre, host@).contains(q) {
                                let k = choose|k: int| 0 <= k < pre.len() && #[trigger] pre[k].0@ == host@ && pre[k].1 == q;
                                assert(pair_hosts_of(pre)[k] == host@);
                            }
                        }
                        assert(g@[j].1@ =~= seq![port]);
                        assert(seq![port].to_set() =~= ports_of_host(post, host@));
                    }
                }
                assert forall|a: int, b: int| 0 <= a < b < g@.len() implies #[trigger] g@[a].0@
                    != #[trigger] g@[b].0@ by {
                    if b == old_g.len() {
                        assert(old_g[a].0@ != host@);
                    }
                }
                assert(forall|j: int| 0 <= j < old_g.len() ==> g@[j] == old_g[j]);
                assert(pair_hosts_of(post).to_set() =~= pair_hosts_of(pre).to_set().insert(host@));
                assert(group_keys(g@).to_set() =~= group_keys(old_g).to_set().insert(host@));
            },
        }
        i = i + 1;
    }
    assert(pairs@.take(n as int) =~= pairs@);
    g
}


/// A scanned target: its address and, when known, its host name and
/// operating system.
#[derive(Debug)]
pub struct Target {
    pub ip: String,
    pub hostname: Option<String>,
    pub os: Option<String>,
}

/// ` (` name `)` when a value is present, else nothing.
pub open spec fn wrapped(o: Option<String>, open: Seq<char>, close: Seq<char>) -> Seq<char> {
    match o {
        Some(v) => open + v@ + close,
        None => seq![],
    }
}

/// A one-line summary: the address, then ` (host name)` and ` [system]`
/// for what is known.
pub fn summary(target: &Target) -> (r: String)
    ensures
        r@ == target.ip@ + wrapped(target.hostname, " ("@, ")"@) + wrapped(target.os, " ["@, "]"@),
{
    let mut result = target.ip.clone();
    match &target.hostname {
        Some(host) => {
            result.append(" (");
            result.append(host.as_str());
            result.append(")");
        },
        None => {},
    }
    match &target.os {
        Some(os) => {
            result.append(" [");
            result.append(os.as_str());
            result.append("]");
        },
        None => {},
    }
    result
}

/// Whether some port is below 1024.
pub fn has_privileged(ports: &[u16]) -> (r: bool)
    ensures
        r == (exists|i: int| 0 <= i < ports@.len() && #[trigger] ports@[i] < 1024),
{
    let n = ports.len();
    let mut i: usize = 0;
    while i < n
        invariant
            i <= n,
            n == ports@.len(),
            forall|j: int| 0 <= j < i ==> #[trigger] ports@[j] >= 1024,
        decreases n - i,
    {
        if ports[i] < 1024 {
            return true;
        }
        i = i + 1;
    }
    false
}

/// Whether every port is 1024 or above.
pub fn all_unprivileged(ports: &[u16]) -> (r: bool)
    ensures
        r == (forall|i: int| 0 <= i < ports@.len() ==> #[trigger] ports@[i] >= 1024),
{
    let n = ports.len();
    let mut i: usize = 0;
    while i < n
        invariant
            i <= n,
            n == ports@.len(),
            forall|j: int| 0 <= j < i ==> #[trigger] ports@[j] >= 1024,
        decreases n - i,
    {
        if ports[i] < 1024 {
            return false;
        }
        i = i + 1;
    }
    true
}

/// A port list has a privileged port exactly when not all its ports are
/// unprivileged.
pub proof fn lemma_privileged_complement(ports: Seq<u16>)
    ensures
        (exists|i: int| 0 <= i < ports.len() && #[trigger] ports[i] < 1024) == !(forall|i: int|
            0 <= i < ports.len() ==> #[trigger] ports[i] >= 1024),
{
}

/// The title of the first finding of severity `Critical`.
pub fn first_critical<'a>(findings: &[(&'a str, &'a str)]) -> (r: Option<&'a str>)
    ensures
        r is None <==> forall|i: int| 0 <= i < findings@.len() ==> #[trigger] findings@[i].1@ != "Critical"@,
        r matches Some(t) ==> exists|i: int|
            0 <= i < findings@.len() && #[trigger] findings@[i].1@ == "Critical"@ && t == findings@[i].0
                && forall|j: int| 0 <= j < i ==> #[trigger] findings@[j].1@ != "Critical"@,
{
    let n = findings.len();
    let mut i: usize = 0;
    while i < n
        invariant
            i <= n,
            n == findings@.len(),
            forall|j: int| 0 <= j < i ==> #[trigger] findings@[j].1@ != "Critical"@,
        decreases n - i,
    {
        let (title, severity) = findings[i];
        if crate::text::str_eq(severity, "Critical") {
            return Some(title);
        }
        i = i + 1;
    }
    None
}

/// How many services are marked open.
pub fn count_open(statuses: &[(&str, bool)]) -> (r: usize)
    ensures
        r == statuses@.filter(|s: (&str, bool)| s.1).len(),
{
    let n = statuses.len();
    let mut c: usize = 0;
    let mut i: usize = 0;
    while i < n
        invariant
            i <= n,
            n == statuses@.len(),
            c == statuses@.take(i as int).filter(|s: (&str, bool)| s.1).len(),
            c <= i,
        decreases n - i,
    {
        proof {
            statuses@.take(i as int).lemma_filter_push(statuses@[i as int], |s: (&str, bool)| s.1);
            assert(statuses@.take(i + 1) =~= statuses@.take(i as int).push(statuses@[i as int]));
        }
        if statuses[i].1 {
            c = c + 1;
        }
        i = i + 1;
    }
    assert(statuses@.take(n as int) =~= statuses@);
    c
}

/// The smaller of a count and a length.
pub open spec fn clamp(n: usize, len: nat) -> int {
    if n < len {
        n as int
    } else {
        len as int
    }
}

/// The first `n` hosts (all of them when there are fewer).
pub fn first_n<'a>(hosts: &[&'a str], n: usize) -> (r: Vec<&'a str>)
    ensures
        r@ == hosts@.take(clamp(n, hosts@.len())),
{
    let len = hosts.len();
    let k = if n < len {
        n
    } else {
        len
    };
    let mut r: Vec<&'a str> = Vec::new();
    let mut i: usize = 0;
    while i < k
        invariant
            i <= k <= len,
            len == hosts@.len(),
            r@ == hosts@.take(i as int),
        decreases k - i,
    {
        r.push(hosts[i]);
        assert(r@ =~= hosts@.take(i + 1));
        i = i + 1;
    }
    r
}

/// The hosts after the first `n` (none when there are at most `n`).
pub fn after_n<'a>(hosts: &[&'a str], n: usize) -> (r: Vec<&'a str>)
    ensures
        r@ == hosts@.skip(clamp(n, hosts@.len())),
{
    let len = hosts.len();
    let k = if n < len {
        n
    } else {
        len
    };
    let mut r: Vec<&'a str> = Vec::new();
    let mut i: usize = k;
    while i < len
        invariant
            k <= i <= len,
            len == hosts@.len(),
            r@ == hosts@.subrange(k as int, i as int),
        decreases len - i,
    {
        r.push(hosts[i]);
        assert(r@ =~= hosts@.subrange(k as int, i + 1));
        i = i + 1;
    }
    assert(hosts@.subrange(k as int, len as int) =~= hosts@.skip(k as int));
    r
}

/// The first `n` hosts followed by the hosts after them are all the hosts.
pub proof fn lemma_first_after_split(hosts: Seq<&str>, n: usize)
    ensures
        hosts.take(clamp(n, hosts.len())) + hosts.skip(clamp(n, hosts.len())) == hosts,
{
    assert(hosts.take(clamp(n, hosts.len())) + hosts.skip(clamp(n, hosts.len())) =~= hosts);
}

/// The sum of port numbers.
pub open spec fn port_sum(ports: Seq<u16>) -> nat
    decreases ports.len(),
{
    if ports.len() == 0 {
        0
    } else {
        port_sum(ports.drop_last()) + (ports.last() as nat)
    }
}

proof fn lemma_port_sum_prefix(ports: Seq<u16>, i: int)
    requires
        0 <= i <= ports.len(),
    ensures
        port_sum(ports.take(i)) <= port_sum(ports),
    decreases ports.len() - i,
{
    if i < ports.len() {
        lemma_port_sum_prefix(ports, i + 1);
        assert(ports.take(i + 1).drop_last() =~= ports.take(i));
    } else {
        assert(ports.take(i) =~= ports);
    }
}

/// The sum of the port numbers, which must fit in 16 bits.
pub fn total_ports(ports: &[u16]) -> (r: u16)
    requires
        port_sum(ports@) <= u16::MAX,
    ensures
        r == port_sum(ports@),
{
    let n = ports.len();
    let mut total: u16 = 0;
    let mut i: usize = 0;
    while i < n
        invariant
            i <= n,
            n == ports@.len(),
            port_sum(ports@) <= u16::MAX,
            total == port_sum(ports@.take(i as int)),
        decreases n - i,
    {
        proof {
            assert(ports@.take(i + 1).drop_last() =~= ports@.take(i as int));
            lemma_port_sum_prefix(ports@, i + 1);
        }
        total = total + ports[i];
        i = i + 1;
    }
    assert(ports@.take(n as int) =~= ports@);
    total
}

/// The lowest port, if there is any.
pub fn lowest_port(ports: &[u16]) -> (r: Option<u16>)
    ensures
        r is None <==> ports@.len() == 0,
        r matches Some(m) ==> ports@.contains(m) && forall|i: int| 0 <= i < ports@.len() ==> m <= #[trigger] ports@[i],
{
    let n = ports.len();
    if n == 0 {
        return None;
    }
    let mut m = ports[0];
    let mut i: usize = 1;
    while i < n
        invariant
            1 <= i <= n,
            n == ports@.len(),
            ports@.contains(m),
            forall|j: int| 0 <= j < i ==> m <= #[trigger] ports@[j],
        decreases n - i,
    {
        if ports[i] < m {
            m = ports[i];
        }
        i = i + 1;
    }
    Some(m)
}

/// The highest port, if there is any.
pub fn highest_port(ports: &[u16]) -> (r: Option<u16>)
    ensures
        r is None <==> ports@.len() == 0,
        r matches Some(m) ==> ports@.contains(m) && forall|i: int| 0 <= i < ports@.len() ==> #[trigger] ports@[i] <= m,
{
    let n = ports.len();
    if n == 0 {
        return None;
    }
    let mut m = ports[0];
    let mut i: usize = 1;
    while i < n
        invariant
            1 <= i <= n,
            n == ports@.len(),
            ports@.contains(m),
            forall|j: int| 0 <= j < i ==> #[trigger] ports@[j] <= m,
        decreases n - i,
    {
        if ports[i] > m {
            m = ports[i];
        }
        i = i + 1;
    }
    Some(m)
}

/// `name -> address` for names and addresses taken pairwise, as far as both
/// lists go.
pub fn pair_hosts(names: &[&str], ips: &[&str]) -> (r: Vec<String>)
    ensures
        r@.len() == if names@.len() < ips@.len() { names@.len() } else { ips@.len() },
        forall|i: int| 0 <= i < r@.len() ==> #[trigger] r@[i]@ == names@[i]@ + " -> "@ + ips@[i]@,
{
    let n = if names.len() < ips.len() {
        names.len()
    } else {
        ips.len()
    };
    let mut r: Vec<String> = Vec::new();
    let mut i: usize = 0;
    while i < n
        invariant
            i <= n,
            n <= names@.len(),
            n <= ips@.len(),
            n == if names@.len() < ips@.len() { names@.len() } else { ips@.len() },
            r@.len() == i,
            forall|k: int| 0 <= k < i ==> #[trigger] r@[k]@ == names@[k]@ + " -> "@ + ips@[k]@,
        decreases n - i,
    {
        r.push(crate::text::concat3(names[i], " -> ", ips[i]));
        i = i + 1;
    }
    r
}

/// The lines a filter for unprivileged ports reports: each port as it is
/// checked, followed by a second line when it is kept.
pub open spec fn filter_trace(ports: Seq<u16>) -> Seq<Seq<char>>
    decreases ports.len(),
{
    if ports.len() == 0 {
        seq![]
    } else {
        let p = ports.last();
        let checked = filter_trace(ports.drop_last()).push(" checking port: "@ + decimal(p as nat));
        if p >= 1024 {
            checked.push(" kept port: "@ + decimal(p as nat))
        } else {
            checked
        }
    }
}

/// The ports of 1024 and above, with the lines that report each check.
pub fn debug_filter(ports: &[u16]) -> (r: (Vec<String>, Vec<u16>))
    ensures
        views(r.0@) == filter_trace(ports@),
        r.1@ == ports@.filter(|p: u16| p >= 1024),
{
    let mut trace: Vec<String> = Vec::new();
    let mut kept: Vec<u16> = Vec::new();
    let n = ports.len();
    let mut i: usize = 0;
    while i < n
        invariant
            i <= n,
            n == ports@.len(),
            views(trace@) == filter_trace(ports@.take(i as int)),
            kept@ == ports@.take(i as int).filter(|p: u16| p >= 1024),
        decreases n - i,
    {
        let p = ports[i];
        proof {
            ports@.take(i as int).lemma_filter_push(p, |p: u16| p >= 1024);
            assert(ports@.take(i + 1) =~= ports@.take(i as int).push(p));
            assert(ports@.take(i + 1).drop_last() =~= ports@.take(i as int));
        }
        let mut line = " checking port: ".to_owned();
        crate::text::push_decimal(&mut line, p as u64);
        let ghost t0 = views(trace@);
        let ghost l0 = line@;
        trace.push(line);
        assert(views(trace@) =~= t0.push(l0));
        if p >= 1024 {
            let mut kept_line = " kept port: ".to_owned();
            crate::text::push_decimal(&mut kept_line, p as u64);
            let ghost t1 = views(trace@);
            let ghost l1 = kept_line@;
            trace.push(kept_line);
            assert(views(trace@) =~= t1.push(l1));
            kept.push(p);
        }
        i = i + 1;
    }
    assert(ports@.take(n as int) =~= ports@);
    (trace, kept)
}

/// The position of the first occurrence of a port.
pub fn find_port_index(ports: &[u16], target: u16) -> (r: Option<usize>)
    ensures
        r matches Some(i) ==> i < ports@.len() && ports@[i as int] == target && forall|j: int|
            0 <= j < i ==> #[trigger] ports@[j] != target,
        r is None ==> forall|j: int| 0 <= j < ports@.len() ==> #[trigger] ports@[j] != target,
{
    let n = ports.len();
    let mut i: usize = 0;
    while i < n
        invariant
            i <= n,
            n == ports@.len(),
            forall|j: int| 0 <= j < i ==> #[trigger] ports@[j] != target,
        decreases n - i,
    {
        if ports[i] == target {
            return Some(i);
        }
        i = i + 1;
    }
    None
}

/// The hosts as numbered lines: a tab, the position counted from 1 in
/// brackets, a space and the host.
pub fn numbered_lines(hosts: &[&str]) -> (r: Vec<String>)
    ensures
        r@.len() == hosts@.len(),
        forall|i: int| 0 <= i < r@.len() ==> #[trigger] r@[i]@ == "\t["@ + decimal((i + 1) as nat) + "] "@
            + hosts@[i]@,
{
    let n = hosts.len();
    let mut r: Vec<String> = Vec::new();
    let mut i: usize = 0;
    while i < n
        invariant
            i <= n,
            n == hosts@.len(),
            r@.len() == i,
            forall|k: int| 0 <= k < i ==> #[trigger] r@[k]@ == "\t["@ + decimal((k + 1) as nat) + "] "@
                + hosts@[k]@,
        decreases n - i,
    {
        let mut line = "\t[".to_owned();
        crate::text::push_decimal(&mut line, (i as u64) + 1);
        line.append("] ");
        line.append(hosts[i]);
        r.push(line);
        i = i + 1;
    }
    r
}

/// A copy of the ports.
pub fn copy_ports(ports: &[u16]) -> (r: Vec<u16>)
    ensures
        r@ == ports@,
{
    let mut r: Vec<u16> = Vec::new();
    let n = ports.len();
    let mut i: usize = 0;
    while i < n
        invariant
            i <= n,
            n == ports@.len(),
            r@ == ports@.take(i as int),
        decreases n - i,
    {
        r.push(ports[i]);
        assert(r@ =~= ports@.take(i + 1));
        i = i + 1;
    }
    assert(ports@.take(n as int) =~= ports@);
    r
}

/// Copies of the names.
pub fn clone_names(names: &[String]) -> (r: Vec<String>)
    ensures
        views(r@) == views(names@),
{
    let mut r: Vec<String> = Vec::new();
    let n = names.len();
    let mut i: usize = 0;
    while i < n
        invariant
            i <= n,
            n == names@.len(),
            views(r@) == views(names@).take(i as int),
        decreases n - i,
    {
        let ghost old_r = views(r@);
        r.push(names[i].clone());
        assert(views(r@) =~= old_r.push(names@[i as int]@));
        assert(views(names@).take(i + 1) =~= views(names@).take(i as int).push(names@[i as int]@));
        i = i + 1;
    }
    assert(views(names@).take(n as int) =~= views(names@));
    r
}

/// The name recorded for a key in a table of pairs: that of its first entry.
pub open spec fn table_lookup(table: Seq<(String, String)>, key: Seq<char>) -> Option<Seq<char>>
    decreases table.len(),
{
    if table.len() == 0 {
        None
    } else if table[0].0@ == key {
        Some(table[0].1@)
    } else {
        table_lookup(table.drop_first(), key)
    }
}

/// The answer line for one query: `query -> name`, or `query -> NOT FOUND`.
pub open spec fn lookup_line(table: Seq<(String, String)>, query: Seq<char>) -> Seq<char> {
    match table_lookup(table, query) {
        Some(name) => query + " -> "@ + name,
        None => query + " -> NOT FOUND"@,
    }
}

/// Finds the entry of a key in a table of pairs.
fn table_get(table: &[(String, String)], key: &str) -> (r: Option<String>)
    ensures
        opt_view(r) == table_lookup(table@, key@),
{
    let n = table.len();
    let mut i: usize = 0;
    while i < n
        invariant
            i <= n,
            n == table@.len(),
            table_lookup(table@, key@) == table_lookup(table@.skip(i as int), key@),
        decreases n - i,
    {
        if crate::text::str_eq(table[i].0.as_str(), key) {
            return Some(table[i].1.clone());
        }
        assert(table@.skip(i as int).drop_first() =~= table@.skip(i + 1));
        i = i + 1;
    }
    None
}

/// Answers each query from a table of address and host name pairs.
pub fn lookup_hosts(dns: &[(String, String)], queries: &[&str]) -> (r: Vec<String>)
    ensures
        r@.len() == queries@.len(),
        forall|i: int| 0 <= i < r@.len() ==> #[trigger] r@[i]@ == lookup_line(dns@, queries@[i]@),
{
    let n = queries.len();
    let mut r: Vec<String> = Vec::new();
    let mut i: usize = 0;
    while i < n
        invariant
            i <= n,
            n == queries@.len(),
            r@.len() == i,
            forall|k: int| 0 <= k < i ==> #[trigger] r@[k]@ == lookup_line(dns@, queries@[k]@),
        decreases n - i,
    {
        let query = queries[i];
        let line = match table_get(dns, query) {
            Some(name) => crate::text::concat3(query, " -> ", name.as_str()),
            None => crate::text::concat2(query, " -> NOT FOUND"),
        };
        r.push(line);
        i = i + 1;
    }
    r
}

/// The position of the last occurrence of a value (meaningful when it occurs).
pub open spec fn last_index(s: Seq<Seq<char>>, x: Seq<char>) -> int
    decreases s.len(),
{
    if s.len() == 0 {
        -1
    } else if s.last() == x {
        s.len() - 1
    } else {
        last_index(s.drop_last(), x)
    }
}

/// The keys of word statistics.
pub open spec fn stat_keys(t: Seq<(String, (usize, usize))>) -> Seq<Seq<char>> {
    t.map_values(|e: (String, (usize, usize))| e.0@)
}

/// `t` holds, for each distinct word of `words`, the number of its
/// occurrences and the position of its last occurrence.
pub open spec fn is_word_stats_of(t: Seq<(String, (usize, usize))>, words: Seq<Seq<char>>) -> bool {
    &&& forall|i: int, j: int| 0 <= i < j < t.len() ==> #[trigger] t[i].0@ != #[trigger] t[j].0@
    &&& stat_keys(t).to_set() == words.to_set()
    &&& forall|i: int| 0 <= i < t.len() ==> (#[trigger] t[i].1).0 == occurrences(words, t[i].0@)
    &&& forall|i: int| 0 <= i < t.len() ==> (#[trigger] t[i].1).1 == last_index(words, t[i].0@)
}

/// For each distinct word, how often it occurs and where it last occurs.
pub fn word_stats(words: &[&str]) -> (r: Vec<(String, (usize, usize))>)
    ensures
        is_word_stats_of(r@, str_views(words@)),
{
    let mut t: Vec<(String, (usize, usize))> = Vec::new();
    let n = words.len();
    let mut i: usize = 0;
    assert(stat_keys(t@).to_set() =~= str_views(words@).take(0).to_set());
    while i < n
        invariant
            i <= n,
            n == words@.len(),
            is_word_stats_of(t@, str_views(words@).take(i as int)),
        decreases n - i,
    {
        let ghost pre = str_views(words@).take(i as int);
        let ghost post = str_views(words@).take(i + 1);
        let w = words[i].to_owned();
        assert(post =~= pre.push(w@));
        assert(post.drop_last() =~= pre);
        let ghost old_t = t@;
        match crate::tally::find_key(&t, &w) {
            Some(k) => {
                proof {
                    crate::tally::lemma_occurrences_bound(pre, w@);
                }
                let key = t[k].0.clone();
                let (c, _) = t[k].1;
                t.set(k, (key, (c + 1, i)));
                assert(stat_keys(t@) =~= stat_keys(old_t));
                assert forall|j: int| 0 <= j < t@.len() implies (#[trigger] t@[j].1).0 == occurrences(
                    post,
                    t@[j].0@,
                ) && t@[j].1.1 == last_index(post, t@[j].0@) by {
                    if j != k {
                        assert(old_t[j].0@ != old_t[k as int].0@);
                    }
                }
                assert(post.to_set() =~= pre.to_set().insert(w@));
                assert(stat_keys(old_t).contains(w@)) by {
                    assert(stat_keys(old_t)[k as int] == w@);
                }
                assert(pre.to_set().insert(w@) =~= pre.to_set());
            },
            None => {
                let ghost wv = w@;
                t.push((w, (1, i)));
                assert(stat_keys(t@) =~= stat_keys(old_t).push(wv));
                assert(!pre.contains(wv)) by {
                    if pre.contains(wv) {
                        assert(stat_keys(old_t).to_set().contains(wv));
                        let m = choose|m: int| 0 <= m < old_t.len() && stat_keys(old_t)[m] == wv;
                        assert(old_t[m].0@ == wv);
                    }
                }
                proof {
                    crate::tally::lemma_occurrences_contains(pre, wv);
                }
                assert forall|a: int, b: int| 0 <= a < b < t@.len() implies #[trigger] t@[a].0@
                    != #[trigger] t@[b].0@ by {
                    if b == old_t.len() {
                        assert(old_t[a].0@ != wv);
                    }
                }
                assert forall|j: int| 0 <= j < t@.len() implies (#[trigger] t@[j].1).0 == occurrences(
                    post,
                    t@[j].0@,
                ) && t@[j].1.1 == last_index(post, t@[j].0@) by {
                    if j < old_t.len() {
                        assert(old_t[j].0@ != wv);
                    }
                }
                assert(post.to_set() =~= pre.to_set().insert(wv));
                assert(stat_keys(t@).to_set() =~= stat_keys(old_t).to_set().insert(wv));
            },
        }
        i = i + 1;
    }
    assert(str_views(words@).take(n as int) =~= str_views(words@));
    t
}

/// Whether a host name is present.
pub fn has_hostname(hostname: &Option<String>) -> (r: bool)
    ensures
        r == hostname.is_some(),
{
    hostname.is_some()
}

/// The primary host name if there is one, else the fallback.
pub fn best_hostname(primary: Option<&str>, fallback: Option<&str>) -> (r: Option<String>)
    ensures
        opt_view(r) == (if primary.is_some() {
            opt_str_view(primary)
        } else {
            opt_str_view(fallback)
        }),
{
    match primary {
        Some(p) => Some(p.to_owned()),
        None => match fallback {
            Some(f) => Some(f.to_owned()),
            None => None,
        },
    }
}

/// The host name, kept only when it ends with `.htb`.
pub fn htb_only<'a>(hostname: Option<&'a str>) -> (r: Option<&'a str>)
    ensures
        r == (match hostname {
            Some(h) => if ends_with_spec(h@, ".htb"@) {
                Some(h)
            } else {
                None
            },
            None => None,
        }),
{
    match hostname {
        Some(h) => if crate::text::ends_with(h, ".htb") {
            Some(h)
        } else {
            None
        },
        None => None,
    }
}

/// What a reconnaissance run collected: host addresses as seen (possibly
/// repeated), `(address, port, open)` observations and `(title, severity)`
/// findings.
#[derive(Debug)]
pub struct ReconData {
    pub hosts: Vec<String>,
    pub ports: Vec<(String, u16, bool)>,
    pub findings: Vec<(String, String)>,
}

/// The open ports among the observations, in order.
pub open spec fn open_ports_of(ports: Seq<(String, u16, bool)>) -> Seq<u16> {
    ports.filter(|e: (String, u16, bool)| e.2).map_values(|e: (String, u16, bool)| e.1)
}

/// The largest number of a list, 0 for an empty list.
pub open spec fn max_or_zero(s: Seq<u16>) -> u16
    decreases s.len(),
{
    if s.len() == 0 {
        0
    } else {
        let m = max_or_zero(s.drop_last());
        if s.last() > m {
            s.last()
        } else {
            m
        }
    }
}

/// The highest of the numbers is one of them and at least each of them; it
/// is 0 when there are none.
pub proof fn lemma_max_or_zero(s: Seq<u16>)
    ensures
        s.len() == 0 ==> max_or_zero(s) == 0,
        s.len() > 0 ==> s.contains(max_or_zero(s)),
        forall|i: int| 0 <= i < s.len() ==> s[i] <= max_or_zero(s),
    decreases s.len(),
{
    if s.len() > 0 {
        let rest = s.drop_last();
        lemma_max_or_zero(rest);
        assert forall|i: int| 0 <= i < s.len() implies s[i] <= max_or_zero(s) by {
            if i < rest.len() {
                assert(rest[i] == s[i]);
            }
        }
        if s.last() > max_or_zero(rest) {
            assert(s[s.len() - 1] == s.last());
        } else if rest.len() == 0 {
            assert(s[0] == s.last());
        } else {
            let k = choose|k: int| 0 <= k < rest.len() && rest[k] == max_or_zero(rest);
            assert(s[k] == rest[k]);
        }
    }
}

/// The severities of the findings.
pub open spec fn severities(findings: Seq<(String, String)>) -> Seq<Seq<char>> {
    findings.map_values(|f: (String, String)| f.1@)
}

/// The title of the first finding of severity `Critical`, if any.
pub open spec fn first_critical_title(findings: Seq<(String, String)>) -> Option<Seq<char>>
    decreases findings.len(),
{
    if findings.len() == 0 {
        None
    } else if findings[0].1@ == "Critical"@ {
        Some(findings[0].0@)
    } else {
        first_critical_title(findings.drop_first())
    }
}

/// The text of a recon summary.
pub open spec fn recon_summary_text(data: ReconData) -> Seq<char> {
    let open = open_ports_of(data.ports@);
    let sev = severities(data.findings@);
    "=== Recon Summary ===\nHosts: "@ + decimal(data.hosts@.len()) + " total, "@ + decimal(
        views(data.hosts@).to_set().len(),
    ) + " unique\nOpen ports: "@ + join_with(open.map_values(|p: u16| decimal(p as nat)), ", "@)
        + " ("@ + decimal(open.len()) + " total)\nHighest open port: "@ + decimal(
        max_or_zero(open) as nat,
    ) + "\nFindings: "@ + decimal(data.findings@.len()) + " total\n\tCritical: "@ + decimal(
        crate::tally::occurrences(sev, "Critical"@),
    ) + "\n\tHigh: "@ + decimal(crate::tally::occurrences(sev, "High"@)) + "\n\tLow: "@ + decimal(
        crate::tally::occurrences(sev, "Low"@),
    ) + "\nHas critical findings: "@ + (if sev.contains("Critical"@) {
        "YES"@
    } else {
        "NO"@
    }) + "\nFirst critical: "@ + (match first_critical_title(data.findings@) {
        Some(t) => t,
        None => "None"@,
    })
}

/// The open ports of the observations.
fn collect_open_ports(ports: &Vec<(String, u16, bool)>) -> (r: Vec<u16>)
    ensures
        r@ == open_ports_of(ports@),
{
    let mut r: Vec<u16> = Vec::new();
    let n = ports.len();
    let mut i: usize = 0;
    while i < n
        invariant
            i <= n,
            n == ports@.len(),
            r@ == ports@.take(i as int).filter(|e: (String, u16, bool)| e.2).map_values(
                |e: (String, u16, bool)| e.1,
            ),
        decreases n - i,
    {
        let ghost f0 = ports@.take(i as int).filter(|e: (String, u16, bool)| e.2);
        proof {
            ports@.take(i as int).lemma_filter_push(ports@[i as int], |e: (String, u16, bool)| e.2);
            assert(ports@.take(i + 1) =~= ports@.take(i as int).push(ports@[i as int]));
        }
        if ports[i].2 {
            r.push(ports[i].1);
            assert(r@ =~= f0.push(ports@[i as int]).map_values(|e: (String, u16, bool)| e.1));
        }
        i = i + 1;
    }
    assert(ports@.take(n as int) =~= ports@);
    r
}

/// The largest of the numbers, or 0.
fn max_or_default(s: &Vec<u16>) -> (r: u16)
    ensures
        r == max_or_zero(s@),
        s@.len() == 0 ==> r == 0,
        s@.len() > 0 ==> s@.contains(r),
        forall|i: int| 0 <= i < s@.len() ==> s@[i] <= r,
{
    proof {
        lemma_max_or_zero(s@);
    }
    let mut m: u16 = 0;
    let n = s.len();
    let mut i: usize = 0;
    while i < n
        invariant
            i <= n,
            n == s@.len(),
            m == max_or_zero(s@.take(i as int)),
        decreases n - i,
    {
        assert(s@.take(i + 1).drop_last() =~= s@.take(i as int));
        if s[i] > m {
            m = s[i];
        }
        i = i + 1;
    }
    assert(s@.take(n as int) =~= s@);
    m
}

/// The decimal renderings of the numbers.
fn port_texts(s: &Vec<u16>) -> (r: Vec<String>)
    ensures
        views(r@) == s@.map_values(|p: u16| decimal(p as nat)),
{
    let mut r: Vec<String> = Vec::new();
    let n = s.len();
    let mut i: usize = 0;
    while i < n
        invariant
            i <= n,
            n == s@.len(),
            views(r@) == s@.take(i as int).map_values(|p: u16| decimal(p as nat)),
        decreases n - i,
    {
        let t = crate::text::u64_text(s[i] as u64);
        let ghost old_r = views(r@);
        let ghost tv = t@;
        r.push(t);
        assert(views(r@) =~= old_r.push(tv));
        assert(s@.take(i + 1) =~= s@.take(i as int).push(s@[i as int]));
        i = i + 1;
    }
    assert(s@.take(n as int) =~= s@);
    r
}

/// The severities of the findings, copied.
fn severity_list(findings: &Vec<(String, String)>) -> (r: Vec<String>)
    ensures
        views(r@) == severities(findings@),
{
    let mut r: Vec<String> = Vec::new();
    let n = findings.len();
    let mut i: usize = 0;
    while i < n
        invariant
            i <= n,
            n == findings@.len(),
            views(r@) == severities(findings@.take(i as int)),
        decreases n - i,
    {
        let ghost old_r = views(r@);
        r.push(findings[i].1.clone());
        assert(views(r@) =~= old_r.push(findings@[i as int].1@));
        assert(severities(findings@.take(i + 1)) =~= severities(findings@.take(i as int)).push(
            findings@[i as int].1@,
        ));
        i = i + 1;
    }
    assert(findings@.take(n as int) =~= findings@);
    r
}

/// The title of the first critical finding, or `None`.
fn first_critical_owned(findings: &Vec<(String, String)>) -> (r: String)
    ensures
        r@ == (match first_critical_title(findings@) {
            Some(t) => t,
            None => "None"@,
        }),
{
    let n = findings.len();
    let mut i: usize = 0;
    while i < n
        invariant
            i <= n,
            n == findings@.len(),
            first_critical_title(findings@) == first_critical_title(findings@.skip(i as int)),
        decreases n - i,
    {
        if crate::text::str_eq(findings[i].1.as_str(), "Critical") {
            return findings[i].0.clone();
        }
        assert(findings@.skip(i as int).drop_first() =~= findings@.skip(i + 1));
        i = i + 1;
    }
    "None".to_owned()
}

/// The number of distinct strings in a list.
fn distinct_count(items: &Vec<String>) -> (r: usize)
    ensures
        r == views(items@).to_set().len(),
{
    let u = crate::order::sorted_unique(items);
    proof {
        let v = views(u@);
        assert(v.no_duplicates()) by {
            assert forall|i: int, j: int| 0 <= i < v.len() && 0 <= j < v.len() && i != j implies v[i]
                != v[j] by {
                if i < j {
                    crate::order::lemma_lex_irreflexive(v[i]);
                } else {
                    crate::order::lemma_lex_irreflexive(v[j]);
                }
            }
        }
        v.unique_seq_to_set();
    }
    u.len()
}

/// A report of a reconnaissance run: host totals, open ports, the highest
/// open port, findings by severity and the first critical finding.
pub fn recon_summary(data: &ReconData) -> (r: String)
    ensures
        r@ == recon_summary_text(*data),
{
    let host_total = data.hosts.len();
    let unique_hosts = distinct_count(&data.hosts);
    let open_ports = collect_open_ports(&data.ports);
    let highest = max_or_default(&open_ports);
    let total_open = open_ports.len();
    let total_findings = data.findings.len();
    let sev = severity_list(&data.findings);
    let critical = crate::tally::count_equal(&sev, "Critical");
    let high = crate::tally::count_equal(&sev, "High");
    let low = crate::tally::count_equal(&sev, "Low");
    let has_critical = if critical > 0 {
        "YES"
    } else {
        "NO"
    };
    proof {
        crate::tally::lemma_occurrences_contains(views(sev@), "Critical"@);
    }
    let first = first_critical_owned(&data.findings);
    let port_list = crate::text::join(&port_texts(&open_ports), ", ");
    let mut r = "=== Recon Summary ===\nHosts: ".to_owned();
    crate::text::push_decimal(&mut r, host_total as u64);
    r.append(" total, ");
    crate::text::push_decimal(&mut r, unique_hosts as u64);
    r.append(" unique\nOpen ports: ");
    r.append(port_list.as_str());
    r.append(" (");
    crate::text::push_decimal(&mut r, total_open as u64);
    r.append(" total)\nHighest open port: ");
    crate::text::push_decimal(&mut r, highest as u64);
    r.append("\nFindings: ");
    crate::text::push_decimal(&mut r, total_findings as u64);
    r.append(" total\n\tCritical: ");
    crate::text::push_decimal(&mut r, critical as u64);
    r.append("\n\tHigh: ");
    crate::text::push_decimal(&mut r, high as u64);
    r.append("\n\tLow: ");
    crate::text::push_decimal(&mut r, low as u64);
    r.append("\nHas critical findings: ");
    r.append(has_critical);
    r.append("\nFirst critical: ");
    r.append(first.as_str());
    r
}

/// Every port is either privileged (below 1024) or kept by the filter for
/// unprivileged ports, never both: the two lists together are as long as the
/// port list.
pub proof fn lemma_port_partition(ports: Seq<u16>)
    ensures
        ports.filter(|p: u16| p < 1024).len() + ports.filter(|p: u16| p >= 1024).len() == ports.len(),
    decreases ports.len(),
{
    if ports.len() > 0 {
        let d = ports.drop_last();
        lemma_port_partition(d);
        d.lemma_filter_push(ports.last(), |p: u16| p < 1024);
        d.lemma_filter_push(ports.last(), |p: u16| p >= 1024);
        assert(d.push(ports.last()) =~= ports);
    }
}

/// A join of non-empty entries is at least as long as its first entry.
proof fn lemma_join_nonempty(parts: Seq<Seq<char>>, sep: Seq<char>)
    requires
        parts.len() > 0,
        forall|i: int| 0 <= i < parts.len() ==> (#[trigger] parts[i]).len() > 0,
    ensures
        join_with(parts, sep).len() > 0,
    decreases parts.len(),
{
    if parts.len() > 1 {
        let d = parts.drop_last();
        assert forall|i: int| 0 <= i < d.len() implies (#[trigger] d[i]).len() > 0 by {
            assert(d[i] == parts[i]);
        }
        lemma_join_nonempty(d, sep);
    }
}

/// When no host name is empty, joining them gives the names separated by
/// `, `.
pub proof fn lemma_joined_hosts_is_join(hosts: Seq<Seq<char>>)
    requires
        forall|i: int| 0 <= i < hosts.len() ==> (#[trigger] hosts[i]).len() > 0,
    ensures
        joined_hosts(hosts) == join_with(hosts, ", "@),
    decreases hosts.len(),
{
    if hosts.len() > 0 {
        let d = hosts.drop_last();
        assert forall|i: int| 0 <= i < d.len() implies (#[trigger] d[i]).len() > 0 by {
            assert(d[i] == hosts[i]);
        }
        lemma_joined_hosts_is_join(d);
        if hosts.len() > 1 {
            lemma_join_nonempty(d, ", "@);
        } else {
            assert(hosts.last() == hosts[0]);
        }
    }
}

/// Each host name in upper case.
pub fn uppercase_all(hosts: &Vec<String>) -> (r: Vec<String>)
    ensures
        views(r@) == views(hosts@).map_values(|h: Seq<char>| upper_of(h)),
{
    let mut r: Vec<String> = Vec::new();
    let n = hosts.len();
    let mut i: usize = 0;
    while i < n
        invariant
            i <= n,
            n == hosts@.len(),
            views(r@) == views(hosts@).take(i as int).map_values(|h: Seq<char>| upper_of(h)),
        decreases n - i,
    {
        let u = crate::text::to_upper(hosts[i].as_str());
        let ghost old_r = views(r@);
        r.push(u);
        assert(views(r@) =~= old_r.push(upper_of(hosts@[i as int]@)));
        assert(views(hosts@).take(i + 1) =~= views(hosts@).take(i as int).push(hosts@[i as int]@));
        i = i + 1;
    }
    assert(views(hosts@).take(n as int) =~= views(hosts@));
    r
}

/// Each host name in square brackets.
pub fn bracket_all(hosts: Vec<String>) -> (r: Vec<String>)
    ensures
        views(r@) == views(hosts@).map_values(|h: Seq<char>| "["@ + h + "]"@),
{
    let mut r: Vec<String> = Vec::new();
    let n = hosts.len();
    let mut i: usize = 0;
    while i < n
        invariant
            i <= n,
            n == hosts@.len(),
            views(r@) == views(hosts@).take(i as int).map_values(|h: Seq<char>| "["@ + h + "]"@),
        decreases n - i,
    {
        let b = crate::text::concat3("[", hosts[i].as_str(), "]");
        let ghost old_r = views(r@);
        let ghost bv = b@;
        r.push(b);
        assert(views(r@) =~= old_r.push(bv));
        assert(views(hosts@).take(i + 1) =~= views(hosts@).take(i as int).push(hosts@[i as int]@));
        i = i + 1;
    }
    assert(views(hosts@).take(n as int) =~= views(hosts@));
    r
}

} // verus!
