//! Tallies of strings: how often each distinct string occurs in a list.
//!
//! A tally is a list of `(key, count)` pairs whose keys are pairwise
//! different; it answers what a map from string to count answers, and lists
//! its keys in the order in which they first occur.
use vstd::prelude::*;
use crate::text::views;

verus! {

broadcast use vstd::seq_lib::group_seq_properties;

/// The number of times `x` occurs in `s`.
pub open spec fn occurrences(s: Seq<Seq<char>>, x: Seq<char>) -> nat
    decreases s.len(),
{
    if s.len() == 0 {
        0
    } else {
        occurrences(s.drop_last(), x) + if s.last() == x {
            1nat
        } else {
            0nat
        }
    }
}

/// A value occurs at most as often as the list is long.
pub proof fn lemma_occurrences_bound(s: Seq<Seq<char>>, x: Seq<char>)
    ensures
        occurrences(s, x) <= s.len(),
    decreases s.len(),
{
    if s.len() > 0 {
        lemma_occurrences_bound(s.drop_last(), x);
    }
}

/// A value occurs in a list exactly when its count is positive.
pub proof fn lemma_occurrences_contains(s: Seq<Seq<char>>, x: Seq<char>)
    ensures
        (occurrences(s, x) > 0) == s.contains(x),
    decreases s.len(),
{
    if s.len() > 0 {
        lemma_occurrences_contains(s.drop_last(), x);
        if s.drop_last().contains(x) {
            let k = choose|k: int| 0 <= k < s.drop_last().len() && s.drop_last()[k] == x;
            assert(s[k] == x);
        }
        if s.contains(x) && s.last() != x {
            let k = choose|k: int| 0 <= k < s.len() && s[k] == x;
            assert(s.drop_last()[k] == x);
        }
    }
}

/// The keys of a tally.
pub open spec fn tally_keys(t: Seq<(String, usize)>) -> Seq<Seq<char>> {
    t.map_values(|e: (String, usize)| e.0@)
}

/// `t` tallies `items`: its keys are distinct, are exactly the values that
/// occur in `items`, and each comes with the number of its occurrences.
pub open spec fn is_tally_of(t: Seq<(String, usize)>, items: Seq<Seq<char>>) -> bool {
    &&& forall|i: int, j: int| 0 <= i < j < t.len() ==> #[trigger] t[i].0@ != #[trigger] t[j].0@
    &&& forall|i: int| 0 <= i < t.len() ==> #[trigger] t[i].1 == occurrences(items, t[i].0@)
    &&& forall|i: int| 0 <= i < t.len() ==> items.contains(#[trigger] t[i].0@)
    &&& forall|x: Seq<char>| items.contains(x) ==> #[trigger] tally_keys(t).contains(x)
}

/// The position of `key` among the keys of a tally, if it is there.
pub fn find_key<V>(t: &Vec<(String, V)>, key: &String) -> (r: Option<usize>)
    ensures
        r matches Some(i) ==> i < t@.len() && t@[i as int].0@ == key@,
        r is None ==> forall|i: int| 0 <= i < t@.len() ==> #[trigger] t@[i].0@ != key@,
{
    let n = t.len();
    let mut i: usize = 0;
    while i < n
        invariant
            i <= n,
            n == t@.len(),
            forall|k: int| 0 <= k < i ==> #[trigger] t@[k].0@ != key@,
        decreases n - i,
    {
        if t[i].0 == *key {
            return Some(i);
        }
        i = i + 1;
    }
    None
}

/// Counts how often each distinct string occurs in `items`.
pub fn tally(items: &Vec<String>) -> (r: Vec<(String, usize)>)
    ensures
        is_tally_of(r@, views(items@)),
{
    let mut t: Vec<(String, usize)> = Vec::new();
    let n = items.len();
    let mut i: usize = 0;
    while i < n
        invariant
            i <= n,
            n == items@.len(),
            is_tally_of(t@, views(items@.take(i as int))),
        decreases n - i,
    {
        let ghost prev = views(items@.take(i as int));
        let ghost cur = views(items@.take(i + 1));
        let x = &items[i];
        assert(cur =~= prev.push(x@));
        assert(cur.drop_last() == prev);
        let ghost old_t = t@;
        match find_key(&t, x) {
            Some(k) => {
                proof {
                    lemma_occurrences_bound(prev, x@);
                }
                let key = t[k].0.clone();
                let c = t[k].1;
                t.set(k, (key, c + 1));
                assert(tally_keys(t@) =~= tally_keys(old_t));
                assert forall|j: int| 0 <= j < t@.len() implies #[trigger] t@[j].1 == occurrences(
                    cur,
                    t@[j].0@,
                ) by {
                    if j != k {
                        assert(old_t[j].0@ != old_t[k as int].0@);
                    }
                }
                assert forall|j: int| 0 <= j < t@.len() implies cur.contains(#[trigger] t@[j].0@) by {
                    assert(prev.contains(old_t[j].0@));
                    let m = choose|m: int| 0 <= m < prev.len() && prev[m] == old_t[j].0@;
                    assert(cur[m] == prev[m]);
                }
                assert forall|y: Seq<char>| cur.contains(y) implies #[trigger] tally_keys(
                    t@,
                ).contains(y) by {
                    if y != x@ {
                        let j = choose|j: int| 0 <= j < cur.len() && cur[j] == y;
                        assert(prev[j] == y);
                    } else {
                        assert(tally_keys(t@)[k as int] == y);
                    }
                }
            },
            None => {
                t.push((x.clone(), 1));
                proof {
                    lemma_occurrences_contains(prev, x@);
                }
                assert(forall|j: int| 0 <= j < old_t.len() ==> #[trigger] old_t[j].0@ != x@);
                assert(!prev.contains(x@)) by {
                    if prev.contains(x@) {
                        assert(tally_keys(old_t).contains(x@));
                        let m = choose|m: int|
                            0 <= m < old_t.len() && tally_keys(old_t)[m] == x@;
                        assert(old_t[m].0@ == x@);
                    }
                }
                assert(t@[old_t.len() as int].0@ == x@);
                assert(occurrences(prev, x@) == 0);
                assert forall|a: int, b: int| 0 <= a < b < t@.len() implies #[trigger] t@[a].0@
                    != #[trigger] t@[b].0@ by {
                    if b == old_t.len() {
                        assert(old_t[a].0@ != x@);
                    }
                }
                assert forall|j: int| 0 <= j < t@.len() implies #[trigger] t@[j].1 == occurrences(
                    cur,
                    t@[j].0@,
                ) by {
                    if j < old_t.len() {
                        assert(old_t[j].0@ != x@);
                    }
                }
                assert forall|j: int| 0 <= j < t@.len() implies cur.contains(#[trigger] t@[j].0@) by {
                    if j < old_t.len() {
                        assert(prev.contains(old_t[j].0@));
                        let m = choose|m: int| 0 <= m < prev.len() && prev[m] == old_t[j].0@;
                        assert(cur[m] == prev[m]);
                    } else {
                        assert(cur[i as int] == x@);
                    }
                }
                assert forall|y: Seq<char>| cur.contains(y) implies #[trigger] tally_keys(
                    t@,
                ).contains(y) by {
                    if y != x@ {
                        let j = choose|j: int| 0 <= j < cur.len() && cur[j] == y;
                        assert(prev[j] == y);
                        assert(tally_keys(old_t).contains(y));
                        let m = choose|m: int|
                            0 <= m < old_t.len() && tally_keys(old_t)[m] == y;
                        assert(tally_keys(t@)[m] == y);
                    } else {
                        assert(tally_keys(t@)[old_t.len() as int] == y);
                    }
                }
            },
        }
        i = i + 1;
    }
    assert(items@.take(n as int) =~= items@);
    t
}

/// How often `key` was counted by a tally: 0 when it is not a key.
pub fn tally_get(t: &Vec<(String, usize)>, key: &str) -> (r: usize)
    ensures
        (exists|i: int| 0 <= i < t@.len() && #[trigger] t@[i].0@ == key@ && t@[i].1 == r) || (r
            == 0 && forall|i: int| 0 <= i < t@.len() ==> #[trigger] t@[i].0@ != key@),
{
    let k = key.to_owned();
    match find_key(t, &k) {
        Some(i) => t[i].1,
        None => 0,
    }
}

/// What a tally answers for a key, read from its specification: the number
/// of occurrences, which is 0 for a value that does not occur.
pub proof fn lemma_tally_get(t: Seq<(String, usize)>, items: Seq<Seq<char>>, key: Seq<char>, r: usize)
    requires
        is_tally_of(t, items),
        (exists|i: int| 0 <= i < t.len() && #[trigger] t[i].0@ == key && t[i].1 == r) || (r == 0
            && forall|i: int| 0 <= i < t.len() ==> #[trigger] t[i].0@ != key),
    ensures
        r == occurrences(items, key),
{
    lemma_occurrences_contains(items, key);
    if items.contains(key) {
        assert(tally_keys(t).contains(key));
        let m = choose|m: int| 0 <= m < t.len() && tally_keys(t)[m] == key;
        assert(t[m].0@ == key);
    }
}

/// Counts the entries of `items` equal to `key`.
pub fn count_equal(items: &Vec<String>, key: &str) -> (r: usize)
    ensures
        r == occurrences(views(items@), key@),
{
    let n = items.len();
    let mut c: usize = 0;
    let mut i: usize = 0;
    while i < n
        invariant
            i <= n,
            n == items@.len(),
            c == occurrences(views(items@.take(i as int)), key@),
        decreases n - i,
    {
        assert(views(items@.take(i + 1)) =~= views(items@.take(i as int)).push(items@[i as int]@));
        assert(views(items@.take(i + 1)).drop_last() =~= views(items@.take(i as int)));
        proof {
            lemma_occurrences_bound(views(items@.take(i as int)), key@);
        }
        if crate::text::str_eq(items[i].as_str(), key) {
            c = c + 1;
        }
        i = i + 1;
    }
    assert(items@.take(n as int) =~= items@);
    c
}

/// Whether a list of strings holds a given string.
pub fn contains_str(items: &Vec<String>, x: &String) -> (r: bool)
    ensures
        r == views(items@).contains(x@),
{
    let n = items.len();
    let mut i: usize = 0;
    while i < n
        invariant
            i <= n,
            n == items@.len(),
            forall|k: int| 0 <= k < i ==> #[trigger] items@[k]@ != x@,
        decreases n - i,
    {
        if items[i] == *x {
            assert(views(items@)[i as int] == x@);
            return true;
        }
        i = i + 1;
    }
    assert forall|k: int| 0 <= k < views(items@).len() implies #[trigger] views(items@)[k] != x@ by {
        assert(views(items@)[k] == items@[k]@);
    }
    false
}

/// The distinct strings of a list, each once, in the order in which they
/// first occur.
pub fn distinct_in_order(items: &Vec<String>) -> (r: Vec<String>)
    ensures
        views(r@).no_duplicates(),
        views(r@).to_set() == views(items@).to_set(),
{
    let mut r: Vec<String> = Vec::new();
    let n = items.len();
    let mut i: usize = 0;
    assert(views(r@).to_set() =~= views(items@.take(0)).to_set());
    while i < n
        invariant
            i <= n,
            n == items@.len(),
            views(r@).no_duplicates(),
            views(r@).to_set() == views(items@.take(i as int)).to_set(),
        decreases n - i,
    {
        let x = &items[i];
        let ghost old_r = views(r@);
        assert(views(items@.take(i + 1)) =~= views(items@.take(i as int)).push(x@));
        if !contains_str(&r, x) {
            r.push(x.clone());
            assert(views(r@) =~= old_r.push(x@));
            assert(views(r@).to_set() =~= old_r.to_set().insert(x@));
        } else {
            assert(old_r.to_set().insert(x@) =~= old_r.to_set());
        }
        i = i + 1;
    }
    assert(items@.take(n as int) =~= items@);
    r
}

/// The sum of the counts of a tally.
pub open spec fn counts_total(t: Seq<(String, usize)>) -> nat
    decreases t.len(),
{
    if t.len() == 0 {
        0
    } else {
        counts_total(t.drop_last()) + (t.last().1 as nat)
    }
}

/// The list with every occurrence of `k` left out.
pub open spec fn without(s: Seq<Seq<char>>, k: Seq<char>) -> Seq<Seq<char>>
    decreases s.len(),
{
    if s.len() == 0 {
        seq![]
    } else {
        let w = without(s.drop_last(), k);
        if s.last() == k {
            w
        } else {
            w.push(s.last())
        }
    }
}

proof fn lemma_without(s: Seq<Seq<char>>, k: Seq<char>)
    ensures
        without(s, k).len() + occurrences(s, k) == s.len(),
        occurrences(without(s, k), k) == 0,
        forall|y: Seq<char>| y != k ==> occurrences(#[trigger] without(s, k), y) == occurrences(s, y),
        forall|y: Seq<char>| #[trigger] without(s, k).contains(y) <==> (s.contains(y) && y != k),
    decreases s.len(),
{
    if s.len() > 0 {
        let d = s.drop_last();
        lemma_without(d, k);
        let w = without(d, k);
        assert forall|y: Seq<char>| #[trigger] without(s, k).contains(y) <==> (s.contains(y) && y
            != k) by {
            if without(s, k).contains(y) {
                let i = choose|i: int| 0 <= i < without(s, k).len() && without(s, k)[i] == y;
                if i < w.len() {
                    assert(w[i] == y);
                    assert(w.contains(y));
                    let j = choose|j: int| 0 <= j < d.len() && d[j] == y;
                    assert(s[j] == y);
                } else {
                    assert(s[s.len() - 1] == y);
                }
            }
            if s.contains(y) && y != k {
                let i = choose|i: int| 0 <= i < s.len() && s[i] == y;
                if i < d.len() {
                    assert(d[i] == y);
                    assert(w.contains(y));
                    let j = choose|j: int| 0 <= j < w.len() && w[j] == y;
                    assert(without(s, k)[j] == y);
                } else {
                    assert(without(s, k)[w.len() as int] == y);
                }
            }
        }
        if s.last() != k {
            assert(without(s, k).drop_last() =~= w);
        }
        assert forall|y: Seq<char>| y != k implies occurrences(#[trigger] without(s, k), y)
            == occurrences(s, y) by {
            assert(occurrences(without(d, k), y) == occurrences(d, y));
            assert(occurrences(s, y) == occurrences(d, y) + if s.last() == y {
                1nat
            } else {
                0nat
            });
            if s.last() != k {
                assert(without(s, k).drop_last() =~= w);
                assert(without(s, k).last() == s.last());
            }
        }
    }
}

/// The counts of a tally add up to the number of items: every item is
/// counted exactly once.
pub proof fn lemma_tally_total(t: Seq<(String, usize)>, items: Seq<Seq<char>>)
    requires
        is_tally_of(t, items),
    ensures
        counts_total(t) == items.len(),
    decreases t.len(),
{
    if t.len() == 0 {
        if items.len() > 0 {
            assert(items.contains(items[0]));
            assert(tally_keys(t).contains(items[0]));
        }
    } else {
        let k = t.last().0@;
        let d = t.drop_last();
        let rest = without(items, k);
        lemma_without(items, k);
        assert forall|i: int| 0 <= i < d.len() implies #[trigger] d[i].0@ != k by {
            assert(t[i].0@ != t[t.len() - 1].0@);
        }
        assert forall|x: Seq<char>| rest.contains(x) implies #[trigger] tally_keys(d).contains(x) by {
            assert(items.contains(x));
            assert(tally_keys(t).contains(x));
            let m = choose|m: int| 0 <= m < t.len() && tally_keys(t)[m] == x;
            assert(m != t.len() - 1);
            assert(tally_keys(d)[m] == x);
        }
        assert forall|i: int| 0 <= i < d.len() implies rest.contains(#[trigger] d[i].0@) by {
            assert(items.contains(t[i].0@));
        }
        assert forall|i: int| 0 <= i < d.len() implies #[trigger] d[i].1 == occurrences(rest, d[i].0@) by {
            assert(t[i].1 == occurrences(items, t[i].0@));
        }
        lemma_tally_total(d, rest);
    }
}

} // verus!
