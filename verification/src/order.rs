//! Ordering of strings and numbers, and the sorted collections built on it.
use vstd::prelude::*;
use crate::text::views;

verus! {

broadcast use vstd::seq_lib::group_seq_properties;

// ---------------------------------------------------------------------------
// Lexicographic order of character sequences
// ---------------------------------------------------------------------------

/// `a` sorts strictly before `b`: at the first position where they differ
/// `a` has the smaller character, or `a` is a proper prefix of `b`. For
/// valid UTF-8 this is the byte order by which `String` is ordered.
pub open spec fn lex_lt(a: Seq<char>, b: Seq<char>) -> bool
    decreases a.len(),
{
    if a.len() == 0 {
        b.len() > 0
    } else if b.len() == 0 {
        false
    } else if a[0] != b[0] {
        (a[0] as int) < (b[0] as int)
    } else {
        lex_lt(a.drop_first(), b.drop_first())
    }
}

/// No sequence sorts before itself.
pub proof fn lemma_lex_irreflexive(a: Seq<char>)
    ensures
        !lex_lt(a, a),
    decreases a.len(),
{
    if a.len() > 0 {
        lemma_lex_irreflexive(a.drop_first());
    }
}

/// The order is transitive.
pub proof fn lemma_lex_transitive(a: Seq<char>, b: Seq<char>, c: Seq<char>)
    requires
        lex_lt(a, b),
        lex_lt(b, c),
    ensures
        lex_lt(a, c),
    decreases a.len(),
{
    if a.len() > 0 && b.len() > 0 && c.len() > 0 && a[0] == b[0] && b[0] == c[0] {
        lemma_lex_transitive(a.drop_first(), b.drop_first(), c.drop_first());
    }
}

/// Two different sequences are ordered one way or the other.
pub proof fn lemma_lex_total(a: Seq<char>, b: Seq<char>)
    requires
        a != b,
    ensures
        lex_lt(a, b) || lex_lt(b, a),
    decreases a.len(),
{
    if a.len() > 0 && b.len() > 0 && a[0] == b[0] {
        if a.drop_first() == b.drop_first() {
            assert(a =~= seq![a[0]] + a.drop_first());
            assert(b =~= seq![b[0]] + b.drop_first());
        }
        lemma_lex_total(a.drop_first(), b.drop_first());
    } else if a.len() > 0 && b.len() > 0 {
        assert(a[0] != b[0]);
        assert((a[0] as int) != (b[0] as int));
    } else if a.len() == 0 && b.len() == 0 {
        assert(a =~= b);
    }
}

/// Whether `a` sorts strictly before `b`.
pub fn str_lt(a: &str, b: &str) -> (r: bool)
    ensures
        r == lex_lt(a@, b@),
{
    let na = a.unicode_len();
    let nb = b.unicode_len();
    let mut i: usize = 0;
    while i < na && i < nb
        invariant
            i <= na,
            i <= nb,
            na == a@.len(),
            nb == b@.len(),
            lex_lt(a@, b@) == lex_lt(a@.skip(i as int), b@.skip(i as int)),
        decreases na - i,
    {
        let ca = a.get_char(i);
        let cb = b.get_char(i);
        let ghost sa = a@.skip(i as int);
        let ghost sb = b@.skip(i as int);
        assert(sa[0] == ca && sb[0] == cb);
        if ca != cb {
            return (ca as u32) < (cb as u32);
        }
        assert(sa.drop_first() =~= a@.skip(i + 1));
        assert(sb.drop_first() =~= b@.skip(i + 1));
        i = i + 1;
    }
    assert(a@.skip(i as int).len() == na - i);
    i == na && i < nb
}

// ---------------------------------------------------------------------------
// Strictly increasing sequences
// ---------------------------------------------------------------------------

/// Every entry sorts strictly before every later entry.
pub open spec fn strictly_sorted(s: Seq<Seq<char>>) -> bool {
    forall|i: int, j: int| 0 <= i < j < s.len() ==> lex_lt(#[trigger] s[i], #[trigger] s[j])
}

/// Every number is strictly below every later number.
pub open spec fn increasing_u16(s: Seq<u16>) -> bool {
    forall|i: int, j: int| 0 <= i < j < s.len() ==> #[trigger] s[i] < #[trigger] s[j]
}

/// Every number is at most every later number.
pub open spec fn sorted_i32(s: Seq<i32>) -> bool {
    forall|i: int, j: int| 0 <= i < j < s.len() ==> #[trigger] s[i] <= #[trigger] s[j]
}

/// Adds `x` to a strictly sorted list of strings, unless it is already there.
pub fn insert_sorted_unique(r: &mut Vec<String>, x: String)
    requires
        strictly_sorted(views(old(r)@)),
    ensures
        strictly_sorted(views(final(r)@)),
        views(final(r)@).to_set() == views(old(r)@).to_set().insert(x@),
{
    let ghost old_v = views(r@);
    let n = r.len();
    let mut j: usize = 0;
    while j < n && str_lt(r[j].as_str(), x.as_str())
        invariant
            j <= n,
            n == r@.len(),
            old_v == views(r@),
            forall|k: int| 0 <= k < j ==> lex_lt(#[trigger] old_v[k], x@),
        decreases n - j,
    {
        j = j + 1;
    }
    if j < n && r[j] == x {
        assert(old_v.contains(x@)) by {
            assert(old_v[j as int] == x@);
        }
        assert(old_v.to_set().insert(x@) =~= old_v.to_set());
        return;
    }
    proof {
        if j < n {
            lemma_lex_total(old_v[j as int], x@);
        }
    }
    let ghost xv = x@;
    r.insert(j, x);
    let ghost new_v = views(r@);
    assert(new_v =~= old_v.insert(j as int, xv));
    assert forall|a: int, b: int| 0 <= a < b < new_v.len() implies lex_lt(
        #[trigger] new_v[a],
        #[trigger] new_v[b],
    ) by {
        if a < j && b == j {
        } else if a < j && b > j {
            assert(new_v[b] == old_v[b - 1]);
        } else if a == j {
            assert(new_v[b] == old_v[b - 1]);
            if b - 1 > j {
                lemma_lex_transitive(xv, old_v[j as int], old_v[b - 1]);
            }
        } else if a > j {
            assert(new_v[a] == old_v[a - 1]);
            assert(new_v[b] == old_v[b - 1]);
        }
    }
    assert forall|y: Seq<char>| #[trigger] new_v.to_set().contains(y) <==> old_v.to_set().insert(
        xv,
    ).contains(y) by {
        if new_v.contains(y) {
            let k = choose|k: int| 0 <= k < new_v.len() && new_v[k] == y;
            if k < j {
                assert(old_v[k] == y);
            } else if k > j {
                assert(old_v[k - 1] == y);
            }
        }
        if old_v.contains(y) {
            let k = choose|k: int| 0 <= k < old_v.len() && old_v[k] == y;
            if k < j {
                assert(new_v[k] == y);
            } else {
                assert(new_v[k + 1] == y);
            }
        }
        if y == xv {
            assert(new_v[j as int] == y);
        }
    }
    assert(new_v.to_set() =~= old_v.to_set().insert(xv));
}

/// The distinct strings of a list, in increasing order (what sorting and
/// then removing adjacent duplicates gives).
pub fn sorted_unique(items: &Vec<String>) -> (r: Vec<String>)
    ensures
        strictly_sorted(views(r@)),
        views(r@).to_set() == views(items@).to_set(),
{
    let mut r: Vec<String> = Vec::new();
    let n = items.len();
    let mut i: usize = 0;
    assert(views(r@).to_set() =~= views(items@.take(0)).to_set());
    while i < n
        invariant
            i <= n,
            n == items@.len(),
            strictly_sorted(views(r@)),
            views(r@).to_set() == views(items@.take(i as int)).to_set(),
        decreases n - i,
    {
        let x = items[i].clone();
        insert_sorted_unique(&mut r, x);
        assert(views(items@.take(i + 1)) =~= views(items@.take(i as int)).push(items@[i as int]@));
        i = i + 1;
    }
    assert(items@.take(n as int) =~= items@);
    r
}

/// Adds `x` to a strictly increasing list of numbers, unless it is already
/// there.
pub fn insert_increasing_u16(r: &mut Vec<u16>, x: u16)
    requires
        increasing_u16(old(r)@),
    ensures
        increasing_u16(final(r)@),
        final(r)@.to_set() == old(r)@.to_set().insert(x),
{
    let ghost old_v = r@;
    let n = r.len();
    let mut j: usize = 0;
    while j < n && r[j] < x
        invariant
            j <= n,
            n == r@.len(),
            old_v == r@,
            forall|k: int| 0 <= k < j ==> #[trigger] old_v[k] < x,
        decreases n - j,
    {
        j = j + 1;
    }
    if j < n && r[j] == x {
        assert(old_v.to_set().insert(x) =~= old_v.to_set()) by {
            assert(old_v.contains(x));
        }
        return;
    }
    r.insert(j, x);
    let ghost new_v = r@;
    assert(new_v =~= old_v.insert(j as int, x));
    assert forall|a: int, b: int| 0 <= a < b < new_v.len() implies #[trigger] new_v[a]
        < #[trigger] new_v[b] by {
        if a < j && b > j {
            assert(new_v[b] == old_v[b - 1]);
        } else if a == j && b > j {
            assert(new_v[b] == old_v[b - 1]);
        } else if a > j {
            assert(new_v[a] == old_v[a - 1]);
            assert(new_v[b] == old_v[b - 1]);
        }
    }
    assert forall|y: u16| #[trigger] new_v.to_set().contains(y) <==> old_v.to_set().insert(
        x,
    ).contains(y) by {
        if new_v.contains(y) {
            let k = choose|k: int| 0 <= k < new_v.len() && new_v[k] == y;
            if k < j {
                assert(old_v[k] == y);
            } else if k > j {
                assert(old_v[k - 1] == y);
            }
        }
        if old_v.contains(y) {
            let k = choose|k: int| 0 <= k < old_v.len() && old_v[k] == y;
            if k < j {
                assert(new_v[k] == y);
            } else {
                assert(new_v[k + 1] == y);
            }
        }
        if y == x {
            assert(new_v[j as int] == y);
        }
    }
    assert(new_v.to_set() =~= old_v.to_set().insert(x));
}

/// The distinct numbers of a list, in increasing order (what sorting and
/// then removing adjacent duplicates gives).
pub fn increasing_unique_u16(items: &Vec<u16>) -> (r: Vec<u16>)
    ensures
        increasing_u16(r@),
        r@.to_set() == items@.to_set(),
{
    let mut r: Vec<u16> = Vec::new();
    let n = items.len();
    let mut i: usize = 0;
    assert(r@.to_set() =~= items@.take(0).to_set());
    while i < n
        invariant
            i <= n,
            n == items@.len(),
            increasing_u16(r@),
            r@.to_set() == items@.take(i as int).to_set(),
        decreases n - i,
    {
        insert_increasing_u16(&mut r, items[i]);
        assert(items@.take(i + 1) =~= items@.take(i as int).push(items@[i as int]));
        i = i + 1;
    }
    assert(items@.take(n as int) =~= items@);
    r
}

/// The multiset of a sequence with one element inserted gains that element.
proof fn lemma_insert_multiset(s: Seq<i32>, j: int, x: i32)
    requires
        0 <= j <= s.len(),
    ensures
        s.insert(j, x).to_multiset() == s.to_multiset().insert(x),
{
    broadcast use vstd::multiset::group_multiset_axioms;
    broadcast use vstd::seq_lib::group_to_multiset_ensures;

    let t = s.insert(j, x);
    assert(t.remove(j) =~= s);
    assert(t[j] == x);
    assert(t.remove(j).to_multiset() =~= t.to_multiset().remove(x));
    assert(t.to_multiset().count(x) > 0) by {
        assert(t.contains(x));
    }
    assert(t.to_multiset() =~= s.to_multiset().insert(x));
}

/// Sorts a list of numbers into non-decreasing order, keeping every entry.
pub fn sort_i32(data: &mut Vec<i32>)
    ensures
        sorted_i32(final(data)@),
        final(data)@.to_multiset() == old(data)@.to_multiset(),
{
    broadcast use vstd::seq_lib::group_to_multiset_ensures;

    let mut r: Vec<i32> = Vec::new();
    let n = data.len();
    let mut i: usize = 0;
    assert(r@.to_multiset() =~= data@.take(0).to_multiset()) by {
        broadcast use vstd::multiset::group_multiset_axioms;

        assert(data@.take(0) =~= Seq::<i32>::empty());
        assert(r@ =~= Seq::<i32>::empty());
    }
    while i < n
        invariant
            i <= n,
            n == data@.len(),
            sorted_i32(r@),
            r@.to_multiset() == data@.take(i as int).to_multiset(),
        decreases n - i,
    {
        let x = data[i];
        let m = r.len();
        let mut j: usize = 0;
        while j < m && r[j] <= x
            invariant
                j <= m,
                m == r@.len(),
                forall|k: int| 0 <= k < j ==> #[trigger] r@[k] <= x,
            decreases m - j,
        {
            j = j + 1;
        }
        let ghost old_r = r@;
        r.insert(j, x);
        proof {
            lemma_insert_multiset(old_r, j as int, x);
            assert(data@.take(i + 1) =~= data@.take(i as int).push(x));
            assert(r@ =~= old_r.insert(j as int, x));
            assert forall|a: int, b: int| 0 <= a < b < r@.len() implies #[trigger] r@[a]
                <= #[trigger] r@[b] by {
                if a < j && b > j {
                    assert(r@[b] == old_r[b - 1]);
                } else if a == j && b > j {
                    assert(r@[b] == old_r[b - 1]);
                } else if a > j {
                    assert(r@[a] == old_r[a - 1]);
                    assert(r@[b] == old_r[b - 1]);
                }
            }
        }
        i = i + 1;
    }
    assert(data@.take(n as int) =~= data@);
    *data = r;
}

} // verus!
