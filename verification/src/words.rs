//! Word counts of scanner output, and the small text results around them.
use vstd::prelude::*;
use crate::text::{decimal, lower_of, views, words_of};
use crate::tally::{is_tally_of, occurrences};

verus! {

broadcast use vstd::seq_lib::group_seq_properties;

/// The canned output of a port scan.
pub fn get_output() -> (r: String)
    ensures
        r@ == "PORT   STATE SERVICE\n22/tcp open  ssh"@,
{
    let result = "PORT   STATE SERVICE\n22/tcp open  ssh".to_owned();
    result
}

/// The words of a text, each in lower case.
pub open spec fn lowered_words(text: Seq<char>) -> Seq<Seq<char>> {
    words_of(text).map_values(|w: Seq<char>| lower_of(w))
}

/// How often each word of a text occurs, ignoring case: every distinct
/// lower-cased word once, with the number of its occurrences.
pub fn count_words(text: &str) -> (r: Vec<(String, usize)>)
    ensures
        is_tally_of(r@, lowered_words(text@)),
{
    let words = crate::text::split_words(text);
    let mut lowered: Vec<String> = Vec::new();
    let n = words.len();
    let mut i: usize = 0;
    while i < n
        invariant
            i <= n,
            n == words@.len(),
            views(words@) == words_of(text@),
            views(lowered@) == views(words@).take(i as int).map_values(|w: Seq<char>| lower_of(w)),
        decreases n - i,
    {
        let w = crate::text::to_lower(words[i].as_str());
        let ghost old_l = views(lowered@);
        lowered.push(w);
        assert(views(lowered@) =~= old_l.push(lower_of(words@[i as int]@)));
        assert(views(words@).take(i + 1) =~= views(words@).take(i as int).push(words@[i as int]@));
        assert(views(lowered@) =~= views(words@).take(i + 1).map_values(
            |w: Seq<char>| lower_of(w),
        ));
        i = i + 1;
    }
    assert(views(words@).take(n as int) =~= views(words@));
    crate::tally::tally(&lowered)
}

/// Counts the words of a file's contents, or hands on the error that reading
/// the file gave.
pub fn count_words_in_file<E>(contents: Result<String, E>) -> (r: Result<Vec<(String, usize)>, E>)
    ensures
        contents matches Err(e) ==> r == Err::<Vec<(String, usize)>, E>(e),
        contents matches Ok(text) ==> (r matches Ok(t) && is_tally_of(t@, lowered_words(text@))),
{
    match contents {
        Ok(text) => Ok(count_words(text.as_str())),
        Err(e) => Err(e),
    }
}

/// The two contents one after the other, or the first error met. The first
/// file's contents come in as read; the second file is read, by
/// `read_second`, only when the first read succeeded.
pub fn concat_files<E, F: FnOnce() -> Result<String, E>>(first: Result<String, E>, read_second: F) -> (r:
    Result<String, E>)
    requires
        first is Ok ==> call_requires(read_second, ()),
    ensures
        first matches Err(e) ==> r == Err::<String, E>(e),
        first matches Ok(a) ==> exists|second: Result<String, E>|
            #![trigger call_ensures(read_second, (), second)]
            call_ensures(read_second, (), second) && (second matches Err(e) ==> r == Err::<String, E>(
                e,
            )) && (second matches Ok(b) ==> (r matches Ok(c) && c@ == a@ + b@)),
{
    let a = match first {
        Ok(a) => a,
        Err(e) => return Err(e),
    };
    let second = read_second();
    let b = match second {
        Ok(b) => b,
        Err(e) => return Err(e),
    };
    let mut joined = a;
    joined.append(b.as_str());
    Ok(joined)
}

/// The verdict on a scan target: an error for an empty one, else its name
/// and its length in bytes.
pub fn validate_target(target: &str) -> (r: String)
    ensures
        target@.len() == 0 ==> r@ == "ERROR: empty target"@,
        target@.len() > 0 ==> r@ == "Target '"@ + target@ + "' is valid ("@ + decimal(target.len() as nat)
            + " chars)"@,
{
    if target.is_empty() {
        "ERROR: empty target".to_owned()
    } else {
        let mut r = "Target '".to_owned();
        r.append(target);
        r.append("' is valid (");
        let len = target.len();
        crate::text::push_decimal(&mut r, len as u64);
        r.append(" chars)");
        r
    }
}

/// The ports, each followed by a space.
pub open spec fn spaced_ports(ports: Seq<u16>) -> Seq<char>
    decreases ports.len(),
{
    if ports.len() == 0 {
        seq![]
    } else {
        spaced_ports(ports.drop_last()) + decimal(ports.last() as nat) + " "@
    }
}

/// The line that lists ports: `Ports: ` and each port followed by a space.
pub fn ports_line(ports: &[u16]) -> (r: String)
    ensures
        r@ == "Ports: "@ + spaced_ports(ports@),
{
    let mut r = "Ports: ".to_owned();
    let n = ports.len();
    let mut i: usize = 0;
    while i < n
        invariant
            i <= n,
            n == ports@.len(),
            r@ == "Ports: "@ + spaced_ports(ports@.take(i as int)),
        decreases n - i,
    {
        assert(ports@.take(i + 1).drop_last() =~= ports@.take(i as int));
        crate::text::push_decimal(&mut r, ports[i] as u64);
        r.append(" ");
        i = i + 1;
    }
    assert(ports@.take(n as int) =~= ports@);
    r
}

} // verus!
