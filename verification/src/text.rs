//! Text building blocks: decimal rendering, number parsing, splitting,
//! comparison and case mapping of strings.
use vstd::prelude::*;

verus! {

// ---------------------------------------------------------------------------
// Views of strings and lists of strings
// ---------------------------------------------------------------------------

/// The character sequences of a list of owned strings.
pub open spec fn views(v: Seq<String>) -> Seq<Seq<char>> {
    v.map_values(|s: String| s@)
}

/// The character sequences of a list of string slices.
pub open spec fn str_views(v: Seq<&str>) -> Seq<Seq<char>> {
    v.map_values(|s: &str| s@)
}

// ---------------------------------------------------------------------------
// Characters and case mapping (std's Unicode tables)
// ---------------------------------------------------------------------------

/// Whether a character is white space: it has the Unicode White_Space
/// property, as `char::is_whitespace` documents.
pub open spec fn is_space(c: char) -> bool {
    ||| '\u{9}' <= c <= '\u{d}'
    ||| c == ' '
    ||| c == '\u{85}'
    ||| c == '\u{a0}'
    ||| c == '\u{1680}'
    ||| '\u{2000}' <= c <= '\u{200a}'
    ||| c == '\u{2028}'
    ||| c == '\u{2029}'
    ||| c == '\u{202f}'
    ||| c == '\u{205f}'
    ||| c == '\u{3000}'
}

/// What `str::to_uppercase` returns for a character sequence.
pub uninterp spec fn upper_of(s: Seq<char>) -> Seq<char>;

/// What `str::to_lowercase` returns for a character sequence.
pub uninterp spec fn lower_of(s: Seq<char>) -> Seq<char>;

/// Whether a character is white space.
pub fn char_is_whitespace(c: char) -> (r: bool)
    ensures
        r == is_space(c),
{
    ('\u{9}' <= c && c <= '\u{d}') || c == ' ' || c == '\u{85}' || c == '\u{a0}' || c == '\u{1680}'
        || ('\u{2000}' <= c && c <= '\u{200a}') || c == '\u{2028}' || c == '\u{2029}' || c
        == '\u{202f}' || c == '\u{205f}' || c == '\u{3000}'
}

/// Calls `str::to_uppercase`; the result, fixed by the Unicode case tables,
/// is named `upper_of`. Nothing more about it is claimed.
#[verifier::external_body]
pub(crate) fn to_upper(s: &str) -> (r: String)
    ensures
        r@ == upper_of(s@),
{
    s.to_uppercase()
}

/// Calls `str::to_lowercase`; the result, fixed by the Unicode case tables,
/// is named `lower_of`. Nothing more about it is claimed.
#[verifier::external_body]
pub(crate) fn to_lower(s: &str) -> (r: String)
    ensures
        r@ == lower_of(s@),
{
    s.to_lowercase()
}

/// Calls `String::push`, which appends one character.
#[verifier::external_body]
pub(crate) fn push_char(s: &mut String, c: char)
    ensures
        final(s)@ == old(s)@.push(c),
{
    s.push(c);
}

/// An owned copy of a string slice.
pub fn owned(s: &str) -> (r: String)
    ensures
        r@ == s@,
{
    s.to_owned()
}

/// Whether two string slices hold the same characters.
pub fn str_eq(a: &str, b: &str) -> (r: bool)
    ensures
        r == (a@ == b@),
{
    let x = a.to_owned();
    let y = b.to_owned();
    x == y
}

/// The concatenation of two string slices.
pub fn concat2(a: &str, b: &str) -> (r: String)
    ensures
        r@ == a@ + b@,
{
    let mut r = a.to_owned();
    r.append(b);
    r
}

/// The concatenation of three string slices.
pub fn concat3(a: &str, b: &str, c: &str) -> (r: String)
    ensures
        r@ == a@ + b@ + c@,
{
    let mut r = a.to_owned();
    r.append(b);
    r.append(c);
    r
}

/// The concatenation of four string slices.
pub fn concat4(a: &str, b: &str, c: &str, d: &str) -> (r: String)
    ensures
        r@ == a@ + b@ + c@ + d@,
{
    let mut r = a.to_owned();
    r.append(b);
    r.append(c);
    r.append(d);
    r
}

// ---------------------------------------------------------------------------
// Decimal rendering of integers (what `{}` prints for an integer)
// ---------------------------------------------------------------------------

/// The character of a decimal digit.
pub open spec fn digit_char(d: nat) -> char {
    if d == 0 {
        '0'
    } else if d == 1 {
        '1'
    } else if d == 2 {
        '2'
    } else if d == 3 {
        '3'
    } else if d == 4 {
        '4'
    } else if d == 5 {
        '5'
    } else if d == 6 {
        '6'
    } else if d == 7 {
        '7'
    } else if d == 8 {
        '8'
    } else {
        '9'
    }
}

/// The decimal digits of a natural number, most significant first, without
/// leading zeros.
pub open spec fn decimal(n: nat) -> Seq<char>
    decreases n,
{
    if n < 10 {
        seq![digit_char(n)]
    } else {
        decimal(n / 10).push(digit_char(n % 10))
    }
}

/// The decimal rendering of an integer: a minus sign before the digits of a
/// negative one.
pub open spec fn signed_decimal(n: int) -> Seq<char> {
    if n < 0 {
        seq!['-'] + decimal((-n) as nat)
    } else {
        decimal(n as nat)
    }
}

fn digit_of(d: u64) -> (c: char)
    requires
        d < 10,
    ensures
        c == digit_char(d as nat),
{
    if d == 0 {
        '0'
    } else if d == 1 {
        '1'
    } else if d == 2 {
        '2'
    } else if d == 3 {
        '3'
    } else if d == 4 {
        '4'
    } else if d == 5 {
        '5'
    } else if d == 6 {
        '6'
    } else if d == 7 {
        '7'
    } else if d == 8 {
        '8'
    } else {
        '9'
    }
}

/// Appends the decimal digits of `n` to `s`.
pub fn push_decimal(s: &mut String, n: u64)
    ensures
        final(s)@ == old(s)@ + decimal(n as nat),
    decreases n,
{
    if n >= 10 {
        push_decimal(s, n / 10);
    }
    let c = digit_of(n % 10);
    push_char(s, c);
    proof {
        assert(decimal(n as nat) == if n < 10 {
            seq![digit_char(n as nat)]
        } else {
            decimal((n / 10) as nat).push(digit_char((n % 10) as nat))
        });
    }
}

/// The decimal rendering of an unsigned integer.
pub fn u64_text(n: u64) -> (r: String)
    ensures
        r@ == decimal(n as nat),
{
    let mut s = String::new();
    push_decimal(&mut s, n);
    s
}

/// The decimal rendering of a signed integer.
pub fn i64_text(n: i64) -> (r: String)
    ensures
        r@ == signed_decimal(n as int),
{
    let mut s = String::new();
    if n < 0 {
        push_char(&mut s, '-');
        let m: u64 = if n == i64::MIN {
            9223372036854775808u64
        } else {
            (-n) as u64
        };
        push_decimal(&mut s, m);
    } else {
        push_decimal(&mut s, n as u64);
    }
    s
}

// ---------------------------------------------------------------------------
// Parsing an unsigned 16-bit number (what `str::parse::<u16>` accepts)
// ---------------------------------------------------------------------------

/// Whether a character is an ASCII decimal digit.
pub open spec fn is_digit(c: char) -> bool {
    '0' <= c && c <= '9'
}

/// The value of a digit character.
pub open spec fn digit_value(c: char) -> nat {
    ((c as int) - ('0' as int)) as nat
}

/// The value of a sequence of decimal digits.
pub open spec fn digits_value(s: Seq<char>) -> nat
    decreases s.len(),
{
    if s.len() == 0 {
        0
    } else {
        digits_value(s.drop_last()) * 10 + digit_value(s.last())
    }
}

/// The digits that follow an optional leading `+`.
pub open spec fn unsigned_body(s: Seq<char>) -> Seq<char> {
    if s.len() > 0 && s[0] == '+' {
        s.drop_first()
    } else {
        s
    }
}

/// The result of `str::parse::<u16>`: an optional `+` followed by at least
/// one decimal digit, whose value fits in 16 bits.
pub open spec fn parse_u16_spec(s: Seq<char>) -> Option<u16> {
    let body = unsigned_body(s);
    if body.len() > 0 && (forall|i: int| 0 <= i < body.len() ==> is_digit(#[trigger] body[i]))
        && digits_value(body) <= 65535 {
        Some(digits_value(body) as u16)
    } else {
        None
    }
}

proof fn lemma_saturate_step(v: nat, d: nat)
    requires
        d < 10,
    ensures
        (if v < 65536 { v } else { 65536nat }) * 10 + d >= 65536 ==> v * 10 + d >= 65536,
        (if v < 65536 { v } else { 65536nat }) * 10 + d < 65536 ==> v * 10 + d == (if v
            < 65536 {
            v
        } else {
            65536nat
        }) * 10 + d,
        v * 10 + d >= 65536 ==> (if v < 65536 { v } else { 65536nat }) * 10 + d >= 65536,
{
    if v >= 65536 {
        assert(v * 10 >= 655360) by (nonlinear_arith)
            requires
                v >= 65536,
        ;
    }
}

/// Parses a port number the way `str::parse::<u16>` does.
pub fn parse_u16(s: &str) -> (r: Option<u16>)
    ensures
        r == parse_u16_spec(s@),
{
    let n = s.unicode_len();
    let mut start: usize = 0;
    if n > 0 && s.get_char(0) == '+' {
        start = 1;
    }
    let ghost body = unsigned_body(s@);
    assert(body =~= s@.subrange(start as int, n as int));
    if start >= n {
        assert(body.len() == 0);
        return None;
    }
    // The value read so far, saturated at 65536.
    let mut acc: u32 = 0;
    let mut i: usize = start;
    while i < n
        invariant
            start <= i <= n,
            n == s@.len(),
            body =~= s@.subrange(start as int, n as int),
            body == unsigned_body(s@),
            forall|j: int| 0 <= j < i - start ==> is_digit(#[trigger] body[j]),
            acc == (if digits_value(body.take(i - start)) < 65536 {
                digits_value(body.take(i - start))
            } else {
                65536nat
            }),
        decreases n - i,
    {
        let c = s.get_char(i);
        if !('0' <= c && c <= '9') {
            assert(!is_digit(body[i - start]));
            return None;
        }
        let d: u32 = (c as u32) - ('0' as u32);
        let ghost prefix = body.take(i - start);
        assert(body.take(i + 1 - start).drop_last() =~= prefix);
        assert(body.take(i + 1 - start).last() == c);
        proof {
            lemma_saturate_step(digits_value(prefix), d as nat);
        }
        let next = acc * 10 + d;
        acc = if next >= 65536 {
            65536
        } else {
            next
        };
        i = i + 1;
    }
    assert(body.take(n - start) =~= body);
    if acc >= 65536 {
        None
    } else {
        Some(acc as u16)
    }
}

// ---------------------------------------------------------------------------
// Splitting
// ---------------------------------------------------------------------------

/// The words of a text: its maximal runs of non-whitespace characters, in
/// order (what `str::split_whitespace` yields).
pub open spec fn words_of(s: Seq<char>) -> Seq<Seq<char>>
    decreases s.len(),
{
    if s.len() == 0 {
        seq![]
    } else {
        let prev = words_of(s.drop_last());
        let c = s.last();
        if is_space(c) {
            prev
        } else if s.len() >= 2 && !is_space(s[s.len() - 2]) {
            prev.update(prev.len() - 1, prev.last().push(c))
        } else {
            prev.push(seq![c])
        }
    }
}

/// The fields of a text between occurrences of a separator (what
/// `str::split` with a character yields): always at least one field.
pub open spec fn fields_of(s: Seq<char>, sep: char) -> Seq<Seq<char>>
    decreases s.len(),
{
    if s.len() == 0 {
        seq![seq![]]
    } else {
        let prev = fields_of(s.drop_last(), sep);
        if s.last() == sep {
            prev.push(seq![])
        } else {
            prev.update(prev.len() - 1, prev.last().push(s.last()))
        }
    }
}

/// A text always has at least one field.
pub proof fn lemma_fields_nonempty(s: Seq<char>, sep: char)
    ensures
        fields_of(s, sep).len() >= 1,
    decreases s.len(),
{
    if s.len() > 0 {
        lemma_fields_nonempty(s.drop_last(), sep);
    }
}

/// Splits a text into its whitespace-separated words.
pub fn split_words(s: &str) -> (r: Vec<String>)
    ensures
        views(r@) == words_of(s@),
{
    let n = s.unicode_len();
    let mut words: Vec<String> = Vec::new();
    let mut cur = String::new();
    let mut in_word = false;
    let mut i: usize = 0;
    while i < n
        invariant
            i <= n,
            n == s@.len(),
            in_word <==> (i > 0 && !is_space(s@[i - 1])),
            in_word ==> views(words@).push(cur@) == words_of(s@.take(i as int)),
            in_word ==> cur@.len() > 0,
            !in_word ==> views(words@) == words_of(s@.take(i as int)),
        decreases n - i,
    {
        let c = s.get_char(i);
        let ghost pre = s@.take(i as int);
        let ghost post = s@.take(i + 1);
        let ghost old_words = views(words@);
        assert(post.drop_last() =~= pre);
        assert(post.last() == c);
        if char_is_whitespace(c) {
            if in_word {
                let ghost w = cur@;
                words.push(cur);
                cur = String::new();
                assert(views(words@) =~= old_words.push(w));
            }
            in_word = false;
        } else {
            if in_word {
                let ghost w = cur@;
                push_char(&mut cur, c);
                assert(old_words.push(w).update(old_words.len() as int, w.push(c)) =~= old_words.push(
                    cur@,
                ));
            } else {
                cur = String::new();
                push_char(&mut cur, c);
                assert(cur@ =~= seq![c]);
            }
            in_word = true;
        }
        i = i + 1;
    }
    if in_word {
        words.push(cur);
    }
    assert(s@.take(n as int) =~= s@);
    words
}

/// Splits a text at every occurrence of a separator character.
pub fn split_fields(s: &str, sep: char) -> (r: Vec<String>)
    ensures
        views(r@) == fields_of(s@, sep),
{
    let n = s.unicode_len();
    let mut fields: Vec<String> = Vec::new();
    let mut cur = String::new();
    let mut i: usize = 0;
    assert(s@.take(0) =~= Seq::<char>::empty());
    assert(views(fields@).push(cur@) =~= fields_of(s@.take(0), sep));
    while i < n
        invariant
            i <= n,
            n == s@.len(),
            views(fields@).push(cur@) == fields_of(s@.take(i as int), sep),
        decreases n - i,
    {
        let c = s.get_char(i);
        let ghost pre = s@.take(i as int);
        let ghost post = s@.take(i + 1);
        let ghost old_fields = views(fields@);
        let ghost w = cur@;
        assert(post.drop_last() =~= pre);
        assert(post.last() == c);
        if c == sep {
            fields.push(cur);
            cur = String::new();
            assert(views(fields@) =~= old_fields.push(w));
            assert(views(fields@).push(cur@) =~= old_fields.push(w).push(Seq::<char>::empty()));
        } else {
            push_char(&mut cur, c);
            assert(old_fields.push(w).update(old_fields.len() as int, w.push(c)) =~= old_fields.push(
                cur@,
            ));
        }
        i = i + 1;
    }
    fields.push(cur);
    assert(s@.take(n as int) =~= s@);
    fields
}

/// Whether `s` ends with `suffix`.
pub open spec fn ends_with_spec(s: Seq<char>, suffix: Seq<char>) -> bool {
    suffix.len() <= s.len() && s.subrange(s.len() - suffix.len(), s.len() as int) == suffix
}

/// Whether a text ends with a given suffix.
pub fn ends_with(s: &str, suffix: &str) -> (r: bool)
    ensures
        r == ends_with_spec(s@, suffix@),
{
    let n = s.unicode_len();
    let m = suffix.unicode_len();
    if m > n {
        return false;
    }
    let mut i: usize = 0;
    while i < m
        invariant
            i <= m <= n,
            n == s@.len(),
            m == suffix@.len(),
            forall|k: int| 0 <= k < i ==> s@[n - m + k] == suffix@[k],
        decreases m - i,
    {
        if s.get_char(n - m + i) != suffix.get_char(i) {
            assert(s@.subrange(n - m, n as int)[i as int] != suffix@[i as int]);
            return false;
        }
        i = i + 1;
    }
    assert(s@.subrange(n - m, n as int) =~= suffix@);
    true
}

/// The first `n` characters of a text (all of it when it is shorter).
pub fn take_chars(s: &str, n: usize) -> (r: String)
    ensures
        r@ == s@.take(if n < s@.len() { n as int } else { s@.len() as int }),
{
    let len = s.unicode_len();
    let k = if n < len {
        n
    } else {
        len
    };
    let part = s.substring_char(0, k);
    assert(s@.subrange(0, k as int) =~= s@.take(k as int));
    part.to_owned()
}

/// The entries of a list joined with a separator between consecutive ones.
pub open spec fn join_with(parts: Seq<Seq<char>>, sep: Seq<char>) -> Seq<char>
    decreases parts.len(),
{
    if parts.len() == 0 {
        seq![]
    } else if parts.len() == 1 {
        parts[0]
    } else {
        join_with(parts.drop_last(), sep) + sep + parts.last()
    }
}

/// Whether `needle` stands somewhere in `text` as a run of consecutive
/// characters.
pub open spec fn occurs_in(needle: Seq<char>, text: Seq<char>) -> bool {
    exists|k: int| 0 <= k && k + needle.len() <= text.len() && #[trigger] text.subrange(k, k + needle.len()) == needle
}

/// What stands in a text still stands in it with more text on either side.
pub proof fn lemma_occurs_in_wider(needle: Seq<char>, before: Seq<char>, text: Seq<char>, after: Seq<char>)
    requires
        occurs_in(needle, text),
    ensures
        occurs_in(needle, before + text + after),
{
    let k = choose|k: int|
        0 <= k && k + needle.len() <= text.len() && #[trigger] text.subrange(k, k + needle.len()) == needle;
    let w = before + text + after;
    let k2: int = k + before.len();
    assert(w.subrange(k2, k2 + needle.len()) =~= text.subrange(k, k + needle.len()));
}

/// Joining keeps every part: each part stands in the joined text.
pub proof fn lemma_join_keeps_parts(parts: Seq<Seq<char>>, sep: Seq<char>)
    ensures
        forall|i: int| 0 <= i < parts.len() ==> occurs_in(#[trigger] parts[i], join_with(parts, sep)),
    decreases parts.len(),
{
    if parts.len() == 1 {
        let j = join_with(parts, sep);
        let k: int = 0;
        assert(j.subrange(k, k + parts[0].len()) =~= parts[0]);
        assert(occurs_in(parts[0], j));
    } else if parts.len() > 1 {
        let rest = parts.drop_last();
        lemma_join_keeps_parts(rest, sep);
        let head = join_with(rest, sep);
        let j = join_with(parts, sep);
        assert(j == head + sep + parts.last());
        assert forall|i: int| 0 <= i < parts.len() implies occurs_in(#[trigger] parts[i], j) by {
            if i < rest.len() {
                assert(rest[i] == parts[i]);
                assert(occurs_in(rest[i], head));
                let k = choose|k: int|
                    0 <= k && k + rest[i].len() <= head.len() && #[trigger] head.subrange(k, k + rest[i].len())
                        == rest[i];
                assert(j.subrange(k, k + parts[i].len()) =~= head.subrange(k, k + rest[i].len()));
                assert(occurs_in(parts[i], j));
            } else {
                let k: int = (head.len() + sep.len()) as int;
                assert(j.subrange(k, k + parts[i].len()) =~= parts.last());
                assert(occurs_in(parts[i], j));
            }
        }
    }
}

/// Joins a list of strings with a separator.
pub fn join(parts: &Vec<String>, sep: &str) -> (r: String)
    ensures
        r@ == join_with(views(parts@), sep@),
{
    let n = parts.len();
    let mut r = String::new();
    let mut i: usize = 0;
    while i < n
        invariant
            i <= n,
            n == parts@.len(),
            r@ == join_with(views(parts@.take(i as int)), sep@),
        decreases n - i,
    {
        let ghost cur = views(parts@.take(i + 1));
        assert(cur.drop_last() =~= views(parts@.take(i as int)));
        assert(cur.last() == parts@[i as int]@);
        if i > 0 {
            r.append(sep);
        } else {
            assert(cur.len() == 1);
        }
        r.append(parts[i].as_str());
        i = i + 1;
    }
    assert(parts@.take(n as int) =~= parts@);
    r
}

} // verus!
