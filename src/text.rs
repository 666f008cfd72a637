//! Text primitives for header cards: UTF-8 decoding, whitespace trimming and
//! parsing of numeric keyword values.

use vstd::prelude::*;
use vstd::string::*;
use vstd::utf8::{decode_utf8, valid_utf8};

verus! {

/// Unicode `White_Space` characters, the set that `str::trim` removes.
pub open spec fn is_white_space(c: char) -> bool {
    ('\u{9}' <= c && c <= '\u{d}') || c == ' ' || c == '\u{85}' || c == '\u{a0}' || c == '\u{1680}'
        || ('\u{2000}' <= c && c <= '\u{200a}') || c == '\u{2028}' || c == '\u{2029}'
        || c == '\u{202f}' || c == '\u{205f}' || c == '\u{3000}'
}

/// `s` without its leading white space.
pub open spec fn trim_start_ws(s: Seq<char>) -> Seq<char>
    decreases s.len(),
{
    if s.len() > 0 && is_white_space(s[0]) {
        trim_start_ws(s.drop_first())
    } else {
        s
    }
}

/// `s` without its trailing white space.
pub open spec fn trim_end_ws(s: Seq<char>) -> Seq<char>
    decreases s.len(),
{
    if s.len() > 0 && is_white_space(s.last()) {
        trim_end_ws(s.drop_last())
    } else {
        s
    }
}

/// `s` without leading and trailing white space.
pub open spec fn trim_ws(s: Seq<char>) -> Seq<char> {
    trim_end_ws(trim_start_ws(s))
}

/// Relies on `std::str::from_utf8`: it succeeds exactly on well-formed UTF-8
/// and then yields the characters that the bytes encode.
#[verifier::external_body]
pub(crate) fn utf8_text(b: &[u8]) -> (r: Option<&str>)
    ensures
        r is Some <==> valid_utf8(b@),
        r is Some ==> r->0@ == decode_utf8(b@),
{
    std::str::from_utf8(b).ok()
}

/// Relies on `str::trim`: removes leading and trailing `White_Space` characters.
#[verifier::external_body]
pub(crate) fn trimmed(s: &str) -> (r: &str)
    ensures
        r@ == trim_ws(s@),
{
    s.trim()
}

/// The part of a raw value before its first `/`, which opens an inline comment.
pub open spec fn before_comment(s: Seq<char>) -> Seq<char>
    decreases s.len(),
{
    if s.len() == 0 || s[0] == '/' {
        Seq::empty()
    } else {
        seq![s[0]] + before_comment(s.drop_first())
    }
}

pub open spec fn is_digit(c: char) -> bool {
    '0' <= c && c <= '9'
}

/// A non-empty run of ASCII decimal digits.
pub open spec fn all_digits(s: Seq<char>) -> bool {
    s.len() > 0 && forall|i: int| 0 <= i < s.len() ==> is_digit(#[trigger] s[i])
}

/// The number that a run of decimal digits denotes.
pub open spec fn digits_value(s: Seq<char>) -> int
    decreases s.len(),
{
    if s.len() == 0 {
        0
    } else {
        digits_value(s.drop_last()) * 10 + (s.last() as int - '0' as int)
    }
}

/// A base-10 integer: an optional `+` or `-` sign followed by digits.
pub open spec fn decimal_value(s: Seq<char>) -> Option<int> {
    if s.len() > 0 && (s[0] == '+' || s[0] == '-') && all_digits(s.drop_first()) {
        if s[0] == '-' {
            Some(-digits_value(s.drop_first()))
        } else {
            Some(digits_value(s.drop_first()))
        }
    } else if all_digits(s) {
        Some(digits_value(s))
    } else {
        None
    }
}

/// The integer that a raw keyword value holds: the text before any inline
/// comment, trimmed, read as a base-10 integer.
pub open spec fn keyword_number(raw: Seq<char>) -> Option<int> {
    decimal_value(trim_ws(before_comment(raw)))
}

pub open spec fn fits_i64(v: int) -> bool {
    i64::MIN <= v <= i64::MAX
}

proof fn lemma_before_comment(s: Seq<char>, i: int)
    requires
        0 <= i <= s.len(),
        forall|j: int| 0 <= j < i ==> s[j] != '/',
        i == s.len() || s[i] == '/',
    ensures
        before_comment(s) == s.take(i),
    decreases i,
{
    if i > 0 {
        lemma_before_comment(s.drop_first(), i - 1);
        assert(s.take(i) =~= seq![s[0]] + s.drop_first().take(i - 1));
    } else {
        assert(s.take(i) =~= Seq::<char>::empty());
    }
}

proof fn lemma_digits_grow(s: Seq<char>, i: int, j: int)
    requires
        0 <= i <= j <= s.len(),
        forall|k: int| 0 <= k < s.len() ==> is_digit(#[trigger] s[k]),
    ensures
        0 <= digits_value(s.take(i)) <= digits_value(s.take(j)),
    decreases j,
{
    if j > 0 {
        assert(s.take(j).drop_last() =~= s.take(j - 1));
        if i < j {
            lemma_digits_grow(s, i, j - 1);
        } else {
            lemma_digits_grow(s, i - 1, j - 1);
        }
    }
}

/// The text of a raw keyword value before its inline comment, trimmed.
pub fn value_token(raw: &str) -> (r: String)
    ensures
        r@ == trim_ws(before_comment(raw@)),
{
    let n = raw.unicode_len();
    let mut i: usize = 0;
    let mut found = false;
    while i < n && !found
        invariant
            n == raw@.len(),
            i <= n,
            forall|j: int| 0 <= j < i ==> raw@[j] != '/',
            found ==> i < n && raw@[i as int] == '/',
        decreases n - i + (if found { 0int } else { 1int }),
    {
        if raw.get_char(i) == '/' {
            found = true;
        } else {
            i = i + 1;
        }
    }
    proof {
        lemma_before_comment(raw@, i as int);
    }
    let head = raw.substring_char(0, i);
    trimmed(head).to_string()
}

/// Reads a run of decimal digits, or gives `None` where its value exceeds 2^64.
fn digits_number(s: &str, start: usize) -> (r: Option<i128>)
    requires
        start <= s@.len(),
        forall|k: int| start <= k < s@.len() ==> is_digit(#[trigger] s@[k]),
    ensures
        r matches Some(v) ==> v == digits_value(s@.skip(start as int)) && 0 <= v <= 0x1_0000_0000_0000_0000,
        r is None ==> digits_value(s@.skip(start as int)) > 0x1_0000_0000_0000_0000,
{
    let n = s.unicode_len();
    let ghost d = s@.skip(start as int);
    let mut i: usize = start;
    let mut acc: i128 = 0;
    while i < n
        invariant
            n == s@.len(),
            start <= i <= n,
            d == s@.skip(start as int),
            forall|k: int| 0 <= k < d.len() ==> is_digit(#[trigger] d[k]),
            acc == digits_value(d.take(i - start)),
            0 <= acc <= 0x1_0000_0000_0000_0000,
        decreases n - i,
    {
        let c = s.get_char(i);
        assert(c == d[i - start]);
        let digit = (c as u32 - '0' as u32) as i128;
        proof {
            assert(d.take(i - start + 1).drop_last() =~= d.take(i - start));
        }
        let next = acc * 10 + digit;
        if next > 0x1_0000_0000_0000_0000 {
            proof {
                lemma_digits_grow(d, i - start + 1, d.len() as int);
                assert(d.take(d.len() as int) =~= d);
            }
            return None;
        }
        acc = next;
        i = i + 1;
    }
    assert(d.take(i - start) =~= d);
    Some(acc)
}

/// Reads a base-10 integer with an optional sign, as `decimal_value` gives it,
/// where it fits in an `i64`.
pub fn parse_decimal(s: &str) -> (r: Option<i64>)
    ensures
        r matches Some(v) ==> decimal_value(s@) == Some(v as int),
        r is None ==> !(decimal_value(s@) matches Some(v) && fits_i64(v)),
{
    let n = s.unicode_len();
    if n == 0 {
        return None;
    }
    let first = s.get_char(0);
    let signed = first == '+' || first == '-';
    let start: usize = if signed { 1 } else { 0 };
    if signed && n == 1 {
        return None;
    }
    let mut i: usize = start;
    while i < n
        invariant
            n == s@.len(),
            start <= i <= n,
            n > 0,
            signed == (s@[0] == '+' || s@[0] == '-'),
            start == (if signed { 1usize } else { 0usize }),
            forall|k: int| start <= k < i ==> is_digit(#[trigger] s@[k]),
        decreases n - i,
    {
        let c = s.get_char(i);
        if !('0' <= c && c <= '9') {
            proof {
                assert(!is_digit(s@[i as int]));
                if signed {
                    assert(s@.drop_first()[i - 1] == s@[i as int]);
                    assert(!all_digits(s@.drop_first()));
                }
                assert(!all_digits(s@));
            }
            return None;
        }
        i = i + 1;
    }
    let magnitude = digits_number(s, start);
    proof {
        if signed {
            assert(s@.skip(1) =~= s@.drop_first());
        } else {
            assert(s@.skip(0) =~= s@);
        }
        assert forall|k: int| 0 <= k < s@.skip(start as int).len() implies is_digit(
            #[trigger] s@.skip(start as int)[k],
        ) by {
            assert(s@.skip(start as int)[k] == s@[k + start]);
        }
        assert(all_digits(s@.skip(start as int)));
        if !signed {
            assert(!(s@[0] == '+' || s@[0] == '-'));
        }
    }
    match magnitude {
        None => None,
        Some(m) => {
            if first == '-' {
                if m > 0x8000_0000_0000_0000 {
                    None
                } else {
                    Some((0 - m) as i64)
                }
            } else {
                if m > 0x7fff_ffff_ffff_ffff {
                    None
                } else {
                    Some(m as i64)
                }
            }
        },
    }
}

/// The integer that a raw keyword value holds (see `keyword_number`), where it
/// fits in an `i64`.
pub fn keyword_int(raw: &str) -> (r: Option<i64>)
    ensures
        r matches Some(v) ==> keyword_number(raw@) == Some(v as int),
        r is None ==> !(keyword_number(raw@) matches Some(v) && fits_i64(v)),
{
    let token = value_token(raw);
    parse_decimal(token.as_str())
}

} // verus!
