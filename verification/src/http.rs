//! Requests to the engine, and what comes back of them.
use vstd::prelude::*;
use vstd::utf8::encode_utf8;

use crate::text::{chars_of, slice};

verus! {

/// A GET request.
#[derive(Debug)]
pub struct HttpGet {
    pub url: String,
    pub timeout_secs: u64,
    /// Token for the `Authorization` header.
    pub bearer: Option<String>,
}

/// How a request ended.
#[derive(Debug)]
pub enum Reply {
    /// No response came; the text says why.
    Failed(String),
    /// A response came, with this status.
    Status(u16),
}

/// Whether a status says that the request succeeded.
pub open spec fn success(status: u16) -> bool {
    200 <= status < 300
}

/// Whether a status says that the request succeeded.
pub fn is_success(status: u16) -> (r: bool)
    ensures
        r == success(status),
{
    200 <= status && status < 300
}

/// The text of the URL that `reqwest::Url::parse` reads from `s`, or nothing
/// where it reads none.
pub uninterp spec fn url_text(s: Seq<char>) -> Option<Seq<char>>;

/// The phrase that goes with a status: what
/// `reqwest::StatusCode::canonical_reason` gives, or a stand-in for a status
/// without one.
pub uninterp spec fn status_phrase(status: u16) -> Seq<char>;

/// How many characters come before the first `c`, or all where there is none.
pub open spec fn before_first(s: Seq<char>, c: char) -> nat
    decreases s.len(),
{
    if s.len() == 0 || s[0] == c {
        0
    } else {
        1 + before_first(s.subrange(1, s.len() as int), c)
    }
}

/// A hexadecimal digit, in capitals.
pub open spec fn hex_digit(n: u8) -> char {
    if n < 10 {
        ('0' as u8 + n) as char
    } else {
        ('A' as u8 + n - 10) as char
    }
}

/// A byte in form encoding: letters, digits and `*-._` as they are, a space
/// as a plus sign, the rest as `%` and two hexadecimal digits.
pub open spec fn form_byte(b: u8) -> Seq<char> {
    if ('0' as u8 <= b && b <= '9' as u8) || ('A' as u8 <= b && b <= 'Z' as u8) || ('a' as u8 <= b
        && b <= 'z' as u8) || b == '*' as u8 || b == '-' as u8 || b == '.' as u8 || b == '_' as u8 {
        seq![b as char]
    } else if b == ' ' as u8 {
        seq!['+']
    } else {
        seq!['%', hex_digit(b / 16), hex_digit(b % 16)]
    }
}

/// Bytes in form encoding.
pub open spec fn form_bytes(bytes: Seq<u8>) -> Seq<char>
    decreases bytes.len(),
{
    if bytes.len() == 0 {
        Seq::empty()
    } else {
        form_byte(bytes[0]) + form_bytes(bytes.subrange(1, bytes.len() as int))
    }
}

/// Text in form encoding: its UTF-8 bytes, one by one.
pub open spec fn form_encoded(s: Seq<char>) -> Seq<char> {
    form_bytes(encode_utf8(s))
}

/// A URL up to its fragment.
pub open spec fn before_fragment(url: Seq<char>) -> Seq<char> {
    url.subrange(0, before_first(url, '#') as int)
}

/// What one more query pair is set off with: a question mark where there is no
/// query yet, an ampersand where there is one that is not empty.
pub open spec fn separator(head: Seq<char>) -> Seq<char> {
    let query = before_first(head, '?');
    if query == head.len() {
        seq!['?']
    } else if query + 1 == head.len() {
        Seq::empty()
    } else {
        seq!['&']
    }
}

/// A query pair in form encoding.
pub open spec fn form_pair_text(name: Seq<char>, value: Seq<char>) -> Seq<char> {
    form_encoded(name) + seq!['='] + form_encoded(value)
}

/// A URL with one more query pair, before the fragment.
pub open spec fn with_pair(url: Seq<char>, name: Seq<char>, value: Seq<char>) -> Seq<char> {
    let head = before_fragment(url);
    head + separator(head) + form_pair_text(name, value) + url.subrange(
        head.len() as int,
        url.len() as int,
    )
}

/// Whether text can be read as a URL, or found to be none: its characters are
/// counted in thirty-one bits.
pub open spec fn can_be_read(s: Seq<char>) -> bool {
    s.len() <= i32::MAX
}

/// Whether text has neither a query nor a fragment.
pub open spec fn is_unqueried(s: Seq<char>) -> bool {
    !s.contains('?') && !s.contains('#')
}

/// Whether a URL of this text has room for one more query pair. Where a query
/// or a fragment begins is kept in thirty-two bits, and the whole has to be a
/// string.
pub open spec fn has_room(url: Seq<char>, name: Seq<char>, value: Seq<char>) -> bool {
    let head = before_fragment(url);
    let start = encode_utf8(head).len();
    let added = separator(head).len() + form_pair_text(name, value).len();
    &&& before_first(head, '?') == head.len() ==> start <= u32::MAX
    &&& head.len() < url.len() ==> start + added <= u32::MAX
    &&& encode_utf8(url).len() + added <= isize::MAX
}

/// How long text is in form encoding.
pub(crate) fn form_length(s: &str) -> (r: u128)
    ensures
        r == form_encoded(s@).len(),
        r <= 3 * usize::MAX,
{
    let bytes: &[u8] = s.as_bytes();
    let ghost all = bytes@;
    let mut length: u128 = 0;
    let mut i: usize = 0;
    assert(all.subrange(0, all.len() as int) =~= all);
    while i < bytes.len()
        invariant
            i <= bytes@.len() == all.len(),
            bytes@ == all,
            length <= 3 * i,
            length + form_bytes(all.subrange(i as int, all.len() as int)).len() == form_bytes(
                all,
            ).len(),
        decreases bytes@.len() - i,
    {
        let b: u8 = bytes[i];
        let ghost rest = all.subrange(i as int, all.len() as int);
        assert(rest.subrange(1, rest.len() as int) =~= all.subrange(i + 1, all.len() as int));
        let plain: bool = ('0' as u8 <= b && b <= '9' as u8) || ('A' as u8 <= b && b <= 'Z' as u8)
            || ('a' as u8 <= b && b <= 'z' as u8) || b == '*' as u8 || b == '-' as u8 || b
            == '.' as u8 || b == '_' as u8 || b == ' ' as u8;
        length += if plain {
            1
        } else {
            3
        };
        i += 1;
    }
    length
}

/// How many of the first `to` characters come before the first `c`.
fn find_first(chars: &Vec<char>, to: usize, c: char) -> (r: usize)
    requires
        to <= chars@.len(),
    ensures
        r == before_first(chars@.subrange(0, to as int), c),
        r <= to,
{
    let ghost all = chars@.subrange(0, to as int);
    let mut i: usize = 0;
    assert(all.subrange(0, to as int) =~= all);
    while i < to && chars[i] != c
        invariant
            i <= to <= chars@.len(),
            all == chars@.subrange(0, to as int),
            i + before_first(all.subrange(i as int, to as int), c) == before_first(all, c),
        decreases to - i,
    {
        let ghost rest = all.subrange(i as int, to as int);
        assert(rest.subrange(1, rest.len() as int) =~= all.subrange(i + 1, to as int));
        i += 1;
    }
    i
}

/// Whether a URL of this text has room for one more query pair.
pub(crate) fn fits_pair(url: &str, name: &str, value: &str) -> (r: bool)
    ensures
        r == has_room(url@, name@, value@),
{
    let chars: Vec<char> = chars_of(url);
    assert(url@.subrange(0, url@.len() as int) =~= url@);
    let cut: usize = find_first(&chars, chars.len(), '#');
    let query: usize = find_first(&chars, cut, '?');
    let start: u128 = slice(url, 0, cut).as_str().as_bytes().len() as u128;
    let whole: u128 = url.as_bytes().len() as u128;
    let set_off: u128 = if cut - query == 1 {
        0
    } else {
        1
    };
    let added: u128 = set_off + form_length(name) + 1 + form_length(value);
    (query < cut || start <= 0xffff_ffff) && (cut == chars.len() || start + added <= 0xffff_ffff)
        && whole + added <= isize::MAX as u128
}

/// The text of the URL that `s` writes. Calls `reqwest::Url::parse`, and is
/// trusted to give what [`url_text`] names, a function of `s` alone, and to
/// write a query or a fragment only where `s` has a question mark or a hash.
/// It counts the characters of `s` in an `i32`, so a longer `s` is left out.
#[verifier::external_body]
pub(crate) fn parse_url(s: &str) -> (r: Option<String>)
    requires
        can_be_read(s@),
    ensures
        match r {
            Some(text) => url_text(s@) == Some(text@) && (is_unqueried(s@) ==> is_unqueried(
                text@,
            )),
            None => url_text(s@) is None,
        },
{
    match reqwest::Url::parse(s) {
        Ok(url) => Some(url.to_string()),
        Err(_) => None,
    }
}

/// The URL that `s` writes with one more query pair. Calls
/// `reqwest::Url::query_pairs_mut` and `append_pair` on what
/// `reqwest::Url::parse` reads, and is trusted to put the pair in form
/// encoding at the end of the query and to change nothing else. Text that
/// cannot be counted, and a pair that there is no room for, are left out.
#[verifier::external_body]
pub(crate) fn append_query_pair(s: &str, name: &str, value: &str) -> (r: Option<String>)
    requires
        can_be_read(s@),
        url_text(s@) matches Some(text) ==> has_room(text, name@, value@),
    ensures
        match r {
            Some(text) => url_text(s@) is Some && text@ == with_pair(
                url_text(s@)->0,
                name@,
                value@,
            ),
            None => url_text(s@) is None,
        },
{
    match reqwest::Url::parse(s) {
        Ok(mut url) => {
            url.query_pairs_mut().append_pair(name, value);
            Some(url.to_string())
        },
        Err(_) => None,
    }
}

/// A status as `reqwest::StatusCode` displays it: its three digits, a space
/// and the phrase that [`status_phrase`] names. Calls
/// `reqwest::StatusCode::from_u16`, which knows the three-digit statuses
/// only.
#[verifier::external_body]
pub(crate) fn status_line(status: u16) -> (r: String)
    requires
        100 <= status <= 999,
    ensures
        r@ == status_digits(status) + status_phrase(status),
{
    match reqwest::StatusCode::from_u16(status) {
        Ok(code) => code.to_string(),
        Err(error) => error.to_string(),
    }
}

/// A decimal digit.
pub open spec fn digit(n: int) -> char {
    ('0' as u8 + n) as char
}

/// A three-digit status and the space after it.
pub open spec fn status_digits(status: u16) -> Seq<char> {
    seq![
        digit(status as int / 100),
        digit(status as int / 10 % 10),
        digit(status as int % 10),
        ' ',
    ]
}

} // verus!
