//! How the query of a URL is read, and that it gives back what was put in.
use vstd::prelude::*;
use vstd::utf8::{
    decode_utf8, encode_utf8, encode_utf8_decode_utf8, is_ascii_chars_encode_utf8,
};

use crate::http::{
    before_first, before_fragment, form_byte, form_bytes, form_encoded, form_pair_text, hex_digit,
    separator, with_pair,
};

verus! {

/// The value of a hexadecimal digit.
pub open spec fn hex_value(c: char) -> Option<int> {
    if '0' <= c && c <= '9' {
        Some(c as int - '0' as int)
    } else if 'A' <= c && c <= 'F' {
        Some(c as int - 'A' as int + 10)
    } else if 'a' <= c && c <= 'f' {
        Some(c as int - 'a' as int + 10)
    } else {
        None
    }
}

/// The bytes that text in form encoding stands for: a plus sign is a space,
/// `%` and two hexadecimal digits are a byte, and the rest is as it is.
pub open spec fn form_decoded_bytes(s: Seq<char>) -> Seq<u8>
    decreases s.len(),
{
    if s.len() == 0 {
        Seq::empty()
    } else if s[0] == '%' && s.len() >= 3 && hex_value(s[1]) is Some && hex_value(s[2]) is Some {
        seq![(16 * hex_value(s[1])->0 + hex_value(s[2])->0) as u8] + form_decoded_bytes(
            s.subrange(3, s.len() as int),
        )
    } else if s[0] == '+' {
        seq![' ' as u8] + form_decoded_bytes(s.subrange(1, s.len() as int))
    } else {
        encode_utf8(seq![s[0]]) + form_decoded_bytes(s.subrange(1, s.len() as int))
    }
}

/// The text that text in form encoding stands for, where its bytes are UTF-8.
pub open spec fn form_decoded(s: Seq<char>) -> Seq<char> {
    decode_utf8(form_decoded_bytes(s))
}

/// What follows the character at `at`, or nothing where there is none.
pub open spec fn beyond(s: Seq<char>, at: nat) -> Seq<char> {
    if at < s.len() {
        s.subrange(at as int + 1, s.len() as int)
    } else {
        Seq::empty()
    }
}

/// The name and the value that a part of a query writes.
pub open spec fn form_pair(part: Seq<char>) -> (Seq<char>, Seq<char>) {
    let name = before_first(part, '=');
    (form_decoded(part.subrange(0, name as int)), form_decoded(beyond(part, name)))
}

/// The pairs that a query writes: its parts between ampersands, but for the
/// empty ones.
pub open spec fn form_pairs(query: Seq<char>) -> Seq<(Seq<char>, Seq<char>)>
    decreases query.len(),
{
    if query.len() == 0 {
        Seq::empty()
    } else {
        let end = before_first(query, '&');
        let rest = form_pairs(beyond(query, end));
        if end == 0 {
            rest
        } else {
            seq![form_pair(query.subrange(0, end as int))] + rest
        }
    }
}

/// The query of a URL: what stands between the question mark and the
/// fragment.
pub open spec fn query_of(url: Seq<char>) -> Seq<char> {
    let head = before_fragment(url);
    beyond(head, before_first(head, '?'))
}

/// A URL without its query and the question mark.
pub open spec fn without_query(url: Seq<char>) -> Seq<char> {
    let head = before_fragment(url);
    head.subrange(0, before_first(head, '?') as int) + url.subrange(
        head.len() as int,
        url.len() as int,
    )
}

pub proof fn lemma_before_first_bound(s: Seq<char>, c: char)
    ensures
        before_first(s, c) <= s.len(),
        before_first(s, c) < s.len() ==> s[before_first(s, c) as int] == c,
        !s.subrange(0, before_first(s, c) as int).contains(c),
    decreases s.len(),
{
    if s.len() > 0 && s[0] != c {
        let rest = s.subrange(1, s.len() as int);
        lemma_before_first_bound(rest, c);
        let n = before_first(rest, c) as int;
        assert forall|i: int| 0 <= i < n + 1 implies #[trigger] s.subrange(0, n + 1)[i] != c by {
            if i > 0 {
                assert(rest.subrange(0, n).contains(rest.subrange(0, n)[i - 1]));
            }
        }
    }
}

pub proof fn lemma_before_first_absent(s: Seq<char>, c: char)
    requires
        !s.contains(c),
    ensures
        before_first(s, c) == s.len(),
{
    lemma_before_first_bound(s, c);
    let n = before_first(s, c) as int;
    if n < s.len() {
        assert(s.contains(s[n]));
    }
}

/// What comes before the first `c` of two texts in a row.
proof fn lemma_before_first_joined(a: Seq<char>, b: Seq<char>, c: char)
    ensures
        before_first(a, c) < a.len() ==> before_first(a + b, c) == before_first(a, c),
        before_first(a, c) >= a.len() ==> before_first(a + b, c) == a.len() + before_first(b, c),
    decreases a.len(),
{
    let all = a + b;
    if a.len() == 0 {
        assert(all =~= b);
    } else {
        assert(all[0] == a[0]);
        if a[0] != c {
            let rest = a.subrange(1, a.len() as int);
            lemma_before_first_joined(rest, b, c);
            assert(all.subrange(1, all.len() as int) =~= rest + b);
        }
    }
}

/// A byte is read back from its encoding.
proof fn lemma_form_byte_decoded(b: u8, rest: Seq<char>)
    ensures
        form_decoded_bytes(form_byte(b) + rest) == seq![b] + form_decoded_bytes(rest),
{
    let code = form_byte(b);
    let all = code + rest;
    assert(all[0] == code[0]);
    assert(all.subrange(code.len() as int, all.len() as int) =~= rest);
    if code.len() == 3 {
        let high = b / 16;
        let low = b % 16;
        assert(all[1] == hex_digit(high) && all[2] == hex_digit(low));
        assert(hex_value(hex_digit(high)) == Some(high as int));
        assert(hex_value(hex_digit(low)) == Some(low as int));
        assert(16 * high + low == b);
    } else if b != ' ' as u8 {
        let plain = seq![b as char];
        is_ascii_chars_encode_utf8(plain);
        assert(encode_utf8(plain) =~= seq![b]);
        assert(seq![all[0]] =~= plain);
    }
}

proof fn lemma_form_bytes_decoded(bytes: Seq<u8>)
    ensures
        form_decoded_bytes(form_bytes(bytes)) == bytes,
    decreases bytes.len(),
{
    if bytes.len() > 0 {
        let rest = bytes.subrange(1, bytes.len() as int);
        lemma_form_byte_decoded(bytes[0], form_bytes(rest));
        lemma_form_bytes_decoded(rest);
        assert(bytes =~= seq![bytes[0]] + rest);
    }
}

/// What was put into form encoding is read back from it.
pub proof fn law_encoding_is_read_back(text: Seq<char>)
    ensures
        form_decoded(form_encoded(text)) == text,
{
    lemma_form_bytes_decoded(encode_utf8(text));
    encode_utf8_decode_utf8(text);
}

/// Whether a character can stand in a query value without ending it or being
/// read as another.
pub open spec fn is_plain(c: char) -> bool {
    ('0' <= c && c <= '9') || ('A' <= c && c <= 'Z') || ('a' <= c && c <= 'z') || c == '*' || c
        == '-' || c == '.' || c == '_' || c == '+' || c == '%'
}

/// A name in form encoding holds plain characters only: no space, no
/// separator, and nothing that would end the query.
pub proof fn law_encoded_name_is_plain(name: Seq<char>)
    ensures
        forall|i: int| 0 <= i < form_encoded(name).len() ==> is_plain(#[trigger] form_encoded(name)[i]),
{
    lemma_form_bytes_plain(encode_utf8(name));
}

proof fn lemma_form_bytes_plain(bytes: Seq<u8>)
    ensures
        forall|i: int| 0 <= i < form_bytes(bytes).len() ==> is_plain(#[trigger] form_bytes(bytes)[i]),
    decreases bytes.len(),
{
    if bytes.len() > 0 {
        let rest = bytes.subrange(1, bytes.len() as int);
        lemma_form_bytes_plain(rest);
        let b = bytes[0];
        assert forall|i: int| 0 <= i < form_bytes(bytes).len() implies is_plain(
            #[trigger] form_bytes(bytes)[i],
        ) by {
            if i < form_byte(b).len() {
                assert(form_bytes(bytes)[i] == form_byte(b)[i]);
            } else {
                assert(form_bytes(bytes)[i] == form_bytes(rest)[i - form_byte(b).len()]);
            }
        }
    }
}

/// Letters, digits and the signs `*`, `-`, `.` and `_` stay as they are.
pub proof fn law_ordinary_characters_stay(name: Seq<char>)
    requires
        forall|i: int|
            0 <= i < name.len() ==> is_plain(#[trigger] name[i]) && name[i] != '+' && name[i] != '%',
    ensures
        form_encoded(name) == name,
{
    is_ascii_chars_encode_utf8(name);
    lemma_ordinary_bytes_stay(name, encode_utf8(name));
}

proof fn lemma_ordinary_bytes_stay(name: Seq<char>, bytes: Seq<u8>)
    requires
        bytes.len() == name.len(),
        forall|i: int|
            0 <= i < name.len() ==> is_plain(#[trigger] name[i]) && name[i] != '+' && name[i] != '%',
        forall|i: int| 0 <= i < name.len() ==> #[trigger] bytes[i] as char == name[i],
    ensures
        form_bytes(bytes) == name,
    decreases name.len(),
{
    if name.len() > 0 {
        let rest = bytes.subrange(1, bytes.len() as int);
        let others = name.subrange(1, name.len() as int);
        lemma_ordinary_bytes_stay(others, rest);
        assert(bytes[0] as char == name[0]);
        assert(form_byte(bytes[0]) =~= seq![name[0]]);
        assert(name =~= seq![name[0]] + others);
    } else {
        assert(form_bytes(bytes) =~= name);
    }
}

/// A pair in form encoding is read back, and holds nothing that would end it
/// or the query.
proof fn lemma_pair_read_back(name: Seq<char>, value: Seq<char>)
    ensures
        form_pairs(form_pair_text(name, value)) == seq![(name, value)],
        !form_pair_text(name, value).contains('#'),
        !form_pair_text(name, value).contains('?'),
{
    let text = form_pair_text(name, value);
    let code = form_encoded(name);
    law_encoded_name_is_plain(name);
    law_encoded_name_is_plain(value);
    assert forall|i: int| 0 <= i < text.len() implies is_plain(#[trigger] text[i]) || text[i]
        == '=' by {
        if i < code.len() {
            assert(text[i] == code[i]);
        } else if i > code.len() {
            assert(text[i] == form_encoded(value)[i - code.len() - 1]);
        }
    }
    lemma_before_first_absent(text, '&');
    assert(!code.contains('=')) by {
        if code.contains('=') {
            let i = choose|i: int| 0 <= i < code.len() && code[i] == '=';
            assert(is_plain(code[i]));
        }
    }
    lemma_before_first_absent(code, '=');
    let tail = seq!['='] + form_encoded(value);
    assert(text =~= code + tail);
    lemma_before_first_joined(code, tail, '=');
    assert(text.subrange(0, text.len() as int) =~= text);
    assert(text.subrange(0, code.len() as int) =~= code);
    assert(text.subrange(code.len() as int + 1, text.len() as int) =~= form_encoded(value));
    law_encoding_is_read_back(name);
    law_encoding_is_read_back(value);
    reveal_with_fuel(form_pairs, 2);
    assert(form_pairs(text) =~= seq![(name, value)]);
}

/// Two queries, joined by an ampersand, write the pairs of both.
proof fn lemma_queries_joined(a: Seq<char>, b: Seq<char>)
    ensures
        form_pairs(a + seq!['&'] + b) == form_pairs(a) + form_pairs(b),
    decreases a.len(),
{
    let tail = seq!['&'] + b;
    let all = a + tail;
    assert(a + seq!['&'] + b =~= all);
    let end = before_first(a, '&');
    lemma_before_first_bound(a, '&');
    lemma_before_first_joined(a, tail, '&');
    assert(all.subrange(0, end as int) =~= a.subrange(0, end as int));
    if end < a.len() {
        let rest = a.subrange(end as int + 1, a.len() as int);
        assert(all.subrange(end as int + 1, all.len() as int) =~= rest + seq!['&'] + b);
        lemma_queries_joined(rest, b);
    } else {
        assert(all.subrange(end as int + 1, all.len() as int) =~= b);
        assert(a.subrange(0, end as int) =~= a);
        assert(beyond(a, end).len() == 0);
        assert(form_pairs(beyond(a, end)) =~= Seq::empty());
    }
    assert(form_pairs(all) =~= form_pairs(a) + form_pairs(b));
}

/// One more pair is one more pair: the query of the longer URL writes the
/// pairs from before and, at their end, the new one, and the rest of the URL
/// is as it was.
pub proof fn law_pair_is_added(url: Seq<char>, name: Seq<char>, value: Seq<char>)
    ensures
        form_pairs(query_of(with_pair(url, name, value))) == form_pairs(query_of(url)).push(
            (name, value),
        ),
        without_query(with_pair(url, name, value)) == without_query(url),
{
    let head = before_fragment(url);
    let tail = url.subrange(head.len() as int, url.len() as int);
    let pair = form_pair_text(name, value);
    let longer = head + separator(head) + pair;
    let all = with_pair(url, name, value);
    lemma_before_first_bound(url, '#');
    lemma_before_first_bound(head, '?');
    lemma_pair_read_back(name, value);

    // The fragment begins where it began in the text.
    let after = separator(head) + pair;
    assert(longer =~= head + after);
    assert(!after.contains('#')) by {
        if after.contains('#') {
            let i = choose|i: int| 0 <= i < after.len() && after[i] == '#';
            assert(i >= separator(head).len());
            assert(pair.contains(pair[i - separator(head).len()]));
        }
    }
    lemma_before_first_absent(head, '#');
    lemma_before_first_absent(after, '#');
    lemma_before_first_joined(head, after, '#');
    lemma_before_first_joined(longer, tail, '#');
    assert(all =~= longer + tail);
    assert(before_first(tail, '#') == 0);
    assert(before_fragment(all) =~= longer);
    assert(all.subrange(longer.len() as int, all.len() as int) =~= tail);

    // So does the query, and the pair is at its end.
    let start = before_first(head, '?');
    lemma_before_first_joined(head, after, '?');
    assert(before_first(longer, '?') == start) by {
        if start == head.len() {
            assert(after[0] == '?');
        }
    }
    assert(longer.subrange(0, start as int) =~= head.subrange(0, start as int));
    let query = query_of(url);
    if query.len() == 0 {
        assert(query_of(all) =~= pair);
    } else {
        assert(query_of(all) =~= query + seq!['&'] + pair);
        lemma_queries_joined(query, pair);
    }
    assert(form_pairs(query_of(all)) =~= form_pairs(query).push((name, value)));
}

} // verus!
