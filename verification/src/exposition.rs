//! The text of a metrics response, made ready for a reader of samples.
use vstd::prelude::*;

use crate::text::{begins_with, chars_of, has_prefix_at, slice};

verus! {

/// The prefix that the engine reserves for its metrics, which a colon ends.
pub const RESERVED: &'static str = "llamacpp";

/// Whether the reserved prefix ends before position `i`.
pub open spec fn follows_reserved(s: Seq<char>, i: int) -> bool {
    RESERVED@.len() <= i && begins_with(
        s.subrange(i - RESERVED@.len(), s.len() as int),
        RESERVED@,
    )
}

/// Text with an underscore for each colon that ends the reserved prefix.
pub open spec fn normalized(s: Seq<char>) -> Seq<char> {
    Seq::new(
        s.len(),
        |i: int|
            if s[i] == ':' && follows_reserved(s, i) {
                '_'
            } else {
                s[i]
            },
    )
}

/// Whether a character is white space between the parts of JSON text.
pub open spec fn is_space(c: char) -> bool {
    c == ' ' || c == '\t' || c == '\n' || c == '\r'
}

/// Whether text begins with a JSON object.
pub open spec fn is_json(s: Seq<char>) -> bool {
    exists|i: int|
        0 <= i < s.len() && #[trigger] s[i] == '{' && forall|j: int|
            0 <= j < i ==> is_space(#[trigger] s[j])
}

/// The exposition text of a response body, its metric names normalized; or
/// nothing where the body is a JSON error.
pub fn exposition_text(body: &str) -> (r: Option<String>)
    ensures
        match r {
            Some(text) => !is_json(body@) && text@ == normalized(body@),
            None => is_json(body@),
        },
{
    let chars: Vec<char> = chars_of(body);
    let mut start: usize = 0;
    while start < chars.len() && (chars[start] == ' ' || chars[start] == '\t' || chars[start]
        == '\n' || chars[start] == '\r')
        invariant
            start <= chars@.len(),
            forall|j: int| 0 <= j < start ==> is_space(#[trigger] chars@[j]),
        decreases chars@.len() - start,
    {
        start += 1;
    }
    if start < chars.len() && chars[start] == '{' {
        assert(body@[start as int] == '{');
        return None;
    }
    assert(!is_json(body@)) by {
        if is_json(body@) {
            let i = choose|i: int|
                0 <= i < body@.len() && #[trigger] body@[i] == '{' && forall|j: int|
                    0 <= j < i ==> is_space(#[trigger] body@[j]);
            if i > start {
                assert(is_space(body@[start as int]));
            } else if i < start {
                assert(is_space(chars@[i]));
            }
        }
    }
    let width: usize = RESERVED.unicode_len();
    let mut text: String = String::new();
    let mut copied: usize = 0;
    let mut i: usize = 0;
    while i < chars.len()
        invariant
            chars@ == body@,
            width == RESERVED@.len(),
            copied <= i <= chars@.len(),
            text@ == normalized(body@).subrange(0, copied as int),
            forall|j: int| #![trigger body@[j]]
                copied <= j < i ==> normalized(body@)[j] == body@[j],
        decreases chars@.len() - i,
    {
        if chars[i] == ':' && i >= width && has_prefix_at(&chars, i - width, RESERVED) {
            text.append(slice(body, copied, i).as_str());
            text.append("_");
            proof {
                reveal_strlit("_");
                assert(text@ =~= normalized(body@).subrange(0, i + 1));
            }
            copied = i + 1;
        }
        i += 1;
    }
    text.append(slice(body, copied, i).as_str());
    assert(text@ =~= normalized(body@));
    Some(text)
}

/// No reserved prefix with its colon is left, and nothing but such colons
/// changes.
pub proof fn law_no_reserved_prefix_is_left(s: Seq<char>, i: int)
    requires
        0 <= i < s.len(),
    ensures
        normalized(s)[i] == ':' ==> !follows_reserved(normalized(s), i),
        normalized(s)[i] != s[i] ==> s[i] == ':' && normalized(s)[i] == '_',
{
    let t = normalized(s);
    reveal_strlit("llamacpp");
    if t[i] == ':' && follows_reserved(t, i) {
        let n = RESERVED@.len() as int;
        let from_t = t.subrange(i - n, t.len() as int);
        let from_s = s.subrange(i - n, s.len() as int);
        assert forall|j: int| 0 <= j < n implies #[trigger] from_s[j] == RESERVED@[j] by {
            assert(from_t.subrange(0, n)[j] == from_t[j]);
            assert(RESERVED@[j] != '_');
            assert(t[i - n + j] == from_t[j]);
        }
        assert(from_s.subrange(0, n) =~= RESERVED@);
    }
}

} // verus!
