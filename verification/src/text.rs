//! Small operations on text.
use vstd::prelude::*;

verus! {

/// Whether `s` begins with `prefix`.
pub open spec fn begins_with(s: Seq<char>, prefix: Seq<char>) -> bool {
    prefix.len() <= s.len() && s.subrange(0, prefix.len() as int) == prefix
}

/// What follows the last `separator`, or all of `s` where there is none.
pub open spec fn after_last(s: Seq<char>, separator: char) -> Seq<char>
    decreases s.len(),
{
    if s.len() == 0 || s.last() == separator {
        Seq::empty()
    } else {
        after_last(s.drop_last(), separator).push(s.last())
    }
}

/// The characters of a string.
pub(crate) fn chars_of(s: &str) -> (v: Vec<char>)
    ensures
        v@ == s@,
{
    let mut v: Vec<char> = Vec::new();
    for c in it: s.chars()
        invariant
            it.seq() == s@,
            v@ == s@.subrange(0, it.index()),
    {
        v.push(c);
    }
    v
}

/// Whether the characters from `from` on begin with `prefix`.
pub(crate) fn has_prefix_at(s: &Vec<char>, from: usize, prefix: &str) -> (r: bool)
    requires
        from <= s@.len(),
    ensures
        r == begins_with(s@.subrange(from as int, s@.len() as int), prefix@),
{
    let p: Vec<char> = chars_of(prefix);
    let ghost rest = s@.subrange(from as int, s@.len() as int);
    let total: usize = s.len();
    if p.len() > total - from {
        return false;
    }
    let mut i: usize = 0;
    while i < p.len()
        invariant
            from <= total == s@.len(),
            i <= p@.len(),
            p@ == prefix@,
            p@.len() <= s@.len() - from,
            rest == s@.subrange(from as int, s@.len() as int),
            forall|j: int| 0 <= j < i ==> rest[j] == p@[j],
        decreases p@.len() - i,
    {
        if s[from + i] != p[i] {
            assert(rest[i as int] != p@[i as int]);
            assert(rest.subrange(0, p@.len() as int)[i as int] != p@[i as int]);
            return false;
        }
        i += 1;
    }
    assert(rest.subrange(0, p@.len() as int) =~= p@);
    true
}

/// The part of `s` from one character position to another.
pub(crate) fn slice(s: &str, from: usize, to: usize) -> (r: String)
    requires
        from <= to <= s@.len(),
    ensures
        r@ == s@.subrange(from as int, to as int),
{
    s.substring_char(from, to).to_string()
}

/// `s` without `prefix` at its start.
pub open spec fn without_prefix(s: Seq<char>, prefix: Seq<char>) -> Option<Seq<char>> {
    if begins_with(s, prefix) {
        Some(s.subrange(prefix.len() as int, s.len() as int))
    } else {
        None
    }
}

/// `s` without the character `c` at its end.
pub open spec fn without_last(s: Seq<char>, c: char) -> Option<Seq<char>> {
    if s.len() > 0 && s.last() == c {
        Some(s.drop_last())
    } else {
        None
    }
}

/// `s` without the run of `c` at its start.
pub open spec fn trimmed_start(s: Seq<char>, c: char) -> Seq<char>
    decreases s.len(),
{
    if s.len() > 0 && s[0] == c {
        trimmed_start(s.subrange(1, s.len() as int), c)
    } else {
        s
    }
}

/// `s` without the run of `c` at its end.
pub open spec fn trimmed_end(s: Seq<char>, c: char) -> Seq<char>
    decreases s.len(),
{
    if s.len() > 0 && s.last() == c {
        trimmed_end(s.drop_last(), c)
    } else {
        s
    }
}

/// `s` without the runs of `c` at both ends.
pub open spec fn trimmed(s: Seq<char>, c: char) -> Seq<char> {
    trimmed_end(trimmed_start(s, c), c)
}

/// The number that a run of decimal digits writes.
pub open spec fn decimal(s: Seq<char>) -> Option<nat>
    decreases s.len(),
{
    if s.len() == 0 {
        Some(0)
    } else {
        match decimal(s.drop_last()) {
            Some(v) if '0' <= s.last() && s.last() <= '9' => Some(
                v * 10 + (s.last() as nat - '0' as nat) as nat,
            ),
            _ => None,
        }
    }
}

/// The `usize` that `s` writes in decimal: at least one digit, after a plus
/// sign or none.
pub open spec fn written_usize(s: Seq<char>) -> Option<usize> {
    let digits = if s.len() > 0 && s[0] == '+' {
        s.subrange(1, s.len() as int)
    } else {
        s
    };
    match decimal(digits) {
        Some(v) if digits.len() > 0 && v <= usize::MAX => Some(v as usize),
        _ => None,
    }
}

/// More digits never make a number smaller.
proof fn lemma_decimal_prefix(s: Seq<char>, n: int)
    requires
        0 <= n <= s.len(),
    ensures
        decimal(s) matches Some(v) ==> (decimal(s.subrange(0, n)) matches Some(w) && w <= v),
    decreases s.len(),
{
    if n == s.len() {
        assert(s.subrange(0, n) =~= s);
    } else {
        lemma_decimal_prefix(s.drop_last(), n);
        assert(s.drop_last().subrange(0, n) =~= s.subrange(0, n));
    }
}

/// The `usize` that the characters from `from` to `to` write.
pub(crate) fn read_usize(s: &Vec<char>, from: usize, to: usize) -> (r: Option<usize>)
    requires
        from <= to <= s@.len(),
    ensures
        r == written_usize(s@.subrange(from as int, to as int)),
{
    let ghost all = s@.subrange(from as int, to as int);
    let start: usize = if from < to && s[from] == '+' {
        from + 1
    } else {
        from
    };
    let ghost digits = s@.subrange(start as int, to as int);
    proof {
        if start > from {
            assert(digits =~= all.subrange(1, all.len() as int));
        }
    }
    if start == to {
        return None;
    }
    let mut value: usize = 0;
    let mut i: usize = start;
    while i < to
        invariant
            from <= start <= i <= to <= s@.len(),
            start < to,
            digits == s@.subrange(start as int, to as int),
            decimal(digits.subrange(0, i - start)) == Some(value as nat),
            digits == (if all.len() > 0 && all[0] == '+' {
                all.subrange(1, all.len() as int)
            } else {
                all
            }),
            all == s@.subrange(from as int, to as int),
        decreases to - i,
    {
        let c: char = s[i];
        let ghost read = digits.subrange(0, i + 1 - start);
        proof {
            assert(read.drop_last() =~= digits.subrange(0, i - start));
            assert(read.last() == c);
            lemma_decimal_prefix(digits, i + 1 - start);
        }
        if c < '0' || c > '9' {
            return None;
        }
        let digit: usize = (c as u32 - '0' as u32) as usize;
        if value > (usize::MAX - digit) / 10 {
            return None;
        }
        value = value * 10 + digit;
        i += 1;
    }
    assert(digits.subrange(0, to - start) =~= digits);
    Some(value)
}

} // verus!
