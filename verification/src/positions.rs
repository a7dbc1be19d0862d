//! Accepted tokens per draft position.
//!
//! The engine reports them as one labeled counter per position, under
//! `llamacpp_spec_decode_num_accepted_tokens_per_pos_total{position="N"}`.
use vstd::prelude::*;

use crate::binary64::Binary64;
use crate::samples::SampleMap;
use crate::text::{
    chars_of, has_prefix_at, read_usize, trimmed, trimmed_end, trimmed_start, without_last,
    without_prefix, written_usize,
};

verus! {

/// Cumulative accepted tokens per draft position, labeled by `position`.
pub const SPEC_DECODE_ACCEPTED_PER_POS_TOTAL: &'static str =
    "llamacpp_spec_decode_num_accepted_tokens_per_pos_total";

/// What opens the labels of a counter.
pub const OPENING: &'static str = "{";

/// The only label of that counter.
pub const POSITION_LABEL: &'static str = "position=";

/// The position that a labeled counter is about, where it is one of the
/// accepted tokens per position.
pub open spec fn position_of(key: Seq<char>) -> Option<usize> {
    match without_prefix(key, SPEC_DECODE_ACCEPTED_PER_POS_TOTAL@ + OPENING@) {
        Some(labels) => match without_last(labels, '}') {
            Some(label) => match without_prefix(label, POSITION_LABEL@) {
                Some(quoted) => written_usize(trimmed(quoted, '"')),
                None => None,
            },
            None => None,
        },
        None => None,
    }
}

/// Whether the counter under `key` is one of `samples` and about `position`.
pub open spec fn reports(
    samples: Map<Seq<char>, Binary64>,
    key: Seq<char>,
    position: int,
) -> bool {
    samples.contains_key(key) && (position_of(key) matches Some(p) && p == position)
}

/// Whether some counter is about `position`.
pub open spec fn is_reported(samples: Map<Seq<char>, Binary64>, position: int) -> bool {
    exists|key: Seq<char>| reports(samples, key, position)
}

/// Whether a list with a slot for each reported position can be held: eight
/// bytes a slot, within the largest size that a list may have.
pub open spec fn positions_fit(samples: Map<Seq<char>, Binary64>) -> bool {
    forall|key: Seq<char>, position: int| #[trigger]
        reports(samples, key, position) ==> (position + 1) * 8 <= isize::MAX
}

/// Whether `slots` is the distribution that `samples` report: it ends with
/// the last reported position, a reported position holds the count of a
/// counter about it, and every other one holds zero.
pub open spec fn is_distribution(samples: Map<Seq<char>, Binary64>, slots: Seq<u64>) -> bool {
    &&& slots.len() > 0
    &&& is_reported(samples, slots.len() - 1)
    &&& forall|position: int| #[trigger]
        is_reported(samples, position) ==> 0 <= position < slots.len()
    &&& forall|position: int| #![trigger slots[position]]
        0 <= position < slots.len() ==> if is_reported(samples, position) {
            exists|key: Seq<char>| #[trigger]
                reports(samples, key, position) && slots[position] == samples[key].count()
        } else {
            slots[position] == 0
        }
}

/// The position that a labeled counter is about.
pub fn read_position(key: &str) -> (r: Option<usize>)
    ensures
        r == position_of(key@),
{
    let chars: Vec<char> = chars_of(key);
    let ghost whole = key@;
    let mut prefix: String = SPEC_DECODE_ACCEPTED_PER_POS_TOTAL.to_string();
    prefix.append(OPENING);
    assert(chars@.subrange(0, chars@.len() as int) =~= whole);
    if !has_prefix_at(&chars, 0, prefix.as_str()) {
        return None;
    }
    let opened: usize = prefix.as_str().unicode_len();
    let ghost labels = whole.subrange(opened as int, whole.len() as int);
    if chars.len() == opened || chars[chars.len() - 1] != '}' {
        return None;
    }
    let mut label_chars: Vec<char> = chars;
    label_chars.pop();
    let ghost label = labels.drop_last();
    assert(label_chars@.subrange(opened as int, label_chars@.len() as int) =~= label);
    if !has_prefix_at(&label_chars, opened, POSITION_LABEL) {
        return None;
    }
    let mut from: usize = opened + POSITION_LABEL.unicode_len();
    let mut to: usize = label_chars.len();
    let ghost quoted = label_chars@.subrange(from as int, to as int);
    assert(quoted =~= label.subrange(POSITION_LABEL@.len() as int, label.len() as int));
    while from < to && label_chars[from] == '"'
        invariant
            from <= to == label_chars@.len(),
            trimmed_start(label_chars@.subrange(from as int, to as int), '"') == trimmed_start(
                quoted,
                '"',
            ),
        decreases to - from,
    {
        let ghost rest = label_chars@.subrange(from as int, to as int);
        assert(rest.subrange(1, rest.len() as int) =~= label_chars@.subrange(from + 1, to as int));
        from += 1;
    }
    assert(trimmed_start(quoted, '"') == label_chars@.subrange(from as int, to as int));
    while from < to && label_chars[to - 1] == '"'
        invariant
            from <= to <= label_chars@.len(),
            trimmed_end(label_chars@.subrange(from as int, to as int), '"') == trimmed(quoted, '"'),
        decreases to - from,
    {
        let ghost rest = label_chars@.subrange(from as int, to as int);
        assert(rest.drop_last() =~= label_chars@.subrange(from as int, to - 1));
        to -= 1;
    }
    read_usize(&label_chars, from, to)
}

/// Whether a position and its sample come from one of the counters.
spec fn is_item(samples: Map<Seq<char>, Binary64>, item: (usize, Binary64)) -> bool {
    exists|key: Seq<char>| #[trigger]
        reports(samples, key, item.0 as int) && samples[key] == item.1
}

/// The positions that are reported, with the sample of each.
fn positions(samples: &SampleMap) -> (items: Vec<(usize, Binary64)>)
    ensures
        forall|i: int|
            0 <= i < items@.len() ==> is_item(samples@, #[trigger] items@[i]),
        forall|key: Seq<char>, position: int| #[trigger]
            reports(samples@, key, position) ==> exists|i: int|
                0 <= i < items@.len() && (#[trigger] items@[i]).0 == position,
{
    let entries: &Vec<(String, Binary64)> = samples.entries();
    let mut items: Vec<(usize, Binary64)> = Vec::new();
    let mut i: usize = 0;
    while i < entries.len()
        invariant
            i <= entries@.len(),
            forall|j: int|
                0 <= j < entries@.len() ==> samples@.contains_key(#[trigger] entries@[j].0@)
                    && samples@[entries@[j].0@] == entries@[j].1,
            forall|j: int|
                0 <= j < items@.len() ==> is_item(samples@, #[trigger] items@[j]),
            forall|j: int, position: int|
                0 <= j < i && #[trigger] reports(samples@, entries@[j].0@, position)
                    ==> exists|k: int| 0 <= k < items@.len() && (#[trigger] items@[k]).0 == position,
        decreases entries@.len() - i,
    {
        let ghost before = items@;
        let read: Option<usize> = read_position(entries[i].0.as_str());
        if let Some(p) = read {
            items.push((p, entries[i].1));
            assert(reports(samples@, entries@[i as int].0@, p as int));
        }
        proof {
            assert forall|j: int| 0 <= j < items@.len() implies is_item(
                samples@,
                #[trigger] items@[j],
            ) by {
                if j < before.len() {
                    assert(items@[j] == before[j]);
                } else {
                    assert(reports(samples@, entries@[i as int].0@, items@[j].0 as int));
                }
            }
            assert forall|j: int, position: int|
                0 <= j < i + 1 && #[trigger] reports(
                    samples@,
                    entries@[j].0@,
                    position,
                ) implies exists|k: int|
                0 <= k < items@.len() && (#[trigger] items@[k]).0 == position by {
                if j < i {
                    let k = choose|k: int|
                        0 <= k < before.len() && (#[trigger] before[k]).0 == position;
                    assert(items@[k] == before[k]);
                } else {
                    assert(items@[items@.len() - 1].0 == position);
                }
            }
        }
        i += 1;
    }
    items
}

/// Whether a list with a slot for each reported position can be held.
pub fn can_hold_positions(samples: &SampleMap) -> (r: bool)
    ensures
        r == positions_fit(samples@),
{
    let items: Vec<(usize, Binary64)> = positions(samples);
    let mut i: usize = 0;
    while i < items.len()
        invariant
            i <= items@.len(),
            forall|j: int|
                0 <= j < items@.len() ==> is_item(samples@, #[trigger] items@[j]),
            forall|j: int|
                0 <= j < i ==> ((#[trigger] items@[j]).0 + 1) * 8 <= isize::MAX,
        decreases items@.len() - i,
    {
        if items[i].0 >= (isize::MAX as usize) / 8 {
            proof {
                let item = items@[i as int];
                assert(is_item(samples@, item));
                let key = choose|key: Seq<char>| #[trigger]
                    reports(samples@, key, item.0 as int) && samples@[key] == item.1;
                assert(reports(samples@, key, item.0 as int));
            }
            return false;
        }
        i += 1;
    }
    true
}

/// The accepted tokens by position. Positions that no counter is about are
/// filled with zero, so the index stays the position; without any such
/// counter there is no distribution. Where several counters are about one
/// position, one of them counts.
pub fn accepted_per_position(samples: &SampleMap) -> (r: Option<Vec<u64>>)
    requires
        positions_fit(samples@),
    ensures
        match r {
            Some(slots) => is_distribution(samples@, slots@),
            None => forall|position: int| !is_reported(samples@, position),
        },
{
    let items: Vec<(usize, Binary64)> = positions(samples);
    if items.len() == 0 {
        return None;
    }
    let mut last: usize = items[0].0;
    let mut i: usize = 1;
    while i < items.len()
        invariant
            1 <= i <= items@.len(),
            forall|j: int| 0 <= j < i ==> (#[trigger] items@[j]).0 <= last,
            exists|j: int| 0 <= j < i && (#[trigger] items@[j]).0 == last,
        decreases items@.len() - i,
    {
        if items[i].0 > last {
            last = items[i].0;
            assert(items@[i as int].0 == last);
        }
        i += 1;
    }
    let ghost widest = choose|j: int| 0 <= j < items@.len() && (#[trigger] items@[j]).0 == last;
    assert(items@[widest].0 == last);
    assert(is_reported(samples@, last as int));
    let mut slots: Vec<u64> = vec![0u64; last + 1];
    let mut n: usize = 0;
    while n < items.len()
        invariant
            n <= items@.len(),
            slots@.len() == last + 1,
            forall|j: int| 0 <= j < items@.len() ==> (#[trigger] items@[j]).0 <= last,
            forall|p: int| #![trigger slots@[p]]
                0 <= p < slots@.len() ==> ((exists|j: int|
                    0 <= j < n && (#[trigger] items@[j]).0 == p && slots@[p] == items@[j].1.count())
                    || (slots@[p] == 0 && forall|j: int|
                    0 <= j < n ==> (#[trigger] items@[j]).0 != p)),
        decreases items@.len() - n,
    {
        let ghost before = slots@;
        let position: usize = items[n].0;
        let count: u64 = items[n].1.to_count();
        slots.set(position, count);
        proof {
            assert forall|p: int| #![trigger slots@[p]] 0 <= p < slots@.len() implies ((exists|j: int|
                0 <= j < n + 1 && (#[trigger] items@[j]).0 == p && slots@[p]
                    == items@[j].1.count()) || (slots@[p] == 0 && forall|j: int|
                0 <= j < n + 1 ==> (#[trigger] items@[j]).0 != p)) by {
                if p == position {
                    assert(items@[n as int].0 == p && slots@[p] == items@[n as int].1.count());
                } else {
                    assert(slots@[p] == before[p]);
                }
            }
        }
        n += 1;
    }
    proof {
        assert forall|position: int| #[trigger] is_reported(samples@, position) implies 0
            <= position < slots@.len() by {
            let key = choose|key: Seq<char>| reports(samples@, key, position);
            let j = choose|j: int| 0 <= j < items@.len() && (#[trigger] items@[j]).0 == position;
            assert(items@[j].0 <= last);
        }
        assert forall|position: int| #![trigger slots@[position]]
            0 <= position < slots@.len() implies if is_reported(samples@, position) {
            exists|key: Seq<char>| #[trigger]
                reports(samples@, key, position) && slots@[position] == samples@[key].count()
        } else {
            slots@[position] == 0
        } by {
            if is_reported(samples@, position) {
                let key = choose|key: Seq<char>| reports(samples@, key, position);
                let i = choose|i: int| 0 <= i < items@.len() && (#[trigger] items@[i]).0 == position;
                let j = choose|j: int|
                    0 <= j < items@.len() && (#[trigger] items@[j]).0 == position
                        && slots@[position] == items@[j].1.count();
                assert(items@[j].0 == position);
            } else {
                assert forall|j: int| 0 <= j < items@.len() implies (#[trigger] items@[j]).0
                    != position by {}
            }
        }
    }
    Some(slots)
}

} // verus!
