//! How positions are written, and what a distribution over them holds.
use vstd::prelude::*;

use crate::binary64::Binary64;
use crate::mapping_laws::is_heard;
use crate::metrics::{can_map, is_mapping, Average, EngineMetrics, Snapshot};
use crate::operations::{
    above_zero, is_count, law_comparisons_are_by_value, law_count_is_the_whole_part,
};
use crate::positions::{
    is_reported, position_of, positions_fit, read_position, reports, OPENING, POSITION_LABEL,
    SPEC_DECODE_ACCEPTED_PER_POS_TOTAL,
};
use crate::samples::{lookup, ParsedMetrics};
use crate::text::{
    decimal, trimmed, trimmed_end, trimmed_start, without_last, without_prefix,
};

verus! {

/// The decimal digits, in order.
pub open spec fn digits_in_order() -> Seq<char> {
    seq!['0', '1', '2', '3', '4', '5', '6', '7', '8', '9']
}

/// A number in base ten, as it is usually written.
pub open spec fn in_base_ten(n: nat) -> Seq<char>
    decreases n,
{
    if n < 10 {
        seq![digits_in_order()[n as int]]
    } else {
        in_base_ten(n / 10).push(digits_in_order()[n as int % 10])
    }
}

/// A character, over and over.
pub open spec fn run_of(c: char, n: nat) -> Seq<char> {
    Seq::new(n, |i: int| c)
}

/// A number with zeros before it, after a plus sign or none.
pub open spec fn written(plus: bool, zeros: nat, n: nat) -> Seq<char> {
    if plus {
        seq!['+'] + run_of('0', zeros) + in_base_ten(n)
    } else {
        run_of('0', zeros) + in_base_ten(n)
    }
}

/// A label with this value, in quotes.
pub open spec fn labeled(opening: nat, value: Seq<char>, closing: nat) -> Seq<char> {
    "llamacpp_spec_decode_num_accepted_tokens_per_pos_total{position="@ + run_of('"', opening)
        + value + run_of('"', closing) + "}"@
}

proof fn lemma_in_base_ten(n: nat)
    ensures
        in_base_ten(n).len() > 0,
        forall|i: int| 0 <= i < in_base_ten(n).len() ==> '0' <= #[trigger] in_base_ten(n)[i] <= '9',
    decreases n,
{
    let all = digits_in_order();
    assert(forall|d: int| 0 <= d < 10 ==> '0' <= #[trigger] all[d] <= '9');
    if n >= 10 {
        lemma_in_base_ten(n / 10);
        assert forall|i: int| 0 <= i < in_base_ten(n).len() implies '0' <= #[trigger] in_base_ten(
            n,
        )[i] <= '9' by {
            if i < in_base_ten(n).len() - 1 {
                assert(in_base_ten(n)[i] == in_base_ten(n / 10)[i]);
            }
        }
    }
}

proof fn lemma_digit_value(d: int)
    requires
        0 <= d < 10,
    ensures
        digits_in_order()[d] as int == '0' as int + d,
        '0' <= digits_in_order()[d] <= '9',
{
}

/// Writing a number in base ten and reading it gives the number back.
pub proof fn law_number_is_read_back(zeros: nat, n: nat)
    ensures
        decimal(run_of('0', zeros) + in_base_ten(n)) == Some(n),
    decreases n, zeros,
{
    let all = run_of('0', zeros) + in_base_ten(n);
    let rest = all.drop_last();
    lemma_in_base_ten(n);
    if n < 10 {
        lemma_digit_value(n as int);
        if zeros == 0 {
            assert(rest =~= Seq::empty());
        } else {
            let fewer = (zeros - 1) as nat;
            assert(rest =~= run_of('0', fewer) + in_base_ten(0));
            lemma_zeros(zeros);
            assert(rest =~= run_of('0', zeros));
        }
    } else {
        lemma_digit_value(n as int % 10);
        lemma_in_base_ten(n / 10);
        assert(rest =~= run_of('0', zeros) + in_base_ten(n / 10));
        law_number_is_read_back(zeros, n / 10);
    }
}

proof fn lemma_zeros(zeros: nat)
    ensures
        decimal(run_of('0', zeros)) == Some(0nat),
    decreases zeros,
{
    if zeros > 0 {
        lemma_zeros((zeros - 1) as nat);
        assert(run_of('0', zeros).drop_last() =~= run_of('0', (zeros - 1) as nat));
    }
}

/// What is read as a number is that number in base ten, after zeros or none.
proof fn lemma_number_was_written(s: Seq<char>) -> (zeros: nat)
    requires
        s.len() > 0,
        decimal(s) is Some,
    ensures
        s == run_of('0', zeros) + in_base_ten(decimal(s)->0),
    decreases s.len(),
{
    let n = decimal(s)->0;
    let rest = s.drop_last();
    let d = s.last() as int - '0' as int;
    assert(decimal(rest) is Some && '0' <= s.last() <= '9');
    lemma_digit_value(d);
    if rest.len() == 0 {
        assert(s =~= run_of('0', 0) + in_base_ten(n));
        0
    } else {
        let zeros = lemma_number_was_written(rest);
        let w = decimal(rest)->0;
        assert(n == w * 10 + d);
        assert(s =~= rest.push(s.last()));
        if w == 0 {
            assert(rest =~= run_of('0', zeros + 1));
            assert(in_base_ten(n) =~= seq![s.last()]);
            assert(s =~= run_of('0', zeros + 1) + in_base_ten(n));
            zeros + 1
        } else {
            assert(n / 10 == w && n % 10 == d);
            assert(in_base_ten(n) =~= in_base_ten(w).push(s.last()));
            assert(s =~= run_of('0', zeros) + in_base_ten(n));
            zeros
        }
    }
}

proof fn lemma_trimmed_start(n: nat, s: Seq<char>)
    requires
        s.len() == 0 || s[0] != '"',
    ensures
        trimmed_start(run_of('"', n) + s, '"') == s,
    decreases n,
{
    let all = run_of('"', n) + s;
    if n == 0 {
        assert(all =~= s);
    } else {
        lemma_trimmed_start((n - 1) as nat, s);
        assert(all.subrange(1, all.len() as int) =~= run_of('"', (n - 1) as nat) + s);
    }
}

proof fn lemma_trimmed_end(s: Seq<char>, n: nat)
    requires
        s.len() == 0 || s.last() != '"',
    ensures
        trimmed_end(s + run_of('"', n), '"') == s,
    decreases n,
{
    let all = s + run_of('"', n);
    if n == 0 {
        assert(all =~= s);
    } else {
        lemma_trimmed_end(s, (n - 1) as nat);
        assert(all.drop_last() =~= s + run_of('"', (n - 1) as nat));
    }
}

proof fn lemma_start_was_trimmed(s: Seq<char>) -> (n: nat)
    ensures
        s == run_of('"', n) + trimmed_start(s, '"'),
    decreases s.len(),
{
    if s.len() > 0 && s[0] == '"' {
        let rest = s.subrange(1, s.len() as int);
        let n = lemma_start_was_trimmed(rest);
        assert(s =~= seq!['"'] + rest);
        assert(run_of('"', n + 1) =~= seq!['"'] + run_of('"', n));
        assert(s =~= run_of('"', n + 1) + trimmed_start(s, '"'));
        n + 1
    } else {
        assert(s =~= run_of('"', 0) + s);
        0
    }
}

proof fn lemma_end_was_trimmed(s: Seq<char>) -> (n: nat)
    ensures
        s == trimmed_end(s, '"') + run_of('"', n),
    decreases s.len(),
{
    if s.len() > 0 && s.last() == '"' {
        let rest = s.drop_last();
        let n = lemma_end_was_trimmed(rest);
        assert(s =~= rest.push('"'));
        assert(run_of('"', n + 1) =~= run_of('"', n).push('"'));
        assert(s =~= trimmed_end(s, '"') + run_of('"', n + 1));
        n + 1
    } else {
        assert(s =~= s + run_of('"', 0));
        0
    }
}

/// The name, the brace and the label are one text.
proof fn lemma_prefix()
    ensures
        SPEC_DECODE_ACCEPTED_PER_POS_TOTAL@ + OPENING@ + POSITION_LABEL@
            == "llamacpp_spec_decode_num_accepted_tokens_per_pos_total{position="@,
        "}"@ == seq!['}'],
{
    reveal_strlit("llamacpp_spec_decode_num_accepted_tokens_per_pos_total{position=");
    reveal_strlit("llamacpp_spec_decode_num_accepted_tokens_per_pos_total");
    reveal_strlit("{");
    reveal_strlit("position=");
    reveal_strlit("}");
    assert(SPEC_DECODE_ACCEPTED_PER_POS_TOTAL@ + OPENING@ + POSITION_LABEL@
        =~= "llamacpp_spec_decode_num_accepted_tokens_per_pos_total{position="@);
    assert("}"@ =~= seq!['}']);
}

/// A label that writes a number in base ten is about that position, in any
/// quotes, with a plus sign and zeros before it or none.
pub proof fn law_label_is_about_its_number(opening: nat, plus: bool, zeros: nat, n: usize, closing: nat)
    ensures
        position_of(labeled(opening, written(plus, zeros, n as nat), closing)) == Some(n),
{
    let value = written(plus, zeros, n as nat);
    let key = labeled(opening, value, closing);
    let digits = run_of('0', zeros) + in_base_ten(n as nat);
    let head = SPEC_DECODE_ACCEPTED_PER_POS_TOTAL@ + OPENING@;
    let quoted = run_of('"', opening) + value + run_of('"', closing);
    lemma_prefix();
    lemma_in_base_ten(n as nat);
    law_number_is_read_back(zeros, n as nat);
    let label = POSITION_LABEL@ + quoted;
    assert(key =~= head + (label + seq!['}']));
    assert(key.subrange(0, head.len() as int) =~= head);
    assert(key.subrange(head.len() as int, key.len() as int) =~= label + seq!['}']);
    assert((label + seq!['}']).drop_last() =~= label);
    assert(label.subrange(0, POSITION_LABEL@.len() as int) =~= POSITION_LABEL@);
    assert(label.subrange(POSITION_LABEL@.len() as int, label.len() as int) =~= quoted);
    assert(digits.last() == in_base_ten(n as nat).last());
    assert('0' <= digits[0] <= '9') by {
        if zeros == 0 {
            assert(digits[0] == in_base_ten(n as nat)[0]);
        }
    }
    assert(value.last() == digits.last());
    assert(quoted =~= run_of('"', opening) + (value + run_of('"', closing)));
    lemma_trimmed_start(opening, value + run_of('"', closing));
    lemma_trimmed_end(value, closing);
    if plus {
        assert(value.subrange(1, value.len() as int) =~= digits);
    } else {
        assert(value =~= digits);
    }
}

/// Whether a label writes this position.
pub open spec fn writes(key: Seq<char>, n: usize) -> bool {
    exists|opening: nat, plus: bool, zeros: nat, closing: nat|
        key == #[trigger] labeled(opening, written(plus, zeros, n as nat), closing)
}

/// A label is about a position exactly where it writes that position.
pub proof fn law_position_is_what_is_written(key: Seq<char>, n: usize)
    ensures
        position_of(key) == Some(n) <==> writes(key, n),
{
    if writes(key, n) {
        let (opening, plus, zeros, closing) = choose|
            opening: nat,
            plus: bool,
            zeros: nat,
            closing: nat,
        |
            key == #[trigger] labeled(opening, written(plus, zeros, n as nat), closing);
        law_label_is_about_its_number(opening, plus, zeros, n, closing);
    }
    if position_of(key) == Some(n) {
        lemma_prefix();
        let head = SPEC_DECODE_ACCEPTED_PER_POS_TOTAL@ + OPENING@;
        let labels = without_prefix(key, head)->0;
        let label = without_last(labels, '}')->0;
        let quoted = without_prefix(label, POSITION_LABEL@)->0;
        assert(key =~= head + labels);
        assert(labels =~= label + seq!['}']);
        assert(label =~= POSITION_LABEL@ + quoted);
        let opening = lemma_start_was_trimmed(quoted);
        let closing = lemma_end_was_trimmed(trimmed_start(quoted, '"'));
        let value = trimmed(quoted, '"');
        let plus = value.len() > 0 && value[0] == '+';
        let digits = if plus {
            value.subrange(1, value.len() as int)
        } else {
            value
        };
        let zeros = lemma_number_was_written(digits);
        if plus {
            assert(value =~= seq!['+'] + digits);
        }
        assert(value =~= written(plus, zeros, n as nat));
        assert(key =~= labeled(opening, written(plus, zeros, n as nat), closing));
    }
}

/// `read_position` reads the position that a label writes.
pub proof fn law_read_position_reads_what_is_written(key: &str, r: Option<usize>, n: usize)
    requires
        call_ensures(read_position, (key,), r),
    ensures
        r == Some(n) <==> writes(key@, n),
{
    law_position_is_what_is_written(key@, n);
}

/// Labels of two numbers are about two positions.
pub proof fn law_numbers_have_labels_of_their_own(a: usize, b: usize)
    requires
        a != b,
    ensures
        labeled(1, in_base_ten(a as nat), 1) != labeled(1, in_base_ten(b as nat), 1),
        position_of(labeled(1, in_base_ten(a as nat), 1)) == Some(a),
        position_of(labeled(1, in_base_ten(b as nat), 1)) == Some(b),
{
    law_label_is_about_its_number(1, false, 0, a, 1);
    law_label_is_about_its_number(1, false, 0, b, 1);
    assert(written(false, 0, a as nat) =~= in_base_ten(a as nat));
    assert(written(false, 0, b as nat) =~= in_base_ten(b as nat));
}

/// Whether some counter is about a position.
pub open spec fn is_told(samples: Map<Seq<char>, Binary64>, n: usize) -> bool {
    exists|key: Seq<char>| #[trigger] samples.contains_key(key) && writes(key, n)
}

/// Whether a slot holds the count of a counter about its position.
pub open spec fn is_told_count(samples: Map<Seq<char>, Binary64>, n: usize, c: u64) -> bool {
    exists|key: Seq<char>| #[trigger]
        samples.contains_key(key) && writes(key, n) && is_count(samples[key], c)
}

proof fn lemma_told(samples: Map<Seq<char>, Binary64>, n: usize)
    ensures
        is_told(samples, n) <==> is_reported(samples, n as int),
{
    if is_told(samples, n) {
        let key = choose|key: Seq<char>| #[trigger] samples.contains_key(key) && writes(key, n);
        law_position_is_what_is_written(key, n);
        assert(reports(samples, key, n as int));
    }
    if is_reported(samples, n as int) {
        let key = choose|key: Seq<char>| reports(samples, key, n as int);
        law_position_is_what_is_written(key, n);
        assert(samples.contains_key(key) && writes(key, n));
    }
}

/// The distribution has a slot for each position up to the last one that a
/// counter writes. A slot holds the count of such a counter, or zero where
/// there is none; without any such counter there is no distribution.
pub proof fn law_slots_are_of_their_positions(
    m: EngineMetrics,
    parsed: &ParsedMetrics,
    previous: Option<Snapshot>,
    generation: Average,
    prompt: Average,
    n: usize,
)
    requires
        is_mapping(m, parsed, previous, generation, prompt),
    ensures
        ({
            let samples = parsed.labeled_counters@;
            match m.spec_decode_accepted_tokens_per_pos {
                None => !is_told(samples, n),
                Some(slots) => {
                    &&& slots@.len() > 0
                    &&& slots@.len() - 1 == n ==> is_told(samples, n)
                    &&& is_told(samples, n) ==> n < slots@.len() && is_told_count(
                        samples,
                        n,
                        slots@[n as int],
                    )
                    &&& n < slots@.len() && !is_told(samples, n) ==> slots@[n as int] == 0
                },
            }
        }),
{
    let samples = parsed.labeled_counters@;
    lemma_told(samples, n);
    if let Some(slots) = m.spec_decode_accepted_tokens_per_pos {
        if is_told(samples, n) {
            assert(slots@[n as int] == slots@[n as int]);
            let key = choose|key: Seq<char>| #[trigger]
                reports(samples, key, n as int) && slots@[n as int] == samples[key].count();
            law_position_is_what_is_written(key, n);
            law_count_is_the_whole_part(samples[key]);
            assert(samples.contains_key(key) && writes(key, n) && is_count(
                samples[key],
                slots@[n as int],
            ));
        } else if n < slots@.len() {
            assert(slots@[n as int] == 0);
        }
    }
}

/// A scrape can be mapped exactly where a list with a slot of eight bytes for
/// each position can be held, and no running average is full that it would be
/// taken into.
pub proof fn law_scrape_fits_what_can_be_held(
    parsed: &ParsedMetrics,
    generation: Average,
    prompt: Average,
)
    ensures
        can_map(parsed, generation, prompt) <==> {
            &&& forall|n: usize|
                (#[trigger] is_told(parsed.labeled_counters@, n)) ==> (n + 1) * 8 <= isize::MAX
            &&& !(generation.1 == u64::MAX && is_heard(
                lookup(parsed.gauges@, "llamacpp_predicted_tokens_seconds"@),
            ))
            &&& !(prompt.1 == u64::MAX && is_heard(
                lookup(parsed.gauges@, "llamacpp_prompt_tokens_seconds"@),
            ))
        },
{
    let samples = parsed.labeled_counters@;
    assert forall|v: Binary64| #[trigger] v.is_positive() <==> above_zero(v) by {
        law_comparisons_are_by_value(v, v);
    }
    if positions_fit(samples) {
        assert forall|n: usize| (#[trigger] is_told(samples, n)) implies (n + 1) * 8
            <= isize::MAX by {
            lemma_told(samples, n);
            let key = choose|key: Seq<char>| reports(samples, key, n as int);
            assert(reports(samples, key, n as int));
        }
    }
    if forall|n: usize| (#[trigger] is_told(samples, n)) ==> (n + 1) * 8 <= isize::MAX {
        assert forall|key: Seq<char>, position: int| #[trigger]
            reports(samples, key, position) implies (position + 1) * 8 <= isize::MAX by {
            let n = position_of(key)->0;
            lemma_told(samples, n);
            assert(is_reported(samples, n as int));
            assert(is_told(samples, n));
        }
        assert(positions_fit(samples));
    }
}

} // verus!
