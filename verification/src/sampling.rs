//! Minimal sampling: greedy and temperature
//!
//! Logits and the two real parameters are carried by the bits of their 32-bit
//! floating-point values. The choices made here only compare them.

use vstd::prelude::*;

verus! {

/// The bits of negative infinity.
pub const NEG_INFINITY_BITS: u32 = 0xff800000;

/// The largest magnitude that is a number: infinity.
pub const INFINITY_BITS: u32 = 0x7f800000;

pub const SIGN_BIT: u32 = 0x80000000;

pub open spec fn magnitude(bits: u32) -> int {
    if bits >= SIGN_BIT {
        bits - SIGN_BIT
    } else {
        bits as int
    }
}

/// Not a number.
pub open spec fn is_nan(bits: u32) -> bool {
    magnitude(bits) > INFINITY_BITS
}

/// Numbers are ordered as these integers are; both zeros are 0.
pub open spec fn order_key(bits: u32) -> int {
    if bits >= SIGN_BIT {
        -magnitude(bits)
    } else {
        magnitude(bits)
    }
}

/// The floating-point `left > right`: false where either is not a number.
pub open spec fn above(left: u32, right: u32) -> bool {
    !is_nan(left) && !is_nan(right) && order_key(left) > order_key(right)
}

/// The floating-point `left <= right`: false where either is not a number.
pub open spec fn at_most(left: u32, right: u32) -> bool {
    !is_nan(left) && !is_nan(right) && order_key(left) <= order_key(right)
}

fn key(bits: u32) -> (key: Option<i64>)
    ensures
        key == (if is_nan(bits) {
            None::<i64>
        } else {
            Some(order_key(bits) as i64)
        }),
        key matches Some(value) ==> value == order_key(bits),
{
    let size: u32 = if bits >= SIGN_BIT {
        bits - SIGN_BIT
    } else {
        bits
    };
    if size > INFINITY_BITS {
        None
    } else if bits >= SIGN_BIT {
        Some(-(size as i64))
    } else {
        Some(size as i64)
    }
}

pub fn is_above(left: u32, right: u32) -> (yes: bool)
    ensures
        yes == above(left, right),
{
    match (key(left), key(right)) {
        (Some(left), Some(right)) => left > right,
        _ => false,
    }
}

pub fn is_at_most(left: u32, right: u32) -> (yes: bool)
    ensures
        yes == at_most(left, right),
{
    match (key(left), key(right)) {
        (Some(left), Some(right)) => left <= right,
        _ => false,
    }
}

/// The place that a scan from the left settles on: it moves only to a larger
/// number.
pub open spec fn argmax(logits: Seq<u32>) -> int
    decreases logits.len(),
{
    if logits.len() <= 1 {
        0
    } else {
        let best = argmax(logits.drop_last());
        if above(logits.last(), logits[best]) {
            logits.len() - 1
        } else {
            best
        }
    }
}

pub open spec fn all_numbers(values: Seq<u32>) -> bool {
    forall|i: int| 0 <= i < values.len() ==> !is_nan(#[trigger] values[i])
}

/// Where all logits are numbers, greedy sampling takes the first largest one.
pub proof fn lemma_argmax_first_largest(logits: Seq<u32>)
    requires
        logits.len() > 0,
        all_numbers(logits),
    ensures
        0 <= argmax(logits) < logits.len(),
        forall|i: int|
            0 <= i < logits.len() ==> order_key(#[trigger] logits[i]) <= order_key(
                logits[argmax(logits)],
            ),
        forall|i: int|
            0 <= i < argmax(logits) ==> order_key(#[trigger] logits[i]) < order_key(
                logits[argmax(logits)],
            ),
    decreases logits.len(),
{
    if logits.len() > 1 {
        let earlier = logits.drop_last();
        assert forall|i: int| 0 <= i < earlier.len() implies !is_nan(#[trigger] earlier[i]) by {
            assert(earlier[i] == logits[i]);
        }
        lemma_argmax_first_largest(earlier);
        let best = argmax(earlier);
        assert(earlier[best] == logits[best]);
        assert forall|i: int| 0 <= i < logits.len() implies order_key(#[trigger] logits[i])
            <= order_key(logits[argmax(logits)]) by {
            if i < earlier.len() {
                assert(earlier[i] == logits[i]);
            }
        }
        assert forall|i: int| 0 <= i < argmax(logits) implies order_key(#[trigger] logits[i])
            < order_key(logits[argmax(logits)]) by {
            assert(earlier[i] == logits[i]);
        }
    }
}

proof fn lemma_argmax_range(logits: Seq<u32>)
    requires
        logits.len() > 0,
    ensures
        0 <= argmax(logits) < logits.len(),
    decreases logits.len(),
{
    if logits.len() > 1 {
        lemma_argmax_range(logits.drop_last());
    }
}

fn find_argmax(logits: &Vec<u32>) -> (place: usize)
    requires
        logits@.len() > 0,
    ensures
        place == argmax(logits@),
        place < logits@.len(),
{
    let mut best: usize = 0;
    for i in 1..logits.len()
        invariant
            logits@.len() > 0,
            best < i,
            i <= logits@.len(),
            best == argmax(logits@.take(i as int)),
    {
        assert(logits@.take(i as int + 1).drop_last() =~= logits@.take(i as int));
        assert(logits@.take(i as int)[best as int] == logits@[best as int]);
        if is_above(logits[i], logits[best]) {
            best = i;
        }
    }
    assert(logits@.take(logits@.len() as int) =~= logits@);
    best
}

/// Entry `i` comes before entry `j`: it is larger, or as large and earlier.
pub open spec fn precedes(values: Seq<u32>, i: int, j: int) -> bool {
    order_key(values[i]) > order_key(values[j]) || (order_key(values[i]) == order_key(values[j])
        && i < j)
}

/// How many entries are kept.
pub open spec fn kept_count(kept: Seq<bool>) -> nat
    decreases kept.len(),
{
    if kept.len() == 0 {
        0
    } else {
        kept_count(kept.drop_last()) + if kept.last() {
            1nat
        } else {
            0
        }
    }
}

/// Exactly `k` entries are kept, and each kept entry comes before each that is
/// not.
pub open spec fn keeps_top(values: Seq<u32>, kept: Seq<bool>, k: nat) -> bool {
    &&& kept.len() == values.len()
    &&& kept_count(kept) == k
    &&& forall|i: int, j: int|
        0 <= i < values.len() && 0 <= j < values.len() && #[trigger] kept[i]
            && !#[trigger] kept[j] ==> precedes(values, i, j)
}

/// The entries that are not kept become negative infinity.
pub open spec fn filtered(values: Seq<u32>, kept: Seq<bool>) -> Seq<u32> {
    Seq::new(
        values.len(),
        |i: int|
            if kept[i] {
                values[i]
            } else {
                NEG_INFINITY_BITS
            },
    )
}

pub open spec fn is_top_k(values: Seq<u32>, k: nat, result: Seq<u32>) -> bool {
    exists|kept: Seq<bool>| #[trigger]
        keeps_top(values, kept, k) && result == filtered(values, kept)
}

proof fn lemma_kept_subset(smaller: Seq<bool>, larger: Seq<bool>)
    requires
        smaller.len() == larger.len(),
        forall|i: int| 0 <= i < smaller.len() && #[trigger] smaller[i] ==> larger[i],
    ensures
        kept_count(smaller) <= kept_count(larger),
        kept_count(smaller) == kept_count(larger) ==> smaller == larger,
    decreases smaller.len(),
{
    if smaller.len() > 0 {
        let a = smaller.drop_last();
        let b = larger.drop_last();
        assert forall|i: int| 0 <= i < a.len() && #[trigger] a[i] implies b[i] by {
            assert(smaller[i]);
        }
        lemma_kept_subset(a, b);
        let last = smaller.len() - 1;
        assert(smaller[last] ==> larger[last]);
        if kept_count(smaller) == kept_count(larger) {
            assert(a == b);
            assert(smaller =~= a.push(smaller.last()));
            assert(larger =~= b.push(larger.last()));
        }
    } else {
        assert(smaller =~= larger);
    }
}

/// There is only one way to keep the top `k` entries.
pub proof fn lemma_top_k_unique(values: Seq<u32>, k: nat, left: Seq<bool>, right: Seq<bool>)
    requires
        keeps_top(values, left, k),
        keeps_top(values, right, k),
    ensures
        left == right,
{
    if exists|i: int| 0 <= i < values.len() && #[trigger] left[i] && !right[i] {
        let i = choose|i: int| 0 <= i < values.len() && #[trigger] left[i] && !right[i];
        if exists|j: int| 0 <= j < values.len() && #[trigger] right[j] && !left[j] {
            let j = choose|j: int| 0 <= j < values.len() && #[trigger] right[j] && !left[j];
            assert(precedes(values, i, j));
            assert(precedes(values, j, i));
        } else {
            lemma_kept_subset(right, left);
        }
    } else {
        lemma_kept_subset(left, right);
    }
}

proof fn lemma_keep_one(kept: Seq<bool>, at: int)
    requires
        0 <= at < kept.len(),
        !kept[at],
    ensures
        kept_count(kept.update(at, true)) == kept_count(kept) + 1,
    decreases kept.len(),
{
    if at == kept.len() - 1 {
        assert(kept.update(at, true).drop_last() =~= kept.drop_last());
    } else {
        lemma_keep_one(kept.drop_last(), at);
        assert(kept.update(at, true).drop_last() =~= kept.drop_last().update(at, true));
    }
}

proof fn lemma_kept_bounded(kept: Seq<bool>)
    ensures
        kept_count(kept) <= kept.len(),
        kept_count(kept) < kept.len() ==> exists|i: int|
            0 <= i < kept.len() && !#[trigger] kept[i],
    decreases kept.len(),
{
    if kept.len() > 0 {
        lemma_kept_bounded(kept.drop_last());
        if kept_count(kept) < kept.len() {
            if kept.last() {
                let i = choose|i: int|
                    0 <= i < kept.drop_last().len() && !#[trigger] kept.drop_last()[i];
                assert(!kept[i]);
            } else {
                assert(!kept[kept.len() - 1]);
            }
        }
    }
}

proof fn lemma_none_kept(kept: Seq<bool>)
    requires
        forall|i: int| 0 <= i < kept.len() ==> !#[trigger] kept[i],
    ensures
        kept_count(kept) == 0,
    decreases kept.len(),
{
    if kept.len() > 0 {
        assert(!kept[kept.len() - 1]);
        assert forall|i: int| 0 <= i < kept.drop_last().len() implies !#[trigger] kept.drop_last()[i]
            by {
            assert(!kept[i]);
        }
        lemma_none_kept(kept.drop_last());
    }
}

/// The first of the entries that are not kept yet.
fn next_kept(values: &Vec<u32>, kept: &Vec<bool>) -> (place: usize)
    requires
        all_numbers(values@),
        kept@.len() == values@.len(),
        kept_count(kept@) < kept@.len(),
    ensures
        place < values@.len(),
        !kept@[place as int],
        forall|j: int|
            0 <= j < values@.len() && j != place && !#[trigger] kept@[j] ==> precedes(
                values@,
                place as int,
                j,
            ),
{
    let mut best: Option<usize> = None;
    for i in 0..values.len()
        invariant
            all_numbers(values@),
            kept@.len() == values@.len(),
            match best {
                None => forall|j: int| 0 <= j < i ==> #[trigger] kept@[j],
                Some(place) => {
                    &&& place < i
                    &&& !kept@[place as int]
                    &&& forall|j: int|
                        0 <= j < i && j != place && !#[trigger] kept@[j] ==> precedes(
                            values@,
                            place as int,
                            j,
                        )
                },
            },
    {
        if !kept[i] {
            match best {
                None => {
                    best = Some(i);
                },
                Some(place) => {
                    assert(!is_nan(values@[i as int]));
                    assert(!is_nan(values@[place as int]));
                    if is_above(values[i], values[place]) {
                        best = Some(i);
                    }
                },
            }
        }
    }
    proof {
        lemma_kept_bounded(kept@);
    }
    match best {
        Some(place) => place,
        None => {
            assert(false);
            0
        },
    }
}

fn keep_top(values: &Vec<u32>, k: usize) -> (kept: Vec<bool>)
    requires
        all_numbers(values@),
        k <= values@.len(),
    ensures
        keeps_top(values@, kept@, k as nat),
{
    let mut kept: Vec<bool> = Vec::new();
    for i in 0..values.len()
        invariant
            kept@.len() == i,
            forall|j: int| 0 <= j < i ==> !#[trigger] kept@[j],
    {
        kept.push(false);
    }
    proof {
        lemma_none_kept(kept@);
    }
    for done in 0..k
        invariant
            all_numbers(values@),
            k <= values@.len(),
            keeps_top(values@, kept@, done as nat),
    {
        let ghost before = kept@;
        let place: usize = next_kept(values, &kept);
        proof {
            lemma_keep_one(before, place as int);
        }
        kept.set(place, true);
        assert forall|i: int, j: int|
            0 <= i < values@.len() && 0 <= j < values@.len() && #[trigger] kept@[i]
                && !#[trigger] kept@[j] implies precedes(values@, i, j) by {
            assert(!before[j]);
            if i != place {
                assert(before[i]);
            }
        }
    }
    kept
}

/// How the next token is chosen. A temperature that is not positive is greedy.
#[derive(Debug, Clone, Copy, PartialEq, Eq, Structural)]
pub struct Sampler {
    pub temperature_bits: u32,
    pub top_k: Option<usize>,
    pub top_p_bits: Option<u32>,
}

impl Sampler {
    pub fn new(temperature_bits: u32, top_k: Option<usize>, top_p_bits: Option<u32>) -> (sampler:
        Self)
        ensures
            sampler == (Sampler { temperature_bits, top_k, top_p_bits }),
    {
        Sampler { temperature_bits, top_k, top_p_bits }
    }

    pub fn greedy() -> (sampler: Self)
        ensures
            sampler == (Sampler { temperature_bits: 0, top_k: None, top_p_bits: None }),
    {
        Sampler { temperature_bits: 0, top_k: None, top_p_bits: None }
    }

    /// The temperature is at most zero.
    pub open spec fn is_greedy(self) -> bool {
        at_most(self.temperature_bits, 0)
    }

    /// Whether a run leaves nothing behind that the next could see.
    pub fn is_stateless(&self) -> (stateless: bool)
        ensures
            stateless == (self.is_greedy() && self.top_k is None && self.top_p_bits is None),
    {
        is_at_most(self.temperature_bits, 0) && self.top_k.is_none() && self.top_p_bits.is_none()
    }

    /// The token that needs no chance: token zero for no logits, the argmax for
    /// a greedy sampler. Otherwise a token has to be drawn.
    pub fn sample_without_chance(&self, logits: &Vec<u32>) -> (token: Option<u32>)
        ensures
            token == (if logits@.len() == 0 {
                Some(0u32)
            } else if self.is_greedy() {
                Some(argmax(logits@) as u32)
            } else {
                None
            }),
    {
        if logits.len() == 0 {
            return Some(0);
        }
        if is_at_most(self.temperature_bits, 0) {
            return Some(find_argmax(logits) as u32);
        }
        None
    }

    /// The filter applies: it asks for some entries, but not for all of them.
    pub open spec fn filters(self, length: nat) -> bool {
        self.top_k matches Some(k) && 0 < k < length
    }

    /// Top-k filtering of the scaled logits: keeps exactly k entries, the
    /// largest, and among equals the earliest.
    pub fn apply_top_k(&self, scaled: &Vec<u32>) -> (result: Vec<u32>)
        requires
            self.filters(scaled@.len()) ==> all_numbers(scaled@),
        ensures
            self.filters(scaled@.len()) ==> is_top_k(
                scaled@,
                self.top_k->0 as nat,
                result@,
            ),
            !self.filters(scaled@.len()) ==> result@ == scaled@,
    {
        let mut keep: Option<Vec<bool>> = None;
        if let Some(k) = self.top_k {
            if k > 0 && k < scaled.len() {
                keep = Some(keep_top(scaled, k));
            }
        }
        let mut result: Vec<u32> = Vec::new();
        match keep {
            None => {
                for i in 0..scaled.len()
                    invariant
                        result@ =~= scaled@.take(i as int),
                {
                    result.push(scaled[i]);
                }
            },
            Some(kept) => {
                let ghost target = filtered(scaled@, kept@);
                for i in 0..scaled.len()
                    invariant
                        kept@.len() == scaled@.len(),
                        target == filtered(scaled@, kept@),
                        result@ =~= target.take(i as int),
                {
                    if kept[i] {
                        result.push(scaled[i]);
                    } else {
                        result.push(NEG_INFINITY_BITS);
                    }
                }
                assert(result@ =~= target);
            },
        }
        result
    }
}

/// When sampling is greedy: at a temperature of zero or below, and not where it is
/// no number.
pub proof fn lemma_greedy(sampler: Sampler)
    ensures
        sampler.is_greedy() <==> sampler.temperature_bits == 0 || 0x80000000
            <= sampler.temperature_bits <= 0xff800000,
{
}

/// How the bits of floats compare: among positive numbers by their bits, among
/// negative ones the other way round, negative ones below positive ones, both
/// zeros alike, and nothing that is no number above or below anything.
pub proof fn lemma_float_order(left: u32, right: u32)
    ensures
        ({
            let number = (left <= 0x7f800000 || 0x80000000 <= left <= 0xff800000) && (right
                <= 0x7f800000 || 0x80000000 <= right <= 0xff800000);
            let negative_left = left > 0x80000000;
            let negative_right = right > 0x80000000;
            let zero_left = left == 0 || left == 0x80000000;
            let zero_right = right == 0 || right == 0x80000000;
            &&& !number ==> !above(left, right) && !at_most(left, right)
            &&& number ==> (above(left, right) <==> !at_most(left, right))
            &&& number && left < 0x80000000 && right < 0x80000000 ==> (above(left, right) <==> left
                > right)
            &&& number && negative_left && negative_right ==> (above(left, right) <==> left < right)
            &&& number && !negative_left && negative_right ==> above(left, right)
            &&& number && negative_left && !negative_right ==> !above(left, right)
            &&& zero_left && zero_right ==> at_most(left, right) && !above(left, right)
        }),
{
}

/// Where the top entries are kept, as many keep their value as are asked for;
/// every other one becomes minus infinity, and none of those was larger than one
/// that is kept.
pub proof fn lemma_top_k(values: Seq<u32>, k: nat, result: Seq<u32>) -> (kept: Seq<bool>)
    requires
        is_top_k(values, k, result),
    ensures
        result.len() == values.len(),
        kept.len() == values.len(),
        kept_count(kept) == k,
        forall|i: int|
            0 <= i < values.len() ==> #[trigger] result[i] == (if kept[i] {
                values[i]
            } else {
                0xff800000u32
            }),
        forall|i: int, j: int|
            0 <= i < values.len() && 0 <= j < values.len() && #[trigger] kept[i]
                && !#[trigger] kept[j] ==> order_key(values[i]) > order_key(values[j]) || (
            order_key(values[i]) == order_key(values[j]) && i < j),
{
    choose|kept: Seq<bool>| #[trigger]
        keeps_top(values, kept, k) && result == filtered(values, kept)
}

/// The count goes up by one for each that is kept.
pub proof fn lemma_kept_count(kept: Seq<bool>)
    ensures
        kept_count(Seq::empty()) == 0,
        kept_count(kept.push(true)) == kept_count(kept) + 1,
        kept_count(kept.push(false)) == kept_count(kept),
{
    assert(kept.push(true).drop_last() =~= kept);
    assert(kept.push(false).drop_last() =~= kept);
}

} // verus!
