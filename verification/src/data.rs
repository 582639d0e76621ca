//! Deterministic SplitMix64 mini-batch sampler with checkpointable state.
use vstd::prelude::*;
use crate::text::{debug_list, decimal, push_debug_list, push_decimal, push_str};
use vstd::set_lib::{set_int_range, lemma_int_range, lemma_subset_equality, lemma_map_size};
use vstd::arithmetic::div_mod::{lemma_fundamental_div_mod, lemma_mod_multiples_vanish, lemma_small_mod};

verus! {

/// Amount added to the SplitMix64 state before every draw.
pub const SPLITMIX64_INCREMENT: u64 = 0x9E37_79B9_7F4A_7C15;

/// First multiplier of the SplitMix64 output function.
pub const MIX_MULTIPLIER_A: u64 = 0xBF58_476D_1CE4_E5B9;

/// Second multiplier of the SplitMix64 output function.
pub const MIX_MULTIPLIER_B: u64 = 0x94D0_49BB_1331_11EB;

/// The state after one SplitMix64 step.
pub open spec fn advance_state(state: u64) -> u64 {
    vstd::wrapping::u64_specs::wrapping_add(state, SPLITMIX64_INCREMENT)
}

/// The SplitMix64 output function applied to an advanced state.
pub open spec fn mix(z: u64) -> u64 {
    let a = vstd::wrapping::u64_specs::wrapping_mul(z ^ (z >> 30u64), MIX_MULTIPLIER_A);
    let b = vstd::wrapping::u64_specs::wrapping_mul(a ^ (a >> 27u64), MIX_MULTIPLIER_B);
    b ^ (b >> 31u64)
}

/// Advance the generator state and return the next SplitMix64 value.
pub fn splitmix64(state: &mut u64) -> (value: u64)
    ensures
        *final(state) == advance_state(*old(state)),
        value == mix(*final(state)),
{
    *state = state.wrapping_add(SPLITMIX64_INCREMENT);
    let mut value = *state;
    value = (value ^ (value >> 30)).wrapping_mul(MIX_MULTIPLIER_A);
    value = (value ^ (value >> 27)).wrapping_mul(MIX_MULTIPLIER_B);
    value ^ (value >> 31)
}

// Rejection sampling terminates: the states visited by repeated draws are
// `state + k * increment` modulo 2^64 with an odd increment, so they reach every
// 64-bit value, among them one whose output is `u64::MAX`, which no threshold
// rejects. The spec functions below count the draws until that state.

/// Number of distinct 64-bit values.
pub open spec fn word_modulus() -> int {
    0x1_0000_0000_0000_0000
}

/// An advanced state whose SplitMix64 output is `u64::MAX`.
pub open spec fn saturating_state() -> u64 {
    0xCF9A_04AF_FA6B_ADC0
}

/// Multiplicative inverse of the increment modulo 2^64.
pub open spec fn increment_inverse() -> int {
    0xF1DE_83E1_9937_733D
}

/// Number of increments, modulo 2^64, that lead from `state` to `saturating_state()`.
pub open spec fn steps_to_saturation(state: u64) -> int {
    ((saturating_state() - state) * increment_inverse()) % word_modulus()
}

/// Number of draws from `state` until a draw returns `u64::MAX` (between 1 and 2^64).
pub open spec fn draws_until_saturation(state: u64) -> int {
    if state == saturating_state() {
        word_modulus()
    } else {
        steps_to_saturation(state)
    }
}

/// The increment is invertible modulo 2^64.
proof fn lemma_increment_inverse()
    ensures
        increment_inverse() * SPLITMIX64_INCREMENT == 1 + 0x957B_BF35_006E_D677 * word_modulus(),
{
    assert(0xF1DE_83E1_9937_733Dint * 0x9E37_79B9_7F4A_7C15int == 1 + 0x957B_BF35_006E_D677int
        * 0x1_0000_0000_0000_0000int);
}

/// `saturating_state()` is mapped to `u64::MAX` by the output function.
pub proof fn lemma_saturating_state()
    ensures
        mix(saturating_state()) == u64::MAX,
{
    assert(0xCF9A_04AF_FA6B_ADC0u64 ^ (0xCF9A_04AF_FA6B_ADC0u64 >> 30u64) == 0xCF9A_04AC_C403_BF7Fu64)
        by (bit_vector);
    assert(vstd::wrapping::u64_specs::wrapping_mul(0xCF9A_04AC_C403_BF7Fu64, MIX_MULTIPLIER_A)
        == 0xF027_AA8C_721D_FDC7u64);
    assert(0xF027_AA8C_721D_FDC7u64 ^ (0xF027_AA8C_721D_FDC7u64 >> 27u64) == 0xF027_AA92_76E8_AC49u64)
        by (bit_vector);
    assert(vstd::wrapping::u64_specs::wrapping_mul(0xF027_AA92_76E8_AC49u64, MIX_MULTIPLIER_B)
        == 0xFFFF_FFFE_0000_0003u64);
    assert(0xFFFF_FFFE_0000_0003u64 ^ (0xFFFF_FFFE_0000_0003u64 >> 31u64) == 0xFFFF_FFFF_FFFF_FFFFu64)
        by (bit_vector);
}

/// Only `saturating_state()` itself is zero increments away from it.
proof fn lemma_steps_zero(state: u64)
    requires
        steps_to_saturation(state) == 0,
    ensures
        state == saturating_state(),
{
    let m = word_modulus();
    let x: int = saturating_state() - state;
    let y: int = x * increment_inverse();
    lemma_fundamental_div_mod(y, m);
    let q = y / m;
    assert(y == m * q);
    lemma_increment_inverse();
    let r: int = 0x957B_BF35_006E_D677;
    let c: int = SPLITMIX64_INCREMENT as int;
    let inv = increment_inverse();
    assert(x == m * (q * c - x * r)) by (nonlinear_arith)
        requires
            y == x * inv,
            y == m * q,
            inv * c == 1 + r * m,
    ;
    let z = q * c - x * r;
    assert(x == 0) by (nonlinear_arith)
        requires
            x == m * z,
            -m < x < m,
            m > 0,
    ;
}

/// One draw brings the generator one increment closer to `saturating_state()`.
proof fn lemma_steps_advance(state: u64)
    ensures
        steps_to_saturation(state) >= 1 ==> steps_to_saturation(advance_state(state))
            == steps_to_saturation(state) - 1,
        steps_to_saturation(state) == 0 ==> steps_to_saturation(advance_state(state))
            == word_modulus() - 1,
{
    let m = word_modulus();
    let inv = increment_inverse();
    let c: int = SPLITMIX64_INCREMENT as int;
    let r: int = 0x957B_BF35_006E_D677;
    let t: int = saturating_state() as int;
    let next = advance_state(state);
    let wrap: int = if state + c > u64::MAX { 1 } else { 0 };
    assert(next == state + c - wrap * m);
    lemma_increment_inverse();
    let y: int = (t - state) * inv;
    let y2: int = (t - next) * inv;
    assert(y2 == (y - 1) + m * (wrap * inv - r)) by (nonlinear_arith)
        requires
            y == (t - state) * inv,
            y2 == (t - next) * inv,
            next == state + c - wrap * m,
            inv * c == 1 + r * m,
    ;
    lemma_mod_multiples_vanish(wrap * inv - r, y - 1, m);
    assert(steps_to_saturation(next) == (y - 1) % m);
    lemma_fundamental_div_mod(y, m);
    let q = y / m;
    let d = y % m;
    assert(0 <= d < m);
    if d >= 1 {
        lemma_mod_multiples_vanish(q, d - 1, m);
        lemma_small_mod((d - 1) as nat, m as nat);
        assert(y - 1 == m * q + (d - 1));
    } else {
        lemma_mod_multiples_vanish(q - 1, m - 1, m);
        lemma_small_mod((m - 1) as nat, m as nat);
        assert(y - 1 == m * (q - 1) + (m - 1)) by (nonlinear_arith)
            requires
                y == m * q + d,
                d == 0,
        ;
    }
}

/// Every draw that does not return `u64::MAX` brings the generator closer to one that does.
pub proof fn lemma_draws_decrease(state: u64)
    requires
        advance_state(state) != saturating_state(),
    ensures
        0 <= draws_until_saturation(advance_state(state)) < draws_until_saturation(state),
{
    let next = advance_state(state);
    lemma_steps_advance(state);
    let m = word_modulus();
    assert(0 <= steps_to_saturation(state) < m);
    if steps_to_saturation(next) == 0 {
        lemma_steps_zero(next);
    }
    if state != saturating_state() {
        if steps_to_saturation(state) == 0 {
            lemma_steps_zero(state);
        }
    }
}

/// Smallest value accepted by the bounded sampler, `(2^64 - bound) mod bound`.
pub open spec fn rejection_threshold(bound: u64) -> u64
    recommends
        bound > 0,
{
    (vstd::wrapping::u64_specs::wrapping_sub(0, bound) % bound) as u64
}

/// The accepted draws `[threshold, 2^64)` number a multiple of `bound`, so every
/// residue below `bound` is the remainder of equally many accepted draws.
pub proof fn lemma_rejection_region_unbiased(bound: u64)
    requires
        bound > 0,
    ensures
        rejection_threshold(bound) < bound,
        (word_modulus() - rejection_threshold(bound)) % (bound as int) == 0,
{
    let m = word_modulus();
    let b = bound as int;
    let threshold = rejection_threshold(bound) as int;
    assert(vstd::wrapping::u64_specs::wrapping_sub(0, bound) == m - b);
    assert(threshold == (m - b) % b);
    lemma_mod_multiples_vanish(-1, m, b);
    assert((b * -1 + m) % b == m % b);
    assert(threshold == m % b);
    lemma_fundamental_div_mod(m, b);
    let q = m / b;
    assert(m - threshold == b * q);
    lemma_mod_multiples_vanish(q, 0, b);
    assert((b * q + 0) % b == 0) by {
        lemma_small_mod(0, b as nat);
    }
}

/// Generator state and value in `[0, bound)` after rejection-sampling SplitMix64 draws.
pub open spec fn bounded_draw(state: u64, bound: u64) -> (u64, u64)
    decreases draws_until_saturation(state),
{
    let next = advance_state(state);
    let value = mix(next);
    if bound == 0 {
        (next, 0)
    } else if value >= rejection_threshold(bound) {
        (next, value % bound)
    } else {
        proof {
            lemma_saturating_state();
            lemma_draws_decrease(state);
        }
        bounded_draw(next, bound)
    }
}

/// Draw an unbiased index in `[0, upper_bound)` by rejection sampling.
pub fn sample_bounded(generator_state: &mut u64, upper_bound: usize) -> (index: usize)
    requires
        upper_bound > 0,
    ensures
        (*final(generator_state), index as u64) == bounded_draw(*old(generator_state), upper_bound as u64),
        index < upper_bound,
        index as int == mix(*final(generator_state)) as int % (upper_bound as int),
        mix(*final(generator_state)) >= 0x1_0000_0000_0000_0000int % (upper_bound as int),
{
    let bound: u64 = upper_bound as u64;
    let rejection_threshold: u64 = 0u64.wrapping_sub(bound) % bound;
    loop
        invariant
            bound == upper_bound as u64,
            bound > 0,
            rejection_threshold == self::rejection_threshold(bound),
            bounded_draw(*generator_state, bound) == bounded_draw(*old(generator_state), bound),
        decreases draws_until_saturation(*generator_state),
    {
        let ghost before = *generator_state;
        let value = splitmix64(generator_state);
        if value >= rejection_threshold {
            proof {
                lemma_bounded_draw_first_accepted(*old(generator_state), bound);
            }
            return (value % bound) as usize;
        }
        proof {
            lemma_saturating_state();
            lemma_draws_decrease(before);
        }
    }
}

/// The identifiers `0..count` in increasing order.
pub open spec fn identity_order(count: nat) -> Seq<usize> {
    Seq::new(count, |i: int| i as usize)
}

/// `order` with the entries at positions `i` and `j` exchanged.
pub open spec fn swap_entries(order: Seq<usize>, i: int, j: int) -> Seq<usize> {
    order.update(i, order[j]).update(j, order[i])
}

/// Some entry of `order` is `batch`.
pub open spec fn holds_batch(order: Seq<usize>, batch: int) -> bool {
    exists|k: int| 0 <= k < order.len() && order[k] == batch
}

/// Non-empty, and every identifier below the length occurs in it.
pub open spec fn is_batch_permutation(order: Seq<usize>) -> bool {
    &&& order.len() > 0
    &&& forall|batch: int| 0 <= batch < order.len() ==> #[trigger] holds_batch(order, batch)
}

/// Forward Fisher-Yates from `position` on: generator state and order once every
/// position up to `count - 2` has been swapped with a position drawn at or after it.
pub open spec fn shuffle_from(state: u64, count: usize, position: nat, order: Seq<usize>) -> (u64, Seq<usize>)
    decreases count - position,
{
    if position + 1 >= count {
        (state, order)
    } else {
        let (next_state, offset) = bounded_draw(state, (count - position) as u64);
        shuffle_from(
            next_state,
            count,
            position + 1,
            swap_entries(order, position as int, position + offset),
        )
    }
}

/// Generator state and permutation produced for one epoch of `count` batches.
pub open spec fn epoch_permutation(state: u64, count: usize) -> (u64, Seq<usize>) {
    shuffle_from(state, count, 0, identity_order(count as nat))
}

/// Exchanging two entries keeps every identifier present.
pub proof fn lemma_swap_keeps_permutation(order: Seq<usize>, i: int, j: int)
    requires
        is_batch_permutation(order),
        0 <= i < order.len(),
        0 <= j < order.len(),
    ensures
        is_batch_permutation(swap_entries(order, i, j)),
        swap_entries(order, i, j).len() == order.len(),
{
    let swapped = swap_entries(order, i, j);
    assert forall|batch: int| 0 <= batch < swapped.len() implies #[trigger] holds_batch(swapped, batch) by {
        assert(holds_batch(order, batch));
        let k = choose|k: int| 0 <= k < order.len() && order[k] == batch;
        if k == i {
            assert(swapped[j] == batch);
        } else if k == j {
            assert(swapped[i] == batch);
        } else {
            assert(swapped[k] == batch);
        }
    }
}

/// The identity order of a non-empty batch set is a permutation.
pub proof fn lemma_identity_is_permutation(count: nat)
    requires
        count > 0,
        count <= usize::MAX,
    ensures
        is_batch_permutation(identity_order(count)),
        identity_order(count).len() == count,
{
    let order = identity_order(count);
    assert forall|batch: int| 0 <= batch < order.len() implies #[trigger] holds_batch(order, batch) by {
        assert(order[batch] == batch);
    }
}

/// Every shuffle step keeps the order a permutation of the same length.
pub proof fn lemma_shuffle_keeps_permutation(state: u64, count: usize, position: nat, order: Seq<usize>)
    requires
        is_batch_permutation(order),
        order.len() == count,
    ensures
        is_batch_permutation(shuffle_from(state, count, position, order).1),
        shuffle_from(state, count, position, order).1.len() == count,
    decreases count - position,
{
    if position + 1 < count {
        let (next_state, offset) = bounded_draw(state, (count - position) as u64);
        lemma_bounded_draw_below(state, (count - position) as u64);
        lemma_swap_keeps_permutation(order, position as int, position + offset);
        lemma_shuffle_keeps_permutation(
            next_state,
            count,
            position + 1,
            swap_entries(order, position as int, position + offset),
        );
    }
}

/// A bounded draw lies below its bound.
pub proof fn lemma_bounded_draw_below(state: u64, bound: u64)
    requires
        bound > 0,
    ensures
        bounded_draw(state, bound).1 < bound,
    decreases draws_until_saturation(state),
{
    let next = advance_state(state);
    if mix(next) < rejection_threshold(bound) {
        lemma_saturating_state();
        lemma_draws_decrease(state);
        lemma_bounded_draw_below(next, bound);
    }
}

/// Each epoch order is a permutation of the batch identifiers.
pub proof fn lemma_epoch_is_permutation(state: u64, count: usize)
    requires
        count > 0,
    ensures
        is_batch_permutation(epoch_permutation(state, count).1),
        epoch_permutation(state, count).1.len() == count,
{
    lemma_identity_is_permutation(count as nat);
    lemma_shuffle_keeps_permutation(state, count, 0, identity_order(count as nat));
}

/// Build the permutation for the next epoch with forward Fisher-Yates.
pub fn seeded_epoch_permutation(generator_state: &mut u64, batch_count: usize) -> (permutation: Vec<usize>)
    ensures
        (*final(generator_state), permutation@) == epoch_permutation(*old(generator_state), batch_count),
        permutation@.len() == batch_count,
        batch_count > 0 ==> is_batch_permutation(permutation@),
        forall|i: int| 0 <= i < batch_count ==> #[trigger] permutation@[i] < batch_count,
        forall|i: int, j: int|
            0 <= i < batch_count && 0 <= j < batch_count && i != j ==> #[trigger] permutation@[i]
                != #[trigger] permutation@[j],
{
    let mut permutation: Vec<usize> = Vec::new();
    let mut batch: usize = 0;
    while batch < batch_count
        invariant
            batch <= batch_count,
            permutation@ == identity_order(batch as nat),
        decreases batch_count - batch,
    {
        permutation.push(batch);
        batch = batch + 1;
        assert(permutation@ =~= identity_order(batch as nat));
    }
    let last: usize = batch_count.saturating_sub(1);
    let mut position: usize = 0;
    while position < last
        invariant
            last == batch_count.saturating_sub(1),
            position <= batch_count,
            permutation@.len() == batch_count,
            shuffle_from(*generator_state, batch_count, position as nat, permutation@)
                == epoch_permutation(*old(generator_state), batch_count),
        decreases last - position,
    {
        let remaining: usize = batch_count - position;
        let ghost before = *generator_state;
        let offset = sample_bounded(generator_state, remaining);
        let swap_position: usize = position + offset;
        let ghost order = permutation@;
        let first = permutation[position];
        let second = permutation[swap_position];
        permutation.set(position, second);
        permutation.set(swap_position, first);
        assert(permutation@ =~= swap_entries(order, position as int, swap_position as int));
        position = position + 1;
    }
    proof {
        if batch_count > 0 {
            lemma_epoch_is_permutation(*old(generator_state), batch_count);
            lemma_permutation_entries_in_range(permutation@);
        }
    }
    permutation
}

/// Index of some entry of `order` equal to `batch`.
pub open spec fn batch_index(order: Seq<usize>, batch: int) -> int {
    choose|k: int| 0 <= k < order.len() && order[k] == batch
}

/// In a batch permutation every entry is a valid identifier below the length, and
/// no identifier occurs twice: each occurs exactly once.
pub proof fn lemma_permutation_entries_in_range(order: Seq<usize>)
    requires
        is_batch_permutation(order),
    ensures
        forall|i: int| 0 <= i < order.len() ==> #[trigger] order[i] < order.len(),
        forall|i: int, j: int|
            0 <= i < order.len() && 0 <= j < order.len() && i != j ==> #[trigger] order[i]
                != #[trigger] order[j],
{
    let n = order.len() as int;
    let batches = set_int_range(0, n);
    let indices = set_int_range(0, n);
    lemma_int_range(0, n);
    let locate = |batch: int| batch_index(order, batch);
    assert forall|b: int| #[trigger] batches.contains(b) implies 0 <= locate(b) < n
        && order[locate(b)] == b by {
        assert(holds_batch(order, b));
    }
    assert(vstd::relations::injective_on(locate, batches)) by {
        assert forall|b1: int, b2: int|
            batches.contains(b1) && batches.contains(b2) && #[trigger] locate(b1) == #[trigger] locate(b2)
            implies b1 == b2 by {
            assert(order[locate(b1)] == b1);
            assert(order[locate(b2)] == b2);
        }
    }
    let located = batches.map(locate);
    lemma_map_size(batches, located, locate);
    assert(located.subset_of(indices));
    lemma_subset_equality(located, indices);
    assert forall|i: int| 0 <= i < order.len() implies #[trigger] order[i] < order.len() by {
        assert(indices.contains(i));
        assert(located.contains(i));
        let b = choose|b: int| batches.contains(b) && i == locate(b);
        assert(order[locate(b)] == b);
    }
    assert forall|i: int, j: int|
        0 <= i < order.len() && 0 <= j < order.len() && i != j implies #[trigger] order[i]
            != #[trigger] order[j] by {
        assert(indices.contains(i) && indices.contains(j));
        assert(located.contains(i) && located.contains(j));
        let bi = choose|b: int| batches.contains(b) && i == locate(b);
        let bj = choose|b: int| batches.contains(b) && j == locate(b);
        assert(order[locate(bi)] == bi);
        assert(order[locate(bj)] == bj);
    }
}

/// Report whether `permutation` is non-empty and holds every identifier below its length.
pub fn is_valid_permutation(permutation: &[usize]) -> (valid: bool)
    ensures
        valid == is_batch_permutation(permutation@),
{
    let count = permutation.len();
    if count == 0 {
        return false;
    }
    let mut batch: usize = 0;
    while batch < count
        invariant
            count == permutation@.len(),
            batch <= count,
            forall|b: int| 0 <= b < batch ==> #[trigger] holds_batch(permutation@, b),
        decreases count - batch,
    {
        let mut index: usize = 0;
        let mut found = false;
        while index < count
            invariant
                count == permutation@.len(),
                index <= count,
                batch < count,
                found ==> holds_batch(permutation@, batch as int),
                !found ==> forall|k: int| 0 <= k < index ==> permutation@[k] != batch,
            decreases count - index,
        {
            if permutation[index] == batch {
                found = true;
            }
            index = index + 1;
        }
        if !found {
            assert(!holds_batch(permutation@, batch as int));
            return false;
        }
        batch = batch + 1;
    }
    true
}

/// Checkpointable deterministic sampler for mini-batch identifiers.
///
/// The fields are the complete checkpoint: the next SplitMix64 state, the current
/// epoch permutation and the position of the next batch in it. A restored
/// checkpoint may hold anything; `next_batch` checks it before use.
#[derive(Clone, Debug, PartialEq, Eq)]
pub struct SeededBatchSampler {
    pub generator_state: u64,
    pub current_permutation: Vec<usize>,
    pub next_position: usize,
}

/// Invalid sampler configuration or state recovered from a checkpoint.
#[derive(Debug, PartialEq, Eq)]
pub enum SamplerError {
    BatchCount(usize),
    /// The sampler's permutation length differs from the paired dataset's batch count.
    DatasetBatchCount { dataset: usize, sampler: usize },
    Position(usize),
    Permutation(Vec<usize>),
}

/// The text with which a `SamplerError` describes itself.
pub open spec fn sampler_error_text(error: SamplerError) -> Seq<char> {
    match error {
        SamplerError::BatchCount(count) => "sampler batch count "@ + decimal(count as nat)
            + " must be positive"@,
        SamplerError::DatasetBatchCount { dataset, sampler } => "sampler batch count "@ + decimal(
            sampler as nat,
        ) + " does not match dataset batch count "@ + decimal(dataset as nat),
        SamplerError::Position(position) => "sampler position "@ + decimal(position as nat)
            + " is outside its epoch"@,
        SamplerError::Permutation(order) => "sampler permutation "@ + debug_list(order@)
            + " is invalid"@,
    }
}

impl SamplerError {
    /// Describe the error in one line of text.
    pub fn message(&self) -> (text: String)
        ensures
            text@ == sampler_error_text(*self),
    {
        let mut out = String::new();
        match self {
            SamplerError::BatchCount(count) => {
                push_str(&mut out, "sampler batch count ");
                push_decimal(&mut out, *count as u64);
                push_str(&mut out, " must be positive");
            },
            SamplerError::DatasetBatchCount { dataset, sampler } => {
                push_str(&mut out, "sampler batch count ");
                push_decimal(&mut out, *sampler as u64);
                push_str(&mut out, " does not match dataset batch count ");
                push_decimal(&mut out, *dataset as u64);
            },
            SamplerError::Position(position) => {
                push_str(&mut out, "sampler position ");
                push_decimal(&mut out, *position as u64);
                push_str(&mut out, " is outside its epoch");
            },
            SamplerError::Permutation(order) => {
                push_str(&mut out, "sampler permutation ");
                push_debug_list(&mut out, order.as_slice());
                push_str(&mut out, " is invalid");
            },
        }
        out
    }
}

/// Abstract sampler state: generator state, epoch permutation, next position.
pub type SamplerState = (u64, Seq<usize>, nat);

impl View for SeededBatchSampler {
    type V = SamplerState;

    open spec fn view(&self) -> SamplerState {
        (self.generator_state, self.current_permutation@, self.next_position as nat)
    }
}

/// A state that `next_batch` accepts: a batch permutation that fits in memory and a
/// position no greater than its length.
pub open spec fn is_valid_sampler_state(state: SamplerState) -> bool {
    &&& is_batch_permutation(state.1)
    &&& state.1.len() <= usize::MAX
    &&& state.2 <= state.1.len()
}

/// The batch identifier returned by one `next_batch` call on a valid state, and the state after it.
///
/// A new epoch permutation is drawn only when the position has reached the end of
/// the current one.
pub open spec fn sampler_step(state: SamplerState) -> (usize, SamplerState) {
    let (generator, order, position) = state;
    let (generator, order, position) = if position == order.len() {
        let epoch = epoch_permutation(generator, order.len() as usize);
        (epoch.0, epoch.1, 0nat)
    } else {
        (generator, order, position)
    };
    (order[position as int], (generator, order, position + 1))
}

impl SeededBatchSampler {
    /// A sampler for `batch_count` batches whose first call starts a new epoch.
    pub fn new(seed: u64, batch_count: usize) -> (sampler: Result<Self, SamplerError>)
        ensures
            batch_count == 0 ==> sampler == Err::<Self, SamplerError>(SamplerError::BatchCount(batch_count)),
            batch_count > 0 ==> (sampler matches Ok(s) && s@ == (seed, identity_order(batch_count as nat), batch_count as nat)),
            sampler matches Ok(s) ==> is_valid_sampler_state(s@),
    {
        if batch_count == 0 {
            return Err(SamplerError::BatchCount(batch_count));
        }
        let mut current_permutation: Vec<usize> = Vec::new();
        let mut batch: usize = 0;
        while batch < batch_count
            invariant
                batch <= batch_count,
                current_permutation@ == identity_order(batch as nat),
            decreases batch_count - batch,
        {
            current_permutation.push(batch);
            batch = batch + 1;
            assert(current_permutation@ =~= identity_order(batch as nat));
        }
        proof {
            lemma_identity_is_permutation(batch_count as nat);
        }
        Ok(Self { generator_state: seed, current_permutation, next_position: batch_count })
    }

    /// Return the next batch identifier, starting a new epoch when the current one is used up.
    pub fn next_batch(&mut self) -> (batch: Result<usize, SamplerError>)
        ensures
            old(self).next_position > old(self).current_permutation.len() ==> batch
                == Err::<usize, SamplerError>(SamplerError::Position(old(self).next_position))
                && *final(self) == *old(self),
            old(self).next_position <= old(self).current_permutation.len() && !is_batch_permutation(
                old(self).current_permutation@,
            ) ==> (batch matches Err(SamplerError::Permutation(order)) && order@ == old(
                self,
            ).current_permutation@) && *final(self) == *old(self),
            is_valid_sampler_state(old(self)@) ==> batch == Ok::<usize, SamplerError>(
                sampler_step(old(self)@).0,
            ) && final(self)@ == sampler_step(old(self)@).1,
            is_valid_sampler_state(old(self)@) ==> is_valid_sampler_state(final(self)@)
                && final(self).current_permutation.len() == old(self).current_permutation.len()
                && (batch matches Ok(b) && b < old(self).current_permutation.len()),
    {
        let batch_count = self.current_permutation.len();
        if self.next_position > batch_count {
            return Err(SamplerError::Position(self.next_position));
        }
        if !is_valid_permutation(self.current_permutation.as_slice()) {
            return Err(SamplerError::Permutation(self.current_permutation.clone()));
        }
        if self.next_position == batch_count {
            self.current_permutation = seeded_epoch_permutation(&mut self.generator_state, batch_count);
            self.next_position = 0;
        }
        proof {
            lemma_step_keeps_valid(old(self)@);
        }
        let batch_index = self.current_permutation[self.next_position];
        self.next_position = self.next_position + 1;
        Ok(batch_index)
    }

    /// Take `count` consecutive batch identifiers, stopping at the first error.
    pub fn next_batches(&mut self, count: usize) -> (batches: Result<Vec<usize>, SamplerError>)
        ensures
            is_valid_sampler_state(old(self)@) ==> (batches matches Ok(taken) && taken@
                == sampler_run(old(self)@, count as nat).0) && final(self)@ == sampler_run(
                old(self)@,
                count as nat,
            ).1,
            count == 0 ==> (batches matches Ok(taken) && taken@.len() == 0) && *final(self)
                == *old(self),
            count > 0 && old(self).next_position > old(self).current_permutation.len() ==> batches
                == Err::<Vec<usize>, SamplerError>(SamplerError::Position(old(self).next_position))
                && *final(self) == *old(self),
            count > 0 && old(self).next_position <= old(self).current_permutation.len()
                && !is_batch_permutation(old(self).current_permutation@) ==> (batches matches Err(
                SamplerError::Permutation(order),
            ) && order@ == old(self).current_permutation@) && *final(self) == *old(self),
    {
        let mut taken: Vec<usize> = Vec::new();
        let mut index: usize = 0;
        while index < count
            invariant
                index <= count,
                index == 0 ==> *self == *old(self) && taken@.len() == 0,
                is_valid_sampler_state(old(self)@) ==> is_valid_sampler_state(self@) && (taken@,
                self@) == sampler_run(old(self)@, index as nat),
                index > 0 ==> is_valid_sampler_state(old(self)@),
            decreases count - index,
        {
            let ghost before = self@;
            match self.next_batch() {
                Ok(batch) => {
                    taken.push(batch);
                    proof {
                        lemma_checkpoint_resume(old(self)@, index as nat, 1);
                        let after = sampler_step(before).1;
                        assert(sampler_run(after, 0) == (Seq::<usize>::empty(), after));
                        assert(seq![batch] + Seq::<usize>::empty() =~= seq![batch]);
                        assert(sampler_run(before, 1) == (seq![batch], after));
                        assert(taken@ =~= sampler_run(old(self)@, index as nat).0 + seq![batch]);
                    }
                },
                Err(error) => {
                    return Err(error);
                },
            }
            index = index + 1;
        }
        Ok(taken)
    }

    /// An exact copy of the sampler's checkpoint state.
    pub fn checkpoint(&self) -> (copy: Self)
        ensures
            copy@ == self@,
            copy.generator_state == self.generator_state,
            copy.current_permutation@ == self.current_permutation@,
            copy.next_position == self.next_position,
    {
        let mut order: Vec<usize> = Vec::new();
        let mut index: usize = 0;
        while index < self.current_permutation.len()
            invariant
                index <= self.current_permutation@.len(),
                order@ == self.current_permutation@.take(index as int),
            decreases self.current_permutation@.len() - index,
        {
            order.push(self.current_permutation[index]);
            index = index + 1;
            assert(order@ =~= self.current_permutation@.take(index as int));
        }
        assert(order@ =~= self.current_permutation@);
        SeededBatchSampler {
            generator_state: self.generator_state,
            current_permutation: order,
            next_position: self.next_position,
        }
    }

    /// The generator state that the next epoch permutation starts from.
    pub fn generator_state(&self) -> (state: u64)
        ensures
            state == self.generator_state,
    {
        self.generator_state
    }

    /// The permutation of the current epoch.
    pub fn current_permutation(&self) -> (order: &[usize])
        ensures
            order@ == self.current_permutation@,
    {
        self.current_permutation.as_slice()
    }

    /// The position of the next batch in the current permutation.
    pub fn next_position(&self) -> (position: usize)
        ensures
            position == self.next_position,
    {
        self.next_position
    }
}

/// Batch identifiers returned by `steps` consecutive `next_batch` calls from a valid
/// state, and the state after them.
pub open spec fn sampler_run(state: SamplerState, steps: nat) -> (Seq<usize>, SamplerState)
    decreases steps,
{
    if steps == 0 {
        (Seq::empty(), state)
    } else {
        let (batch, next) = sampler_step(state);
        let (rest, last) = sampler_run(next, (steps - 1) as nat);
        (seq![batch] + rest, last)
    }
}

/// One step from a valid state returns an identifier below the batch count and
/// leaves a valid state for the same number of batches.
pub proof fn lemma_step_keeps_valid(state: SamplerState)
    requires
        is_valid_sampler_state(state),
    ensures
        is_valid_sampler_state(sampler_step(state).1),
        sampler_step(state).1.1.len() == state.1.len(),
        sampler_step(state).0 < state.1.len(),
{
    let (generator, order, position) = state;
    if position == order.len() {
        lemma_epoch_is_permutation(generator, order.len() as usize);
        lemma_permutation_entries_in_range(epoch_permutation(generator, order.len() as usize).1);
    } else {
        lemma_permutation_entries_in_range(order);
    }
}

/// Inside an epoch a step moves only the position: the generator state and the
/// permutation are kept, so a new permutation is drawn only at the end of an epoch.
pub proof fn lemma_step_inside_epoch(state: SamplerState)
    requires
        state.2 < state.1.len(),
    ensures
        sampler_step(state) == (state.1[state.2 as int], (state.0, state.1, state.2 + 1)),
{
}

/// Any number of steps from a valid state stays valid, keeps the batch count and
/// returns only identifiers below it.
pub proof fn lemma_run_keeps_valid(state: SamplerState, steps: nat)
    requires
        is_valid_sampler_state(state),
    ensures
        is_valid_sampler_state(sampler_run(state, steps).1),
        sampler_run(state, steps).1.1.len() == state.1.len(),
        sampler_run(state, steps).0.len() == steps,
        forall|i: int| 0 <= i < steps ==> #[trigger] sampler_run(state, steps).0[i] < state.1.len(),
    decreases steps,
{
    if steps > 0 {
        lemma_step_keeps_valid(state);
        let (batch, next) = sampler_step(state);
        lemma_run_keeps_valid(next, (steps - 1) as nat);
        let rest = sampler_run(next, (steps - 1) as nat).0;
        assert forall|i: int| 0 <= i < steps implies #[trigger] sampler_run(state, steps).0[i] < state.1.len() by {
            if i > 0 {
                assert(sampler_run(state, steps).0[i] == rest[i - 1]);
            }
        }
    }
}

/// Resuming from a checkpoint reproduces the uninterrupted run: `first` steps, then
/// `second` steps from the state reached, return the same identifiers and end in the
/// same state as `first + second` steps without interruption.
pub proof fn lemma_checkpoint_resume(state: SamplerState, first: nat, second: nat)
    ensures
        ({
            let (before, checkpoint) = sampler_run(state, first);
            let (after, resumed) = sampler_run(checkpoint, second);
            sampler_run(state, first + second) == (before + after, resumed)
        }),
    decreases first,
{
    if first > 0 {
        let (batch, next) = sampler_step(state);
        lemma_checkpoint_resume(next, (first - 1) as nat, second);
        let (before, checkpoint) = sampler_run(next, (first - 1) as nat);
        let (after, resumed) = sampler_run(checkpoint, second);
        assert(((first + second) - 1) as nat == ((first - 1) as nat + second));
        assert(seq![batch] + (before + after) =~= (seq![batch] + before) + after);
    }
}

/// With two batches the first draw is always accepted, and an odd value swaps
/// `[0, 1]` while an even value keeps it.
pub proof fn lemma_two_batch_epoch(state: u64)
    ensures
        epoch_permutation(state, 2) == (
            advance_state(state),
            if mix(advance_state(state)) % 2 == 1 {
                seq![1usize, 0usize]
            } else {
                seq![0usize, 1usize]
            },
        ),
{
    let next = advance_state(state);
    assert(rejection_threshold(2) == 0);
    let offset = mix(next) % 2;
    assert(bounded_draw(state, 2) == (next, offset));
    let start = identity_order(2);
    let swapped = swap_entries(start, 0, offset as int);
    assert(epoch_permutation(state, 2) == shuffle_from(next, 2, 1, swapped));
    if offset == 1 {
        assert(swapped =~= seq![1usize, 0usize]);
    } else {
        assert(swapped =~= seq![0usize, 1usize]);
    }
}


/// Refuse restored sampler state whose permutation does not cover exactly the
/// `dataset` batches of the dataset it is paired with.
pub fn check_dataset_batch_count(dataset: usize, sampler: &SeededBatchSampler) -> (checked: Result<
    (),
    SamplerError,
>)
    ensures
        checked is Ok <==> sampler.current_permutation@.len() == dataset,
        checked is Err ==> checked == Err::<(), SamplerError>(
            SamplerError::DatasetBatchCount { dataset, sampler: sampler.current_permutation.len() },
        ),
{
    let sampler_batches = sampler.current_permutation.len();
    if sampler_batches != dataset {
        return Err(SamplerError::DatasetBatchCount { dataset, sampler: sampler_batches });
    }
    Ok(())
}

/// From a valid position inside an epoch, the remaining steps hand out the rest of
/// the permutation in order and stop at its end without drawing.
pub proof fn lemma_run_to_epoch_end(state: SamplerState)
    requires
        is_valid_sampler_state(state),
    ensures
        sampler_run(state, (state.1.len() - state.2) as nat) == (
            state.1.subrange(state.2 as int, state.1.len() as int),
            (state.0, state.1, state.1.len()),
        ),
    decreases state.1.len() - state.2,
{
    let (generator, order, position) = state;
    if position < order.len() {
        let next = (generator, order, position + 1);
        lemma_run_to_epoch_end(next);
        let rest = order.subrange(position + 1int, order.len() as int);
        assert(seq![order[position as int]] + rest =~= order.subrange(
            position as int,
            order.len() as int,
        ));
    } else {
        assert(order.subrange(position as int, order.len() as int) =~= Seq::<usize>::empty());
    }
}

/// At the end of an epoch, the next `n` steps draw one fresh permutation and hand
/// out all of it in order: every batch identifier exactly once, ending again at the
/// end of a valid epoch with the same batch count.
pub proof fn lemma_fresh_epoch(state: SamplerState)
    requires
        is_valid_sampler_state(state),
        state.2 == state.1.len(),
    ensures
        ({
            let n = state.1.len();
            let epoch = epoch_permutation(state.0, n as usize);
            &&& sampler_run(state, n) == (epoch.1, (epoch.0, epoch.1, n))
            &&& is_valid_sampler_state(sampler_run(state, n).1)
            &&& forall|i: int, j: int|
                0 <= i < n && 0 <= j < n && i != j ==> #[trigger] epoch.1[i] != #[trigger] epoch.1[j]
            &&& forall|i: int| 0 <= i < n ==> #[trigger] epoch.1[i] < n
        }),
{
    let n = state.1.len();
    let epoch = epoch_permutation(state.0, n as usize);
    lemma_epoch_is_permutation(state.0, n as usize);
    lemma_permutation_entries_in_range(epoch.1);
    let first = (epoch.0, epoch.1, 1nat);
    assert(sampler_step(state) == (epoch.1[0], first));
    lemma_run_to_epoch_end(first);
    lemma_checkpoint_resume(state, 1, (n - 1) as nat);
    assert(sampler_run(state, 1) == (seq![epoch.1[0]], first)) by {
        assert(sampler_run(first, 0) == (Seq::<usize>::empty(), first));
        assert(seq![epoch.1[0]] + Seq::<usize>::empty() =~= seq![epoch.1[0]]);
    }
    assert(seq![epoch.1[0]] + epoch.1.subrange(1, n as int) =~= epoch.1);
    assert(1 + (n - 1) as nat == n);
}

/// A copy of the checkpoint state resumes the run exactly: any number of steps
/// from the copy returns the same identifiers and ends in the same state as from
/// the original.
pub proof fn lemma_copy_resumes(original: SamplerState, copy: SamplerState, steps: nat)
    requires
        copy == original,
    ensures
        sampler_run(copy, steps) == sampler_run(original, steps),
{
}

} // verus!

verus! {

/// The SplitMix64 finaliser in closed form: xor-shift by 30, multiply by
/// `0xBF58_476D_1CE4_E5B9`, xor-shift by 27, multiply by `0x94D0_49BB_1331_11EB`,
/// xor-shift by 31, all modulo 2^64, for every advanced state; and one step adds
/// `0x9E37_79B9_7F4A_7C15` modulo 2^64.
pub proof fn lemma_splitmix64_closed_form(state: u64, z: u64)
    ensures
        advance_state(state) as int == (state as int + 0x9E37_79B9_7F4A_7C15int) % 0x1_0000_0000_0000_0000int,
        ({
            let a = (((z ^ (z >> 30u64)) as int * 0xBF58_476D_1CE4_E5B9int) % 0x1_0000_0000_0000_0000int) as u64;
            let b = (((a ^ (a >> 27u64)) as int * 0x94D0_49BB_1331_11EBint) % 0x1_0000_0000_0000_0000int) as u64;
            mix(z) == b ^ (b >> 31u64)
        }),
{
    let m: int = 0x1_0000_0000_0000_0000;
    let sum: int = state as int + 0x9E37_79B9_7F4A_7C15int;
    if sum >= m {
        lemma_small_mod((sum - m) as nat, m as nat);
        lemma_mod_multiples_vanish(1, sum - m, m);
    } else {
        lemma_small_mod(sum as nat, m as nat);
    }
}

/// The state after `count` SplitMix64 steps from `state`.
pub open spec fn advance_by(state: u64, count: nat) -> u64
    decreases count,
{
    if count == 0 {
        state
    } else {
        advance_by(advance_state(state), (count - 1) as nat)
    }
}

/// A bounded draw returns the remainder, modulo the bound, of the first SplitMix64
/// output at or above `2^64 mod bound`, and leaves the generator at the state that
/// produced it; every earlier draw was below that threshold.
pub proof fn lemma_bounded_draw_first_accepted(state: u64, bound: u64)
    requires
        bound > 0,
    ensures
        ({
            let (last, index) = bounded_draw(state, bound);
            let threshold = 0x1_0000_0000_0000_0000int % (bound as int);
            &&& index as int == mix(last) as int % (bound as int)
            &&& mix(last) >= threshold
            &&& exists|count: nat|
                #![trigger advance_by(state, count)]
                count >= 1 && last == advance_by(state, count) && forall|j: nat|
                    1 <= j < count ==> (mix(#[trigger] advance_by(state, j)) as int) < threshold
        }),
    decreases draws_until_saturation(state),
{
    lemma_rejection_region_unbiased(bound);
    let m = word_modulus();
    let b = bound as int;
    let threshold = m % b;
    assert(rejection_threshold(bound) as int == threshold) by {
        lemma_fundamental_div_mod(m, b);
        lemma_mod_multiples_vanish(m / b, 0, b);
        lemma_small_mod(0, b as nat);
        lemma_fundamental_div_mod(m - rejection_threshold(bound) as int, b);
        lemma_mod_multiples_vanish(-1, m, b);
    }
    let next = advance_state(state);
    assert(advance_by(state, 1) == next) by {
        assert(advance_by(next, 0) == next);
    }
    if mix(next) >= rejection_threshold(bound) {
        assert(forall|j: nat| 1 <= j < 1 ==> (mix(#[trigger] advance_by(state, j)) as int) < threshold);
    } else {
        lemma_saturating_state();
        lemma_draws_decrease(state);
        lemma_bounded_draw_first_accepted(next, bound);
        let (last, index) = bounded_draw(next, bound);
        let count = choose|count: nat|
            #![trigger advance_by(next, count)]
            count >= 1 && last == advance_by(next, count) && forall|j: nat|
                1 <= j < count ==> (mix(#[trigger] advance_by(next, j)) as int) < threshold;
        assert(advance_by(state, count + 1) == advance_by(next, count));
        assert forall|j: nat| 1 <= j < count + 1 implies (mix(
            #[trigger] advance_by(state, j),
        ) as int) < threshold by {
            if j == 1 {
            } else {
                assert(advance_by(state, j) == advance_by(next, (j - 1) as nat));
            }
        }
    }
}

/// The Fisher-Yates step: for every batch count and every position short of the
/// last, the shuffle draws once with bound `count - position`, swaps the position
/// with the drawn offset from it and moves on; at the last position it stops
/// without drawing. So an epoch of `count` batches makes exactly `count - 1` draws,
/// with bounds `count, count - 1, ..., 2`.
pub proof fn lemma_shuffle_step(state: u64, count: usize, position: nat, order: Seq<usize>)
    ensures
        position + 1 < count ==> ({
            let (next, offset) = bounded_draw(state, (count - position) as u64);
            shuffle_from(state, count, position, order) == shuffle_from(
                next,
                count,
                position + 1,
                swap_entries(order, position as int, position + offset),
            )
        }),
        position + 1 >= count ==> shuffle_from(state, count, position, order) == (state, order),
{
}

/// An epoch visits every position from 0 through `count - 2`: its first swap uses
/// the first bounded draw with bound `count`, and the remaining positions are the
/// shuffle from position 1 on.
pub proof fn lemma_epoch_first_step(state: u64, count: usize)
    requires
        count >= 2,
    ensures
        ({
            let (next, offset) = bounded_draw(state, count as u64);
            epoch_permutation(state, count) == shuffle_from(
                next,
                count,
                1,
                swap_entries(identity_order(count as nat), 0, offset as int),
            )
        }),
{
    lemma_shuffle_step(state, count, 0, identity_order(count as nat));
}

} // verus!
