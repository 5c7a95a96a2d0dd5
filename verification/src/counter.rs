//! Arithmetic of the ring counters: `usize` values that only ever grow, wrap around at the
//! machine word, and are masked down to a slot index.

use vstd::arithmetic::div_mod::*;
use vstd::arithmetic::power::*;
use vstd::arithmetic::power2::*;
use vstd::bits::*;
use vstd::prelude::*;
use vstd::wrapping::usize_specs;

verus! {

/// How many values a counter can take.
pub open spec fn word() -> int {
    usize::MAX + 1
}

/// The counter that an unbounded count `n` is stored as.
pub open spec fn wrap(n: int) -> usize {
    (n % word()) as usize
}

/// A ring size that the queue accepts: a power of two, at least 2.
pub open spec fn valid_size(size: int) -> bool {
    is_pow2(size) && size >= 2
}

/// The slot that a counter points at, in a ring with `size` slots.
pub open spec fn slot_of(counter: int, size: int) -> int {
    counter % size
}

proof fn lemma_pow2_exponent(size: usize) -> (n: nat)
    requires
        is_pow2(size as int),
    ensures
        size == pow2(n),
        n < usize::BITS,
{
    is_pow2_equiv(size as int);
    let n = choose|i: nat| pow(2, i) == size as int;
    lemma_pow2(n);
    if n >= usize::BITS {
        if n > usize::BITS {
            lemma_pow2_strictly_increases(usize::BITS as nat, n);
        }
        lemma_word_is_pow2();
    }
    n
}

proof fn lemma_word_is_pow2()
    ensures
        word() == pow2(usize::BITS as nat),
{
    lemma2_to64();
    vstd::layout::unsigned_int_max_values();
}

/// A power of two that fits a counter takes at most half of its values.
pub proof fn lemma_pow2_bound(size: usize)
    requires
        is_pow2(size as int),
    ensures
        2 * size <= word(),
{
    let n = lemma_pow2_exponent(size);
    let half = (usize::BITS - 1) as nat;
    if n < half {
        lemma_pow2_strictly_increases(n, half);
    }
    lemma_pow2_unfold(usize::BITS as nat);
    lemma_word_is_pow2();
}

/// The mask `!(size - 1)` takes the remainder by `size` away.
pub proof fn lemma_round_down(x: usize, size: usize)
    requires
        is_pow2(size as int),
    ensures
        size > 0,
        x & !((size - 1) as usize) == x - x % size,
{
    lemma_mask_is_mod(x, size);
    let mask = (size - 1) as usize;
    assert(x & !mask == x - (x & mask)) by (bit_vector);
}

/// The mask `size - 1` keeps the remainder by `size`.
pub proof fn lemma_mask_is_mod(x: usize, size: usize)
    requires
        is_pow2(size as int),
    ensures
        size > 0,
        x & ((size - 1) as usize) == x % size,
{
    let n = lemma_pow2_exponent(size);
    lemma_pow2_pos(n);
    lemma_usize_low_bits_mask_is_mod(x, n);
}

/// Wrapping at the machine word does not move a counter to another slot.
pub proof fn lemma_wrapped_slot(n: int, size: usize)
    requires
        is_pow2(size as int),
    ensures
        size > 0,
        slot_of(wrap(n) as int, size as int) == slot_of(n, size as int),
{
    let e = lemma_pow2_exponent(size);
    lemma_pow2_pos(e);
    let rest = (usize::BITS - e) as nat;
    lemma_pow2_adds(e, rest);
    lemma_word_is_pow2();
    lemma_pow2_pos(rest);
    lemma_mod_mod(n, size as int, pow2(rest) as int);
}

/// Counts less than a whole word apart are told apart by their counters.
pub proof fn lemma_wrap_injective(a: int, b: int)
    requires
        wrap(a) == wrap(b),
        -word() < a - b < word(),
    ensures
        a == b,
{
    lemma_fundamental_div_mod(a, word());
    lemma_fundamental_div_mod(b, word());
    let qa = a / word();
    let qb = b / word();
    assert(a - b == word() * (qa - qb)) by (nonlinear_arith)
        requires
            a == word() * qa + a % word(),
            b == word() * qb + b % word(),
            a % word() == b % word(),
    ;
    assert(qa - qb == 0) by (nonlinear_arith)
        requires
            a - b == word() * (qa - qb),
            -word() < a - b < word(),
            word() > 0,
    ;
}

/// Incrementing a counter is incrementing the count.
pub proof fn lemma_wrap_increment(n: int)
    ensures
        usize_specs::wrapping_add(wrap(n), 1) == wrap(n + 1),
{
    lemma_add_mod_noop(n, 1, word());
    lemma_small_mod(1, word() as nat);
    if wrap(n) == usize::MAX {
        lemma_mod_self_0(word());
    } else {
        lemma_small_mod((wrap(n) + 1) as nat, word() as nat);
    }
}

/// The wrapping difference of two counters is the difference of the counts, where that fits.
pub proof fn lemma_wrap_difference(a: int, b: int)
    requires
        0 <= a - b < word(),
    ensures
        usize_specs::wrapping_sub(wrap(a), wrap(b)) == a - b,
{
    lemma_sub_mod_noop(a, b, word());
    lemma_small_mod((a - b) as nat, word() as nat);
    let d = wrap(a) - wrap(b);
    if d >= 0 {
        lemma_small_mod(d as nat, word() as nat);
    } else {
        lemma_small_mod((d + word()) as nat, word() as nat);
        lemma_mod_add_multiples_vanish(d, word());
    }
}

/// A counter is reached from another by counting their wrapping difference.
pub proof fn lemma_wrap_reaches(a: usize, b: usize)
    ensures
        wrap(b + usize_specs::wrapping_sub(a, b)) == a,
        wrap(b as int) == b,
{
    lemma_small_mod(a as nat, word() as nat);
    lemma_small_mod(b as nat, word() as nat);
    if a < b {
        lemma_mod_add_multiples_vanish(a as int, word());
    }
}

/// The test by which a push sees a full ring: it is exact as long as the reservation counter
/// is at most `capacity` ahead of the release counter and less than a word behind it.
pub proof fn lemma_full_test(head: int, tail: int, capacity: usize)
    requires
        0 <= tail + capacity - head < word(),
    ensures
        (usize_specs::wrapping_add(
            capacity,
            usize_specs::wrapping_sub(wrap(tail), wrap(head)),
        ) == 0) <==> head - tail == capacity,
{
    let gap = usize_specs::wrapping_sub(wrap(tail), wrap(head));
    if tail >= head {
        lemma_wrap_difference(tail, head);
    } else {
        lemma_wrap_difference(tail + word(), head);
        lemma_mod_add_multiples_vanish(tail, word());
    }
}

/// A slot is found again from the slot that the counting starts at.
pub proof fn lemma_slot_position(front: int, slot: int, size: int)
    requires
        0 <= slot < size,
    ensures
        slot_of(front + slot_of(slot - front, size), size) == slot,
        0 <= slot_of(slot - front, size) < size,
{
    lemma_add_mod_noop(front, slot - front, size);
    lemma_add_mod_noop(front, slot_of(slot - front, size), size);
    lemma_mod_twice(slot - front, size);
    lemma_small_mod(slot as nat, size as nat);
}

/// The position of the `k`-th slot after another is `k`.
pub proof fn lemma_position_of_slot(front: int, k: int, size: int)
    requires
        0 <= k < size,
    ensures
        slot_of(slot_of(front + k, size) - front, size) == k,
{
    lemma_sub_mod_noop(front + k, front, size);
    lemma_sub_mod_noop(slot_of(front + k, size), front, size);
    lemma_mod_twice(front + k, size);
    lemma_small_mod(k as nat, size as nat);
}

/// Counts less than a ring size apart have slots of their own.
pub proof fn lemma_slots_distinct(a: int, b: int, size: int)
    requires
        a < b < a + size,
    ensures
        slot_of(a, size) != slot_of(b, size),
{
    lemma_fundamental_div_mod(a, size);
    lemma_fundamental_div_mod(b, size);
    let qa = a / size;
    let qb = b / size;
    if a % size == b % size {
        assert(b - a == size * (qb - qa)) by (nonlinear_arith)
            requires
                a == size * qa + a % size,
                b == size * qb + b % size,
                a % size == b % size,
        ;
        assert(false) by (nonlinear_arith)
            requires
                b - a == size * (qb - qa),
                0 < b - a < size,
        ;
    }
}

/// The ring sizes are the powers of two but one, all of them.
pub proof fn law_valid_size(size: int)
    ensures
        valid_size(size) <==> exists|n: nat| n >= 1 && size == #[trigger] pow2(n),
{
    is_pow2_equiv(size);
    if valid_size(size) {
        let n = choose|i: nat| pow(2, i) == size;
        lemma_pow2(n);
        lemma2_to64();
        assert(size == pow2(n) && n >= 1);
    }
    if exists|n: nat| n >= 1 && size == #[trigger] pow2(n) {
        let n = choose|n: nat| n >= 1 && size == #[trigger] pow2(n);
        lemma_pow2(n);
        lemma_pow2_unfold(n);
        lemma_pow2_pos((n - 1) as nat);
        assert(pow(2, n) == size);
    }
}

} // verus!
