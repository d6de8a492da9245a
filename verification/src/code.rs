//! Codes as sequences of bits, the 32-bit shift register that collects them,
//! and event-driven machines that emit codes.
use vstd::prelude::*;

verus! {

use vstd::arithmetic::power2::{pow2, lemma_pow2_pos, lemma_pow2_unfold};
use vstd::arithmetic::div_mod::{lemma_mod_breakdown, lemma_fundamental_div_mod, lemma_mod_pos_bound};

/// `2^32`: the number of values a 32-bit register can hold.
pub open spec fn register_modulus() -> int {
    0x1_0000_0000
}

/// The number whose binary digits, most significant first, are `bits`.
pub open spec fn code_of(bits: Seq<bool>) -> nat
    decreases bits.len(),
{
    if bits.len() == 0 {
        0
    } else {
        2 * code_of(bits.drop_last()) + if bits.last() { 1nat } else { 0nat }
    }
}

/// What a 32-bit register holds after `bits` were shifted into it, one after the
/// other, starting from zero: the low 32 bits of `code_of(bits)`.
pub open spec fn register_of(bits: Seq<bool>) -> u32 {
    (code_of(bits) % 0x1_0000_0000nat) as u32
}

/// Shift `register` left by one place and put `bit` into the lowest place.
pub open spec fn shift_in(register: u32, bit: bool) -> u32 {
    if bit {
        (register << 1u32) | 1u32
    } else {
        register << 1u32
    }
}

/// Bit `i` of `code` (bit 0 is the least significant one).
pub open spec fn code_bit(code: nat, i: nat) -> bool {
    (code / pow2(i)) % 2 == 1
}

/// The lowest `n` bits of `code`, most significant first.
pub open spec fn low_bits(code: nat, n: nat) -> Seq<bool>
    decreases n,
{
    if n == 0 {
        Seq::empty()
    } else {
        low_bits(code / 2, (n - 1) as nat).push(code % 2 == 1)
    }
}

/// Shifting a bit into a register that holds the low 32 bits of `value` leaves the
/// low 32 bits of `2 * value + bit` in it.
pub proof fn lemma_shift_in(register: u32, value: nat, bit: bool)
    requires
        register as int == value % 0x1_0000_0000,
    ensures
        shift_in(register, bit) as int == (2 * value + if bit { 1int } else { 0int }) % 0x1_0000_0000,
{
    let b: int = if bit { 1 } else { 0 };
    let m: int = 0x1_0000_0000;
    let c = register;
    if bit {
        assert(c < 0x8000_0000u32 ==> ((c << 1u32) | 1u32) == c * 2 + 1) by (bit_vector);
        assert(c >= 0x8000_0000u32 ==> ((c << 1u32) | 1u32) == c * 2 + 1 - 0x1_0000_0000) by (bit_vector);
    } else {
        assert(c < 0x8000_0000u32 ==> (c << 1u32) == c * 2) by (bit_vector);
        assert(c >= 0x8000_0000u32 ==> (c << 1u32) == c * 2 - 0x1_0000_0000) by (bit_vector);
    }
    lemma_fundamental_div_mod(value as int, m);
    let q = value as int / m;
    assert(2 * value + b == m * (2 * q) + (2 * c + b)) by (nonlinear_arith)
        requires
            value == m * q + c,
    ;
    vstd::arithmetic::div_mod::lemma_mod_multiples_vanish(2 * q, 2 * c + b, m);
    if 2 * c + b < m {
        vstd::arithmetic::div_mod::lemma_small_mod((2 * c + b) as nat, m as nat);
    } else {
        vstd::arithmetic::div_mod::lemma_mod_multiples_vanish(1, 2 * c + b - m, m);
        vstd::arithmetic::div_mod::lemma_small_mod((2 * c + b - m) as nat, m as nat);
    }
}

/// The register obtained by shifting the bits in one by one holds `register_of`.
pub proof fn lemma_register_push(bits: Seq<bool>, bit: bool)
    ensures
        shift_in(register_of(bits), bit) == register_of(bits.push(bit)),
{
    lemma_shift_in(register_of(bits), code_of(bits), bit);
    assert(bits.push(bit).drop_last() =~= bits);
}

/// Reading back the lowest `n` bits of a code, most significant first, gives the
/// code modulo `2^n`.
pub proof fn lemma_code_of_low_bits(code: nat, n: nat)
    ensures
        code_of(low_bits(code, n)) == code % pow2(n),
        low_bits(code, n).len() == n,
    decreases n,
{
    if n == 0 {
        vstd::arithmetic::power2::lemma2_to64();
    } else {
        lemma_code_of_low_bits(code / 2, (n - 1) as nat);
        let s = low_bits(code / 2, (n - 1) as nat);
        assert(low_bits(code, n).drop_last() =~= s);
        lemma_pow2_unfold(n);
        lemma_pow2_pos((n - 1) as nat);
        lemma_mod_breakdown(code as int, 2, pow2((n - 1) as nat) as int);
    }
}

/// Position `j` of `low_bits(code, n)` is bit `n - 1 - j` of `code`.
pub proof fn lemma_low_bits_index(code: nat, n: nat, j: int)
    requires
        0 <= j < n,
    ensures
        low_bits(code, n).len() == n,
        low_bits(code, n)[j] == code_bit(code, (n - 1 - j) as nat),
    decreases n,
{
    lemma_code_of_low_bits(code, n);
    lemma_code_of_low_bits(code / 2, (n - 1) as nat);
    if j == n - 1 {
        vstd::arithmetic::power2::lemma2_to64();
    } else {
        lemma_low_bits_index(code / 2, (n - 1) as nat, j);
        let i = (n - 2 - j) as nat;
        lemma_pow2_unfold(i + 1);
        lemma_pow2_pos(i);
        vstd::arithmetic::div_mod::lemma_div_denominator(code as int, 2, pow2(i) as int);
        assert(low_bits(code, n)[j] == low_bits(code / 2, (n - 1) as nat)[j]);
        assert((n - 1 - j) as nat == i + 1);
        assert(code / 2 / pow2(i) == code / pow2(i + 1));
    }
}

/// Run an event-driven machine: apply `step` to each event in turn, starting from
/// `start`. The result is the final state and the last code emitted, if any.
pub open spec fn run<S, E>(step: spec_fn(S, E) -> (S, Option<u32>), start: S, events: Seq<E>) -> (S, Option<u32>)
    decreases events.len(),
{
    if events.len() == 0 {
        (start, None)
    } else {
        let before = run(step, start, events.drop_last());
        let after = step(before.0, events.last());
        (after.0, if after.1 is Some { after.1 } else { before.1 })
    }
}

/// Running two event sequences one after the other is running their concatenation.
pub proof fn lemma_run_append<S, E>(step: spec_fn(S, E) -> (S, Option<u32>), start: S, a: Seq<E>, b: Seq<E>)
    ensures
        run(step, start, a + b).0 == run(step, run(step, start, a).0, b).0,
        run(step, start, a + b).1 == (if run(step, run(step, start, a).0, b).1 is Some {
            run(step, run(step, start, a).0, b).1
        } else {
            run(step, start, a).1
        }),
    decreases b.len(),
{
    if b.len() == 0 {
        assert(a + b =~= a);
    } else {
        lemma_run_append(step, start, a, b.drop_last());
        assert((a + b).drop_last() =~= a + b.drop_last());
        assert((a + b).last() == b.last());
    }
}

} // verus!
