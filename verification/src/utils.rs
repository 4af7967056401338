//! Word and alignment helpers shared by every layer of the codec.
//!
//! The wire format is made of words of eight bytes. Numbers are stored
//! big-endian in fields of two, six, seven or eight bytes, and payloads are
//! padded with zero bytes up to the next word boundary.

use vstd::prelude::*;

verus! {

/// The number of bytes in a word.
pub const WORD: usize = 8;

/// The smallest multiple of `step` that is at least `n`, for a positive
/// `step` and a natural `n`.
pub open spec fn round_up(n: int, step: int) -> int {
    n + (step - n % step) % step
}

/// Whether `m` is a whole number of steps.
pub open spec fn is_multiple_of(m: int, step: int) -> bool {
    m % step == 0
}

/// `256` to the power of `width`: the number of values that a field of
/// `width` bytes can hold.
pub open spec fn radix(width: nat) -> nat
    decreases width,
{
    if width == 0 {
        1
    } else {
        256 * radix((width - 1) as nat)
    }
}

/// The number that `bytes` spell out, most significant byte first.
pub open spec fn be_value(bytes: Seq<u8>) -> nat
    decreases bytes.len(),
{
    if bytes.len() == 0 {
        0
    } else {
        be_value(bytes.drop_last()) * 256 + bytes.last() as nat
    }
}

/// The `width` least significant bytes of `value`, most significant first.
pub open spec fn be_bytes(value: nat, width: nat) -> Seq<u8>
    decreases width,
{
    if width == 0 {
        Seq::empty()
    } else {
        be_bytes(value / 256, (width - 1) as nat).push((value % 256) as u8)
    }
}

/// A run of `n` zero bytes.
pub open spec fn zeros(n: nat) -> Seq<u8> {
    Seq::new(n, |i: int| 0u8)
}

/// `bytes` followed by as many zero bytes as it takes to reach a word
/// boundary.
pub open spec fn aligned(bytes: Seq<u8>) -> Seq<u8> {
    bytes + zeros((round_up(bytes.len() as int, 8) - bytes.len()) as nat)
}

/// `round_up` yields the least multiple of `step` that is not below `n`.
pub proof fn lemma_round_up_is_least_multiple(n: int, step: int)
    requires
        0 <= n,
        0 < step,
    ensures
        is_multiple_of(round_up(n, step), step),
        n <= round_up(n, step) < n + step,
        forall|m: int| n <= m && #[trigger] is_multiple_of(m, step) ==> round_up(n, step) <= m,
{
    let rest = n % step;
    vstd::arithmetic::div_mod::lemma_fundamental_div_mod(n, step);
    vstd::arithmetic::div_mod::lemma_mod_bound(n, step);
    let q = n / step;
    assert(n == step * q + rest);
    if rest == 0 {
        vstd::arithmetic::div_mod::lemma_mod_self_0(step);
        assert(round_up(n, step) == n);
    } else {
        vstd::arithmetic::div_mod::lemma_small_mod((step - rest) as nat, step as nat);
        assert(round_up(n, step) == n + step - rest);
        assert(round_up(n, step) == step * (q + 1)) by {
            vstd::arithmetic::mul::lemma_mul_is_distributive_add(step, q, 1);
        }
        vstd::arithmetic::div_mod::lemma_mod_multiples_basic(q + 1, step);
        assert((step * (q + 1)) % step == 0) by {
            vstd::arithmetic::mul::lemma_mul_is_commutative(step, q + 1);
        }
    }
    assert forall|m: int| n <= m && #[trigger] is_multiple_of(m, step) implies round_up(n, step)
        <= m by {
        if m < round_up(n, step) {
            // `m` and the rounded value are both multiples of `step` less
            // than `step` apart, so they coincide.
            let r = round_up(n, step);
            vstd::arithmetic::div_mod::lemma_fundamental_div_mod(m, step);
            vstd::arithmetic::div_mod::lemma_fundamental_div_mod(r, step);
            let a = m / step;
            let b = r / step;
            assert(m == step * a);
            assert(r == step * b);
            assert(0 < r - m < step);
            assert(r - m == step * (b - a)) by {
                vstd::arithmetic::mul::lemma_mul_is_distributive_sub(step, b, a);
            }
            if b - a >= 1 {
                vstd::arithmetic::mul::lemma_mul_inequality(1, b - a, step);
                vstd::arithmetic::mul::lemma_mul_is_commutative(step, b - a);
            } else {
                vstd::arithmetic::mul::lemma_mul_inequality(b - a, 0, step);
                vstd::arithmetic::mul::lemma_mul_is_commutative(step, b - a);
            }
        }
    }
}

/// A value already on a boundary is left alone, and zero stays zero.
pub proof fn lemma_round_up_of_multiple(n: int, step: int)
    requires
        0 <= n,
        0 < step,
        n % step == 0,
    ensures
        round_up(n, step) == n,
{
    vstd::arithmetic::div_mod::lemma_mod_self_0(step);
}

/// The values of `radix` at the widths that the format uses.
pub proof fn lemma_radix_values()
    ensures
        radix(0) == 1,
        radix(1) == 0x100,
        radix(2) == 0x1_0000,
        radix(6) == 0x1_0000_0000_0000,
        radix(7) == 0x100_0000_0000_0000,
        radix(8) == 0x1_0000_0000_0000_0000,
{
    reveal_with_fuel(radix, 9);
}

/// `radix` grows with the width.
pub proof fn lemma_radix_monotonic(a: nat, b: nat)
    requires
        a <= b,
    ensures
        radix(a) <= radix(b),
        radix(a) > 0,
    decreases b,
{
    if a < b {
        lemma_radix_monotonic(a, (b - 1) as nat);
    } else if a > 0 {
        lemma_radix_monotonic((a - 1) as nat, (a - 1) as nat);
    }
}

/// A field of `n` bytes holds a number below `radix(n)`.
pub proof fn lemma_be_value_bound(bytes: Seq<u8>)
    ensures
        be_value(bytes) < radix(bytes.len()),
    decreases bytes.len(),
{
    if bytes.len() > 0 {
        lemma_be_value_bound(bytes.drop_last());
    }
}

/// `be_bytes` produces exactly `width` bytes.
pub proof fn lemma_be_bytes_len(value: nat, width: nat)
    ensures
        be_bytes(value, width).len() == width,
    decreases width,
{
    if width > 0 {
        lemma_be_bytes_len(value / 256, (width - 1) as nat);
    }
}

/// Reading back what was written gives the number that was written, as long
/// as it fits the field.
pub proof fn lemma_be_value_of_bytes(value: nat, width: nat)
    requires
        value < radix(width),
    ensures
        be_value(be_bytes(value, width)) == value,
    decreases width,
{
    if width > 0 {
        let front = be_bytes(value / 256, (width - 1) as nat);
        lemma_be_value_of_bytes(value / 256, (width - 1) as nat);
        assert(front.push((value % 256) as u8).drop_last() =~= front);
    }
}

/// Padding a byte run yields a whole number of words and keeps the run as a
/// prefix.
pub proof fn lemma_aligned(bytes: Seq<u8>)
    ensures
        aligned(bytes).len() == round_up(bytes.len() as int, 8),
        aligned(bytes).len() % 8 == 0,
        aligned(bytes).subrange(0, bytes.len() as int) == bytes,
        forall|i: int| bytes.len() <= i < aligned(bytes).len() ==> aligned(bytes)[i] == 0,
{
    lemma_round_up_is_least_multiple(bytes.len() as int, 8);
    assert(aligned(bytes).subrange(0, bytes.len() as int) =~= bytes);
}

/// Rounding of a count up to a whole number of units.
pub trait RoundUpToMultipleOf: Sized {
    /// The number that `self` stands for.
    spec fn amount(&self) -> int;

    /// The largest number that the type can hold.
    spec fn ceiling() -> int;

    /// Returns the smallest multiple of `number` that is at least `self`.
    /// A value that already is a multiple is returned unchanged.
    fn round_up_to_multiple_of(&self, number: Self) -> (r: Self)
        requires
            number.amount() > 0,
            round_up(self.amount(), number.amount()) <= Self::ceiling(),
        ensures
            r.amount() == round_up(self.amount(), number.amount()),
    ;
}

impl RoundUpToMultipleOf for usize {
    open spec fn amount(&self) -> int {
        *self as int
    }

    open spec fn ceiling() -> int {
        usize::MAX as int
    }

    fn round_up_to_multiple_of(&self, number: usize) -> (r: usize) {
        let rest: usize = *self % number;
        proof {
            lemma_round_up_is_least_multiple(*self as int, number as int);
            if rest == 0 {
                lemma_round_up_of_multiple(*self as int, number as int);
            } else {
                vstd::arithmetic::div_mod::lemma_small_mod(
                    (number - rest) as nat,
                    number as nat,
                );
            }
        }
        if rest == 0 {
            *self
        } else {
            *self + (number - rest)
        }
    }
}

/// Zero padding up to the next word boundary.
pub trait Align {
    /// The bytes that the buffer holds.
    spec fn content(&self) -> Seq<u8>;

    /// Appends zero bytes until the length is a multiple of the word size.
    fn align(&mut self)
        ensures
            final(self).content() == aligned(old(self).content()),
    ;
}

impl Align for Vec<u8> {
    open spec fn content(&self) -> Seq<u8> {
        self@
    }

    fn align(&mut self) {
        let rest: usize = self.len() % WORD;
        let filling_amount: usize = if rest == 0 {
            0
        } else {
            WORD - rest
        };
        let ghost before = self@;
        assert(filling_amount == round_up(before.len() as int, 8) - before.len());
        let mut done: usize = 0;
        while done < filling_amount
            invariant
                done <= filling_amount,
                self@ == before + zeros(done as nat),
            decreases filling_amount - done,
        {
            self.push(0);
            done += 1;
            assert(self@ =~= before + zeros(done as nat));
        }
    }
}

/// Reading of a big-endian number from a field of bytes.
pub trait CloneFromSlice: Sized {
    /// The widest field, in bytes, whose number the type can hold.
    spec fn capacity() -> nat;

    /// The number that `self` stands for.
    spec fn number(&self) -> nat;

    /// Returns the number that `bytes` spell out, most significant byte
    /// first. A field shorter than the type is extended with leading zeros.
    fn clone_from_slice(bytes: &[u8]) -> (r: Self)
        requires
            bytes@.len() <= Self::capacity(),
        ensures
            r.number() == be_value(bytes@),
    ;
}

impl CloneFromSlice for u64 {
    open spec fn capacity() -> nat {
        8
    }

    open spec fn number(&self) -> nat {
        *self as nat
    }

    fn clone_from_slice(bytes: &[u8]) -> (r: u64) {
        let mut value: u64 = 0;
        let mut i: usize = 0;
        while i < bytes.len()
            invariant
                i <= bytes@.len() <= 8,
                value == be_value(bytes@.take(i as int)),
            decreases bytes.len() - i,
        {
            proof {
                let read = bytes@.take(i as int);
                let next = bytes@.take(i as int + 1);
                assert(next.drop_last() =~= read);
                assert(next.last() == bytes@[i as int]);
                lemma_be_value_bound(read);
                lemma_be_value_bound(next);
                lemma_radix_monotonic(next.len(), 8);
                lemma_radix_values();
            }
            value = value * 256 + bytes[i] as u64;
            i += 1;
        }
        assert(bytes@.take(i as int) =~= bytes@);
        value
    }
}

/// Appends the `width` least significant bytes of `value` to `out`, most
/// significant byte first.
pub fn push_be_bytes(out: &mut Vec<u8>, value: u64, width: usize)
    ensures
        final(out)@ == old(out)@ + be_bytes(value as nat, width as nat),
    decreases width,
{
    if width > 0 {
        push_be_bytes(out, value / 256, width - 1);
        out.push((value % 256) as u8);
        assert(out@ =~= old(out)@ + be_bytes(value as nat, width as nat));
    } else {
        assert(out@ =~= old(out)@ + be_bytes(value as nat, width as nat));
    }
}

} // verus!
