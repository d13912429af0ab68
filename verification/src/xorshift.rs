//! The xorshift128+ pseudo-random number generator.

use rand::{Error, RngCore};
use vstd::prelude::*;

verus! {

/// The error type that `rand` reports from fallible generators.
#[verifier::external_type_specification]
#[verifier::external_body]
pub struct ExRandError(Error);

/// A stream of pseudo-random numbers produced by the xorshift128+ recurrence
/// of Vigna, "Further scramblings of Marsaglia's xorshift generators".
///
/// The generator is fully determined by its two state words, so two
/// generators with equal views produce equal streams.
#[derive(Debug, Hash)]
pub struct XorShift128Plus {
    s0: u64,
    s1: u64,
}

/// The two state words after one step from `(s0, s1)`.
pub open spec fn next_state(s: (u64, u64)) -> (u64, u64) {
    let a = s.0 ^ (s.0 << 23);
    (s.1, a ^ s.1 ^ (a >> 17) ^ (s.1 >> 26))
}

/// The number produced by one step from `(s0, s1)`.
pub open spec fn next_output(s: (u64, u64)) -> u64 {
    next_state(s).1.wrapping_add(s.1)
}

/// The state words after `steps` steps from `s`.
pub open spec fn state_after(s: (u64, u64), steps: nat) -> (u64, u64)
    decreases steps,
{
    if steps == 0 {
        s
    } else {
        next_state(state_after(s, (steps - 1) as nat))
    }
}

/// The lowest eight bits of `word`.
pub open spec fn low_byte(word: u64) -> u8 {
    (word & 0xff) as u8
}

impl View for XorShift128Plus {
    type V = (u64, u64);

    closed spec fn view(&self) -> (u64, u64) {
        (self.s0, self.s1)
    }
}

impl XorShift128Plus {
    /// A generator whose state words are `seed[0]` and `seed[1]`.
    pub fn new(seed: [u64; 2]) -> (rng: XorShift128Plus)
        ensures
            rng@ == (seed[0], seed[1]),
    {
        XorShift128Plus { s0: seed[0], s1: seed[1] }
    }

    /// The state words, in order.
    pub fn state(&self) -> (s: [u64; 2])
        ensures
            (s[0], s[1]) == self@,
    {
        [self.s0, self.s1]
    }
}

impl Clone for XorShift128Plus {
    fn clone(&self) -> (copy: Self)
        ensures
            copy@ == self@,
    {
        XorShift128Plus { s0: self.s0, s1: self.s1 }
    }
}

impl RngCore for XorShift128Plus {
    fn next_u64(&mut self) -> (out: u64)
        ensures
            final(self)@ == next_state(old(self)@),
            out == next_output(old(self)@),
    {
        let mut a: u64 = self.s0;
        let b: u64 = self.s1;
        self.s0 = b;
        a = a ^ (a << 23);
        self.s1 = a ^ b ^ (a >> 17) ^ (b >> 26);
        self.s1.wrapping_add(b)
    }

    fn next_u32(&mut self) -> (out: u32)
        ensures
            final(self)@ == next_state(old(self)@),
            out == (next_output(old(self)@) & 0xffff_ffff) as u32,
    {
        (self.next_u64() & 0xffff_ffff) as u32
    }

    /// Fill `dest` with the low bytes of as many outputs as it has places.
    fn fill_bytes(&mut self, dest: &mut [u8])
        ensures
            final(dest)@.len() == old(dest)@.len(),
            final(self)@ == state_after(old(self)@, old(dest)@.len()),
            forall|i: int|
                0 <= i < old(dest)@.len() ==> (#[trigger] final(dest)@[i]) == low_byte(
                    next_output(state_after(old(self)@, i as nat)),
                ),
    {
        let ghost start = self@;
        let len: usize = dest.len();
        let mut i: usize = 0;
        while i < len
            invariant
                i <= len,
                dest@.len() == len,
                self@ == state_after(start, i as nat),
                forall|j: int|
                    0 <= j < i ==> (#[trigger] dest@[j]) == low_byte(
                        next_output(state_after(start, j as nat)),
                    ),
            decreases len - i,
        {
            let word: u64 = self.next_u64();
            dest[i] = (word & 0xff) as u8;
            i += 1;
        }
    }

    /// Fill `dest` as `fill_bytes` does; this generator cannot fail.
    fn try_fill_bytes(&mut self, dest: &mut [u8]) -> (filled: Result<(), Error>)
        ensures
            filled is Ok,
            final(dest)@.len() == old(dest)@.len(),
            final(self)@ == state_after(old(self)@, old(dest)@.len()),
            forall|i: int|
                0 <= i < old(dest)@.len() ==> (#[trigger] final(dest)@[i]) == low_byte(
                    next_output(state_after(old(self)@, i as nat)),
                ),
    {
        self.fill_bytes(dest);
        Ok(())
    }
}

} // verus!
