//! Deterministic noise: the words of a 32-bit xorshift generator.

use vstd::prelude::*;

verus! {

/// The word after `x`.
pub open spec fn xorshift(x: u32) -> u32 {
    let a = x ^ (x << 13u32);
    let b = a ^ (a >> 17u32);
    b ^ (b << 5u32)
}

/// The word `n` steps after `seed`.
pub open spec fn noise_word(seed: u32, n: nat) -> u32
    decreases n,
{
    if n == 0 {
        seed
    } else {
        xorshift(noise_word(seed, (n - 1) as nat))
    }
}

/// The next word of the generator.
pub fn next_noise(state: u32) -> (word: u32)
    ensures
        word == xorshift(state),
{
    let mut x: u32 = state;
    x = x ^ (x << 13u32);
    x = x ^ (x >> 17u32);
    x = x ^ (x << 5u32);
    x
}

/// Different words have different successors, so that the noise never runs into a cycle
/// that it did not start in.
pub proof fn law_noise_is_injective(x: u32, y: u32)
    requires
        x != y,
    ensures
        xorshift(x) != xorshift(y),
{
    assert(x ^ (x << 13u32) == y ^ (y << 13u32) ==> x == y) by (bit_vector);
    let a = x ^ (x << 13u32);
    let c = y ^ (y << 13u32);
    assert(a ^ (a >> 17u32) == c ^ (c >> 17u32) ==> a == c) by (bit_vector);
    let b = a ^ (a >> 17u32);
    let d = c ^ (c >> 17u32);
    assert(b ^ (b << 5u32) == d ^ (d << 5u32) ==> b == d) by (bit_vector);
}

/// The generator never gets stuck at zero: from a seed other than zero it only gives words
/// other than zero.
pub proof fn law_noise_never_dies(seed: u32, n: nat)
    requires
        seed != 0,
    ensures
        noise_word(seed, n) != 0,
    decreases n,
{
    if n > 0 {
        law_noise_never_dies(seed, (n - 1) as nat);
        law_noise_is_injective(noise_word(seed, (n - 1) as nat), 0);
        assert(xorshift(0) == 0) by (bit_vector);
    }
}

/// The generator is linear: the word after the exclusive or of two words is that of the words
/// after them.
pub proof fn law_noise_is_linear(x: u32, y: u32)
    ensures
        xorshift(x ^ y) == xorshift(x) ^ xorshift(y),
{
    assert({
        let s = x ^ y;
        let a = s ^ (s << 13u32);
        let b = a ^ (a >> 17u32);
        let c = x ^ (x << 13u32);
        let d = c ^ (c >> 17u32);
        let e = y ^ (y << 13u32);
        let f = e ^ (e >> 17u32);
        b ^ (b << 5u32) == (d ^ (d << 5u32)) ^ (f ^ (f << 5u32))
    }) by (bit_vector);
}

/// The words go on from any word as from a seed: `m` steps and then `n` are `m + n` steps.
pub proof fn law_noise_goes_on(seed: u32, m: nat, n: nat)
    ensures
        noise_word(noise_word(seed, m), n) == noise_word(seed, m + n),
        noise_word(seed, 1) == xorshift(seed),
    decreases n,
{
    if n > 0 {
        law_noise_goes_on(seed, m, (n - 1) as nat);
    }
    assert(noise_word(seed, 0) == seed);
}

} // verus!
