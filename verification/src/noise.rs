//! Integer lattice hashes behind the noise fields of the noisy circle and
//! the noisy horizon.
use vstd::prelude::*;

verus! {

/// 2^32, the modulus of 32-bit wrapping arithmetic.
pub open spec fn modulus() -> nat {
    0x1_0000_0000
}

/// The lattice point folded into one 32-bit word: the two's-complement
/// patterns of the coordinates, weighted and summed modulo 2^32.
pub open spec fn lattice_word(x: i32, y: i32) -> nat {
    ((x as u32) as nat * 374_761_393 + (y as u32) as nat * 668_265_263) % modulus()
}

/// The final avalanche: xor-shift by 13, multiply modulo 2^32, xor-shift
/// by 16.
pub open spec fn avalanche(h: u32) -> u32 {
    let m = (((h ^ (h >> 13u32)) as nat * 1_274_126_177) % modulus()) as u32;
    m ^ (m >> 16u32)
}

/// The hash of a 2D lattice point.
pub open spec fn lattice_hash2(x: i32, y: i32) -> u32 {
    avalanche(lattice_word(x, y) as u32)
}

/// The hash of a 3D lattice point: the 2D word xor-ed with the third
/// coordinate's pattern times 2^31 - 1 (modulo 2^32), then avalanched.
pub open spec fn lattice_hash3(x: i32, y: i32, z: i32) -> u32 {
    let w = lattice_word(x, y) as u32;
    let zw = (((z as u32) as nat * 2_147_483_647) % modulus()) as u32;
    avalanche(w ^ zw)
}

/// `a * m1 + b * m2` wrapped into 32 bits is the same as the wrapped sum
/// of the wrapped products.
proof fn lemma_wrapped_sum(a: u32, b: u32, m1: u32, m2: u32)
    ensures
        vstd::wrapping::u32_specs::wrapping_add(
            vstd::wrapping::u32_specs::wrapping_mul(a, m1),
            vstd::wrapping::u32_specs::wrapping_mul(b, m2),
        ) as nat == (a as nat * m1 as nat + b as nat * m2 as nat) % modulus(),
{
    let p = a as nat * m1 as nat;
    let q = b as nat * m2 as nat;
    let s = (p % modulus()) + (q % modulus());
    vstd::arithmetic::div_mod::lemma_add_mod_noop(p as int, q as int, modulus() as int);
    if s >= modulus() {
        vstd::arithmetic::div_mod::lemma_small_mod((s - modulus()) as nat, modulus());
        vstd::arithmetic::div_mod::lemma_mod_sub_multiples_vanish(s as int, modulus() as int);
    } else {
        vstd::arithmetic::div_mod::lemma_small_mod(s, modulus());
    }
}

fn mix(h: u32) -> (r: u32)
    ensures
        r == avalanche(h),
{
    let m = (h ^ (h >> 13)).wrapping_mul(1_274_126_177);
    m ^ (m >> 16)
}

/// Hashes a 2D lattice point.
pub fn hash2(x: i32, y: i32) -> (r: u32)
    ensures
        r == lattice_hash2(x, y),
{
    let mut h = x as u32;
    h = h.wrapping_mul(374_761_393).wrapping_add((y as u32).wrapping_mul(668_265_263));
    proof {
        lemma_wrapped_sum(x as u32, y as u32, 374_761_393, 668_265_263);
    }
    mix(h)
}

/// Hashes a 3D lattice point.
pub fn hash3(x: i32, y: i32, z: i32) -> (r: u32)
    ensures
        r == lattice_hash3(x, y, z),
{
    let mut h = x as u32;
    h = h.wrapping_mul(374_761_393).wrapping_add((y as u32).wrapping_mul(668_265_263));
    proof {
        lemma_wrapped_sum(x as u32, y as u32, 374_761_393, 668_265_263);
    }
    h ^= (z as u32).wrapping_mul(2_147_483_647);
    mix(h)
}

} // verus!
