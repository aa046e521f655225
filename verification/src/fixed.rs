//! Fixed-point decoding of 32-bit IEEE-754 float bit patterns.
//!
//! A vector component arrives as the bit pattern of an `f32`. Hashing needs
//! its numeric value; this module decodes the pattern into a bounded
//! fixed-point integer with scale `2^20` (the real value `x` becomes roughly
//! `x * 2^20`), saturating at `FX_MAX`. Infinities and NaN saturate too, so
//! every pattern decodes to something and hashing stays total.

use vstd::prelude::*;

verus! {

/// Saturation bound of a decoded component: `2^40`, i.e. real values of
/// magnitude at least `2^20` all decode to the same extreme.
pub const FX_MAX: i64 = 0x100_0000_0000;

/// Doubling `m` `k` times, clamped to `FX_MAX` at every step.
pub open spec fn fx_mag_shl(m: nat, k: nat) -> nat
    decreases k,
{
    if k == 0 {
        if m > 0x100_0000_0000 {
            0x100_0000_0000
        } else {
            m
        }
    } else {
        let p = fx_mag_shl(m, (k - 1) as nat);
        if 2 * p > 0x100_0000_0000 {
            0x100_0000_0000
        } else {
            2 * p
        }
    }
}

/// Halving `m` `k` times, truncating at every step.
pub open spec fn fx_mag_shr(m: nat, k: nat) -> nat
    decreases k,
{
    if k == 0 {
        m
    } else {
        fx_mag_shr(m, (k - 1) as nat) / 2
    }
}

pub proof fn lemma_fx_mag_shl_bound(m: nat, k: nat)
    ensures
        fx_mag_shl(m, k) <= 0x100_0000_0000,
    decreases k,
{
    if k > 0 {
        lemma_fx_mag_shl_bound(m, (k - 1) as nat);
    }
}

pub proof fn lemma_fx_mag_shr_bound(m: nat, k: nat)
    ensures
        fx_mag_shr(m, k) <= m,
    decreases k,
{
    if k > 0 {
        lemma_fx_mag_shr_bound(m, (k - 1) as nat);
    }
}

/// The magnitude part of the decoding: mantissa `m` scaled by `2^(e - 130)`,
/// where `e` is the biased exponent (denormals use `e == 1`).
pub open spec fn fx_mag(m: nat, e: nat) -> nat {
    if e >= 130 {
        fx_mag_shl(m, (e - 130) as nat)
    } else {
        fx_mag_shr(m, (130 - e) as nat)
    }
}

/// The fixed-point value of the `f32` whose bit pattern is `bits`:
/// sign, biased exponent and mantissa are split out of the word, the
/// magnitude is the scaled mantissa, and non-finite patterns saturate.
pub open spec fn fx(bits: u32) -> int {
    let sign = bits / 0x8000_0000;
    let exp = (bits / 0x80_0000) % 0x100;
    let man = bits % 0x80_0000;
    let mag: nat = if exp == 0xFF {
        0x100_0000_0000 as nat
    } else if exp == 0 {
        fx_mag(man as nat, 1)
    } else {
        fx_mag((man + 0x80_0000) as nat, exp as nat)
    };
    if sign == 1 {
        -(mag as int)
    } else {
        mag as int
    }
}

pub proof fn lemma_fx_bound(bits: u32)
    ensures
        -FX_MAX <= fx(bits) <= FX_MAX,
{
    let exp = (bits / 0x80_0000) % 0x100;
    let man = bits % 0x80_0000;
    if exp != 0xFF {
        let m: nat = if exp == 0 {
            man as nat
        } else {
            (man + 0x80_0000) as nat
        };
        let e: nat = if exp == 0 {
            1
        } else {
            exp as nat
        };
        if e >= 130 {
            lemma_fx_mag_shl_bound(m, (e - 130) as nat);
        } else {
            lemma_fx_mag_shr_bound(m, (130 - e) as nat);
        }
    }
}

/// Decodes one `f32` bit pattern into its fixed-point value.
pub fn fx_exec(bits: u32) -> (r: i64)
    ensures
        r as int == fx(bits),
        -FX_MAX <= r <= FX_MAX,
{
    proof {
        lemma_fx_bound(bits);
    }
    let sign: u32 = bits / 0x8000_0000;
    let exp: u32 = (bits / 0x80_0000) % 0x100;
    let man: u32 = bits % 0x80_0000;
    let mag: u64 = if exp == 0xFF {
        0x100_0000_0000u64
    } else {
        let m: u64 = if exp == 0 {
            man as u64
        } else {
            (man + 0x80_0000) as u64
        };
        let e: u32 = if exp == 0 {
            1
        } else {
            exp
        };
        if e >= 130 {
            shl_sat(m, (e - 130) as usize)
        } else {
            shr_trunc(m, (130 - e) as usize)
        }
    };
    if sign == 1 {
        -(mag as i64)
    } else {
        mag as i64
    }
}

fn shl_sat(m: u64, k: usize) -> (r: u64)
    ensures
        r == fx_mag_shl(m as nat, k as nat),
        r <= 0x100_0000_0000,
{
    let mut mag: u64 = if m > 0x100_0000_0000 {
        0x100_0000_0000
    } else {
        m
    };
    let mut i: usize = 0;
    proof {
        lemma_fx_mag_shl_bound(m as nat, 0);
    }
    while i < k
        invariant
            i <= k,
            mag == fx_mag_shl(m as nat, i as nat),
            mag <= 0x100_0000_0000,
        decreases k - i,
    {
        if 2 * mag > 0x100_0000_0000 {
            mag = 0x100_0000_0000;
        } else {
            mag = 2 * mag;
        }
        i = i + 1;
    }
    mag
}

fn shr_trunc(m: u64, k: usize) -> (r: u64)
    ensures
        r == fx_mag_shr(m as nat, k as nat),
        r <= m,
{
    let mut mag: u64 = m;
    let mut i: usize = 0;
    while i < k
        invariant
            i <= k,
            mag == fx_mag_shr(m as nat, i as nat),
            mag <= m,
        decreases k - i,
    {
        mag = mag / 2;
        i = i + 1;
    }
    mag
}

} // verus!
