//! The hash families: sign random projections, bucketed projections for
//! Euclidean distance, and an asymmetric variant for inner-product search.
//!
//! A hasher holds integer projection coefficients sampled from a seeded
//! stream of draws; a signature is one integer per projection, computed from
//! the fixed-point decoding of the vector's components. For a fixed seed the
//! whole hasher, and hence every signature, is a function of the
//! construction parameters alone.

use vstd::prelude::*;
use crate::fixed::{fx, fx_exec, FX_MAX};
use crate::rng::{draw_of, draw_u64s_seeded};

verus! {

/// Bound of one projection coefficient (`2^20`).
pub const PROJ_B: i64 = 0x10_0000;

/// Bound of one additive offset (`2^60`).
pub const OFF_B: i64 = 0x1000_0000_0000_0000;

/// Bound of one product of a coefficient and a decoded component (`2^60`).
pub const TERM_B: i128 = 0x1000_0000_0000_0000;

/// Shift that makes every projected sum positive before bucketing (`2^126`).
pub const L2_SHIFT: i128 = 0x4000_0000_0000_0000_0000_0000_0000_0000;

/// Modulus that folds a bucketed value into `i64` range (`2^62`).
pub const COMP_MOD: i128 = 0x4000_0000_0000_0000;

/// The fixed-point value one half (`2^19` at scale `2^20`), used as the
/// query-side extension component of the asymmetric family.
pub const HALF_FX: i64 = 0x8_0000;

/// A projection coefficient derived from one raw draw: uniform in
/// `[-PROJ_B, PROJ_B]`.
pub open spec fn proj_val(raw: u64) -> i64 {
    ((raw % 0x20_0001) - 0x10_0000) as i64
}

/// An additive offset derived from one raw draw: uniform in `[-OFF_B, OFF_B]`.
pub open spec fn off_val(raw: u64) -> i64 {
    ((raw % 0x2000_0000_0000_0001) - 0x1000_0000_0000_0000) as i64
}

/// The sequence of projection coefficients a seed determines.
pub open spec fn proj_seq(seed: u64, count: int) -> Seq<i64> {
    Seq::new(count as nat, |i: int| proj_val(draw_of(seed, i)))
}

/// The sequence of offsets a seed determines, starting after `start` draws.
pub open spec fn off_seq(seed: u64, start: int, count: int) -> Seq<i64> {
    Seq::new(count as nat, |k: int| off_val(draw_of(seed, start + k)))
}

/// The projected sum of the first `n` components of `v` against the
/// coefficients of `proj` starting at `base`.
pub open spec fn dot_fx(proj: Seq<i64>, base: int, v: Seq<u32>, n: int) -> int
    decreases n,
{
    if n <= 0 {
        0
    } else {
        dot_fx(proj, base, v, n - 1) + proj[base + n - 1] * fx(v[n - 1])
    }
}

/// The sum of `m` copies of `e` weighted by the coefficients of `proj`
/// starting at `base`: the contribution of the asymmetric extension.
pub open spec fn const_dot(proj: Seq<i64>, base: int, e: int, m: int) -> int
    decreases m,
{
    if m <= 0 {
        0
    } else {
        const_dot(proj, base, e, m - 1) + proj[base + m - 1] * e
    }
}

/// One signature component of the bucketed families: the projected sum,
/// shifted positive, divided by the bucket width and folded into `i64` range.
pub open spec fn l2_comp(num: int, r: int) -> int {
    ((num + L2_SHIFT as int) / r) % (COMP_MOD as int)
}

/// The signature of the sign-random-projections family: one sign bit per
/// projection row.
pub open spec fn srp_sig(proj: Seq<i64>, np: int, dim: int, v: Seq<u32>) -> Seq<i64> {
    Seq::new(np as nat, |k: int| if dot_fx(proj, k * dim, v, dim) >= 0 { 1i64 } else { 0i64 })
}

/// The signature of the Euclidean family: each projection row's sum plus its
/// offset, bucketed by the width `r`.
pub open spec fn l2_sig(proj: Seq<i64>, b: Seq<i64>, np: int, dim: int, r: int, v: Seq<u32>) -> Seq<i64> {
    Seq::new(np as nat, |k: int| l2_comp(dot_fx(proj, k * dim, v, dim) + b[k], r) as i64)
}

/// The clamped fixed-point squared norm of `v`: the sum of squared decoded
/// components, saturated at `FX_MAX` after every addition.
pub open spec fn sq_norm(v: Seq<u32>, n: int) -> int
    decreases n,
{
    if n <= 0 {
        0
    } else {
        let s = sq_norm(v, n - 1) + fx(v[n - 1]) * fx(v[n - 1]);
        if s > FX_MAX { FX_MAX as int } else { s }
    }
}

/// The storage-side extension component of the asymmetric family: the
/// clamped squared norm rescaled by the bound `ufx` (scale `2^20`).
pub open spec fn mips_extra_put(v: Seq<u32>, ufx: int) -> int {
    (ufx * sq_norm(v, v.len() as int)) / 0x10_0000
}

/// The signature of the asymmetric inner-product family. The vector is
/// extended by `m` copies of an extra component — the rescaled norm on the
/// storage side, the constant one half on the query side — and bucketed as
/// the Euclidean family is. The two sides differing is the point: collisions
/// then track inner product rather than a symmetric distance.
pub open spec fn mips_sig(
    proj: Seq<i64>,
    b: Seq<i64>,
    np: int,
    dim: int,
    m: int,
    r: int,
    e: int,
    v: Seq<u32>,
) -> Seq<i64> {
    Seq::new(
        np as nat,
        |k: int|
            l2_comp(
                dot_fx(proj, k * (dim + m), v, dim) + const_dot(proj, k * (dim + m) + dim, e, m)
                    + b[k],
                r,
            ) as i64,
    )
}

/// Converts one raw draw into a projection coefficient.
fn proj_val_exec(raw: u64) -> (r: i64)
    ensures
        r == proj_val(raw),
        -PROJ_B <= r <= PROJ_B,
{
    ((raw % 0x20_0001) as i64) - 0x10_0000
}

/// Converts one raw draw into an additive offset.
fn off_val_exec(raw: u64) -> (r: i64)
    ensures
        r == off_val(raw),
        -OFF_B <= r <= OFF_B,
{
    ((raw % 0x2000_0000_0000_0001) as i64) - 0x1000_0000_0000_0000
}

/// Samples `count` projection coefficients from the stream of `seed`.
fn sample_proj(seed: u64, count: usize) -> (r: Vec<i64>)
    ensures
        r@ == proj_seq(seed, count as int),
        forall|i: int| 0 <= i < r@.len() ==> -PROJ_B <= #[trigger] r@[i] <= PROJ_B,
{
    let raws = draw_u64s_seeded(seed, count);
    let mut out: Vec<i64> = Vec::new();
    let mut i: usize = 0;
    while i < count
        invariant
            i <= count,
            raws@.len() == count as int,
            forall|j: int| 0 <= j < count as int ==> raws@[j] == #[trigger] draw_of(seed, j),
            out@.len() == i as int,
            forall|j: int| 0 <= j < i as int ==> #[trigger] out@[j] == proj_val(draw_of(seed, j)),
            forall|j: int| 0 <= j < i as int ==> -PROJ_B <= #[trigger] out@[j] <= PROJ_B,
        decreases count - i,
    {
        out.push(proj_val_exec(raws[i]));
        i = i + 1;
    }
    proof {
        assert(out@ =~= proj_seq(seed, count as int));
    }
    out
}

/// Samples `count` offsets from the stream of `seed`, after `start` draws
/// already spent on projection coefficients.
fn sample_off(seed: u64, start: usize, count: usize) -> (r: Vec<i64>)
    requires
        start + count <= usize::MAX,
    ensures
        r@ == off_seq(seed, start as int, count as int),
        forall|i: int| 0 <= i < r@.len() ==> -OFF_B <= #[trigger] r@[i] <= OFF_B,
{
    let total: usize = start + count;
    let raws = draw_u64s_seeded(seed, total);
    let mut out: Vec<i64> = Vec::new();
    let mut i: usize = 0;
    while i < count
        invariant
            i <= count,
            total == start + count,
            raws@.len() == total as int,
            forall|j: int| 0 <= j < total as int ==> raws@[j] == #[trigger] draw_of(seed, j),
            out@.len() == i as int,
            forall|j: int| 0 <= j < i as int ==> #[trigger] out@[j] == off_val(
                draw_of(seed, start + j),
            ),
            forall|j: int| 0 <= j < i as int ==> -OFF_B <= #[trigger] out@[j] <= OFF_B,
        decreases count - i,
    {
        out.push(off_val_exec(raws[start + i]));
        i = i + 1;
    }
    proof {
        assert(out@ =~= off_seq(seed, start as int, count as int));
    }
    out
}

/// The projected sum of `v` against row `base..base + v.len()` of `proj`.
fn dot_fx_exec(proj: &Vec<i64>, base: usize, v: &Vec<u32>) -> (r: i128)
    requires
        base + v@.len() <= proj@.len(),
        forall|i: int| 0 <= i < proj@.len() ==> -PROJ_B <= #[trigger] proj@[i] <= PROJ_B,
    ensures
        r == dot_fx(proj@, base as int, v@, v@.len() as int),
        -(v@.len() as int * TERM_B) <= r <= v@.len() as int * TERM_B,
{
    let n = v.len();
    let plen = proj.len();
    let mut acc: i128 = 0;
    let mut j: usize = 0;
    while j < n
        invariant
            j <= n,
            n == v@.len(),
            plen == proj@.len(),
            base + n <= plen,
            forall|i: int| 0 <= i < proj@.len() ==> -PROJ_B <= #[trigger] proj@[i] <= PROJ_B,
            acc == dot_fx(proj@, base as int, v@, j as int),
            -(j as int * TERM_B) <= acc <= j as int * TERM_B,
        decreases n - j,
    {
        let p: i64 = proj[base + j];
        let f: i64 = fx_exec(v[j]);
        proof {
            assert(-TERM_B <= p * f <= TERM_B) by (nonlinear_arith)
                requires
                    -PROJ_B <= p <= PROJ_B,
                    -FX_MAX <= f <= FX_MAX,
                    PROJ_B == 0x10_0000,
                    FX_MAX == 0x100_0000_0000,
                    TERM_B == 0x1000_0000_0000_0000,
            ;
            assert((j as int + 1) * TERM_B == j as int * TERM_B + TERM_B) by (nonlinear_arith);
            assert((j as int + 1) * TERM_B <= 0x1_0000_0000_0000_0000 * TERM_B)
                by (nonlinear_arith)
                requires
                    j as int + 1 <= 0x1_0000_0000_0000_0000,
                    TERM_B == 0x1000_0000_0000_0000,
            ;
        }
        acc = acc + (p as i128) * (f as i128);
        j = j + 1;
    }
    acc
}

/// Buckets a shifted projected sum by the width `r`.
fn l2_comp_exec(num: i128, r: i64) -> (c: i64)
    requires
        1 <= r,
        -0x2000_0000_0000_0000_0000_0000_0000_0000 < num
            < 0x2000_0000_0000_0000_0000_0000_0000_0000,
    ensures
        c as int == l2_comp(num as int, r as int),
{
    let shifted: u128 = (num + L2_SHIFT) as u128;
    let q: u128 = shifted / (r as u128);
    (q % (COMP_MOD as u128)) as i64
}

/// A sign-random-projections hasher: `n_projections` rows of `dim`
/// coefficients, all determined by the construction seed.
pub struct SignRandomProjections {
    pub n_projections: usize,
    pub dim: usize,
    pub proj: Vec<i64>,
}

impl SignRandomProjections {
    pub open spec fn wf(self) -> bool {
        &&& self.proj@.len() == self.n_projections * self.dim
        &&& forall|i: int|
            0 <= i < self.proj@.len() ==> -PROJ_B <= #[trigger] self.proj@[i] <= PROJ_B
    }

    pub fn new(n_projections: usize, dim: usize, seed: u64) -> (r: SignRandomProjections)
        requires
            n_projections * dim <= usize::MAX,
        ensures
            r.wf(),
            r.n_projections == n_projections,
            r.dim == dim,
            r.proj@ == proj_seq(seed, n_projections as int * dim as int),
    {
        proof {
            assert(n_projections * dim == n_projections as int * dim as int);
        }
        let count: usize = n_projections * dim;
        SignRandomProjections { n_projections, dim, proj: sample_proj(seed, count) }
    }

    /// The signature used when storing a vector.
    pub fn hash_vec_put(&self, v: &Vec<u32>) -> (r: Vec<i64>)
        requires
            self.wf(),
            v@.len() == self.dim,
        ensures
            r@ == srp_sig(self.proj@, self.n_projections as int, self.dim as int, v@),
    {
        let np = self.n_projections;
        let dim = self.dim;
        let mut out: Vec<i64> = Vec::new();
        let mut k: usize = 0;
        while k < np
            invariant
                k <= np,
                np == self.n_projections,
                dim == self.dim,
                self.wf(),
                v@.len() == dim,
                out@.len() == k as int,
                forall|t: int|
                    0 <= t < k as int ==> #[trigger] out@[t] == (if dot_fx(
                        self.proj@,
                        t * dim as int,
                        v@,
                        dim as int,
                    ) >= 0 {
                        1i64
                    } else {
                        0i64
                    }),
            decreases np - k,
        {
            let plen = self.proj.len();
            proof {
                assert(k * dim + dim <= np * dim) by (nonlinear_arith)
                    requires
                        k as int + 1 <= np as int,
                        dim >= 0,
                ;
                assert(np * dim == plen);
            }
            let base: usize = k * dim;
            let d = dot_fx_exec(&self.proj, base, v);
            if d >= 0 {
                out.push(1i64);
            } else {
                out.push(0i64);
            }
            k = k + 1;
        }
        proof {
            assert(out@ =~= srp_sig(self.proj@, np as int, dim as int, v@));
        }
        out
    }

    /// The signature used when probing for neighbors; this family is
    /// symmetric, so it equals the storage-side signature.
    pub fn hash_vec_query(&self, v: &Vec<u32>) -> (r: Vec<i64>)
        requires
            self.wf(),
            v@.len() == self.dim,
        ensures
            r@ == srp_sig(self.proj@, self.n_projections as int, self.dim as int, v@),
    {
        self.hash_vec_put(v)
    }
}

/// The sum of `m` copies of `e` against row `base..base + m` of `proj`.
fn const_dot_exec(proj: &Vec<i64>, base: usize, e: i64, m: usize) -> (r: i128)
    requires
        base + m <= proj@.len(),
        -FX_MAX <= e <= FX_MAX,
        forall|i: int| 0 <= i < proj@.len() ==> -PROJ_B <= #[trigger] proj@[i] <= PROJ_B,
    ensures
        r == const_dot(proj@, base as int, e as int, m as int),
        -(m as int * TERM_B) <= r <= m as int * TERM_B,
{
    let plen = proj.len();
    let mut acc: i128 = 0;
    let mut j: usize = 0;
    while j < m
        invariant
            j <= m,
            plen == proj@.len(),
            base + m <= plen,
            -FX_MAX <= e <= FX_MAX,
            forall|i: int| 0 <= i < proj@.len() ==> -PROJ_B <= #[trigger] proj@[i] <= PROJ_B,
            acc == const_dot(proj@, base as int, e as int, j as int),
            -(j as int * TERM_B) <= acc <= j as int * TERM_B,
        decreases m - j,
    {
        let p: i64 = proj[base + j];
        proof {
            assert(-TERM_B <= p * e <= TERM_B) by (nonlinear_arith)
                requires
                    -PROJ_B <= p <= PROJ_B,
                    -FX_MAX <= e <= FX_MAX,
                    PROJ_B == 0x10_0000,
                    FX_MAX == 0x100_0000_0000,
                    TERM_B == 0x1000_0000_0000_0000,
            ;
            assert((j as int + 1) * TERM_B == j as int * TERM_B + TERM_B) by (nonlinear_arith);
            assert((j as int + 1) * TERM_B <= 0x1_0000_0000_0000_0000 * TERM_B)
                by (nonlinear_arith)
                requires
                    j as int + 1 <= 0x1_0000_0000_0000_0000,
                    TERM_B == 0x1000_0000_0000_0000,
            ;
        }
        acc = acc + (p as i128) * (e as i128);
        j = j + 1;
    }
    acc
}

/// The clamped fixed-point squared norm of `v`.
fn sq_norm_exec(v: &Vec<u32>) -> (r: i64)
    ensures
        r as int == sq_norm(v@, v@.len() as int),
        0 <= r <= FX_MAX,
{
    let n = v.len();
    let mut acc: i128 = 0;
    let mut j: usize = 0;
    while j < n
        invariant
            j <= n,
            n == v@.len(),
            acc == sq_norm(v@, j as int),
            0 <= acc <= FX_MAX,
        decreases n - j,
    {
        let f: i64 = fx_exec(v[j]);
        proof {
            assert(0 <= f * f <= 0x10000_0000_0000_0000_0000) by (nonlinear_arith)
                requires
                    -FX_MAX <= f <= FX_MAX,
                    FX_MAX == 0x100_0000_0000,
            ;
        }
        let s: i128 = acc + (f as i128) * (f as i128);
        if s > FX_MAX as i128 {
            acc = FX_MAX as i128;
        } else {
            acc = s;
        }
        j = j + 1;
    }
    acc as i64
}

/// A hasher of the bucketed Euclidean family: projection rows, one offset
/// per row, and a fixed-point bucket width.
pub struct L2 {
    pub n_projections: usize,
    pub dim: usize,
    pub proj: Vec<i64>,
    pub b: Vec<i64>,
    pub rfx: i64,
}

impl L2 {
    pub open spec fn wf(self) -> bool {
        &&& self.proj@.len() == self.n_projections * self.dim
        &&& forall|i: int|
            0 <= i < self.proj@.len() ==> -PROJ_B <= #[trigger] self.proj@[i] <= PROJ_B
        &&& self.b@.len() == self.n_projections
        &&& forall|i: int| 0 <= i < self.b@.len() ==> -OFF_B <= #[trigger] self.b@[i] <= OFF_B
        &&& 1 <= self.rfx <= FX_MAX
    }

    pub fn new(dim: usize, r: u32, n_projections: usize, seed: u64) -> (h: L2)
        requires
            n_projections * dim + n_projections <= usize::MAX,
            fx(r) > 0,
        ensures
            h.wf(),
            h.n_projections == n_projections,
            h.dim == dim,
            h.proj@ == proj_seq(seed, n_projections as int * dim as int),
            h.b@ == off_seq(
                seed,
                n_projections as int * dim as int,
                n_projections as int,
            ),
            h.rfx as int == fx(r),
    {
        proof {
            assert(n_projections * dim == n_projections as int * dim as int);
            crate::fixed::lemma_fx_bound(r);
        }
        let count: usize = n_projections * dim;
        let proj = sample_proj(seed, count);
        let b = sample_off(seed, count, n_projections);
        let rfx = fx_exec(r);
        L2 { n_projections, dim, proj, b, rfx }
    }

    /// The signature used when storing a vector.
    pub fn hash_vec_put(&self, v: &Vec<u32>) -> (r: Vec<i64>)
        requires
            self.wf(),
            v@.len() == self.dim,
        ensures
            r@ == l2_sig(
                self.proj@,
                self.b@,
                self.n_projections as int,
                self.dim as int,
                self.rfx as int,
                v@,
            ),
    {
        let np = self.n_projections;
        let dim = self.dim;
        let mut out: Vec<i64> = Vec::new();
        let mut k: usize = 0;
        while k < np
            invariant
                k <= np,
                np == self.n_projections,
                dim == self.dim,
                self.wf(),
                v@.len() == dim,
                out@.len() == k as int,
                forall|t: int|
                    0 <= t < k as int ==> #[trigger] out@[t] == l2_comp(
                        dot_fx(self.proj@, t * dim as int, v@, dim as int) + self.b@[t],
                        self.rfx as int,
                    ) as i64,
            decreases np - k,
        {
            let plen = self.proj.len();
            proof {
                assert(k * dim + dim <= np * dim) by (nonlinear_arith)
                    requires
                        k as int + 1 <= np as int,
                        dim >= 0,
                ;
                assert(np * dim == plen);
                assert((dim as int) * TERM_B <= 0x1_0000_0000_0000_0000 * TERM_B)
                    by (nonlinear_arith)
                    requires
                        dim as int <= 0x1_0000_0000_0000_0000,
                        TERM_B == 0x1000_0000_0000_0000,
                ;
            }
            let base: usize = k * dim;
            let d = dot_fx_exec(&self.proj, base, v);
            let num: i128 = d + (self.b[k] as i128);
            let c = l2_comp_exec(num, self.rfx);
            out.push(c);
            k = k + 1;
        }
        proof {
            assert(out@ =~= l2_sig(
                self.proj@,
                self.b@,
                np as int,
                dim as int,
                self.rfx as int,
                v@,
            ));
        }
        out
    }

    /// The signature used when probing; this family is symmetric.
    pub fn hash_vec_query(&self, v: &Vec<u32>) -> (r: Vec<i64>)
        requires
            self.wf(),
            v@.len() == self.dim,
        ensures
            r@ == l2_sig(
                self.proj@,
                self.b@,
                self.n_projections as int,
                self.dim as int,
                self.rfx as int,
                v@,
            ),
    {
        self.hash_vec_put(v)
    }
}

/// A hasher of the asymmetric inner-product family: a bucketed-projection
/// hasher over the vector extended by `m` extra components, which differ
/// between the storage side and the query side.
pub struct MIPS {
    pub n_projections: usize,
    pub dim: usize,
    pub m: usize,
    pub proj: Vec<i64>,
    pub b: Vec<i64>,
    pub rfx: i64,
    pub ufx: i64,
}

impl MIPS {
    pub open spec fn wf(self) -> bool {
        &&& self.proj@.len() == self.n_projections * (self.dim + self.m)
        &&& forall|i: int|
            0 <= i < self.proj@.len() ==> -PROJ_B <= #[trigger] self.proj@[i] <= PROJ_B
        &&& self.b@.len() == self.n_projections
        &&& forall|i: int| 0 <= i < self.b@.len() ==> -OFF_B <= #[trigger] self.b@[i] <= OFF_B
        &&& 1 <= self.rfx <= FX_MAX
        &&& 1 <= self.ufx < 0x10_0000
        &&& self.dim + self.m <= usize::MAX
    }

    pub fn new(dim: usize, r: u32, u: u32, m: usize, n_projections: usize, seed: u64) -> (h: MIPS)
        requires
            dim + m <= usize::MAX,
            n_projections * (dim + m) + n_projections <= usize::MAX,
            fx(r) > 0,
            0 < fx(u) < 0x10_0000,
        ensures
            h.wf(),
            h.n_projections == n_projections,
            h.dim == dim,
            h.m == m,
            h.proj@ == proj_seq(seed, n_projections as int * (dim as int + m as int)),
            h.b@ == off_seq(
                seed,
                n_projections as int * (dim as int + m as int),
                n_projections as int,
            ),
            h.rfx as int == fx(r),
            h.ufx as int == fx(u),
    {
        proof {
            assert(n_projections * (dim + m) == n_projections as int * (dim as int + m as int));
            crate::fixed::lemma_fx_bound(r);
        }
        let ext: usize = dim + m;
        let count: usize = n_projections * ext;
        let proj = sample_proj(seed, count);
        let b = sample_off(seed, count, n_projections);
        let rfx = fx_exec(r);
        let ufx = fx_exec(u);
        MIPS { n_projections, dim, m, proj, b, rfx, ufx }
    }

    fn hash_with_extra(&self, v: &Vec<u32>, e: i64) -> (r: Vec<i64>)
        requires
            self.wf(),
            v@.len() == self.dim,
            -FX_MAX <= e <= FX_MAX,
        ensures
            r@ == mips_sig(
                self.proj@,
                self.b@,
                self.n_projections as int,
                self.dim as int,
                self.m as int,
                self.rfx as int,
                e as int,
                v@,
            ),
    {
        let np = self.n_projections;
        let dim = self.dim;
        let m = self.m;
        let ext: usize = dim + m;
        let mut out: Vec<i64> = Vec::new();
        let mut k: usize = 0;
        while k < np
            invariant
                k <= np,
                np == self.n_projections,
                dim == self.dim,
                m == self.m,
                ext == dim + m,
                self.wf(),
                v@.len() == dim,
                -FX_MAX <= e <= FX_MAX,
                out@.len() == k as int,
                forall|t: int|
                    0 <= t < k as int ==> #[trigger] out@[t] == l2_comp(
                        dot_fx(self.proj@, t * (dim as int + m as int), v@, dim as int)
                            + const_dot(
                            self.proj@,
                            t * (dim as int + m as int) + dim as int,
                            e as int,
                            m as int,
                        ) + self.b@[t],
                        self.rfx as int,
                    ) as i64,
            decreases np - k,
        {
            let plen = self.proj.len();
            proof {
                assert(k * ext + ext <= np * ext) by (nonlinear_arith)
                    requires
                        k as int + 1 <= np as int,
                        ext >= 0,
                ;
                assert(np * ext == plen);
                assert((dim as int) * TERM_B + (m as int) * TERM_B == (dim as int + m as int)
                    * TERM_B) by (nonlinear_arith);
                assert((dim as int + m as int) * TERM_B <= 0x1_0000_0000_0000_0000 * TERM_B)
                    by (nonlinear_arith)
                    requires
                        dim as int + m as int <= 0x1_0000_0000_0000_0000,
                        TERM_B == 0x1000_0000_0000_0000,
                ;
            }
            let base: usize = k * ext;
            let d1 = dot_fx_exec(&self.proj, base, v);
            let d2 = const_dot_exec(&self.proj, base + dim, e, m);
            let num: i128 = d1 + d2 + (self.b[k] as i128);
            let c = l2_comp_exec(num, self.rfx);
            out.push(c);
            k = k + 1;
        }
        proof {
            assert(out@ =~= mips_sig(
                self.proj@,
                self.b@,
                np as int,
                dim as int,
                m as int,
                self.rfx as int,
                e as int,
                v@,
            ));
        }
        out
    }

    /// The storage-side signature: the vector is extended by its rescaled
    /// clamped norm.
    pub fn hash_vec_put(&self, v: &Vec<u32>) -> (r: Vec<i64>)
        requires
            self.wf(),
            v@.len() == self.dim,
        ensures
            r@ == mips_sig(
                self.proj@,
                self.b@,
                self.n_projections as int,
                self.dim as int,
                self.m as int,
                self.rfx as int,
                mips_extra_put(v@, self.ufx as int),
                v@,
            ),
    {
        let sq = sq_norm_exec(v);
        proof {
            assert(0 <= (self.ufx as int) * (sq as int) <= 0x1000_0000_0000_0000)
                by (nonlinear_arith)
                requires
                    1 <= self.ufx < 0x10_0000,
                    0 <= sq <= 0x100_0000_0000,
            ;
        }
        let e: i64 = (((self.ufx as i128) * (sq as i128)) / 0x10_0000) as i64;
        self.hash_with_extra(v, e)
    }

    /// The query-side signature: the vector is extended by the constant one
    /// half instead, making the family asymmetric by design.
    pub fn hash_vec_query(&self, v: &Vec<u32>) -> (r: Vec<i64>)
        requires
            self.wf(),
            v@.len() == self.dim,
        ensures
            r@ == mips_sig(
                self.proj@,
                self.b@,
                self.n_projections as int,
                self.dim as int,
                self.m as int,
                self.rfx as int,
                HALF_FX as int,
                v@,
            ),
    {
        self.hash_with_extra(v, HALF_FX)
    }
}

/// One hasher of whichever family the index was bound to.
pub enum Hasher {
    Srp(SignRandomProjections),
    L2Fam(L2),
    Mips(MIPS),
}

impl Hasher {
    pub open spec fn wf(self) -> bool {
        match self {
            Hasher::Srp(h) => h.wf(),
            Hasher::L2Fam(h) => h.wf(),
            Hasher::Mips(h) => h.wf(),
        }
    }

    pub open spec fn dim_of(self) -> int {
        match self {
            Hasher::Srp(h) => h.dim as int,
            Hasher::L2Fam(h) => h.dim as int,
            Hasher::Mips(h) => h.dim as int,
        }
    }

    /// The signature this hasher assigns to a stored vector.
    pub open spec fn sig_put(self, v: Seq<u32>) -> Seq<i64> {
        match self {
            Hasher::Srp(h) => srp_sig(h.proj@, h.n_projections as int, h.dim as int, v),
            Hasher::L2Fam(h) => l2_sig(
                h.proj@,
                h.b@,
                h.n_projections as int,
                h.dim as int,
                h.rfx as int,
                v,
            ),
            Hasher::Mips(h) => mips_sig(
                h.proj@,
                h.b@,
                h.n_projections as int,
                h.dim as int,
                h.m as int,
                h.rfx as int,
                mips_extra_put(v, h.ufx as int),
                v,
            ),
        }
    }

    /// The signature this hasher assigns to a query vector.
    pub open spec fn sig_query(self, v: Seq<u32>) -> Seq<i64> {
        match self {
            Hasher::Srp(h) => srp_sig(h.proj@, h.n_projections as int, h.dim as int, v),
            Hasher::L2Fam(h) => l2_sig(
                h.proj@,
                h.b@,
                h.n_projections as int,
                h.dim as int,
                h.rfx as int,
                v,
            ),
            Hasher::Mips(h) => mips_sig(
                h.proj@,
                h.b@,
                h.n_projections as int,
                h.dim as int,
                h.m as int,
                h.rfx as int,
                HALF_FX as int,
                v,
            ),
        }
    }

    /// Whether the storage-side and query-side signatures are the same
    /// function: true of the symmetric families, false of the asymmetric one.
    pub open spec fn symmetric(self) -> bool {
        !(self is Mips)
    }

    pub proof fn lemma_symmetric_sigs(self, v: Seq<u32>)
        requires
            self.symmetric(),
        ensures
            self.sig_put(v) == self.sig_query(v),
    {
    }

    pub fn hash_vec_put(&self, v: &Vec<u32>) -> (r: Vec<i64>)
        requires
            self.wf(),
            v@.len() == self.dim_of(),
        ensures
            r@ == self.sig_put(v@),
    {
        match self {
            Hasher::Srp(h) => h.hash_vec_put(v),
            Hasher::L2Fam(h) => h.hash_vec_put(v),
            Hasher::Mips(h) => h.hash_vec_put(v),
        }
    }

    pub fn hash_vec_query(&self, v: &Vec<u32>) -> (r: Vec<i64>)
        requires
            self.wf(),
            v@.len() == self.dim_of(),
        ensures
            r@ == self.sig_query(v@),
    {
        match self {
            Hasher::Srp(h) => h.hash_vec_query(v),
            Hasher::L2Fam(h) => h.hash_vec_query(v),
            Hasher::Mips(h) => h.hash_vec_query(v),
        }
    }
}

} // verus!
