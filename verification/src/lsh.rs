//! The LSH index: `n_hash_tables` independent (hasher, table) pairs sharing
//! one dimensionality and one global point store.
//!
//! Every store, query and delete fans out across all tables: storing hashes
//! the vector with each table's storage-side hasher and inserts its global
//! index into that table's bucket; querying unions the buckets the
//! query-side signatures select; deleting removes the vector from exactly
//! the buckets a query would inspect.

use vstd::prelude::*;
use crate::err::LshError;
use crate::hash::{Hasher, SignRandomProjections, L2, MIPS};
use crate::hash::{mips_extra_put, off_seq, proj_seq};
use crate::rng::{draw_of, draw_stream};
use crate::table::{bucket_has, delete_updated, put_updated, Entry, MemoryTable};

verus! {

/// The index: fixed structural parameters, one hasher and one bucket table
/// per hash table, and the shared backend holding buckets and points.
pub struct LSH {
    pub n_hash_tables: usize,
    pub n_projections: usize,
    pub hashers: Vec<Hasher>,
    pub dim: usize,
    pub hash_tables: MemoryTable,
    pub _seed: u64,
    pub bound: bool,
}

/// That two index values are indistinguishable: every operation that fails
/// leaves its index in this relation to the old value.
pub open spec fn same_state(a: LSH, b: LSH) -> bool {
    &&& a.n_hash_tables == b.n_hash_tables
    &&& a.n_projections == b.n_projections
    &&& a.dim == b.dim
    &&& a._seed == b._seed
    &&& a.bound == b.bound
    &&& a.hashers@ == b.hashers@
    &&& a.hash_tables.tables@ == b.hash_tables.tables@
    &&& a.hash_tables.points@ == b.hash_tables.points@
}

/// That a mutation kept the structural parameters and the hashers.
pub open spec fn params_kept(pre: LSH, post: LSH) -> bool {
    &&& post.n_hash_tables == pre.n_hash_tables
    &&& post.n_projections == pre.n_projections
    &&& post.dim == pre.dim
    &&& post._seed == pre._seed
    &&& post.bound == pre.bound
    &&& post.hashers@ == pre.hashers@
}

impl LSH {
    pub open spec fn wf(self) -> bool {
        &&& self.hash_tables.wf()
        &&& self.hash_tables.tables@.len() == self.n_hash_tables
        &&& self.hashers@.len() == (if self.bound {
            self.n_hash_tables as int
        } else {
            0
        })
        &&& forall|t: int| 0 <= t < self.hashers@.len() ==> (#[trigger] self.hashers@[t]).wf()
        &&& forall|t: int|
            0 <= t < self.hashers@.len() ==> (#[trigger] self.hashers@[t]).dim_of()
                == self.dim as int
    }

    /// The entries of table `t`.
    pub open spec fn table_at(self, t: int) -> Seq<Entry> {
        self.hash_tables.tables@[t]@
    }

    /// The global point store.
    pub open spec fn points(self) -> Seq<Vec<u32>> {
        self.hash_tables.points@
    }

    /// The storage-side signature table `t` files `v` under.
    pub open spec fn sig_put_at(self, t: int, v: Seq<u32>) -> Seq<i64> {
        self.hashers@[t].sig_put(v)
    }

    /// The query-side signature table `t` probes for `v`.
    pub open spec fn sig_query_at(self, t: int, v: Seq<u32>) -> Seq<i64> {
        self.hashers@[t].sig_query(v)
    }

    /// That index `j` lies in the bucket some table's query-side signature
    /// of `v` selects: the bucket-union membership a query reports.
    pub open spec fn candidate(self, v: Seq<u32>, j: usize) -> bool {
        exists|t: int|
            0 <= t < self.n_hash_tables as int && #[trigger] bucket_has(
                self.table_at(t),
                self.sig_query_at(t, v),
                j,
            )
    }

    /// That no table holds any bucket entry: the state of a fresh index.
    pub open spec fn is_empty(self) -> bool {
        forall|t: int|
            0 <= t < self.n_hash_tables as int ==> (#[trigger] self.table_at(t)).len() == 0
    }

    /// Builds an unconfigured index; it must be bound to exactly one hash
    /// family (`srp`, `l2` or `mips`) before any other operation is valid.
    pub fn new(n_projections: usize, n_hash_tables: usize, dim: usize) -> (r: LSH)
        ensures
            r.wf(),
            !r.bound,
            r.n_projections == n_projections,
            r.n_hash_tables == n_hash_tables,
            r.dim == dim,
            r._seed == 0,
            r.points().len() == 0,
            r.is_empty(),
    {
        LSH {
            n_hash_tables,
            n_projections,
            hashers: Vec::new(),
            dim,
            hash_tables: MemoryTable::new(n_hash_tables),
            _seed: 0,
            bound: false,
        }
    }

    /// Sets the index-level seed; call before selecting a family, since the
    /// per-table sub-seeds are sampled at that time. Zero means true
    /// randomness; any nonzero value makes the index fully reproducible.
    pub fn seed(&mut self, seed: u64)
        requires
            old(self).wf(),
        ensures
            final(self).wf(),
            final(self)._seed == seed,
            final(self).n_hash_tables == old(self).n_hash_tables,
            final(self).n_projections == old(self).n_projections,
            final(self).dim == old(self).dim,
            final(self).bound == old(self).bound,
            final(self).hashers@ == old(self).hashers@,
            final(self).hash_tables.tables@ == old(self).hash_tables.tables@,
            final(self).hash_tables.points@ == old(self).hash_tables.points@,
    {
        self._seed = seed;
    }

    /// Whether the sign-random-projections family can be bound with this
    /// index's parameters.
    pub open spec fn srp_params_ok(self) -> bool {
        &&& self.dim > 0
        &&& self.n_projections * self.dim <= usize::MAX
    }

    /// That table `t`'s hasher is the sign-random-projections hasher the
    /// seed determines: the reproducibility contract of `srp`.
    pub open spec fn srp_hasher_pinned(self, seed: u64, t: int) -> bool {
        &&& self.hashers@[t] is Srp
        &&& self.hashers@[t]->Srp_0.n_projections == self.n_projections
        &&& self.hashers@[t]->Srp_0.dim == self.dim
        &&& self.hashers@[t]->Srp_0.proj@ == proj_seq(
            draw_of(seed, t),
            self.n_projections as int * self.dim as int,
        )
    }

    /// Binds the sign-random-projections family: samples one sub-seed per
    /// table from the index seed, in table order, builds that many hashers,
    /// and allocates fresh empty tables. Rejects a zero dimensionality.
    pub fn srp(&self) -> (r: Result<LSH, LshError>)
        requires
            self.wf(),
        ensures
            self.srp_params_ok() <==> r is Ok,
            r is Err ==> r->Err_0 == LshError::InvalidParameter,
            r is Ok ==> {
                let l = r->Ok_0;
                &&& l.wf()
                &&& l.bound
                &&& l.n_hash_tables == self.n_hash_tables
                &&& l.n_projections == self.n_projections
                &&& l.dim == self.dim
                &&& l._seed == self._seed
                &&& l.points().len() == 0
                &&& l.is_empty()
                &&& self._seed != 0 ==> forall|t: int|
                    0 <= t < l.n_hash_tables as int ==> #[trigger] l.srp_hasher_pinned(
                        self._seed,
                        t,
                    )
            },
    {
        if self.dim == 0 {
            return Err(LshError::InvalidParameter);
        }
        if self.n_projections > usize::MAX / self.dim {
            proof {
                assert(self.n_projections * self.dim > usize::MAX) by (nonlinear_arith)
                    requires
                        self.dim > 0,
                        self.n_projections > usize::MAX as int / self.dim as int,
                ;
            }
            return Err(LshError::InvalidParameter);
        }
        proof {
            assert(self.n_projections * self.dim <= usize::MAX) by (nonlinear_arith)
                requires
                    self.dim > 0,
                    self.n_projections <= usize::MAX as int / self.dim as int,
            ;
        }
        let n = self.n_hash_tables;
        let sub_seeds = draw_stream(self._seed, n);
        let mut hashers: Vec<Hasher> = Vec::new();
        let mut t: usize = 0;
        while t < n
            invariant
                t <= n,
                self.wf(),
                self.srp_params_ok(),
                sub_seeds@.len() == n as int,
                self._seed != 0 ==> forall|k: int|
                    0 <= k < n as int ==> sub_seeds@[k] == #[trigger] draw_of(self._seed, k),
                hashers@.len() == t as int,
                forall|k: int| 0 <= k < t as int ==> (#[trigger] hashers@[k]).wf(),
                forall|k: int|
                    0 <= k < t as int ==> (#[trigger] hashers@[k]).dim_of() == self.dim as int,
                forall|k: int|
                    0 <= k < t as int ==> (#[trigger] hashers@[k]) is Srp
                        && hashers@[k]->Srp_0.n_projections == self.n_projections
                        && hashers@[k]->Srp_0.dim == self.dim && hashers@[k]->Srp_0.proj@
                        == proj_seq(
                        sub_seeds@[k],
                        self.n_projections as int * self.dim as int,
                    ),
            decreases n - t,
        {
            let h = SignRandomProjections::new(self.n_projections, self.dim, sub_seeds[t]);
            hashers.push(Hasher::Srp(h));
            t = t + 1;
        }
        Ok(
            LSH {
                n_hash_tables: self.n_hash_tables,
                n_projections: self.n_projections,
                hashers,
                dim: self.dim,
                hash_tables: MemoryTable::new(self.n_hash_tables),
                _seed: self._seed,
                bound: true,
            },
        )
    }

    /// Whether the Euclidean family can be bound with this index's
    /// parameters and the bucket width whose bit pattern is `r`.
    pub open spec fn l2_params_ok(self, r: u32) -> bool {
        &&& self.dim > 0
        &&& crate::fixed::fx(r) > 0
        &&& self.n_projections * self.dim + self.n_projections <= usize::MAX
    }

    /// That table `t`'s hasher is the Euclidean hasher the seed and the
    /// width determine: the reproducibility contract of `l2`.
    pub open spec fn l2_hasher_pinned(self, seed: u64, r: u32, t: int) -> bool {
        &&& self.hashers@[t] is L2Fam
        &&& self.hashers@[t]->L2Fam_0.n_projections == self.n_projections
        &&& self.hashers@[t]->L2Fam_0.dim == self.dim
        &&& self.hashers@[t]->L2Fam_0.proj@ == proj_seq(
            draw_of(seed, t),
            self.n_projections as int * self.dim as int,
        )
        &&& self.hashers@[t]->L2Fam_0.b@ == off_seq(
            draw_of(seed, t),
            self.n_projections as int * self.dim as int,
            self.n_projections as int,
        )
        &&& self.hashers@[t]->L2Fam_0.rfx as int == crate::fixed::fx(r)
    }

    /// Binds the Euclidean family with bucket width `r` (the bit pattern of
    /// a 32-bit float). Rejects a zero dimensionality and a width that is
    /// not strictly positive in the fixed-point model: widths below the
    /// model's resolution of one part in `2^20` decode to zero and are
    /// rejected as invalid along with zero and negative ones.
    pub fn l2(&self, r: u32) -> (res: Result<LSH, LshError>)
        requires
            self.wf(),
        ensures
            self.l2_params_ok(r) <==> res is Ok,
            res is Err ==> res->Err_0 == LshError::InvalidParameter,
            res is Ok ==> {
                let l = res->Ok_0;
                &&& l.wf()
                &&& l.bound
                &&& l.n_hash_tables == self.n_hash_tables
                &&& l.n_projections == self.n_projections
                &&& l.dim == self.dim
                &&& l._seed == self._seed
                &&& l.points().len() == 0
                &&& l.is_empty()
                &&& forall|t: int|
                    0 <= t < l.n_hash_tables as int ==> (#[trigger] l.hashers@[t]) is L2Fam
                &&& self._seed != 0 ==> forall|t: int|
                    0 <= t < l.n_hash_tables as int ==> #[trigger] l.l2_hasher_pinned(
                        self._seed,
                        r,
                        t,
                    )
            },
    {
        if self.dim == 0 {
            return Err(LshError::InvalidParameter);
        }
        let rfx = crate::fixed::fx_exec(r);
        if rfx <= 0 {
            return Err(LshError::InvalidParameter);
        }
        let size_ok: bool = if self.dim >= usize::MAX {
            self.n_projections == 0
        } else {
            self.n_projections <= usize::MAX / (self.dim + 1)
        };
        proof {
            if self.dim < usize::MAX {
                assert(self.n_projections <= usize::MAX as int / (self.dim as int + 1)
                    <==> self.n_projections * (self.dim as int + 1) <= usize::MAX)
                    by (nonlinear_arith)
                    requires
                        self.dim as int + 1 > 0,
                ;
                assert(self.n_projections * (self.dim as int + 1) == self.n_projections
                    * self.dim as int + self.n_projections as int) by (nonlinear_arith);
            } else if self.n_projections > 0 {
                assert(self.n_projections * self.dim as int + self.n_projections > usize::MAX)
                    by (nonlinear_arith)
                    requires
                        self.dim as int >= usize::MAX as int,
                        self.n_projections >= 1,
                ;
            } else {
                assert(self.n_projections * self.dim as int + self.n_projections == 0)
                    by (nonlinear_arith)
                    requires
                        self.n_projections == 0,
                ;
            }
        }
        if !size_ok {
            return Err(LshError::InvalidParameter);
        }
        let n = self.n_hash_tables;
        let sub_seeds = draw_stream(self._seed, n);
        let mut hashers: Vec<Hasher> = Vec::new();
        let mut t: usize = 0;
        while t < n
            invariant
                t <= n,
                self.wf(),
                self.l2_params_ok(r),
                sub_seeds@.len() == n as int,
                self._seed != 0 ==> forall|k: int|
                    0 <= k < n as int ==> sub_seeds@[k] == #[trigger] draw_of(self._seed, k),
                hashers@.len() == t as int,
                forall|k: int| 0 <= k < t as int ==> (#[trigger] hashers@[k]).wf(),
                forall|k: int|
                    0 <= k < t as int ==> (#[trigger] hashers@[k]).dim_of() == self.dim as int,
                forall|k: int|
                    0 <= k < t as int ==> (#[trigger] hashers@[k]) is L2Fam
                        && hashers@[k]->L2Fam_0.n_projections == self.n_projections
                        && hashers@[k]->L2Fam_0.dim == self.dim && hashers@[k]->L2Fam_0.proj@
                        == proj_seq(
                        sub_seeds@[k],
                        self.n_projections as int * self.dim as int,
                    ) && hashers@[k]->L2Fam_0.b@ == off_seq(
                        sub_seeds@[k],
                        self.n_projections as int * self.dim as int,
                        self.n_projections as int,
                    ) && hashers@[k]->L2Fam_0.rfx as int == crate::fixed::fx(r),
            decreases n - t,
        {
            let h = L2::new(self.dim, r, self.n_projections, sub_seeds[t]);
            hashers.push(Hasher::L2Fam(h));
            t = t + 1;
        }
        Ok(
            LSH {
                n_hash_tables: self.n_hash_tables,
                n_projections: self.n_projections,
                hashers,
                dim: self.dim,
                hash_tables: MemoryTable::new(self.n_hash_tables),
                _seed: self._seed,
                bound: true,
            },
        )
    }

    /// Whether the asymmetric inner-product family can be bound: positive
    /// dimensionality and bucket width, a rescaling bound strictly between
    /// zero and one, and sizes that fit.
    pub open spec fn mips_params_ok(self, r: u32, u: u32, m: usize) -> bool {
        &&& self.dim > 0
        &&& crate::fixed::fx(r) > 0
        &&& 0 < crate::fixed::fx(u) < 0x10_0000
        &&& self.dim + m <= usize::MAX
        &&& self.n_projections * (self.dim + m) + self.n_projections <= usize::MAX
    }

    /// That table `t`'s hasher is the inner-product hasher the seed and
    /// the parameters determine: the reproducibility contract of `mips`.
    pub open spec fn mips_hasher_pinned(self, seed: u64, r: u32, u: u32, m: usize, t: int) -> bool {
        &&& self.hashers@[t] is Mips
        &&& self.hashers@[t]->Mips_0.n_projections == self.n_projections
        &&& self.hashers@[t]->Mips_0.dim == self.dim
        &&& self.hashers@[t]->Mips_0.m == m
        &&& self.hashers@[t]->Mips_0.proj@ == proj_seq(
            draw_of(seed, t),
            self.n_projections as int * (self.dim as int + m as int),
        )
        &&& self.hashers@[t]->Mips_0.b@ == off_seq(
            draw_of(seed, t),
            self.n_projections as int * (self.dim as int + m as int),
            self.n_projections as int,
        )
        &&& self.hashers@[t]->Mips_0.rfx as int == crate::fixed::fx(r)
        &&& self.hashers@[t]->Mips_0.ufx as int == crate::fixed::fx(u)
    }

    /// Binds the asymmetric inner-product family: bucket width `r`, norm
    /// rescaling bound `u` (both 32-bit float bit patterns; `u` must lie
    /// strictly between zero and one) and `m` extra asymmetric components.
    /// Positivity is judged in the fixed-point model: an `r` or `u` below
    /// its resolution of one part in `2^20` decodes to zero and is rejected
    /// as invalid along with zero and negative values.
    pub fn mips(&self, r: u32, u: u32, m: usize) -> (res: Result<LSH, LshError>)
        requires
            self.wf(),
        ensures
            self.mips_params_ok(r, u, m) <==> res is Ok,
            res is Err ==> res->Err_0 == LshError::InvalidParameter,
            res is Ok ==> {
                let l = res->Ok_0;
                &&& l.wf()
                &&& l.bound
                &&& l.n_hash_tables == self.n_hash_tables
                &&& l.n_projections == self.n_projections
                &&& l.dim == self.dim
                &&& l._seed == self._seed
                &&& l.points().len() == 0
                &&& l.is_empty()
                &&& forall|t: int|
                    0 <= t < l.n_hash_tables as int ==> (#[trigger] l.hashers@[t]) is Mips
                &&& self._seed != 0 ==> forall|t: int|
                    0 <= t < l.n_hash_tables as int ==> #[trigger] l.mips_hasher_pinned(
                        self._seed,
                        r,
                        u,
                        m,
                        t,
                    )
            },
    {
        if self.dim == 0 {
            return Err(LshError::InvalidParameter);
        }
        let rfx = crate::fixed::fx_exec(r);
        if rfx <= 0 {
            return Err(LshError::InvalidParameter);
        }
        let ufx = crate::fixed::fx_exec(u);
        if ufx <= 0 || ufx >= 0x10_0000 {
            return Err(LshError::InvalidParameter);
        }
        if m > usize::MAX - self.dim {
            return Err(LshError::InvalidParameter);
        }
        let ext: usize = self.dim + m;
        let size_ok: bool = if ext >= usize::MAX {
            self.n_projections == 0
        } else {
            self.n_projections <= usize::MAX / (ext + 1)
        };
        proof {
            if (ext as int) < usize::MAX {
                assert(self.n_projections <= usize::MAX as int / (ext as int + 1)
                    <==> self.n_projections * (ext as int + 1) <= usize::MAX)
                    by (nonlinear_arith)
                    requires
                        ext as int + 1 > 0,
                ;
                assert(self.n_projections * (ext as int + 1) == self.n_projections * (ext as int)
                    + self.n_projections as int) by (nonlinear_arith);
            } else if self.n_projections > 0 {
                assert(self.n_projections * (ext as int) + self.n_projections > usize::MAX)
                    by (nonlinear_arith)
                    requires
                        ext as int >= usize::MAX as int,
                        self.n_projections >= 1,
                ;
            } else {
                assert(self.n_projections * (ext as int) + self.n_projections == 0)
                    by (nonlinear_arith)
                    requires
                        self.n_projections == 0,
                ;
            }
        }
        if !size_ok {
            return Err(LshError::InvalidParameter);
        }
        let n = self.n_hash_tables;
        let sub_seeds = draw_stream(self._seed, n);
        let mut hashers: Vec<Hasher> = Vec::new();
        let mut t: usize = 0;
        while t < n
            invariant
                t <= n,
                self.wf(),
                self.mips_params_ok(r, u, m),
                ext == self.dim + m,
                sub_seeds@.len() == n as int,
                self._seed != 0 ==> forall|k: int|
                    0 <= k < n as int ==> sub_seeds@[k] == #[trigger] draw_of(self._seed, k),
                hashers@.len() == t as int,
                forall|k: int| 0 <= k < t as int ==> (#[trigger] hashers@[k]).wf(),
                forall|k: int|
                    0 <= k < t as int ==> (#[trigger] hashers@[k]).dim_of() == self.dim as int,
                forall|k: int|
                    0 <= k < t as int ==> (#[trigger] hashers@[k]) is Mips
                        && hashers@[k]->Mips_0.n_projections == self.n_projections
                        && hashers@[k]->Mips_0.dim == self.dim && hashers@[k]->Mips_0.m == m
                        && hashers@[k]->Mips_0.proj@ == proj_seq(
                        sub_seeds@[k],
                        self.n_projections as int * (self.dim as int + m as int),
                    ) && hashers@[k]->Mips_0.b@ == off_seq(
                        sub_seeds@[k],
                        self.n_projections as int * (self.dim as int + m as int),
                        self.n_projections as int,
                    ) && hashers@[k]->Mips_0.rfx as int == crate::fixed::fx(r)
                        && hashers@[k]->Mips_0.ufx as int == crate::fixed::fx(u),
            decreases n - t,
        {
            let h = MIPS::new(self.dim, r, u, m, self.n_projections, sub_seeds[t]);
            hashers.push(Hasher::Mips(h));
            t = t + 1;
        }
        Ok(
            LSH {
                n_hash_tables: self.n_hash_tables,
                n_projections: self.n_projections,
                hashers,
                dim: self.dim,
                hash_tables: MemoryTable::new(self.n_hash_tables),
                _seed: self._seed,
                bound: true,
            },
        )
    }

    /// That storing `v` succeeded: `v` became the last entry of the point
    /// store and exactly its new index joined, in every table, the bucket
    /// of that table's storage-side signature of `v`.
    pub open spec fn store_effect(pre: LSH, post: LSH, v: Seq<u32>) -> bool {
        &&& params_kept(pre, post)
        &&& post.points().len() == pre.points().len() + 1
        &&& post.points()[pre.points().len() as int]@ == v
        &&& forall|k: int| 0 <= k < pre.points().len() ==> post.points()[k] == pre.points()[k]
        &&& forall|t: int|
            0 <= t < pre.n_hash_tables as int ==> put_updated(
                pre.table_at(t),
                (#[trigger] post.table_at(t)),
                pre.sig_put_at(t, v),
                pre.points().len() as usize,
            )
    }

    /// Stores a single vector: appends it to the global point store once
    /// and inserts its index into the matching bucket of every table.
    /// Fails only on an unbound index or a vector of the wrong length.
    pub fn store_vec(&mut self, v: &Vec<u32>) -> (r: Result<(), LshError>)
        requires
            old(self).wf(),
        ensures
            final(self).wf(),
            r is Ok <==> (old(self).bound && v@.len() == old(self).dim as int),
            !old(self).bound ==> r == Err::<(), LshError>(LshError::Unbound) && same_state(
                *final(self),
                *old(self),
            ),
            old(self).bound && v@.len() != old(self).dim as int ==> r == Err::<(), LshError>(
                LshError::DimensionMismatch,
            ) && same_state(*final(self), *old(self)),
            r is Ok ==> LSH::store_effect(*old(self), *final(self), v@),
    {
        if !self.bound {
            return Err(LshError::Unbound);
        }
        if v.len() != self.dim {
            return Err(LshError::DimensionMismatch);
        }
        let cv = v.clone();
        proof {
            assert(cv@ =~= v@);
        }
        let ghost pre: LSH = *self;
        let idx = self.hash_tables.push_point(cv);
        let n = self.n_hash_tables;
        let mut t: usize = 0;
        while t < n
            invariant
                t <= n,
                n == pre.n_hash_tables,
                self.n_hash_tables == pre.n_hash_tables,
                self.n_projections == pre.n_projections,
                self.dim == pre.dim,
                self._seed == pre._seed,
                self.bound == pre.bound,
                self.hashers@ == pre.hashers@,
                pre.wf(),
                pre.bound,
                v@.len() == pre.dim as int,
                idx as int == pre.points().len(),
                self.hash_tables.wf(),
                self.hash_tables.tables@.len() == n as int,
                self.points().len() == pre.points().len() + 1,
                self.points()[pre.points().len() as int]@ == v@,
                forall|k: int|
                    0 <= k < pre.points().len() ==> self.points()[k] == pre.points()[k],
                forall|q: int|
                    0 <= q < t as int ==> put_updated(
                        pre.table_at(q),
                        (#[trigger] self.table_at(q)),
                        pre.sig_put_at(q, v@),
                        idx,
                    ),
                forall|q: int|
                    t as int <= q < n as int ==> #[trigger] self.hash_tables.tables@[q]
                        == pre.hash_tables.tables@[q],
            decreases n - t,
        {
            let ghost prev_lsh: LSH = *self;
            let h = self.hashers[t].hash_vec_put(v);
            proof {
                assert(self.hash_tables.tables@[t as int] == pre.hash_tables.tables@[t as int]);
                assert(h@ == pre.sig_put_at(t as int, v@));
            }
            match self.hash_tables.put(h, idx, t) {
                Ok(()) => {},
                // a put on a well-formed backend cannot fail; a failure
                // would be a backend fault, surfaced as a typed error
                Err(_) => {
                    return Err(LshError::BackendFault);
                },
            }
            proof {
                assert forall|q: int|
                    0 <= q < t as int + 1 implies put_updated(
                    pre.table_at(q),
                    (#[trigger] self.table_at(q)),
                    pre.sig_put_at(q, v@),
                    idx,
                ) by {
                    if q < t as int {
                        assert(self.hash_tables.tables@[q] == prev_lsh.hash_tables.tables@[q]);
                        assert(self.table_at(q) == prev_lsh.table_at(q));
                        assert(put_updated(
                            pre.table_at(q),
                            prev_lsh.table_at(q),
                            pre.sig_put_at(q, v@),
                            idx,
                        ));
                    } else {
                        assert(prev_lsh.table_at(t as int) == pre.table_at(t as int));
                        assert(put_updated(
                            prev_lsh.table_at(t as int),
                            self.table_at(t as int),
                            h@,
                            idx,
                        ));
                    }
                }
            }
            t = t + 1;
        }
        Ok(())
    }

    /// That storing the batch `vs` succeeded: the vectors joined the point
    /// store in input order, and each table's buckets gained exactly the
    /// fresh index of each vector under that table's storage-side signature
    /// of it.
    pub open spec fn batch_added(pre: LSH, post: LSH, vs: Seq<Vec<u32>>) -> bool {
        forall|t: int, s: Seq<i64>, j: usize|
            0 <= t < pre.n_hash_tables as int ==> ((#[trigger] bucket_has(
                post.table_at(t),
                s,
                j,
            )) <==> (bucket_has(pre.table_at(t), s, j) || exists|k: int|
                0 <= k < vs.len() && s == #[trigger] pre.sig_put_at(t, vs[k]@) && j
                    == pre.points().len() + k))
    }

    /// That storing the batch `vs` succeeded: the vectors joined the point
    /// store in input order, one fresh index each, and every table's
    /// buckets gained exactly those indices under the storage-side
    /// signatures — the composition of one `store_vec` per element.
    pub open spec fn batch_stored(pre: LSH, post: LSH, vs: Seq<Vec<u32>>) -> bool {
        &&& params_kept(pre, post)
        &&& post.points().len() == pre.points().len() + vs.len()
        &&& forall|k: int| 0 <= k < pre.points().len() ==> post.points()[k] == pre.points()[k]
        &&& forall|k: int|
            0 <= k < vs.len() ==> (#[trigger] post.points()[pre.points().len() + k])@ == vs[k]@
        &&& LSH::batch_added(pre, post, vs)
    }

    /// Stores multiple vectors after one capacity hint: `store_vec` per
    /// element, in input order, so the assigned point-store indices follow
    /// the input order. The first element of the wrong length stops the
    /// batch with `DimensionMismatch`: the elements before it stay stored,
    /// those from it on are not.
    pub fn store_vecs(&mut self, vs: &Vec<Vec<u32>>) -> (r: Result<(), LshError>)
        requires
            old(self).wf(),
        ensures
            final(self).wf(),
            r is Ok <==> (old(self).bound && forall|k: int|
                0 <= k < vs@.len() ==> (#[trigger] vs@[k])@.len() == old(self).dim as int),
            !old(self).bound ==> r == Err::<(), LshError>(LshError::Unbound) && same_state(
                *final(self),
                *old(self),
            ),
            old(self).bound && !(forall|k: int|
                0 <= k < vs@.len() ==> (#[trigger] vs@[k])@.len() == old(self).dim as int) ==> {
                &&& r == Err::<(), LshError>(LshError::DimensionMismatch)
                &&& exists|b: int|
                    {
                        &&& 0 <= b < vs@.len()
                        &&& (#[trigger] vs@[b])@.len() != old(self).dim as int
                        &&& forall|k: int|
                            0 <= k < b ==> (#[trigger] vs@[k])@.len() == old(self).dim as int
                        &&& LSH::batch_stored(*old(self), *final(self), vs@.take(b))
                    }
            },
            r is Ok ==> LSH::batch_stored(*old(self), *final(self), vs@),
    {
        if !self.bound {
            return Err(LshError::Unbound);
        }
        let m = vs.len();
        self.hash_tables.increase_storage(m);
        let mut k2: usize = 0;
        while k2 < m
            invariant
                k2 <= m,
                m == vs@.len(),
                self.wf(),
                self.bound,
                old(self).bound,
                old(self).wf(),
                params_kept(*old(self), *self),
                forall|q: int|
                    0 <= q < k2 as int ==> (#[trigger] vs@[q])@.len() == old(self).dim as int,
                self.points().len() == old(self).points().len() + k2 as int,
                forall|q: int|
                    0 <= q < old(self).points().len() ==> self.points()[q] == old(
                        self,
                    ).points()[q],
                forall|q: int|
                    0 <= q < k2 as int ==> (#[trigger] self.points()[old(self).points().len()
                        + q])@ == vs@[q]@,
                forall|t: int, s: Seq<i64>, j: usize|
                    0 <= t < self.n_hash_tables as int ==> ((#[trigger] bucket_has(
                        self.table_at(t),
                        s,
                        j,
                    )) <==> (bucket_has(old(self).table_at(t), s, j) || exists|k: int|
                        0 <= k < k2 as int && s == #[trigger] old(self).sig_put_at(t, vs@[k]@)
                            && j == old(self).points().len() + k)),
            decreases m - k2,
        {
            let ghost cur: LSH = *self;
            let res = self.store_vec(&vs[k2]);
            match res {
                Ok(()) => {},
                // the index is bound, so the only failure an element can
                // raise is a length mismatch; it leaves the prefix stored
                Err(e) => {
                    proof {
                        let pre0 = *old(self);
                        let b = k2 as int;
                        let tk = vs@.take(b);
                        assert(same_state(*self, cur));
                        assert(vs@[b]@.len() != pre0.dim as int);
                        assert(e == LshError::DimensionMismatch);
                        assert(self.points() == cur.points());
                        assert forall|k: int| 0 <= k < b implies (#[trigger] self.points()[
                            pre0.points().len() + k])@ == tk[k]@ by {
                            assert(tk[k] == vs@[k]);
                            assert(cur.points()[pre0.points().len() + k]@ == vs@[k]@);
                        }
                        assert forall|t: int, s: Seq<i64>, j: usize|
                            0 <= t < pre0.n_hash_tables as int implies ((#[trigger] bucket_has(
                            self.table_at(t),
                            s,
                            j,
                        )) <==> (bucket_has(pre0.table_at(t), s, j) || exists|k: int|
                            0 <= k < tk.len() && s == #[trigger] pre0.sig_put_at(t, tk[k]@) && j
                                == pre0.points().len() + k)) by {
                            assert(self.hash_tables.tables@[t] == cur.hash_tables.tables@[t]);
                            assert(self.table_at(t) == cur.table_at(t));
                            if bucket_has(cur.table_at(t), s, j) && !bucket_has(
                                pre0.table_at(t),
                                s,
                                j,
                            ) {
                                let k = choose|k: int|
                                    0 <= k < b && s == #[trigger] pre0.sig_put_at(t, vs@[k]@)
                                        && j == pre0.points().len() + k;
                                assert(tk[k] == vs@[k]);
                                assert(0 <= k < tk.len() && s == pre0.sig_put_at(t, tk[k]@) && j
                                    == pre0.points().len() + k);
                            }
                            if exists|k: int|
                                0 <= k < tk.len() && s == #[trigger] pre0.sig_put_at(t, tk[k]@)
                                    && j == pre0.points().len() + k {
                                let k = choose|k: int|
                                    0 <= k < tk.len() && s == #[trigger] pre0.sig_put_at(
                                        t,
                                        tk[k]@,
                                    ) && j == pre0.points().len() + k;
                                assert(tk[k] == vs@[k]);
                                assert(s == pre0.sig_put_at(t, vs@[k]@));
                                assert(bucket_has(cur.table_at(t), s, j));
                            }
                        }
                        assert(LSH::batch_stored(pre0, *self, tk));
                    }
                    return Err(e);
                },
            }
            proof {
                let pre0 = *old(self);
                broadcast use vstd::std_specs::vec::axiom_spec_len;

                assert(cur.points().len() == vstd::std_specs::vec::spec_vec_len(
                    &cur.hash_tables.points,
                ));
                assert(cur.points().len() <= usize::MAX);
                assert forall|t: int, s: Seq<i64>, j: usize|
                    0 <= t < self.n_hash_tables as int implies ((#[trigger] bucket_has(
                    self.table_at(t),
                    s,
                    j,
                )) <==> (bucket_has(pre0.table_at(t), s, j) || exists|k: int|
                    0 <= k < k2 as int + 1 && s == #[trigger] pre0.sig_put_at(t, vs@[k]@) && j
                        == pre0.points().len() + k)) by {
                    let idx2: usize = cur.points().len() as usize;
                    assert(cur.sig_put_at(t, vs@[k2 as int]@) == pre0.sig_put_at(
                        t,
                        vs@[k2 as int]@,
                    ));
                    assert(bucket_has(self.table_at(t), s, j) <==> (bucket_has(
                        cur.table_at(t),
                        s,
                        j,
                    ) || (s == cur.sig_put_at(t, vs@[k2 as int]@) && j == idx2)));
                    if bucket_has(self.table_at(t), s, j) {
                        if bucket_has(cur.table_at(t), s, j) {
                            if !bucket_has(pre0.table_at(t), s, j) {
                                let k = choose|k: int|
                                    0 <= k < k2 as int && s == #[trigger] pre0.sig_put_at(
                                        t,
                                        vs@[k]@,
                                    ) && j == pre0.points().len() + k;
                                assert(0 <= k < k2 as int + 1 && s == pre0.sig_put_at(t, vs@[k]@)
                                    && j == pre0.points().len() + k);
                            }
                        } else {
                            assert(s == pre0.sig_put_at(t, vs@[k2 as int]@) && j
                                == pre0.points().len() + k2 as int);
                        }
                    }
                    if bucket_has(pre0.table_at(t), s, j) {
                        assert(bucket_has(cur.table_at(t), s, j));
                        assert(bucket_has(self.table_at(t), s, j));
                    }
                    if exists|k: int|
                        0 <= k < k2 as int + 1 && s == #[trigger] pre0.sig_put_at(t, vs@[k]@)
                            && j == pre0.points().len() + k {
                        let k = choose|k: int|
                            0 <= k < k2 as int + 1 && s == #[trigger] pre0.sig_put_at(t, vs@[k]@)
                                && j == pre0.points().len() + k;
                        if k < k2 as int {
                            assert(bucket_has(cur.table_at(t), s, j));
                            assert(bucket_has(self.table_at(t), s, j));
                        } else {
                            assert(bucket_has(self.table_at(t), s, j));
                        }
                    }
                }
            }
            k2 = k2 + 1;
        }
        Ok(())
    }

    /// Returns the deduplicated union, over all tables, of the global
    /// indices in the bucket each table's query-side signature selects.
    /// A missing bucket contributes nothing; queries never mutate state.
    pub fn query_bucket_idx(&self, v: &Vec<u32>) -> (r: Result<Vec<usize>, LshError>)
        requires
            self.wf(),
        ensures
            r is Ok <==> (self.bound && v@.len() == self.dim as int),
            !self.bound ==> r == Err::<Vec<usize>, LshError>(LshError::Unbound),
            self.bound && v@.len() != self.dim as int ==> r == Err::<Vec<usize>, LshError>(
                LshError::DimensionMismatch,
            ),
            r is Ok ==> {
                let ids = r->Ok_0;
                &&& ids@.no_duplicates()
                &&& forall|j: usize| ids@.contains(j) <==> self.candidate(v@, j)
                &&& forall|k: int| 0 <= k < ids@.len() ==> (ids@[k] as int) < self.points().len()
            },
    {
        if !self.bound {
            return Err(LshError::Unbound);
        }
        if v.len() != self.dim {
            return Err(LshError::DimensionMismatch);
        }
        let n = self.n_hash_tables;
        let mut acc: Vec<usize> = Vec::new();
        let mut t: usize = 0;
        while t < n
            invariant
                t <= n,
                n == self.n_hash_tables,
                self.wf(),
                self.bound,
                v@.len() == self.dim as int,
                acc@.no_duplicates(),
                forall|k: int| 0 <= k < acc@.len() ==> (acc@[k] as int) < self.points().len(),
                forall|j: usize|
                    acc@.contains(j) <==> exists|q: int|
                        0 <= q < t as int && #[trigger] bucket_has(
                            self.table_at(q),
                            self.sig_query_at(q, v@),
                            j,
                        ),
            decreases n - t,
        {
            let sig = self.hashers[t].hash_vec_query(v);
            match self.hash_tables.query_bucket(&sig, t) {
                Err(_) => {
                    proof {
                        assert forall|j: usize| acc@.contains(j) implies exists|q: int|
                            0 <= q < t as int + 1 && #[trigger] bucket_has(
                                self.table_at(q),
                                self.sig_query_at(q, v@),
                                j,
                            ) by {
                            let q = choose|q: int|
                                0 <= q < t as int && #[trigger] bucket_has(
                                    self.table_at(q),
                                    self.sig_query_at(q, v@),
                                    j,
                                );
                            assert(0 <= q < t as int + 1 && bucket_has(
                                self.table_at(q),
                                self.sig_query_at(q, v@),
                                j,
                            ));
                        }
                        assert forall|j: usize|
                            (exists|q: int|
                                0 <= q < t as int + 1 && #[trigger] bucket_has(
                                    self.table_at(q),
                                    self.sig_query_at(q, v@),
                                    j,
                                )) implies acc@.contains(j) by {
                            let q = choose|q: int|
                                0 <= q < t as int + 1 && #[trigger] bucket_has(
                                    self.table_at(q),
                                    self.sig_query_at(q, v@),
                                    j,
                                );
                            assert(q < t as int);
                        }
                    }
                },
                Ok(b) => {
                    let bn = b.len();
                    let mut x: usize = 0;
                    while x < bn
                        invariant
                            x <= bn,
                            bn == b@.len(),
                            t < n,
                            n == self.n_hash_tables,
                            self.wf(),
                            self.bound,
                            v@.len() == self.dim as int,
                            sig@ == self.sig_query_at(t as int, v@),
                            b@.no_duplicates(),
                            forall|j: usize|
                                b@.contains(j) <==> bucket_has(
                                    self.table_at(t as int),
                                    self.sig_query_at(t as int, v@),
                                    j,
                                ),
                            forall|k: int|
                                0 <= k < b@.len() ==> (b@[k] as int) < self.points().len(),
                            acc@.no_duplicates(),
                            forall|k: int|
                                0 <= k < acc@.len() ==> (acc@[k] as int) < self.points().len(),
                            forall|j: usize|
                                acc@.contains(j) <==> ((exists|q: int|
                                    0 <= q < t as int && #[trigger] bucket_has(
                                        self.table_at(q),
                                        self.sig_query_at(q, v@),
                                        j,
                                    )) || b@.take(x as int).contains(j)),
                        decreases bn - x,
                    {
                        let y = b[x];
                        let ghost prev_acc: Seq<usize> = acc@;
                        add_idx(&mut acc, y);
                        proof {
                            assert forall|k2: int|
                                0 <= k2 < acc@.len() implies (acc@[k2] as int)
                                < self.points().len() by {
                                let y2 = acc@[k2];
                                assert(acc@.contains(y2));
                                if prev_acc.contains(y2) {
                                    let k3 = choose|k3: int|
                                        0 <= k3 < prev_acc.len() && prev_acc[k3] == y2;
                                } else {
                                    assert(y2 == y);
                                }
                            }
                            assert(b@.take(x as int + 1)[x as int] == b@[x as int]);
                            assert forall|j: usize| #[trigger]
                                b@.take(x as int + 1).contains(j) implies b@.take(
                                x as int,
                            ).contains(j) || j == b@[x as int] by {
                                let k = choose|k: int|
                                    0 <= k < x as int + 1 && #[trigger] b@.take(x as int + 1)[k]
                                        == j;
                                if k < x as int {
                                    assert(b@.take(x as int)[k] == j);
                                }
                            }
                            assert forall|j: usize| #[trigger]
                                b@.take(x as int).contains(j) implies b@.take(
                                x as int + 1,
                            ).contains(j) by {
                                let k = choose|k: int|
                                    0 <= k < x as int && #[trigger] b@.take(x as int)[k] == j;
                                assert(b@.take(x as int + 1)[k] == j);
                            }
                            assert(b@.contains(b@[x as int]));
                        }
                        x = x + 1;
                    }
                    proof {
                        assert(b@.take(bn as int) =~= b@);
                        assert forall|j: usize| acc@.contains(j) implies exists|q: int|
                            0 <= q < t as int + 1 && #[trigger] bucket_has(
                                self.table_at(q),
                                self.sig_query_at(q, v@),
                                j,
                            ) by {
                            if b@.contains(j) {
                                assert(bucket_has(
                                    self.table_at(t as int),
                                    self.sig_query_at(t as int, v@),
                                    j,
                                ));
                                assert(0 <= t as int && (t as int) < t as int + 1);
                            } else {
                                let q = choose|q: int|
                                    0 <= q < t as int && #[trigger] bucket_has(
                                        self.table_at(q),
                                        self.sig_query_at(q, v@),
                                        j,
                                    );
                                assert(0 <= q < t as int + 1 && bucket_has(
                                    self.table_at(q),
                                    self.sig_query_at(q, v@),
                                    j,
                                ));
                            }
                        }
                        assert forall|j: usize|
                            (exists|q: int|
                                0 <= q < t as int + 1 && #[trigger] bucket_has(
                                    self.table_at(q),
                                    self.sig_query_at(q, v@),
                                    j,
                                )) implies acc@.contains(j) by {
                            let q = choose|q: int|
                                0 <= q < t as int + 1 && #[trigger] bucket_has(
                                    self.table_at(q),
                                    self.sig_query_at(q, v@),
                                    j,
                                );
                            if q == t as int {
                                assert(b@.contains(j));
                            }
                        }
                    }
                },
            }
            t = t + 1;
        }
        Ok(acc)
    }

    /// That `p` is the stored point of some bucket-union candidate of `v`.
    pub open spec fn is_candidate_point(self, v: Seq<u32>, p: Vec<u32>) -> bool {
        exists|j: usize| #[trigger] self.candidate(v, j) && p@ == self.points()[j as int]@
    }

    /// That candidate `j`'s stored point appears in `out`.
    pub open spec fn holds_point_of(self, out: Seq<Vec<u32>>, j: usize) -> bool {
        exists|k: int| 0 <= k < out.len() && (#[trigger] out[k])@ == self.points()[j as int]@
    }

    /// That `ids` lists every bucket-union candidate of `v` exactly once
    /// and `out` resolves it entry by entry: each distinct candidate index
    /// contributes exactly one returned vector.
    pub open spec fn query_result_resolves(
        self,
        v: Seq<u32>,
        out: Seq<Vec<u32>>,
        ids: Seq<usize>,
    ) -> bool {
        &&& ids.no_duplicates()
        &&& ids.len() == out.len()
        &&& forall|k: int|
            0 <= k < out.len() ==> (#[trigger] out[k])@ == self.points()[ids[k] as int]@
        &&& forall|j: usize| #[trigger] ids.contains(j) <==> self.candidate(v, j)
    }

    /// That `out` is the resolution of exactly the bucket-union candidates
    /// of `v`: every returned vector is some candidate's stored point, every
    /// candidate's stored point appears, and some duplicate-free candidate
    /// listing resolves to `out` index by index — so each distinct candidate
    /// contributes exactly one entry, and the result length is the number of
    /// candidates.
    pub open spec fn query_result_matches(self, v: Seq<u32>, out: Seq<Vec<u32>>) -> bool {
        &&& forall|k: int|
            0 <= k < out.len() ==> self.is_candidate_point(v, #[trigger] out[k])
        &&& forall|j: usize| #[trigger] self.candidate(v, j) ==> self.holds_point_of(out, j)
        &&& exists|ids: Seq<usize>| self.query_result_resolves(v, out, ids)
    }

    /// Returns the stored vectors the bucket union selects, resolved from
    /// the global point store; order is unspecified.
    pub fn query_bucket(&self, v: &Vec<u32>) -> (r: Result<Vec<Vec<u32>>, LshError>)
        requires
            self.wf(),
        ensures
            r is Ok <==> (self.bound && v@.len() == self.dim as int),
            !self.bound ==> r == Err::<Vec<Vec<u32>>, LshError>(LshError::Unbound),
            self.bound && v@.len() != self.dim as int ==> r == Err::<Vec<Vec<u32>>, LshError>(
                LshError::DimensionMismatch,
            ),
            r is Ok ==> self.query_result_matches(v@, r->Ok_0@),
    {
        let ids = match self.query_bucket_idx(v) {
            Ok(ids) => ids,
            Err(e) => {
                return Err(e);
            },
        };
        let mut out: Vec<Vec<u32>> = Vec::new();
        let idn = ids.len();
        let mut k: usize = 0;
        while k < idn
            invariant
                k <= idn,
                idn == ids@.len(),
                self.wf(),
                forall|q: int| 0 <= q < ids@.len() ==> (ids@[q] as int) < self.points().len(),
                forall|j: usize| ids@.contains(j) <==> self.candidate(v@, j),
                out@.len() == k as int,
                forall|q: int|
                    0 <= q < k as int ==> (#[trigger] out@[q])@ == self.points()[ids@[q] as int]@,
            decreases idn - k,
        {
            out.push(self.hash_tables.idx_to_datapoint(ids[k]));
            k = k + 1;
        }
        proof {
            assert forall|k2: int|
                0 <= k2 < out@.len() implies self.is_candidate_point(v@, #[trigger] out@[k2]) by {
                let j = ids@[k2];
                assert(ids@.contains(j));
                assert(self.candidate(v@, j) && out@[k2]@ == self.points()[j as int]@);
            }
            assert forall|j: usize| #[trigger]
                self.candidate(v@, j) implies self.holds_point_of(out@, j) by {
                assert(ids@.contains(j));
                let k2 = choose|k2: int| 0 <= k2 < ids@.len() && ids@[k2] == j;
                assert(out@[k2]@ == self.points()[j as int]@);
            }
            assert(self.query_result_resolves(v@, out@, ids@));
            assert(self.query_result_matches(v@, out@));
        }
        Ok(out)
    }

    /// That deleting `v` succeeded: the point store is untouched and, in
    /// every table, the bucket of that table's query-side signature of `v`
    /// lost exactly the indices whose stored point equals `v`.
    pub open spec fn delete_effect(pre: LSH, post: LSH, v: Seq<u32>) -> bool {
        &&& params_kept(pre, post)
        &&& post.points() == pre.points()
        &&& forall|t: int|
            0 <= t < pre.n_hash_tables as int ==> delete_updated(
                pre.table_at(t),
                (#[trigger] post.table_at(t)),
                pre.sig_query_at(t, v),
                pre.points(),
                v,
            )
    }

    /// Deletes a vector's bucket membership: each table's bucket under the
    /// query-side signature — the bucket a query would find — drops every
    /// index whose stored point equals `v`. The global point store does not
    /// shrink.
    pub fn delete_vec(&mut self, v: &Vec<u32>) -> (r: Result<(), LshError>)
        requires
            old(self).wf(),
        ensures
            final(self).wf(),
            r is Ok <==> (old(self).bound && v@.len() == old(self).dim as int),
            !old(self).bound ==> r == Err::<(), LshError>(LshError::Unbound) && same_state(
                *final(self),
                *old(self),
            ),
            old(self).bound && v@.len() != old(self).dim as int ==> r == Err::<(), LshError>(
                LshError::DimensionMismatch,
            ) && same_state(*final(self), *old(self)),
            r is Ok ==> LSH::delete_effect(*old(self), *final(self), v@),
    {
        if !self.bound {
            return Err(LshError::Unbound);
        }
        if v.len() != self.dim {
            return Err(LshError::DimensionMismatch);
        }
        let ghost pre: LSH = *self;
        let n = self.n_hash_tables;
        let mut t: usize = 0;
        while t < n
            invariant
                t <= n,
                n == pre.n_hash_tables,
                self.n_hash_tables == pre.n_hash_tables,
                self.n_projections == pre.n_projections,
                self.dim == pre.dim,
                self._seed == pre._seed,
                self.bound == pre.bound,
                self.hashers@ == pre.hashers@,
                pre.wf(),
                pre.bound,
                v@.len() == pre.dim as int,
                self.hash_tables.wf(),
                self.hash_tables.tables@.len() == n as int,
                self.points() == pre.points(),
                forall|q: int|
                    0 <= q < t as int ==> delete_updated(
                        pre.table_at(q),
                        (#[trigger] self.table_at(q)),
                        pre.sig_query_at(q, v@),
                        pre.points(),
                        v@,
                    ),
                forall|q: int|
                    t as int <= q < n as int ==> #[trigger] self.hash_tables.tables@[q]
                        == pre.hash_tables.tables@[q],
            decreases n - t,
        {
            let ghost prev_lsh: LSH = *self;
            let sig = self.hashers[t].hash_vec_query(v);
            proof {
                assert(self.hash_tables.tables@[t as int] == pre.hash_tables.tables@[t as int]);
                assert(sig@ == pre.sig_query_at(t as int, v@));
            }
            let res = self.hash_tables.delete(sig, v, t);
            match res {
                Ok(()) => {},
                // a delete is a no-op on absent entries and cannot fail;
                // a failure would be a backend fault
                Err(_) => {
                    return Err(LshError::BackendFault);
                },
            }
            proof {
                assert forall|q: int|
                    0 <= q < t as int + 1 implies delete_updated(
                    pre.table_at(q),
                    (#[trigger] self.table_at(q)),
                    pre.sig_query_at(q, v@),
                    pre.points(),
                    v@,
                ) by {
                    if q < t as int {
                        assert(self.hash_tables.tables@[q] == prev_lsh.hash_tables.tables@[q]);
                        assert(self.table_at(q) == prev_lsh.table_at(q));
                        assert(delete_updated(
                            pre.table_at(q),
                            prev_lsh.table_at(q),
                            pre.sig_query_at(q, v@),
                            pre.points(),
                            v@,
                        ));
                    } else {
                        assert(prev_lsh.table_at(t as int) == pre.table_at(t as int));
                        assert(delete_updated(
                            prev_lsh.table_at(t as int),
                            self.table_at(t as int),
                            sig@,
                            prev_lsh.points(),
                            v@,
                        ));
                    }
                }
            }
            t = t + 1;
        }
        Ok(())
    }

    /// A human-readable summary of the backend's occupancy.
    pub fn describe(&self) -> String {
        self.hash_tables.describe()
    }
}

/// Adds `x` to `acc` unless already present, keeping it duplicate-free.
fn add_idx(acc: &mut Vec<usize>, x: usize)
    requires
        old(acc)@.no_duplicates(),
    ensures
        final(acc)@.no_duplicates(),
        forall|y: usize| final(acc)@.contains(y) <==> (old(acc)@.contains(y) || y == x),
{
    let present = crate::table::contains_idx(acc, x);
    if !present {
        let ghost prev: Seq<usize> = acc@;
        acc.push(x);
        proof {
            assert forall|y: usize| #[trigger] acc@.contains(y) implies (prev.contains(y) || y
                == x) by {
                let k = choose|k: int| 0 <= k < acc@.len() && acc@[k] == y;
                if k < prev.len() {
                    assert(prev[k] == y);
                }
            }
            assert forall|y: usize| #[trigger] prev.contains(y) implies acc@.contains(y) by {
                let k = choose|k: int| 0 <= k < prev.len() && prev[k] == y;
                assert(acc@[k] == y);
            }
            assert(acc@[acc@.len() - 1] == x);
            assert(acc@.contains(x));
            assert forall|a: int, b: int| 0 <= a < b < acc@.len() implies acc@[a] != acc@[b] by {
                if b == acc@.len() - 1 {
                    if acc@[a] == x {
                        assert(prev[a] == x);
                        assert(prev.contains(x));
                    }
                } else {
                    assert(prev[a] == acc@[a] && prev[b] == acc@[b]);
                }
            }
            assert(acc@.no_duplicates());
        }
    }
}

} // verus!
