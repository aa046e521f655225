//! The in-memory storage backend: per-table buckets keyed by signature,
//! plus the one shared growable point store.
//!
//! A bucket holds global point indices, deduplicated; vectors themselves
//! live only in the point store, so a stored point is never duplicated per
//! bucket collision. Each logical table is an association list from
//! signature to bucket with unique keys.

use vstd::prelude::*;
use crate::err::LshError;

verus! {

/// One bucket: the signature that keys it and the point indices it holds.
pub struct Entry {
    pub sig: Vec<i64>,
    pub idxs: Vec<usize>,
}

/// The in-memory backend: `tables` holds one association list per logical
/// table, `points` is the global point store.
pub struct MemoryTable {
    pub tables: Vec<Vec<Entry>>,
    pub points: Vec<Vec<u32>>,
}

/// Whether the bucket keyed by `sig` in `entries` holds `idx`.
pub open spec fn bucket_has(entries: Seq<Entry>, sig: Seq<i64>, idx: usize) -> bool {
    exists|e: int|
        0 <= e < entries.len() && (#[trigger] entries[e]).sig@ == sig && entries[e].idxs@.contains(
            idx,
        )
}

/// That `new_t` holds exactly the memberships of `old_t` plus `idx` in the
/// bucket keyed by `sig`: the effect of one `put`.
pub open spec fn put_updated(old_t: Seq<Entry>, new_t: Seq<Entry>, sig: Seq<i64>, idx: usize) -> bool {
    forall|s: Seq<i64>, j: usize|
        #[trigger] bucket_has(new_t, s, j) <==> (bucket_has(old_t, s, j) || (s == sig && j
            == idx))
}

/// That `new_t` holds exactly the memberships of `old_t` except, in the
/// bucket keyed by `sig`, the indices whose stored point equals `v`: the
/// effect of one `delete`.
pub open spec fn delete_updated(
    old_t: Seq<Entry>,
    new_t: Seq<Entry>,
    sig: Seq<i64>,
    points: Seq<Vec<u32>>,
    v: Seq<u32>,
) -> bool {
    forall|s: Seq<i64>, j: usize|
        #[trigger] bucket_has(new_t, s, j) <==> (bucket_has(old_t, s, j) && !(s == sig && (
        j as int) < points.len() && points[j as int]@ == v))
}

/// Well-formedness of one table: unique signatures, deduplicated buckets,
/// and every held index resolvable in a point store of `n_points` entries.
pub open spec fn entries_wf(entries: Seq<Entry>, n_points: int) -> bool {
    &&& forall|e1: int, e2: int|
        0 <= e1 < e2 < entries.len() ==> (#[trigger] entries[e1]).sig@ != (
        #[trigger] entries[e2]).sig@
    &&& forall|e: int| 0 <= e < entries.len() ==> (#[trigger] entries[e]).idxs@.no_duplicates()
    &&& forall|e: int, k: int|
        0 <= e < entries.len() && 0 <= k < entries[e].idxs@.len() ==> #[trigger] entries[e].idxs@[k]
            < n_points
}

impl MemoryTable {
    pub open spec fn wf(self) -> bool {
        forall|t: int|
            0 <= t < self.tables@.len() ==> entries_wf(
                (#[trigger] self.tables@[t])@,
                self.points@.len() as int,
            )
    }

    /// Builds a backend with `n` empty tables and an empty point store.
    pub fn new(n: usize) -> (r: MemoryTable)
        ensures
            r.wf(),
            r.tables@.len() == n as int,
            forall|t: int| 0 <= t < n as int ==> (#[trigger] r.tables@[t])@.len() == 0,
            r.points@.len() == 0,
    {
        let mut tables: Vec<Vec<Entry>> = Vec::new();
        let mut i: usize = 0;
        while i < n
            invariant
                i <= n,
                tables@.len() == i as int,
                forall|t: int| 0 <= t < i as int ==> (#[trigger] tables@[t])@.len() == 0,
            decreases n - i,
        {
            tables.push(Vec::new());
            i = i + 1;
        }
        MemoryTable { tables, points: Vec::new() }
    }

    /// Appends a vector to the global point store and returns its index.
    /// Every call appends: value-equal points stored twice get two indices.
    pub fn push_point(&mut self, v: Vec<u32>) -> (idx: usize)
        requires
            old(self).wf(),
        ensures
            final(self).wf(),
            idx as int == old(self).points@.len(),
            final(self).points@ == old(self).points@.push(v),
            final(self).tables == old(self).tables,
    {
        let idx = self.points.len();
        self.points.push(v);
        idx
    }

    /// A capacity hint before a batch insert; the stored contents do not
    /// change.
    pub fn increase_storage(&mut self, additional: usize)
        requires
            old(self).wf(),
        ensures
            final(self).wf(),
            final(self).points@ == old(self).points@,
            final(self).tables == old(self).tables,
    {
        if additional < usize::MAX - self.points.len() {
            self.points.reserve(additional);
        }
    }

    /// Resolves a global index back to its vector.
    pub fn idx_to_datapoint(&self, idx: usize) -> (r: Vec<u32>)
        requires
            self.wf(),
            (idx as int) < self.points@.len(),
        ensures
            r@ == self.points@[idx as int]@,
    {
        let r = self.points[idx].clone();
        proof {
            assert(r@ =~= self.points@[idx as int]@);
        }
        r
    }

    /// Inserts `idx` into the bucket for `hash` in table `i`. Idempotent:
    /// re-inserting an index already in the bucket changes nothing, and the
    /// call always succeeds on a well-formed backend.
    pub fn put(&mut self, hash: Vec<i64>, idx: usize, i: usize) -> (r: Result<(), LshError>)
        requires
            old(self).wf(),
            (i as int) < old(self).tables@.len(),
            (idx as int) < old(self).points@.len(),
        ensures
            final(self).wf(),
            r is Ok,
            final(self).points == old(self).points,
            final(self).tables@.len() == old(self).tables@.len(),
            forall|t: int|
                0 <= t < final(self).tables@.len() && t != i as int ==> final(self).tables@[t]
                    == old(self).tables@[t],
            put_updated(
                old(self).tables@[i as int]@,
                final(self).tables@[i as int]@,
                hash@,
                idx,
            ),
    {
        let ghost old_table: Seq<Entry> = self.tables@[i as int]@;
        let mut table = self.tables.remove(i);
        match find_entry(&table, &hash) {
            Some(e) => {
                let mut entry = table.remove(e);
                let present = contains_idx(&entry.idxs, idx);
                if !present {
                    entry.idxs.push(idx);
                }
                proof {
                    if !present {
                        assert forall|y: usize| #[trigger]
                            entry.idxs@.contains(y) implies old_table[e as int].idxs@.contains(y)
                            || y == idx by {
                            let k = choose|k: int|
                                0 <= k < entry.idxs@.len() && entry.idxs@[k] == y;
                            if k < old_table[e as int].idxs@.len() {
                                assert(old_table[e as int].idxs@[k] == y);
                            }
                        }
                        assert(entry.idxs@[entry.idxs@.len() - 1] == idx);
                    }
                    assert(entry.idxs@.contains(idx));
                }
                let ghost gentry: Entry = entry;
                table.insert(e, entry);
                proof {
                    assert(table@ =~= old_table.update(e as int, table@[e as int]));
                    assert(table@[e as int] == gentry);
                    assert(table@[e as int].sig@ == hash@);
                    assert(table@[e as int].idxs@.contains(idx));
                    assert(bucket_has(table@, hash@, idx));
                }
            },
            None => {
                let mut one: Vec<usize> = Vec::new();
                one.push(idx);
                table.push(Entry { sig: hash, idxs: one });
            },
        }
        self.tables.insert(i, table);
        proof {
            assert(self.tables@ =~= old(self).tables@.update(i as int, table));
            let new_table: Seq<Entry> = self.tables@[i as int]@;
            assert(new_table == table@);
            assert forall|s: Seq<i64>, j: usize| #[trigger]
                bucket_has(new_table, s, j) implies (bucket_has(
                old_table,
                s,
                j,
            ) || (s == hash@ && j == idx)) by {
                let e2 = choose|e2: int|
                    0 <= e2 < table@.len() && (#[trigger] table@[e2]).sig@ == s
                        && table@[e2].idxs@.contains(j);
                if old_table.len() == table@.len() {
                    // an existing bucket was extended
                    if table@[e2].idxs@ != old_table[e2].idxs@ {
                    } else {
                        assert(bucket_has(old_table, s, j));
                    }
                } else {
                    // a fresh bucket was appended
                    if e2 < old_table.len() {
                        assert(bucket_has(old_table, s, j));
                    } else {
                        assert(table@[e2].idxs@[0] == idx);
                    }
                }
            }
            assert forall|s: Seq<i64>, j: usize|
                (bucket_has(old_table, s, j) || (s == hash@ && j == idx)) implies #[trigger]
                bucket_has(new_table, s, j) by {
                if bucket_has(old_table, s, j) {
                    let e2 = choose|e2: int|
                        0 <= e2 < old_table.len() && (#[trigger] old_table[e2]).sig@ == s
                            && old_table[e2].idxs@.contains(j);
                    if old_table.len() == table@.len() {
                        if table@[e2].idxs@ == old_table[e2].idxs@ {
                            assert(table@[e2].sig@ == s && table@[e2].idxs@.contains(j));
                        } else {
                            let k = choose|k: int|
                                0 <= k < old_table[e2].idxs@.len() && old_table[e2].idxs@[k] == j;
                            assert(table@[e2].idxs@[k] == j);
                            assert(table@[e2].idxs@.contains(j));
                        }
                    } else {
                        assert(table@[e2].sig@ == s && table@[e2].idxs@.contains(j));
                    }
                } else {
                    if old_table.len() == table@.len() {
                        assert(bucket_has(table@, hash@, idx));
                    } else {
                        let last = table@.len() - 1;
                        assert(table@[last].sig@ == hash@);
                        assert(table@[last].idxs@[0] == idx);
                        assert(table@[last].idxs@.contains(idx));
                    }
                }
            }
        }
        Ok(())
    }

    /// Returns the bucket for `hash` in table `i`, or `BucketNotFound` if no
    /// bucket exists for that signature — an expected, non-fatal outcome.
    pub fn query_bucket(&self, hash: &Vec<i64>, i: usize) -> (r: Result<Vec<usize>, LshError>)
        requires
            self.wf(),
            (i as int) < self.tables@.len(),
        ensures
            match r {
                Ok(b) => {
                    &&& b@.no_duplicates()
                    &&& forall|j: usize|
                        b@.contains(j) <==> bucket_has(self.tables@[i as int]@, hash@, j)
                    &&& forall|k: int| 0 <= k < b@.len() ==> b@[k] < self.points@.len()
                },
                Err(er) => {
                    &&& er == LshError::BucketNotFound
                    &&& forall|j: usize| !bucket_has(self.tables@[i as int]@, hash@, j)
                },
            },
    {
        let table = &self.tables[i];
        match find_entry(table, hash) {
            Some(e) => {
                let b = clone_idxs(&table[e].idxs);
                proof {
                    let entries = self.tables@[i as int]@;
                    assert forall|j: usize| #[trigger]
                        bucket_has(entries, hash@, j) implies b@.contains(j) by {
                        let e2 = choose|e2: int|
                            0 <= e2 < entries.len() && (#[trigger] entries[e2]).sig@ == hash@
                                && entries[e2].idxs@.contains(j);
                        assert(e2 == e as int);
                    }
                }
                Ok(b)
            },
            None => Err(LshError::BucketNotFound),
        }
    }

    /// Removes from the bucket for `hash` in table `i` every index whose
    /// stored point is value-equal to `v`. Succeeds as a no-op when neither
    /// the bucket nor the point is present, because the caller cannot know
    /// membership in advance.
    pub fn delete(&mut self, hash: Vec<i64>, v: &Vec<u32>, i: usize) -> (r: Result<
        (),
        LshError,
    >)
        requires
            old(self).wf(),
            (i as int) < old(self).tables@.len(),
        ensures
            final(self).wf(),
            r is Ok,
            final(self).points == old(self).points,
            final(self).tables@.len() == old(self).tables@.len(),
            forall|t: int|
                0 <= t < final(self).tables@.len() && t != i as int ==> final(self).tables@[t]
                    == old(self).tables@[t],
            delete_updated(
                old(self).tables@[i as int]@,
                final(self).tables@[i as int]@,
                hash@,
                old(self).points@,
                v@,
            ),
    {
        let ghost old_table: Seq<Entry> = self.tables@[i as int]@;
        let found = find_entry(&self.tables[i], &hash);
        match found {
            None => {
                proof {
                    let entries = self.tables@[i as int]@;
                    assert(entries == old_table);
                    assert forall|s: Seq<i64>, j: usize| #[trigger]
                        bucket_has(entries, s, j) implies (bucket_has(old_table, s, j) && !(s
                        == hash@ && (j as int) < old(self).points@.len() && old(
                        self,
                    ).points@[j as int]@ == v@)) by {
                        if s == hash@ {
                            assert(!bucket_has(old_table, s, j));
                        }
                    }
                }
                Ok(())
            },
            Some(e) => {
                let kept = filter_kept(&self.tables[i][e].idxs, &self.points, v);
                let mut table = self.tables.remove(i);
                let mut entry = table.remove(e);
                entry.idxs = kept;
                table.insert(e, entry);
                self.tables.insert(i, table);
                proof {
                    assert(table@ =~= old_table.update(e as int, table@[e as int]));
                    assert(self.tables@ =~= old(self).tables@.update(i as int, table));
                    let entries = self.tables@[i as int]@;
                    let npts = old(self).points@.len() as int;
                    assert forall|s: Seq<i64>, j: usize|
                        #[trigger] bucket_has(entries, s, j) implies (bucket_has(old_table, s, j)
                        && !(s == hash@ && (j as int) < npts && old(self).points@[j as int]@
                        == v@)) by {
                        let e2 = choose|e2: int|
                            0 <= e2 < entries.len() && (#[trigger] entries[e2]).sig@ == s
                                && entries[e2].idxs@.contains(j);
                        if e2 == e as int {
                            assert(old_table[e2].idxs@.contains(j));
                        }
                    }
                    assert forall|s: Seq<i64>, j: usize|
                        (bucket_has(old_table, s, j) && !(s == hash@ && (j as int) < npts && old(
                            self,
                        ).points@[j as int]@ == v@)) implies #[trigger] bucket_has(
                        entries,
                        s,
                        j,
                    ) by {
                        let e2 = choose|e2: int|
                            0 <= e2 < old_table.len() && (#[trigger] old_table[e2]).sig@ == s
                                && old_table[e2].idxs@.contains(j);
                        if e2 == e as int {
                            assert((j as int) < npts);
                            assert(entries[e2].idxs@.contains(j));
                        } else {
                            assert(entries[e2].sig@ == s && entries[e2].idxs@.contains(j));
                        }
                    }
                }
                Ok(())
            },
        }
    }

    /// A human-readable summary of table occupancy; diagnostic only.
    pub fn describe(&self) -> String {
        format_summary(self.tables.len(), self.points.len())
    }
}

/// Relies on alloc's `format!` to render the two occupancy counts; nothing
/// is claimed of the text.
#[verifier::external_body]
fn format_summary(n_tables: usize, n_points: usize) -> String {
    format!("memory table: {} hash tables, {} stored points", n_tables, n_points)
}

/// Whether two signatures are equal, component by component.
pub fn sig_eq(a: &Vec<i64>, b: &Vec<i64>) -> (r: bool)
    ensures
        r <==> a@ == b@,
{
    if a.len() != b.len() {
        return false;
    }
    let n = a.len();
    let mut i: usize = 0;
    while i < n
        invariant
            i <= n,
            n == a@.len(),
            n == b@.len(),
            forall|k: int| 0 <= k < i as int ==> a@[k] == b@[k],
        decreases n - i,
    {
        if a[i] != b[i] {
            return false;
        }
        i = i + 1;
    }
    proof {
        assert(a@ =~= b@);
    }
    true
}

/// Whether two data points are equal, component by component.
pub fn point_eq(a: &Vec<u32>, b: &Vec<u32>) -> (r: bool)
    ensures
        r <==> a@ == b@,
{
    if a.len() != b.len() {
        return false;
    }
    let n = a.len();
    let mut i: usize = 0;
    while i < n
        invariant
            i <= n,
            n == a@.len(),
            n == b@.len(),
            forall|k: int| 0 <= k < i as int ==> a@[k] == b@[k],
        decreases n - i,
    {
        if a[i] != b[i] {
            return false;
        }
        i = i + 1;
    }
    proof {
        assert(a@ =~= b@);
    }
    true
}

/// Finds the entry keyed by `sig`, if any.
fn find_entry(entries: &Vec<Entry>, sig: &Vec<i64>) -> (r: Option<usize>)
    ensures
        match r {
            Some(e) => (e as int) < entries@.len() && entries@[e as int].sig@ == sig@,
            None => forall|e: int|
                0 <= e < entries@.len() ==> (#[trigger] entries@[e]).sig@ != sig@,
        },
{
    let n = entries.len();
    let mut i: usize = 0;
    while i < n
        invariant
            i <= n,
            n == entries@.len(),
            forall|e: int| 0 <= e < i as int ==> (#[trigger] entries@[e]).sig@ != sig@,
        decreases n - i,
    {
        if sig_eq(&entries[i].sig, sig) {
            return Some(i);
        }
        i = i + 1;
    }
    None
}

/// Whether `idxs` holds `idx`.
pub(crate) fn contains_idx(idxs: &Vec<usize>, idx: usize) -> (r: bool)
    ensures
        r <==> idxs@.contains(idx),
{
    let n = idxs.len();
    let mut i: usize = 0;
    while i < n
        invariant
            i <= n,
            n == idxs@.len(),
            forall|k: int| 0 <= k < i as int ==> idxs@[k] != idx,
        decreases n - i,
    {
        if idxs[i] == idx {
            return true;
        }
        i = i + 1;
    }
    false
}

/// Copies a bucket's indices.
fn clone_idxs(idxs: &Vec<usize>) -> (r: Vec<usize>)
    ensures
        r@ == idxs@,
{
    let n = idxs.len();
    let mut out: Vec<usize> = Vec::new();
    let mut i: usize = 0;
    while i < n
        invariant
            i <= n,
            n == idxs@.len(),
            out@ == idxs@.take(i as int),
        decreases n - i,
    {
        out.push(idxs[i]);
        proof {
            assert(out@ =~= idxs@.take(i as int + 1));
        }
        i = i + 1;
    }
    proof {
        assert(idxs@.take(n as int) =~= idxs@);
    }
    out
}

/// Keeps the indices of `idxs` whose stored point differs from `v`.
fn filter_kept(idxs: &Vec<usize>, points: &Vec<Vec<u32>>, v: &Vec<u32>) -> (r: Vec<usize>)
    requires
        idxs@.no_duplicates(),
        forall|k: int| 0 <= k < idxs@.len() ==> idxs@[k] < points@.len(),
    ensures
        r@.no_duplicates(),
        forall|k: int| 0 <= k < r@.len() ==> r@[k] < points@.len(),
        forall|j: usize|
            r@.contains(j) <==> (idxs@.contains(j) && (j as int) < points@.len()
                && points@[j as int]@ != v@),
{
    let n = idxs.len();
    let mut out: Vec<usize> = Vec::new();
    let mut i: usize = 0;
    while i < n
        invariant
            i <= n,
            n == idxs@.len(),
            idxs@.no_duplicates(),
            forall|k: int| 0 <= k < idxs@.len() ==> idxs@[k] < points@.len(),
            out@.no_duplicates(),
            forall|k: int| 0 <= k < out@.len() ==> out@[k] < points@.len(),
            forall|j: usize|
                out@.contains(j) <==> (idxs@.take(i as int).contains(j) && (j as int)
                    < points@.len() && points@[j as int]@ != v@),
        decreases n - i,
    {
        let j = idxs[i];
        let ghost prev: Seq<usize> = out@;
        let keep = !point_eq(&points[j], v);
        if keep {
            proof {
                if out@.contains(j) {
                    let k = choose|k: int| 0 <= k < i as int && idxs@.take(i as int)[k] == j;
                    assert(idxs@[k] == j && idxs@[i as int] == j);
                }
            }
            out.push(j);
        }
        proof {
            assert forall|y: usize| #[trigger]
                idxs@.take(i as int + 1).contains(y) implies idxs@.take(i as int).contains(y)
                || y == idxs@[i as int] by {
                let k = choose|k: int|
                    0 <= k < i as int + 1 && #[trigger] idxs@.take(i as int + 1)[k] == y;
                if k < i as int {
                    assert(idxs@.take(i as int)[k] == y);
                }
            }
            assert forall|y: usize| #[trigger]
                idxs@.take(i as int).contains(y) implies idxs@.take(i as int + 1).contains(
                y,
            ) by {
                let k = choose|k: int| 0 <= k < i as int && idxs@.take(i as int)[k] == y;
                assert(idxs@.take(i as int + 1)[k] == y);
            }
            assert(idxs@.take(i as int + 1)[i as int] == idxs@[i as int]);
            assert(idxs@.take(i as int + 1).contains(idxs@[i as int]));
            if keep {
                assert forall|y: usize| #[trigger] out@.contains(y) implies (prev.contains(y) || y
                    == j) by {
                    let k = choose|k: int| 0 <= k < out@.len() && out@[k] == y;
                    if k < prev.len() {
                        assert(prev[k] == y);
                    }
                }
                assert forall|y: usize| #[trigger] prev.contains(y) implies out@.contains(y) by {
                    let k = choose|k: int| 0 <= k < prev.len() && prev[k] == y;
                    assert(out@[k] == y);
                }
                assert(out@[out@.len() - 1] == j);
                assert(out@.contains(j));
            }
            assert forall|y: usize|
                out@.contains(y) == (idxs@.take(i as int + 1).contains(y) && (y as int)
                    < points@.len() && points@[y as int]@ != v@) by {
                if keep {
                    if out@.contains(y) {
                        if prev.contains(y) {
                            assert(idxs@.take(i as int).contains(y));
                            assert(idxs@.take(i as int + 1).contains(y));
                        } else {
                            assert(y == j);
                        }
                    }
                    if idxs@.take(i as int + 1).contains(y) && (y as int) < points@.len()
                        && points@[y as int]@ != v@ {
                        if idxs@.take(i as int).contains(y) {
                            assert(prev.contains(y));
                            assert(out@.contains(y));
                        } else {
                            assert(y == idxs@[i as int]);
                            assert(out@.contains(y));
                        }
                    }
                } else {
                    assert(out@ == prev);
                    if out@.contains(y) {
                        assert(idxs@.take(i as int).contains(y));
                        assert(idxs@.take(i as int + 1).contains(y));
                    }
                    if idxs@.take(i as int + 1).contains(y) && (y as int) < points@.len()
                        && points@[y as int]@ != v@ {
                        if idxs@.take(i as int).contains(y) {
                            assert(prev.contains(y));
                        } else {
                            assert(y == idxs@[i as int]);
                            assert(points@[y as int]@ == v@);
                        }
                    }
                }
            }
        }
        i = i + 1;
    }
    proof {
        assert(idxs@.take(n as int) =~= idxs@);
    }
    out
}

} // verus!
