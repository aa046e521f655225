//! The index-level guarantees, stated and proved over the models that the
//! operation contracts expose: determinism of hashing under a fixed seed,
//! store-then-query containment, monotonicity of the bucket union in the
//! number of tables, removal of membership by delete, deduplication across
//! repeated stores, and emptiness of queries on a fresh index.

use vstd::prelude::*;
use crate::lsh::LSH;
use crate::table::bucket_has;

verus! {

/// That the first `n` tables of `a` and `b` hold exactly the same bucket
/// memberships.
pub open spec fn tables_agree_upto(a: LSH, b: LSH, n: int) -> bool {
    forall|t: int, s: Seq<i64>, j: usize|
        0 <= t < n ==> (#[trigger] bucket_has(a.table_at(t), s, j)) == bucket_has(
            b.table_at(t),
            s,
            j,
        )
}

/// Determinism of hashing: two indices whose table-`t` hashers were pinned
/// by the same nonzero seed and share the structural parameters assign the
/// same storage-side and query-side signatures to every vector. Hashing is
/// a pure function of the vector and the hasher state, and the hasher state
/// is a function of the construction parameters and the seed.
pub proof fn law_srp_determinism(a: LSH, b: LSH, seed: u64, t: int, v: Seq<u32>)
    requires
        a.n_projections == b.n_projections,
        a.dim == b.dim,
        0 <= t < a.hashers@.len(),
        0 <= t < b.hashers@.len(),
        a.srp_hasher_pinned(seed, t),
        b.srp_hasher_pinned(seed, t),
    ensures
        a.sig_put_at(t, v) == b.sig_put_at(t, v),
        a.sig_query_at(t, v) == b.sig_query_at(t, v),
        a.sig_put_at(t, v) == a.sig_query_at(t, v),
{
}

/// Determinism of the Euclidean family: indices whose table-`t` hashers
/// were pinned by the same seed and width, with equal structural
/// parameters, hash every vector identically.
pub proof fn law_l2_determinism(a: LSH, b: LSH, seed: u64, r: u32, t: int, v: Seq<u32>)
    requires
        a.n_projections == b.n_projections,
        a.dim == b.dim,
        0 <= t < a.hashers@.len(),
        0 <= t < b.hashers@.len(),
        a.l2_hasher_pinned(seed, r, t),
        b.l2_hasher_pinned(seed, r, t),
    ensures
        a.sig_put_at(t, v) == b.sig_put_at(t, v),
        a.sig_query_at(t, v) == b.sig_query_at(t, v),
        a.sig_put_at(t, v) == a.sig_query_at(t, v),
{
}

/// Determinism of the inner-product family: both the storage-side and the
/// query-side signatures agree between two same-pinned indices, though the
/// two sides differ from each other by design.
pub proof fn law_mips_determinism(
    a: LSH,
    b: LSH,
    seed: u64,
    r: u32,
    u: u32,
    m: usize,
    t: int,
    v: Seq<u32>,
)
    requires
        a.n_projections == b.n_projections,
        a.dim == b.dim,
        0 <= t < a.hashers@.len(),
        0 <= t < b.hashers@.len(),
        a.mips_hasher_pinned(seed, r, u, m, t),
        b.mips_hasher_pinned(seed, r, u, m, t),
    ensures
        a.sig_put_at(t, v) == b.sig_put_at(t, v),
        a.sig_query_at(t, v) == b.sig_query_at(t, v),
{
}

/// Store-then-query containment: after storing `v`, its fresh global index
/// is a bucket-union candidate of a query for `v` whenever the family is
/// symmetric, and therefore every result set a query reports for `v`
/// contains a vector value-equal to `v`.
#[verifier::rlimit(50)]
pub proof fn law_store_query_containment(pre: LSH, post: LSH, v: Seq<u32>)
    requires
        pre.wf(),
        pre.bound,
        pre.n_hash_tables > 0,
        pre.points().len() < usize::MAX,
        forall|t: int|
            0 <= t < pre.n_hash_tables as int ==> (#[trigger] pre.hashers@[t]).symmetric(),
        LSH::store_effect(pre, post, v),
    ensures
        post.candidate(v, pre.points().len() as usize),
        post.points()[pre.points().len() as int]@ == v,
        forall|out: Seq<Vec<u32>>|
            #[trigger] post.query_result_matches(v, out) ==> exists|k: int|
                0 <= k < out.len() && (#[trigger] out[k])@ == v,
{
    let j0: usize = pre.points().len() as usize;
    let sp = pre.sig_put_at(0, v);
    pre.hashers@[0].lemma_symmetric_sigs(v);
    assert(post.sig_query_at(0, v) == sp);
    assert(bucket_has(post.table_at(0), sp, j0));
    assert(post.candidate(v, j0));
    assert forall|out: Seq<Vec<u32>>| #[trigger]
        post.query_result_matches(v, out) implies exists|k: int|
        0 <= k < out.len() && (#[trigger] out[k])@ == v by {
        assert(post.holds_point_of(out, j0));
        let k = choose|k: int|
            0 <= k < out.len() && (#[trigger] out[k])@ == post.points()[j0 as int]@;
        assert(out[k]@ == v);
    }
}

/// Union monotonicity, membership form: an index with more tables whose
/// first tables agree in content and in query-side signatures reports every
/// candidate the smaller index reports — more tables can only add
/// candidates, via the bucket union.
pub proof fn law_union_monotone(a: LSH, b: LSH, v: Seq<u32>, j: usize)
    requires
        a.n_hash_tables <= b.n_hash_tables,
        forall|t: int|
            0 <= t < a.n_hash_tables as int ==> #[trigger] a.sig_query_at(t, v)
                == b.sig_query_at(t, v),
        tables_agree_upto(a, b, a.n_hash_tables as int),
        a.candidate(v, j),
    ensures
        b.candidate(v, j),
{
    let t = choose|t: int|
        0 <= t < a.n_hash_tables as int && #[trigger] bucket_has(
            a.table_at(t),
            a.sig_query_at(t, v),
            j,
        );
    assert(bucket_has(b.table_at(t), b.sig_query_at(t, v), j));
}

/// Union monotonicity, count form: under the same agreement, a
/// deduplicated candidate listing of the larger index is at least as long
/// as one of the smaller — the result size of a query never decreases when
/// tables are added.
pub proof fn law_union_monotone_count(
    a: LSH,
    b: LSH,
    v: Seq<u32>,
    ids_a: Seq<usize>,
    ids_b: Seq<usize>,
)
    requires
        a.n_hash_tables <= b.n_hash_tables,
        forall|t: int|
            0 <= t < a.n_hash_tables as int ==> #[trigger] a.sig_query_at(t, v)
                == b.sig_query_at(t, v),
        tables_agree_upto(a, b, a.n_hash_tables as int),
        ids_a.no_duplicates(),
        forall|j: usize| #[trigger] ids_a.contains(j) <==> a.candidate(v, j),
        ids_b.no_duplicates(),
        forall|j: usize| #[trigger] ids_b.contains(j) <==> b.candidate(v, j),
    ensures
        ids_a.len() <= ids_b.len(),
{
    broadcast use vstd::seq_lib::seq_to_set_is_finite;

    assert forall|j: usize| #[trigger] ids_a.to_set().contains(j) implies ids_b.to_set().contains(
        j,
    ) by {
        assert(ids_a.contains(j));
        law_union_monotone(a, b, v, j);
        assert(ids_b.contains(j));
    }
    assert(ids_a.to_set().subset_of(ids_b.to_set()));
    ids_a.unique_seq_to_set();
    ids_b.unique_seq_to_set();
    vstd::set_lib::lemma_len_subset(ids_a.to_set(), ids_b.to_set());
}

/// Two duplicate-free sequences with the same membership have the same
/// length.
proof fn lemma_unique_same_membership_same_len<A>(x: Seq<A>, y: Seq<A>)
    requires
        x.no_duplicates(),
        y.no_duplicates(),
        forall|a: A| #[trigger] x.contains(a) <==> y.contains(a),
    ensures
        x.len() == y.len(),
{
    broadcast use vstd::seq_lib::seq_to_set_is_finite;

    assert(x.to_set() =~= y.to_set());
    x.unique_seq_to_set();
    y.unique_seq_to_set();
}

/// A duplicate-free sequence whose members all occur in another
/// duplicate-free sequence is at most as long.
proof fn lemma_unique_submembership_le<A>(x: Seq<A>, y: Seq<A>)
    requires
        x.no_duplicates(),
        y.no_duplicates(),
        forall|a: A| #[trigger] x.contains(a) ==> y.contains(a),
    ensures
        x.len() <= y.len(),
{
    broadcast use vstd::seq_lib::seq_to_set_is_finite;

    assert(x.to_set().subset_of(y.to_set()));
    x.unique_seq_to_set();
    y.unique_seq_to_set();
    vstd::set_lib::lemma_len_subset(x.to_set(), y.to_set());
}

/// A duplicate-free sequence whose members all occur in another
/// duplicate-free sequence, which holds at least one member more, is
/// strictly shorter.
proof fn lemma_unique_submembership_lt<A>(x: Seq<A>, y: Seq<A>, a0: A)
    requires
        x.no_duplicates(),
        y.no_duplicates(),
        forall|a: A| #[trigger] x.contains(a) ==> y.contains(a),
        y.contains(a0),
        !x.contains(a0),
    ensures
        x.len() < y.len(),
{
    broadcast use vstd::seq_lib::seq_to_set_is_finite;
    broadcast use vstd::set::axiom_set_remove_len;
    broadcast use vstd::set::axiom_set_remove_finite;

    assert forall|a: A| #[trigger] x.to_set().contains(a) implies y.to_set().remove(
        a0,
    ).contains(a) by {
        assert(x.contains(a));
        assert(y.contains(a));
    }
    x.unique_seq_to_set();
    y.unique_seq_to_set();
    assert(y.to_set().contains(a0));
    assert(y.to_set().remove(a0).len() == y.to_set().len() - 1);
    vstd::set_lib::lemma_len_subset(x.to_set(), y.to_set().remove(a0));
}

/// Result sizes are determined: any two query results for one index and
/// one vector have the same length, because each lists every bucket-union
/// candidate exactly once. With the determinism laws this pins the result
/// size of repeated or same-seed queries.
pub proof fn law_query_result_count(l: LSH, v: Seq<u32>, out1: Seq<Vec<u32>>, out2: Seq<Vec<u32>>)
    requires
        l.query_result_matches(v, out1),
        l.query_result_matches(v, out2),
    ensures
        out1.len() == out2.len(),
{
    let ids1 = choose|ids: Seq<usize>| l.query_result_resolves(v, out1, ids);
    let ids2 = choose|ids: Seq<usize>| l.query_result_resolves(v, out2, ids);
    assert forall|j: usize| #[trigger] ids1.contains(j) <==> ids2.contains(j) by {
        assert(ids1.contains(j) == l.candidate(v, j));
        assert(ids2.contains(j) == l.candidate(v, j));
    }
    lemma_unique_same_membership_same_len(ids1, ids2);
}

/// Union monotonicity over whole query results: under the agreement of
/// `law_union_monotone_count`, a query result of the larger index is at
/// least as long as one of the smaller — adding tables never shrinks what
/// `query_bucket` returns.
pub proof fn law_union_monotone_results(
    a: LSH,
    b: LSH,
    v: Seq<u32>,
    out_a: Seq<Vec<u32>>,
    out_b: Seq<Vec<u32>>,
)
    requires
        a.n_hash_tables <= b.n_hash_tables,
        forall|t: int|
            0 <= t < a.n_hash_tables as int ==> #[trigger] a.sig_query_at(t, v)
                == b.sig_query_at(t, v),
        tables_agree_upto(a, b, a.n_hash_tables as int),
        a.query_result_matches(v, out_a),
        b.query_result_matches(v, out_b),
    ensures
        out_a.len() <= out_b.len(),
{
    let ids_a = choose|ids: Seq<usize>| a.query_result_resolves(v, out_a, ids);
    let ids_b = choose|ids: Seq<usize>| b.query_result_resolves(v, out_b, ids);
    assert forall|j: usize| #[trigger] ids_a.contains(j) implies ids_b.contains(j) by {
        assert(a.candidate(v, j));
        law_union_monotone(a, b, v, j);
        assert(b.candidate(v, j));
    }
    lemma_unique_submembership_le(ids_a, ids_b);
}

/// That storing the same vector into two indices that agree on their first
/// tables — in content, in storage-side signatures and in point count —
/// preserves the agreement: the prefix relation survives every store, so
/// the monotonicity law applies to any common stored set.
pub proof fn law_store_keeps_agreement(a: LSH, a2: LSH, b: LSH, b2: LSH, v: Seq<u32>)
    requires
        a.n_hash_tables <= b.n_hash_tables,
        a.points().len() == b.points().len(),
        forall|t: int|
            0 <= t < a.n_hash_tables as int ==> #[trigger] a.sig_put_at(t, v) == b.sig_put_at(
                t,
                v,
            ),
        tables_agree_upto(a, b, a.n_hash_tables as int),
        LSH::store_effect(a, a2, v),
        LSH::store_effect(b, b2, v),
    ensures
        tables_agree_upto(a2, b2, a.n_hash_tables as int),
        a2.points().len() == b2.points().len(),
{
    let idx: usize = a.points().len() as usize;
    assert forall|t: int, s: Seq<i64>, j: usize|
        0 <= t < a.n_hash_tables as int implies (#[trigger] bucket_has(a2.table_at(t), s, j))
        == bucket_has(b2.table_at(t), s, j) by {
        assert(bucket_has(a2.table_at(t), s, j) <==> (bucket_has(a.table_at(t), s, j) || (s
            == a.sig_put_at(t, v) && j == idx)));
        assert(bucket_has(b2.table_at(t), s, j) <==> (bucket_has(b.table_at(t), s, j) || (s
            == b.sig_put_at(t, v) && j == idx)));
        assert(bucket_has(a.table_at(t), s, j) == bucket_has(b.table_at(t), s, j));
    }
}

/// That two indices bound from the same nonzero seed with equal structural
/// parameters agree on every query-side and storage-side signature of the
/// smaller one's tables: the signature half of the monotonicity setup.
pub proof fn law_srp_prefix_sigs(a: LSH, b: LSH, seed: u64, v: Seq<u32>)
    requires
        a.n_projections == b.n_projections,
        a.dim == b.dim,
        a.n_hash_tables <= b.n_hash_tables,
        a.hashers@.len() == a.n_hash_tables,
        b.hashers@.len() == b.n_hash_tables,
        forall|t: int|
            0 <= t < a.n_hash_tables as int ==> #[trigger] a.srp_hasher_pinned(seed, t),
        forall|t: int|
            0 <= t < b.n_hash_tables as int ==> #[trigger] b.srp_hasher_pinned(seed, t),
    ensures
        forall|t: int|
            0 <= t < a.n_hash_tables as int ==> #[trigger] a.sig_query_at(t, v)
                == b.sig_query_at(t, v),
        forall|t: int|
            0 <= t < a.n_hash_tables as int ==> #[trigger] a.sig_put_at(t, v) == b.sig_put_at(
                t,
                v,
            ),
{
    assert forall|t: int|
        0 <= t < a.n_hash_tables as int implies #[trigger] a.sig_query_at(t, v)
        == b.sig_query_at(t, v) by {
        law_srp_determinism(a, b, seed, t, v);
    }
    assert forall|t: int|
        0 <= t < a.n_hash_tables as int implies #[trigger] a.sig_put_at(t, v) == b.sig_put_at(
        t,
        v,
    ) by {
        law_srp_determinism(a, b, seed, t, v);
    }
}

/// That two indices holding no bucket entries agree on the contents of any
/// prefix of their tables: the table half of the monotonicity setup, true
/// of any two freshly bound indices.
pub proof fn law_empty_tables_agree(a: LSH, b: LSH, n: int)
    requires
        a.is_empty(),
        b.is_empty(),
        n <= a.n_hash_tables as int,
        n <= b.n_hash_tables as int,
    ensures
        tables_agree_upto(a, b, n),
{
    assert forall|t: int, s: Seq<i64>, j: usize|
        0 <= t < n implies (#[trigger] bucket_has(a.table_at(t), s, j)) == bucket_has(
        b.table_at(t),
        s,
        j,
    ) by {
        assert(a.table_at(t).len() == 0);
        assert(b.table_at(t).len() == 0);
        if bucket_has(a.table_at(t), s, j) {
            let e = choose|e: int|
                0 <= e < a.table_at(t).len() && (#[trigger] a.table_at(t)[e]).sig@ == s
                    && a.table_at(t)[e].idxs@.contains(j);
        }
        if bucket_has(b.table_at(t), s, j) {
            let e = choose|e: int|
                0 <= e < b.table_at(t).len() && (#[trigger] b.table_at(t)[e]).sig@ == s
                    && b.table_at(t)[e].idxs@.contains(j);
        }
    }
}

/// Delete removes membership: after a successful delete of `v`, no
/// bucket-union candidate of a query for `v` resolves to a vector equal to
/// `v`, so no query result for `v` contains it.
pub proof fn law_delete_removes_membership(pre: LSH, post: LSH, v: Seq<u32>, j: usize)
    requires
        pre.wf(),
        pre.bound,
        LSH::delete_effect(pre, post, v),
        post.candidate(v, j),
    ensures
        (j as int) < post.points().len(),
        post.points()[j as int]@ != v,
{
    let t = choose|t: int|
        0 <= t < post.n_hash_tables as int && #[trigger] bucket_has(
            post.table_at(t),
            post.sig_query_at(t, v),
            j,
        );
    assert(post.sig_query_at(t, v) == pre.sig_query_at(t, v));
    assert(bucket_has(pre.table_at(t), pre.sig_query_at(t, v), j));
    let entries = pre.table_at(t);
    let e = choose|e: int|
        0 <= e < entries.len() && (#[trigger] entries[e]).sig@ == pre.sig_query_at(t, v)
            && entries[e].idxs@.contains(j);
    let k = choose|k: int| 0 <= k < entries[e].idxs@.len() && entries[e].idxs@[k] == j;
    assert((j as int) < pre.points().len());
}

/// Corollary of the delete law over whole query results: once `v` was
/// deleted, a query result for `v` holds no vector equal to `v`.
pub proof fn law_delete_query_excludes(pre: LSH, post: LSH, v: Seq<u32>, out: Seq<Vec<u32>>)
    requires
        pre.wf(),
        pre.bound,
        LSH::delete_effect(pre, post, v),
        post.query_result_matches(v, out),
    ensures
        forall|k: int| 0 <= k < out.len() ==> (#[trigger] out[k])@ != v,
{
    assert forall|k: int| 0 <= k < out.len() implies (#[trigger] out[k])@ != v by {
        assert(post.is_candidate_point(v, out[k]));
        let j = choose|j: usize|
            #[trigger] post.candidate(v, j) && out[k]@ == post.points()[j as int]@;
        law_delete_removes_membership(pre, post, v, j);
    }
}

/// Strict decrease after delete: if the deleted vector's stored index was a
/// candidate before the delete — as it is whenever it was stored under a
/// symmetric family — a query result for it is strictly shorter afterwards:
/// the candidate set loses that index and gains none.
pub proof fn law_delete_shrinks_result(
    pre: LSH,
    post: LSH,
    v: Seq<u32>,
    j0: usize,
    out_pre: Seq<Vec<u32>>,
    out_post: Seq<Vec<u32>>,
)
    requires
        pre.wf(),
        pre.bound,
        LSH::delete_effect(pre, post, v),
        pre.candidate(v, j0),
        (j0 as int) < pre.points().len(),
        pre.points()[j0 as int]@ == v,
        pre.query_result_matches(v, out_pre),
        post.query_result_matches(v, out_post),
    ensures
        out_post.len() < out_pre.len(),
{
    let ids_pre = choose|ids: Seq<usize>| pre.query_result_resolves(v, out_pre, ids);
    let ids_post = choose|ids: Seq<usize>| post.query_result_resolves(v, out_post, ids);
    assert forall|j: usize| #[trigger] ids_post.contains(j) implies ids_pre.contains(j) by {
        assert(post.candidate(v, j));
        let t = choose|t: int|
            0 <= t < post.n_hash_tables as int && #[trigger] bucket_has(
                post.table_at(t),
                post.sig_query_at(t, v),
                j,
            );
        assert(post.sig_query_at(t, v) == pre.sig_query_at(t, v));
        assert(bucket_has(pre.table_at(t), pre.sig_query_at(t, v), j));
        assert(pre.candidate(v, j));
    }
    assert(ids_pre.contains(j0));
    if ids_post.contains(j0) {
        law_delete_removes_membership(pre, post, v, j0);
        assert(post.points()[j0 as int]@ != v);
    }
    lemma_unique_submembership_lt(ids_post, ids_pre, j0);
}

/// Idempotent put: storing the same vector twice creates exactly two fresh
/// global indices, and every candidate a query then reports is either an
/// old candidate or one of those two — bucket sets are deduplicated index
/// sets, so nothing is listed beyond them.
pub proof fn law_idempotent_put(a: LSH, b: LSH, c: LSH, v: Seq<u32>, j: usize)
    requires
        a.wf(),
        a.bound,
        a.points().len() + 2 <= usize::MAX,
        LSH::store_effect(a, b, v),
        LSH::store_effect(b, c, v),
        c.candidate(v, j),
    ensures
        b.points().len() == a.points().len() + 1,
        c.points().len() == a.points().len() + 2,
        a.candidate(v, j) || j == a.points().len() || j == b.points().len(),
{
    let t = choose|t: int|
        0 <= t < c.n_hash_tables as int && #[trigger] bucket_has(
            c.table_at(t),
            c.sig_query_at(t, v),
            j,
        );
    let s = c.sig_query_at(t, v);
    assert(s == a.sig_query_at(t, v));
    assert(bucket_has(c.table_at(t), s, j) <==> (bucket_has(b.table_at(t), s, j) || (s
        == b.sig_put_at(t, v) && j == b.points().len() as usize)));
    assert(bucket_has(b.table_at(t), s, j) <==> (bucket_has(a.table_at(t), s, j) || (s
        == a.sig_put_at(t, v) && j == a.points().len() as usize)));
    if bucket_has(a.table_at(t), s, j) {
        assert(a.candidate(v, j));
    }
}

/// Empty-index query: on an index holding no bucket entries a query for
/// any vector has no candidates, and every result set it reports is empty
/// — an empty answer, not an error.
pub proof fn law_empty_index_query(l: LSH, v: Seq<u32>, out: Seq<Vec<u32>>)
    requires
        l.is_empty(),
        l.query_result_matches(v, out),
    ensures
        forall|j: usize| !l.candidate(v, j),
        out.len() == 0,
{
    assert forall|j: usize| !l.candidate(v, j) by {
        if l.candidate(v, j) {
            let t = choose|t: int|
                0 <= t < l.n_hash_tables as int && #[trigger] bucket_has(
                    l.table_at(t),
                    l.sig_query_at(t, v),
                    j,
                );
            assert(l.table_at(t).len() == 0);
            let entries = l.table_at(t);
            let e = choose|e: int|
                0 <= e < entries.len() && (#[trigger] entries[e]).sig@ == l.sig_query_at(t, v)
                    && entries[e].idxs@.contains(j);
        }
    }
    if out.len() > 0 {
        assert(l.is_candidate_point(v, out[0]));
        let j = choose|j: usize| #[trigger] l.candidate(v, j) && out[0]@ == l.points()[j as int]@;
    }
}

} // verus!
