//! End-to-end tests of the index: construction, the scenario over the
//! sign-random-projections family, determinism, deletion and the error
//! conditions. Vectors are built from `f32` values via their bit patterns.

use lsh_rs::err::LshError;
use lsh_rs::hash::SignRandomProjections;
use lsh_rs::lsh::LSH;

fn vecbits(vs: &[f32]) -> Vec<u32> {
    let mut out: Vec<u32> = Vec::new();
    for v in vs {
        out.push(v.to_bits());
    }
    out
}

#[test]
fn test_simhash() {
    // Only test if it runs
    let _h = SignRandomProjections::new(5, 3, 1);
}

#[test]
fn test_hash_table() {
    let mut base = LSH::new(5, 10, 3);
    base.seed(1);
    let mut lsh = base.srp().unwrap();
    let v1 = vecbits(&[2., 3., 4.]);
    let v2 = vecbits(&[-1., -1., 1.]);
    let _v3 = vecbits(&[0.2, -0.2, 0.2]);
    lsh.store_vec(&v1).unwrap();
    lsh.store_vec(&v2).unwrap();
    assert!(lsh.query_bucket(&v2).unwrap().len() > 0);

    let bucket_len_before = lsh.query_bucket(&v1).unwrap().len();
    lsh.delete_vec(&v1).unwrap();
    let bucket_len_before_after = lsh.query_bucket(&v1).unwrap().len();
    assert!(bucket_len_before > bucket_len_before_after);
}

#[test]
fn srp_scenario_contains_stored_vector() {
    let mut base = LSH::new(5, 10, 3);
    base.seed(1);
    let mut lsh = base.srp().unwrap();
    let v1 = vecbits(&[2., 3., 4.]);
    let v2 = vecbits(&[-1., -1., 1.]);
    lsh.store_vec(&v1).unwrap();
    lsh.store_vec(&v2).unwrap();
    let res = lsh.query_bucket(&v2).unwrap();
    assert!(!res.is_empty());
    assert!(res.iter().any(|p| *p == v2));
}

#[test]
fn determinism_same_seed_same_results() {
    let v1 = vecbits(&[0.5, -1.5, 3.25]);
    let v2 = vecbits(&[-2.0, 0.25, 1.0]);
    let q = vecbits(&[0.5, -1.5, 3.0]);

    let mut run = |_: usize| {
        let mut base = LSH::new(6, 4, 3);
        base.seed(42);
        let mut lsh = base.srp().unwrap();
        lsh.store_vec(&v1).unwrap();
        lsh.store_vec(&v2).unwrap();
        let mut ids = lsh.query_bucket_idx(&q).unwrap();
        ids.sort();
        ids
    };
    assert_eq!(run(0), run(1));
}

#[test]
fn different_seeds_differ_somewhere() {
    // Two seeds whose sampled projections differ must disagree on some
    // signature; this fails if the draws ignored the seed.
    let a = SignRandomProjections::new(8, 4, 3);
    let b = SignRandomProjections::new(8, 4, 4);
    assert_ne!(a.proj, b.proj);
}

#[test]
fn empty_index_query_is_empty_not_error() {
    let mut base = LSH::new(5, 10, 3);
    base.seed(1);
    let lsh = base.srp().unwrap();
    let q = vecbits(&[1.0, 2.0, 3.0]);
    let res = lsh.query_bucket(&q).unwrap();
    assert!(res.is_empty());
    let ids = lsh.query_bucket_idx(&q).unwrap();
    assert!(ids.is_empty());
}

#[test]
fn idempotent_put_no_duplicate_indices() {
    let mut base = LSH::new(4, 6, 3);
    base.seed(7);
    let mut lsh = base.srp().unwrap();
    let v = vecbits(&[1.0, 1.0, 1.0]);
    lsh.store_vec(&v).unwrap();
    lsh.store_vec(&v).unwrap();
    let mut ids = lsh.query_bucket_idx(&v).unwrap();
    ids.sort();
    // two stores of the same vector create exactly the two indices 0 and 1,
    // each listed once
    assert_eq!(ids, vec![0, 1]);
}

#[test]
fn union_monotonicity_more_tables_never_smaller() {
    let v1 = vecbits(&[2., 3., 4.]);
    let v2 = vecbits(&[-1., -1., 1.]);
    let q = vecbits(&[2.1, 2.9, 4.2]);
    let mut sizes: Vec<usize> = Vec::new();
    for n_tables in [1usize, 3, 10] {
        let mut base = LSH::new(5, n_tables, 3);
        base.seed(1);
        let mut lsh = base.srp().unwrap();
        lsh.store_vec(&v1).unwrap();
        lsh.store_vec(&v2).unwrap();
        sizes.push(lsh.query_bucket_idx(&q).unwrap().len());
    }
    assert!(sizes[0] <= sizes[1]);
    assert!(sizes[1] <= sizes[2]);
}

#[test]
fn store_vecs_assigns_indices_in_order() {
    let mut base = LSH::new(4, 3, 2);
    base.seed(9);
    let mut lsh = base.srp().unwrap();
    let vs = vec![
        vecbits(&[1.0, 0.0]),
        vecbits(&[0.0, 1.0]),
        vecbits(&[-1.0, -1.0]),
    ];
    lsh.store_vecs(&vs).unwrap();
    // each vector collides with itself, so each query must report its own
    // index among the candidates
    for (k, v) in vs.iter().enumerate() {
        let ids = lsh.query_bucket_idx(v).unwrap();
        assert!(ids.contains(&k));
    }
}

#[test]
fn unbound_index_reports_unbound() {
    let mut lsh = LSH::new(5, 10, 3);
    let v = vecbits(&[1.0, 2.0, 3.0]);
    assert_eq!(lsh.store_vec(&v), Err(LshError::Unbound));
    assert_eq!(lsh.store_vecs(&vec![v.clone()]), Err(LshError::Unbound));
    assert_eq!(lsh.query_bucket(&v).unwrap_err(), LshError::Unbound);
    assert_eq!(lsh.query_bucket_idx(&v).unwrap_err(), LshError::Unbound);
    assert_eq!(lsh.delete_vec(&v), Err(LshError::Unbound));
}

#[test]
fn wrong_dimension_reports_mismatch() {
    let mut base = LSH::new(5, 10, 3);
    base.seed(1);
    let mut lsh = base.srp().unwrap();
    let bad = vecbits(&[1.0, 2.0]);
    assert_eq!(lsh.store_vec(&bad), Err(LshError::DimensionMismatch));
    assert_eq!(lsh.query_bucket(&bad).unwrap_err(), LshError::DimensionMismatch);
    assert_eq!(lsh.delete_vec(&bad), Err(LshError::DimensionMismatch));
    assert_eq!(
        lsh.store_vecs(&vec![vecbits(&[1.0, 2.0, 3.0]), bad]),
        Err(LshError::DimensionMismatch)
    );
}

#[test]
fn store_vecs_stores_prefix_before_first_bad_element() {
    let mut base = LSH::new(4, 3, 2);
    base.seed(9);
    let mut lsh = base.srp().unwrap();
    let good1 = vecbits(&[1.0, 0.0]);
    let bad = vecbits(&[1.0, 0.0, 0.0]);
    let good2 = vecbits(&[0.0, 1.0]);
    let res = lsh.store_vecs(&vec![good1.clone(), bad, good2.clone()]);
    assert_eq!(res, Err(LshError::DimensionMismatch));
    // the element before the bad one was stored, under global index 0
    assert!(lsh.query_bucket_idx(&good1).unwrap().contains(&0));
    assert!(lsh.query_bucket(&good1).unwrap().iter().any(|p| *p == good1));
    // the element after it was not: no stored point equals it
    assert!(lsh.query_bucket(&good2).unwrap().iter().all(|p| *p != good2));
}

#[test]
fn zero_dimension_rejected_at_construction() {
    let mut base = LSH::new(5, 10, 0);
    base.seed(1);
    assert!(matches!(base.srp(), Err(LshError::InvalidParameter)));
    assert!(matches!(base.l2(1.0f32.to_bits()), Err(LshError::InvalidParameter)));
    assert!(matches!(
        base.mips(1.0f32.to_bits(), 0.5f32.to_bits(), 2),
        Err(LshError::InvalidParameter)
    ));
}

#[test]
fn bad_widths_and_bounds_rejected() {
    let mut base = LSH::new(5, 10, 3);
    base.seed(1);
    // a non-positive bucket width
    assert!(matches!(base.l2(0.0f32.to_bits()), Err(LshError::InvalidParameter)));
    assert!(base.l2((-2.5f32).to_bits()).is_err());
    // a rescaling bound outside (0, 1)
    assert!(base.mips(4.0f32.to_bits(), 1.5f32.to_bits(), 2).is_err());
    assert!(base.mips(4.0f32.to_bits(), 0.0f32.to_bits(), 2).is_err());
    // well-formed parameters succeed
    assert!(base.l2(4.0f32.to_bits()).is_ok());
    assert!(base.mips(4.0f32.to_bits(), 0.5f32.to_bits(), 2).is_ok());
}

#[test]
fn l2_family_contains_stored_vector() {
    let mut base = LSH::new(4, 8, 3);
    base.seed(11);
    let mut lsh = base.l2(4.0f32.to_bits()).unwrap();
    let v = vecbits(&[0.5, -0.25, 2.0]);
    lsh.store_vec(&v).unwrap();
    let res = lsh.query_bucket(&v).unwrap();
    assert!(res.iter().any(|p| *p == v));
}

#[test]
fn mips_family_stores_and_deletes() {
    let mut base = LSH::new(4, 8, 3);
    base.seed(11);
    let mut lsh = base.mips(4.0f32.to_bits(), 0.5f32.to_bits(), 2).unwrap();
    let v = vecbits(&[0.5, -0.25, 2.0]);
    lsh.store_vec(&v).unwrap();
    // the asymmetric family uses the query-side hash for deletion, so a
    // deleted vector is gone from every bucket a query would inspect
    lsh.delete_vec(&v).unwrap();
    let res = lsh.query_bucket(&v).unwrap();
    assert!(res.iter().all(|p| *p != v));
}

#[test]
fn seed_zero_still_indexes() {
    let mut lsh = LSH::new(5, 4, 3).srp().unwrap();
    let v = vecbits(&[1.0, -2.0, 0.5]);
    lsh.store_vec(&v).unwrap();
    let res = lsh.query_bucket(&v).unwrap();
    assert!(res.iter().any(|p| *p == v));
}

#[test]
fn describe_reports_counts() {
    let mut base = LSH::new(5, 4, 3);
    base.seed(1);
    let mut lsh = base.srp().unwrap();
    lsh.store_vec(&vecbits(&[1.0, 2.0, 3.0])).unwrap();
    let text = lsh.describe();
    assert!(text.contains("4"));
    assert!(text.contains("1"));
}
