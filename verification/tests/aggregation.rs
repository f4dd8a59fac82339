use ark_ec::AffineRepr;
use ark_ec::CurveGroup;
use ark_ff::PrimeField;

use avs_registry_service::builder::distinct_operator_ids;
use avs_registry_service::builder::get_operators_avs_state;
use avs_registry_service::g1::g1_add;
use avs_registry_service::state::get_operator_public_keys;
use avs_registry_service::state::get_stake_for_quorum;
use avs_registry_service::state::AvsError;
use avs_registry_service::state::QuorumAvsState;
use avs_registry_service::state::ResolvedKey;
use avs_registry_service::state::StakeEntry;
use avs_registry_service::G1PublicKey;
use avs_registry_service::U256;

fn id(n: u8) -> [u8; 32] {
    let mut v = [0u8; 32];
    v[31] = n;
    v
}

fn point_from_ark(p: ark_bn254::G1Affine) -> G1PublicKey {
    let (x, y) = p.xy().unwrap();
    let xl = x.into_bigint().0;
    let yl = y.into_bigint().0;
    G1PublicKey {
        x: U256 { l0: xl[0], l1: xl[1], l2: xl[2], l3: xl[3] },
        y: U256 { l0: yl[0], l1: yl[1], l2: yl[2], l3: yl[3] },
    }
}

fn gen_point() -> G1PublicKey {
    point_from_ark(ark_bn254::G1Affine::generator())
}

fn entry(op: u8, stake: u64) -> StakeEntry {
    StakeEntry { operator_id: id(op), stake: U256::from_u64(stake) }
}

fn resolved_to(op: u8, key: Option<G1PublicKey>) -> ResolvedKey {
    ResolvedKey { operator_id: id(op), pub_keys: key }
}

fn aggregate(
    block: u32,
    quorums: &[u8],
    stakes: Vec<Vec<StakeEntry>>,
    resolved: Vec<ResolvedKey>,
) -> Vec<QuorumAvsState> {
    let quorum_nums: Vec<u8> = quorums.to_vec();
    let ops = get_operators_avs_state(block, &quorum_nums, &stakes, &resolved).unwrap();
    avs_registry_service::aggregator::get_quorums_avs_state(block, &quorum_nums, &ops)
}

#[test]
fn totals_exclude_zero_stake_and_unresolved_operators() {
    let g = gen_point();
    let stakes = vec![vec![entry(1, 100), entry(2, 0), entry(3, 7)]];
    let resolved = vec![
        resolved_to(1, Some(g)),
        resolved_to(2, Some(g)),
        resolved_to(3, None),
    ];
    let out = aggregate(5, &[0], stakes, resolved);
    assert_eq!(out.len(), 1);
    assert_eq!(out[0].quorum_num, 0);
    assert_eq!(out[0].block_num, 5);
    // only operator 1 qualifies: 2 has zero stake, 3 has no key on file
    assert_eq!(out[0].total_stake, U256::from_u64(100));
    assert_eq!(out[0].agg_pub_key_g1, Some(g));
}

#[test]
fn aggregate_independent_of_entry_order() {
    let g = gen_point();
    let resolved = vec![resolved_to(1, Some(g)), resolved_to(2, Some(g))];
    let out1 = aggregate(
        9,
        &[0, 1],
        vec![vec![entry(1, 10), entry(2, 20)], vec![entry(2, 30)]],
        resolved.clone(),
    );
    let out2 = aggregate(
        9,
        &[0, 1],
        vec![vec![entry(2, 20), entry(1, 10)], vec![entry(2, 30)]],
        resolved,
    );
    assert_eq!(out1.len(), out2.len());
    for (a, b) in out1.iter().zip(out2.iter()) {
        assert_eq!(a.quorum_num, b.quorum_num);
        assert_eq!(a.block_num, b.block_num);
        assert_eq!(a.total_stake, b.total_stake);
        assert_eq!(a.agg_pub_key_g1, b.agg_pub_key_g1);
    }
}

#[test]
fn mismatched_stake_list_count_is_malformed_response() {
    let g = gen_point();
    let quorum_nums: Vec<u8> = vec![0, 1];
    let stakes = vec![vec![entry(1, 10)]];
    let resolved = vec![resolved_to(1, Some(g))];
    let r = get_operators_avs_state(7, &quorum_nums, &stakes, &resolved);
    assert_eq!(r.err(), Some(AvsError::MalformedResponse));
}

#[test]
fn shared_operator_contributes_to_each_quorum() {
    let g = gen_point();
    let stakes = vec![vec![entry(1, 10), entry(2, 5)], vec![entry(1, 3)]];
    let resolved = vec![resolved_to(1, Some(g)), resolved_to(2, None)];
    let out = aggregate(2, &[4, 9], stakes, resolved);
    assert_eq!(out.len(), 2);
    assert_eq!(out[0].quorum_num, 4);
    assert_eq!(out[0].total_stake, U256::from_u64(10));
    assert_eq!(out[0].agg_pub_key_g1, Some(g));
    assert_eq!(out[1].quorum_num, 9);
    assert_eq!(out[1].total_stake, U256::from_u64(3));
    assert_eq!(out[1].agg_pub_key_g1, Some(g));
}

#[test]
fn resolution_happens_once_per_operator() {
    // operator 1 appears in three quorums; the identifier list to resolve
    // names it once, and both lookups of its key agree
    let stakes = vec![
        vec![entry(1, 10), entry(2, 1)],
        vec![entry(1, 20)],
        vec![entry(1, 30)],
    ];
    let ids = distinct_operator_ids(&stakes);
    assert_eq!(ids, vec![id(1), id(2)]);
    let g = gen_point();
    let resolved = vec![resolved_to(1, Some(g)), resolved_to(2, None)];
    let first = get_operator_public_keys(&resolved, &id(1));
    let again = get_operator_public_keys(&resolved, &id(1));
    assert_eq!(first, Some(g));
    assert_eq!(first, again);
    // and the built state carries that one answer for every quorum
    let quorum_nums: Vec<u8> = vec![0, 1, 2];
    let ops = get_operators_avs_state(1, &quorum_nums, &stakes, &resolved).unwrap();
    let op1 = ops.iter().find(|o| o.operator_id == id(1)).unwrap();
    assert_eq!(op1.operator_pub_keys, Some(g));
}

#[test]
fn worked_example_two_quorums() {
    // quorums {0, 1}; quorum 0 holds A (stake 100, key Ka) and B (stake 0,
    // key Kb); quorum 1 holds A (stake 50, key Ka)
    let ka = gen_point();
    let kb = point_from_ark(
        (ark_bn254::G1Projective::from(ark_bn254::G1Affine::generator())
            + ark_bn254::G1Affine::generator())
        .into_affine(),
    );
    let a = 1u8;
    let b = 2u8;
    let stakes = vec![vec![entry(a, 100), entry(b, 0)], vec![entry(a, 50)]];
    let resolved = vec![resolved_to(a, Some(ka)), resolved_to(b, Some(kb))];
    let quorum_nums: Vec<u8> = vec![0, 1];
    let ops = get_operators_avs_state(3, &quorum_nums, &stakes, &resolved).unwrap();
    assert_eq!(ops.len(), 2);
    let op_a = &ops[0];
    let op_b = &ops[1];
    assert_eq!(op_a.operator_id, id(a));
    assert_eq!(op_b.operator_id, id(b));
    assert_eq!(op_a.block_num, 3);
    assert_eq!(
        get_stake_for_quorum(&op_a.stake_per_quorum, 0),
        Some(U256::from_u64(100))
    );
    assert_eq!(
        get_stake_for_quorum(&op_a.stake_per_quorum, 1),
        Some(U256::from_u64(50))
    );
    assert_eq!(
        get_stake_for_quorum(&op_b.stake_per_quorum, 0),
        Some(U256::from_u64(0))
    );
    assert_eq!(get_stake_for_quorum(&op_b.stake_per_quorum, 1), None);
    let out = avs_registry_service::aggregator::get_quorums_avs_state(3, &quorum_nums, &ops);
    assert_eq!(out[0].total_stake, U256::from_u64(100));
    assert_eq!(out[0].agg_pub_key_g1, Some(ka));
    assert_eq!(out[1].total_stake, U256::from_u64(50));
    assert_eq!(out[1].agg_pub_key_g1, Some(ka));
}

#[test]
fn aggregate_key_matches_curve_library_sum() {
    let g_ark = ark_bn254::G1Affine::generator();
    let two_g = point_from_ark((ark_bn254::G1Projective::from(g_ark) + g_ark).into_affine());
    let g = gen_point();
    // two included operators with the same key: the aggregate is its double
    let stakes = vec![vec![entry(1, 1), entry(2, 2)]];
    let resolved = vec![resolved_to(1, Some(g)), resolved_to(2, Some(g))];
    let out = aggregate(1, &[0], stakes, resolved);
    assert_eq!(out[0].agg_pub_key_g1, Some(two_g));
    assert_ne!(out[0].agg_pub_key_g1, Some(g));
    // the wrapper itself agrees with the curve library
    assert_eq!(g1_add(&g, &g), Some(two_g));
}

#[test]
fn opposite_points_sum_to_identity() {
    let g_ark = ark_bn254::G1Affine::generator();
    let neg_g = point_from_ark(-g_ark);
    let g = gen_point();
    assert_eq!(g1_add(&g, &neg_g), None);
    let stakes = vec![vec![entry(1, 1), entry(2, 1)]];
    let resolved = vec![resolved_to(1, Some(g)), resolved_to(2, Some(neg_g))];
    let out = aggregate(1, &[0], stakes, resolved);
    // both operators' stake counts, but the keys cancel to the identity
    assert_eq!(out[0].total_stake, U256::from_u64(2));
    assert_eq!(out[0].agg_pub_key_g1, None);
}

#[test]
fn quorum_with_no_entries_is_empty() {
    let g = gen_point();
    let stakes = vec![vec![entry(1, 10)], vec![]];
    let resolved = vec![resolved_to(1, Some(g))];
    let out = aggregate(1, &[0, 1], stakes, resolved);
    assert_eq!(out[1].total_stake, U256::from_u64(0));
    assert_eq!(out[1].agg_pub_key_g1, None);
}
