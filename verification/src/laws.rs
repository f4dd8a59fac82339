//! Laws the aggregation obeys, stated and proved over the same spec
//! functions the executable contracts use.

use vstd::prelude::*;

use crate::aggregator::agg_included;
use crate::aggregator::included;
use crate::aggregator::included_stake;
use crate::aggregator::sum_included;
use crate::builder::done;
use crate::builder::entry_at;
use crate::builder::has_op;
use crate::builder::ids_strictly_sorted;
use crate::builder::lemma_sorted_ids_unique;
use crate::builder::operators_post;
use crate::builder::quorums_wf;
use crate::builder::stake_traces_to_done;
use crate::builder::stakes_wf;
use crate::builder::traces_to_done;
use crate::builder::valid_entry;
use crate::state::OperatorAvsState;
use crate::state::ResolvedKey;
use crate::state::StakeEntry;
use crate::state::lemma_id_lt_irreflexive;
use crate::state::lemma_id_lt_trans;
use crate::state::op_stake;

verus! {

/// The included operators' keys for quorum `q`, in sequence order.
pub open spec fn included_keys(ops: Seq<OperatorAvsState>, q: u8) -> Seq<(nat, nat)>
    decreases ops.len(),
{
    if ops.len() == 0 {
        Seq::empty()
    } else if included(ops.last(), q) {
        included_keys(ops.drop_last(), q).push(ops.last().operator_pub_keys->Some_0.coords())
    } else {
        included_keys(ops.drop_last(), q)
    }
}

/// The curve-group fold of a key sequence, starting from the identity.
pub open spec fn fold_keys(ks: Seq<(nat, nat)>) -> Option<(nat, nat)>
    decreases ks.len(),
{
    if ks.len() == 0 {
        None
    } else {
        crate::g1::g1_acc(fold_keys(ks.drop_last()), ks.last())
    }
}

/// Law: a quorum's aggregate key is the curve-group sum of exactly the
/// included operators' keys.
pub proof fn lemma_agg_is_fold_of_included_keys(ops: Seq<OperatorAvsState>, q: u8)
    ensures
        agg_included(ops, q) == fold_keys(included_keys(ops, q)),
    decreases ops.len(),
{
    if ops.len() > 0 {
        lemma_agg_is_fold_of_included_keys(ops.drop_last(), q);
        if included(ops.last(), q) {
            assert(included_keys(ops, q).drop_last() =~= included_keys(ops.drop_last(), q));
        }
    }
}

/// Law: an operator with zero stake in a quorum, or with an unresolved
/// key, affects neither the quorum's stake total nor its aggregate key.
pub proof fn lemma_excluded_operator_irrelevant(ops: Seq<OperatorAvsState>, k: int, q: u8)
    requires
        0 <= k < ops.len(),
        !included(ops[k], q),
    ensures
        sum_included(ops.remove(k), q) == sum_included(ops, q),
        agg_included(ops.remove(k), q) == agg_included(ops, q),
    decreases ops.len(),
{
    if k == ops.len() - 1 {
        assert(ops.remove(k) =~= ops.drop_last());
    } else {
        assert(ops.remove(k).drop_last() =~= ops.drop_last().remove(k));
        assert(ops.remove(k).last() == ops.last());
        assert(ops.drop_last()[k] == ops[k]);
        lemma_excluded_operator_irrelevant(ops.drop_last(), k, q);
    }
}

/// Law: an operator included in a quorum has its key among exactly the
/// keys that quorum's aggregate sums.
pub proof fn lemma_included_key_contributes(ops: Seq<OperatorAvsState>, k: int, q: u8)
    requires
        0 <= k < ops.len(),
        included(ops[k], q),
    ensures
        included_keys(ops, q).contains(ops[k].operator_pub_keys->Some_0.coords()),
    decreases ops.len(),
{
    if k == ops.len() - 1 {
        assert(included_keys(ops, q).last() == ops[k].operator_pub_keys->Some_0.coords());
    } else {
        assert(ops.drop_last()[k] == ops[k]);
        lemma_included_key_contributes(ops.drop_last(), k, q);
        let w = choose|w: int|
            0 <= w < included_keys(ops.drop_last(), q).len() && included_keys(ops.drop_last(), q)[w]
                == ops[k].operator_pub_keys->Some_0.coords();
        if included(ops.last(), q) {
            assert(included_keys(ops, q)[w] == ops[k].operator_pub_keys->Some_0.coords());
        } else {
            assert(included_keys(ops, q)[w] == ops[k].operator_pub_keys->Some_0.coords());
        }
    }
}

/// Law: an operator holding positive stake in two requested quorums
/// contributes its public key to each quorum's aggregate independently.
pub proof fn lemma_operator_contributes_to_each_quorum(
    ops: Seq<OperatorAvsState>,
    k: int,
    q1: u8,
    q2: u8,
)
    requires
        0 <= k < ops.len(),
        included(ops[k], q1),
        included(ops[k], q2),
    ensures
        included_keys(ops, q1).contains(ops[k].operator_pub_keys->Some_0.coords()),
        included_keys(ops, q2).contains(ops[k].operator_pub_keys->Some_0.coords()),
{
    lemma_included_key_contributes(ops, k, q1);
    lemma_included_key_contributes(ops, k, q2);
}

/// Law: the per-quorum totals and aggregate keys are determined by what
/// each operator state answers — its stake per quorum and its key — in
/// sequence order; nothing else about the states matters.
pub proof fn lemma_aggregate_determined_by_observations(
    ops1: Seq<OperatorAvsState>,
    ops2: Seq<OperatorAvsState>,
    q: u8,
)
    requires
        ops1.len() == ops2.len(),
        forall|k: int|
            0 <= k < ops1.len() ==> crate::state::op_stake(#[trigger] ops1[k], q)
                == crate::state::op_stake(#[trigger] ops2[k], q),
        forall|k: int|
            0 <= k < ops1.len() ==> (#[trigger] ops1[k]).operator_pub_keys
                == (#[trigger] ops2[k]).operator_pub_keys,
    ensures
        sum_included(ops1, q) == sum_included(ops2, q),
        agg_included(ops1, q) == agg_included(ops2, q),
    decreases ops1.len(),
{
    if ops1.len() > 0 {
        assert(forall|k: int|
            0 <= k < ops1.drop_last().len() ==> #[trigger] ops1.drop_last()[k] == ops1[k]
                && #[trigger] ops2.drop_last()[k] == ops2[k]);
        lemma_aggregate_determined_by_observations(ops1.drop_last(), ops2.drop_last(), q);
        assert(included(ops1.last(), q) == included(ops2.last(), q));
    }
}

/// Law: within one call, every operator's key material is the table's
/// single answer for its identifier — however many quorums the operator
/// appears in, the same identifier always carries the same resolved key.
pub proof fn lemma_resolution_consistent(
    res: Seq<OperatorAvsState>,
    block_num: u32,
    quorum_nums: Seq<u8>,
    stakes: Seq<Vec<StakeEntry>>,
    resolved: Seq<ResolvedKey>,
    k1: int,
    k2: int,
)
    requires
        operators_post(res, block_num, quorum_nums, stakes, resolved),
        0 <= k1 < res.len(),
        0 <= k2 < res.len(),
        res[k1].operator_id@ == res[k2].operator_id@,
    ensures
        res[k1].operator_pub_keys == res[k2].operator_pub_keys,
        res[k1].operator_pub_keys == crate::state::resolved_lookup(
            resolved,
            res[k1].operator_id@,
        ),
        k1 == k2,
{
    lemma_sorted_ids_unique(res);
}

/// Two strictly sorted operator sequences carrying the same identifier
/// set list the same identifiers at the same positions.
pub proof fn lemma_sorted_same_ids_pointwise(res1: Seq<OperatorAvsState>, res2: Seq<OperatorAvsState>)
    requires
        ids_strictly_sorted(res1),
        ids_strictly_sorted(res2),
        forall|id: Seq<u8>| has_op(res1, id) <==> has_op(res2, id),
    ensures
        res1.len() == res2.len(),
        forall|k: int|
            0 <= k < res1.len() ==> (#[trigger] res1[k]).operator_id@ == res2[k].operator_id@,
    decreases res1.len(),
{
    if res1.len() == 0 {
        if res2.len() > 0 {
            assert(has_op(res2, res2[0].operator_id@));
            assert(has_op(res1, res2[0].operator_id@));
            assert(false);
        }
    } else {
        assert(has_op(res1, res1[0].operator_id@));
        assert(has_op(res2, res1[0].operator_id@));
        if res2.len() == 0 {
            assert(false);
        }
        let k2 = choose|k: int|
            0 <= k < res2.len() && (#[trigger] res2[k]).operator_id@ == res1[0].operator_id@;
        assert(has_op(res2, res2[0].operator_id@));
        assert(has_op(res1, res2[0].operator_id@));
        let k1 = choose|k: int|
            0 <= k < res1.len() && (#[trigger] res1[k]).operator_id@ == res2[0].operator_id@;
        // the heads carry equal identifiers
        if k2 > 0 {
            if k1 > 0 {
                lemma_id_lt_trans(
                    res1[0].operator_id@,
                    res1[k1].operator_id@,
                    res1[0].operator_id@,
                );
                lemma_id_lt_irreflexive(res1[0].operator_id@, res1[0].operator_id@);
                assert(false);
            } else {
                lemma_id_lt_irreflexive(res2[0].operator_id@, res2[k2].operator_id@);
                assert(false);
            }
        }
        assert(res1[0].operator_id@ == res2[0].operator_id@);
        let t1 = res1.skip(1);
        let t2 = res2.skip(1);
        assert(forall|m: int| 0 <= m < t1.len() ==> #[trigger] t1[m] == res1[m + 1]);
        assert(forall|m: int| 0 <= m < t2.len() ==> #[trigger] t2[m] == res2[m + 1]);
        lemma_sorted_ids_unique(res1);
        lemma_sorted_ids_unique(res2);
        assert forall|id: Seq<u8>| has_op(t1, id) implies has_op(t2, id) by {
            let m = choose|m: int| 0 <= m < t1.len() && (#[trigger] t1[m]).operator_id@ == id;
            assert(res1[m + 1].operator_id@ == id);
            assert(has_op(res1, id));
            assert(has_op(res2, id));
            let w = choose|w: int| 0 <= w < res2.len() && (#[trigger] res2[w]).operator_id@ == id;
            if w == 0 {
                assert(res1[m + 1].operator_id@ == res1[0].operator_id@);
                assert(false);
            }
            assert(t2[w - 1].operator_id@ == id);
        }
        assert forall|id: Seq<u8>| has_op(t2, id) implies has_op(t1, id) by {
            let m = choose|m: int| 0 <= m < t2.len() && (#[trigger] t2[m]).operator_id@ == id;
            assert(res2[m + 1].operator_id@ == id);
            assert(has_op(res2, id));
            assert(has_op(res1, id));
            let w = choose|w: int| 0 <= w < res1.len() && (#[trigger] res1[w]).operator_id@ == id;
            if w == 0 {
                assert(res2[m + 1].operator_id@ == res2[0].operator_id@);
                assert(false);
            }
            assert(t1[w - 1].operator_id@ == id);
        }
        lemma_sorted_same_ids_pointwise(t1, t2);
        assert forall|k: int| 0 <= k < res1.len() implies (#[trigger] res1[k]).operator_id@
            == res2[k].operator_id@ by {
            if k > 0 {
                assert(t1[k - 1].operator_id@ == t2[k - 1].operator_id@);
            }
        }
    }
}

/// Law: the result does not depend on the order in which the stake reader
/// lists each quorum's entries. Two builder results for per-quorum lists
/// that are permutations of one another observe identically — same
/// operators in the same canonical order, same keys, same per-quorum
/// stakes — so every quorum's stake total and aggregate key agree.
#[verifier::rlimit(60)]
pub proof fn lemma_state_independent_of_entry_order(
    res1: Seq<OperatorAvsState>,
    res2: Seq<OperatorAvsState>,
    block_num: u32,
    quorum_nums: Seq<u8>,
    stakes1: Seq<Vec<StakeEntry>>,
    stakes2: Seq<Vec<StakeEntry>>,
    resolved: Seq<ResolvedKey>,
)
    requires
        quorums_wf(quorum_nums),
        stakes_wf(stakes1),
        stakes_wf(stakes2),
        stakes1.len() == quorum_nums.len(),
        stakes2.len() == quorum_nums.len(),
        forall|i: int|
            0 <= i < quorum_nums.len() ==> (#[trigger] stakes1[i])@.to_multiset()
                == stakes2[i]@.to_multiset(),
        operators_post(res1, block_num, quorum_nums, stakes1, resolved),
        operators_post(res2, block_num, quorum_nums, stakes2, resolved),
    ensures
        res1.len() == res2.len(),
        forall|k: int|
            0 <= k < res1.len() ==> (#[trigger] res1[k]).operator_id@ == res2[k].operator_id@,
        forall|k: int|
            0 <= k < res1.len() ==> (#[trigger] res1[k]).operator_pub_keys
                == res2[k].operator_pub_keys,
        forall|q: u8| #[trigger] sum_included(res1, q) == sum_included(res2, q),
        forall|q: u8| #[trigger] agg_included(res1, q) == agg_included(res2, q),
{
    let len = stakes1.len() as int;
    // a stake entry present in one telling of a quorum's list is present
    // in the other
    assert forall|i: int, j: int| valid_entry(stakes1, i, j) implies exists|j2: int|
        valid_entry(stakes2, i, j2) && #[trigger] entry_at(stakes2, i, j2) == entry_at(
            stakes1,
            i,
            j,
        ) by {
        let e = entry_at(stakes1, i, j);
        stakes1[i]@.to_multiset_ensures();
        stakes2[i]@.to_multiset_ensures();
        assert(stakes1[i]@[j] == e);
        assert(stakes1[i]@.contains(e));
        assert(stakes2[i]@.to_multiset().count(e) > 0);
        assert(stakes2[i]@.contains(e));
        let j2 = choose|j2: int| 0 <= j2 < stakes2[i]@.len() && stakes2[i]@[j2] == e;
        assert(valid_entry(stakes2, i, j2) && entry_at(stakes2, i, j2) == e);
    }
    assert forall|i: int, j: int| valid_entry(stakes2, i, j) implies exists|j2: int|
        valid_entry(stakes1, i, j2) && #[trigger] entry_at(stakes1, i, j2) == entry_at(
            stakes2,
            i,
            j,
        ) by {
        let e = entry_at(stakes2, i, j);
        stakes1[i]@.to_multiset_ensures();
        stakes2[i]@.to_multiset_ensures();
        assert(stakes2[i]@[j] == e);
        assert(stakes2[i]@.contains(e));
        assert(stakes1[i]@.to_multiset().count(e) > 0);
        assert(stakes1[i]@.contains(e));
        let j2 = choose|j2: int| 0 <= j2 < stakes1[i]@.len() && stakes1[i]@[j2] == e;
        assert(valid_entry(stakes1, i, j2) && entry_at(stakes1, i, j2) == e);
    }
    // both results list exactly the identifiers seen in the entries
    assert forall|id: Seq<u8>| has_op(res1, id) implies has_op(res2, id) by {
        let k = choose|k: int| 0 <= k < res1.len() && (#[trigger] res1[k]).operator_id@ == id;
        assert(traces_to_done(stakes1, id, len, 0));
        let (i, j) = choose|i: int, j: int|
            valid_entry(stakes1, i, j) && done(i, j, len, 0) && (#[trigger] entry_at(
                stakes1,
                i,
                j,
            )).operator_id@ == id;
        let j2 = choose|j2: int|
            valid_entry(stakes2, i, j2) && #[trigger] entry_at(stakes2, i, j2) == entry_at(
                stakes1,
                i,
                j,
            );
        assert(done(i, j2, len, 0));
        assert(has_op(res2, entry_at(stakes2, i, j2).operator_id@));
    }
    assert forall|id: Seq<u8>| has_op(res2, id) implies has_op(res1, id) by {
        let k = choose|k: int| 0 <= k < res2.len() && (#[trigger] res2[k]).operator_id@ == id;
        assert(traces_to_done(stakes2, id, len, 0));
        let (i, j) = choose|i: int, j: int|
            valid_entry(stakes2, i, j) && done(i, j, len, 0) && (#[trigger] entry_at(
                stakes2,
                i,
                j,
            )).operator_id@ == id;
        let j2 = choose|j2: int|
            valid_entry(stakes1, i, j2) && #[trigger] entry_at(stakes1, i, j2) == entry_at(
                stakes2,
                i,
                j,
            );
        assert(done(i, j2, len, 0));
        assert(has_op(res1, entry_at(stakes1, i, j2).operator_id@));
    }
    lemma_sorted_same_ids_pointwise(res1, res2);
    // per-quorum stakes observed agree operator by operator
    assert forall|k: int, q: u8| 0 <= k < res1.len() implies #[trigger] op_stake(res1[k], q)
        == #[trigger] op_stake(res2[k], q) by {
        lemma_same_stake_observation(res1, res2, block_num, quorum_nums, stakes1, stakes2, resolved, k, q);
        lemma_same_stake_observation(res2, res1, block_num, quorum_nums, stakes2, stakes1, resolved, k, q);
        if op_stake(res1[k], q) is Some || op_stake(res2[k], q) is Some {
        }
    }
    assert forall|q: u8| #[trigger] sum_included(res1, q) == sum_included(res2, q) by {
        lemma_aggregate_determined_by_observations(res1, res2, q);
    }
    assert forall|q: u8| #[trigger] agg_included(res1, q) == agg_included(res2, q) by {
        lemma_aggregate_determined_by_observations(res1, res2, q);
    }
}

/// Where one result records a stake for an operator and a quorum, the
/// other records the same stake for the same operator.
proof fn lemma_same_stake_observation(
    res1: Seq<OperatorAvsState>,
    res2: Seq<OperatorAvsState>,
    block_num: u32,
    quorum_nums: Seq<u8>,
    stakes1: Seq<Vec<StakeEntry>>,
    stakes2: Seq<Vec<StakeEntry>>,
    resolved: Seq<ResolvedKey>,
    k: int,
    q: u8,
)
    requires
        quorums_wf(quorum_nums),
        stakes1.len() == quorum_nums.len(),
        stakes2.len() == quorum_nums.len(),
        forall|i: int|
            0 <= i < quorum_nums.len() ==> (#[trigger] stakes1[i])@.to_multiset()
                == stakes2[i]@.to_multiset(),
        operators_post(res1, block_num, quorum_nums, stakes1, resolved),
        operators_post(res2, block_num, quorum_nums, stakes2, resolved),
        res1.len() == res2.len(),
        0 <= k < res1.len(),
        res1[k].operator_id@ == res2[k].operator_id@,
    ensures
        op_stake(res1[k], q) is Some ==> op_stake(res2[k], q) == op_stake(res1[k], q),
{
    let len = stakes1.len() as int;
    if op_stake(res1[k], q) is Some {
        assert(stake_traces_to_done(stakes1, quorum_nums, res1[k].operator_id@, q, len, 0));
        let (i, j) = choose|i: int, j: int|
            valid_entry(stakes1, i, j) && done(i, j, len, 0) && quorum_nums[i] == q && (#[trigger] entry_at(
                stakes1,
                i,
                j,
            )).operator_id@ == res1[k].operator_id@;
        let e = entry_at(stakes1, i, j);
        // its amount is the entry's stake, in both results
        assert(op_stake(res1[k], quorum_nums[i]) == Some(e.stake));
        stakes1[i]@.to_multiset_ensures();
        stakes2[i]@.to_multiset_ensures();
        assert(stakes1[i]@[j] == e);
        assert(stakes1[i]@.contains(e));
        assert(stakes2[i]@.to_multiset().count(e) > 0);
        assert(stakes2[i]@.contains(e));
        let j2 = choose|j2: int| 0 <= j2 < stakes2[i]@.len() && stakes2[i]@[j2] == e;
        assert(valid_entry(stakes2, i, j2) && done(i, j2, len, 0));
        assert(entry_at(stakes2, i, j2) == e);
        assert(op_stake(res2[k], quorum_nums[i]) == Some(e.stake));
    }
}

} // verus!
