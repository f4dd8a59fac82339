//! The quorum state aggregator: for each requested quorum, the total
//! stake and the curve-group sum of the public keys of every operator
//! with strictly positive stake in that quorum and a resolved key.
//! Operators are folded in the order the operator state sequence gives
//! them — ascending identifier order when it comes from the builder — so
//! the result is canonical.

use vstd::prelude::*;

use crate::g1::G1PublicKey;
use crate::g1::g1_acc;
use crate::g1::g1_add;
use crate::g1::key_view;
use crate::g1::on_curve;
use crate::state::OperatorAvsState;
use crate::state::QuorumAvsState;
use crate::state::get_stake_for_quorum;
use crate::state::op_stake;
use crate::u256::U256;

verus! {

/// Whether an operator counts toward quorum `q`: strictly positive stake
/// recorded for `q`, and resolved key material. Operators failing either
/// test contribute neither stake nor key.
pub open spec fn included(op: OperatorAvsState, q: u8) -> bool {
    (op_stake(op, q) matches Some(s) && s.as_nat() > 0) && op.operator_pub_keys is Some
}

/// The stake an operator contributes to quorum `q`; an excluded operator
/// contributes zero.
pub open spec fn included_stake(op: OperatorAvsState, q: u8) -> nat {
    if included(op, q) {
        op_stake(op, q)->Some_0.as_nat()
    } else {
        0
    }
}

/// The total stake of exactly the operators included in quorum `q`.
pub open spec fn sum_included(ops: Seq<OperatorAvsState>, q: u8) -> nat
    decreases ops.len(),
{
    if ops.len() == 0 {
        0
    } else {
        sum_included(ops.drop_last(), q) + included_stake(ops.last(), q)
    }
}

/// The aggregate key of quorum `q`: the curve-group fold, in sequence
/// order, of exactly the included operators' keys, starting from the
/// group identity (`None`).
pub open spec fn agg_included(ops: Seq<OperatorAvsState>, q: u8) -> Option<(nat, nat)>
    decreases ops.len(),
{
    if ops.len() == 0 {
        None
    } else if included(ops.last(), q) {
        g1_acc(agg_included(ops.drop_last(), q), ops.last().operator_pub_keys->Some_0.coords())
    } else {
        agg_included(ops.drop_last(), q)
    }
}

/// A prefix of the operators never carries more included stake than the
/// whole sequence.
pub proof fn lemma_sum_included_prefix(ops: Seq<OperatorAvsState>, q: u8, k: int)
    requires
        0 <= k <= ops.len(),
    ensures
        sum_included(ops.take(k), q) <= sum_included(ops, q),
    decreases ops.len() - k,
{
    if k == ops.len() {
        assert(ops.take(k) =~= ops);
    } else {
        assert(ops.take(k + 1).drop_last() =~= ops.take(k));
        assert(ops.take(k + 1).last() == ops[k]);
        lemma_sum_included_prefix(ops, q, k + 1);
    }
}

/// Computes, for each requested quorum in request order, its aggregate
/// state at the queried block: the total stake of the operators included
/// in it and the curve-group sum of their public keys (`None` when the
/// sum is the group identity, in particular when no operator qualifies).
#[verifier::loop_isolation(false)]
pub fn get_quorums_avs_state(
    block_num: u32,
    quorum_nums: &Vec<u8>,
    ops: &Vec<OperatorAvsState>,
) -> (r: Vec<QuorumAvsState>)
    requires
        forall|k: int|
            0 <= k < ops@.len() ==> ((#[trigger] ops@[k]).operator_pub_keys matches Some(pk)
                ==> on_curve(pk.coords())),
        forall|i: int|
            0 <= i < quorum_nums@.len() ==> sum_included(ops@, #[trigger] quorum_nums@[i])
                < 0x1_0000_0000_0000_0000_0000_0000_0000_0000_0000_0000_0000_0000_0000_0000_0000_0000,
    ensures
        r@.len() == quorum_nums@.len(),
        forall|i: int|
            0 <= i < quorum_nums@.len() ==> {
                &&& (#[trigger] r@[i]).quorum_num == quorum_nums@[i]
                &&& r@[i].block_num == block_num
                &&& r@[i].total_stake.as_nat() == sum_included(ops@, quorum_nums@[i])
                &&& key_view(r@[i].agg_pub_key_g1) == agg_included(ops@, quorum_nums@[i])
            },
{
    let mut out: Vec<QuorumAvsState> = Vec::new();
    let mut i: usize = 0;
    while i < quorum_nums.len()
        invariant
            0 <= i <= quorum_nums@.len(),
            out@.len() == i,
            forall|i2: int|
                0 <= i2 < i ==> {
                    &&& (#[trigger] out@[i2]).quorum_num == quorum_nums@[i2]
                    &&& out@[i2].block_num == block_num
                    &&& out@[i2].total_stake.as_nat() == sum_included(ops@, quorum_nums@[i2])
                    &&& key_view(out@[i2].agg_pub_key_g1) == agg_included(ops@, quorum_nums@[i2])
                },
        decreases quorum_nums@.len() - i,
    {
        let q = quorum_nums[i];
        let mut total = U256::zero();
        let mut agg: Option<G1PublicKey> = None;
        let mut k: usize = 0;
        proof {
            assert(ops@.take(0) =~= Seq::<OperatorAvsState>::empty());
        }
        while k < ops.len()
            invariant
                0 <= k <= ops@.len(),
                q == quorum_nums@[i as int],
                i < quorum_nums@.len(),
                total.as_nat() == sum_included(ops@.take(k as int), q),
                key_view(agg) == agg_included(ops@.take(k as int), q),
                agg matches Some(p) ==> on_curve(p.coords()),
            decreases ops@.len() - k,
        {
            proof {
                assert(ops@.take(k as int + 1).drop_last() =~= ops@.take(k as int));
                assert(ops@.take(k as int + 1).last() == ops@[k as int]);
            }
            let op = &ops[k];
            let st_opt = get_stake_for_quorum(&op.stake_per_quorum, q);
            if let Some(st) = st_opt {
                if !st.is_zero() {
                    if let Some(keys) = &op.operator_pub_keys {
                        proof {
                            assert(included(ops@[k as int], q));
                            lemma_sum_included_prefix(ops@, q, k as int + 1);
                            assert(sum_included(ops@, q)
                                < 0x1_0000_0000_0000_0000_0000_0000_0000_0000_0000_0000_0000_0000_0000_0000_0000_0000);
                        }
                        total = match total.checked_add(&st) {
                            Some(t) => t,
                            None => {
                                proof {
                                    assert(false);
                                }
                                U256::zero()
                            },
                        };
                        agg = match agg {
                            None => Some(*keys),
                            Some(a) => g1_add(&a, keys),
                        };
                    }
                }
            }
            k += 1;
        }
        proof {
            assert(ops@.take(ops@.len() as int) =~= ops@);
        }
        out.push(
            QuorumAvsState { quorum_num: q, total_stake: total, agg_pub_key_g1: agg, block_num },
        );
        i += 1;
    }
    out
}

} // verus!
