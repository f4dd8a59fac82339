//! The operator state builder: folds the ledger's per-quorum stake lists
//! and the resolved key table into one composite state per operator,
//! ordered by ascending operator identifier so the result is canonical.

use vstd::prelude::*;

use crate::state::AvsError;
use crate::state::OperatorAvsState;
use crate::state::ResolvedKey;
use crate::state::StakeEntry;
use crate::state::get_operator_public_keys;
use crate::state::id_eq;
use crate::state::id_less;
use crate::state::id_lt;
use crate::state::lemma_id_lt_irreflexive;
use crate::state::lemma_id_lt_trans;
use crate::state::lemma_id_trichotomy;
use crate::state::lemma_spq_push;
use crate::state::spq_lookup;
use crate::state::op_stake;
use crate::state::resolved_has;
use crate::state::resolved_lookup;
use crate::u256::U256;

verus! {

/// The stake entry at position `j` of the list for the `i`-th requested
/// quorum.
pub open spec fn entry_at(stakes: Seq<Vec<StakeEntry>>, i: int, j: int) -> StakeEntry {
    stakes[i]@[j]
}

/// Whether `(i, j)` indexes a real entry.
pub open spec fn valid_entry(stakes: Seq<Vec<StakeEntry>>, i: int, j: int) -> bool {
    0 <= i < stakes.len() && 0 <= j < stakes[i]@.len()
}

/// Whether entry `(i2, j2)` comes before position `(i, j)` in the fold
/// order: quorums in request order, entries in list order within one.
pub open spec fn done(i2: int, j2: int, i: int, j: int) -> bool {
    0 <= i2 && 0 <= j2 && (i2 < i || (i2 == i && j2 < j))
}

/// The result holds operators in strictly ascending identifier order.
pub open spec fn ids_strictly_sorted(res: Seq<OperatorAvsState>) -> bool {
    forall|k1: int, k2: int|
        0 <= k1 < k2 < res.len() ==> id_lt(res[k1].operator_id@, res[k2].operator_id@)
}

/// Whether some operator in `res` carries the identifier `id`.
pub open spec fn has_op(res: Seq<OperatorAvsState>, id: Seq<u8>) -> bool {
    exists|k: int| 0 <= k < res.len() && (#[trigger] res[k]).operator_id@ == id
}

/// Whether some entry before position `(i, j)` names the identifier `id`.
pub open spec fn traces_to_done(stakes: Seq<Vec<StakeEntry>>, id: Seq<u8>, i: int, j: int) -> bool {
    exists|i2: int, j2: int|
        valid_entry(stakes, i2, j2) && done(i2, j2, i, j) && (#[trigger] entry_at(
            stakes,
            i2,
            j2,
        )).operator_id@ == id
}

/// Whether some entry before position `(i, j)` lies in the list of the
/// quorum `q` and names the identifier `id`.
pub open spec fn stake_traces_to_done(
    stakes: Seq<Vec<StakeEntry>>,
    quorum_nums: Seq<u8>,
    id: Seq<u8>,
    q: u8,
    i: int,
    j: int,
) -> bool {
    exists|i2: int, j2: int|
        valid_entry(stakes, i2, j2) && done(i2, j2, i, j) && quorum_nums[i2] == q && (#[trigger] entry_at(
            stakes,
            i2,
            j2,
        )).operator_id@ == id
}

/// What the builder guarantees once every stake entry before position
/// `(i, j)` has been folded in: the result is sorted, every operator
/// carries the queried block and its resolved key, the operators are
/// exactly those seen in folded entries, and each operator's stake map
/// holds exactly the folded entries' amounts.
pub open spec fn operators_progress(
    res: Seq<OperatorAvsState>,
    block_num: u32,
    quorum_nums: Seq<u8>,
    stakes: Seq<Vec<StakeEntry>>,
    resolved: Seq<ResolvedKey>,
    i: int,
    j: int,
) -> bool {
    &&& ids_strictly_sorted(res)
    &&& forall|k: int| 0 <= k < res.len() ==> (#[trigger] res[k]).block_num == block_num as u64
    &&& forall|k: int|
        0 <= k < res.len() ==> (#[trigger] res[k]).operator_pub_keys == resolved_lookup(
            resolved,
            res[k].operator_id@,
        )
    &&& forall|k: int|
        0 <= k < res.len() ==> traces_to_done(stakes, (#[trigger] res[k]).operator_id@, i, j)
    &&& forall|i2: int, j2: int|
        valid_entry(stakes, i2, j2) && done(i2, j2, i, j) ==> has_op(
            res,
            (#[trigger] entry_at(stakes, i2, j2)).operator_id@,
        )
    &&& forall|k: int, i2: int, j2: int|
        0 <= k < res.len() && valid_entry(stakes, i2, j2) && done(i2, j2, i, j) && (#[trigger] entry_at(
            stakes,
            i2,
            j2,
        )).operator_id@ == (#[trigger] res[k]).operator_id@ ==> op_stake(res[k], quorum_nums[i2])
            == Some(entry_at(stakes, i2, j2).stake)
    &&& forall|k: int, q: u8|
        0 <= k < res.len() && (#[trigger] op_stake(res[k], q)) is Some ==> stake_traces_to_done(
            stakes,
            quorum_nums,
            res[k].operator_id@,
            q,
            i,
            j,
        )
}

/// The builder's full guarantee: `operators_progress` with every entry
/// folded in.
pub open spec fn operators_post(
    res: Seq<OperatorAvsState>,
    block_num: u32,
    quorum_nums: Seq<u8>,
    stakes: Seq<Vec<StakeEntry>>,
    resolved: Seq<ResolvedKey>,
) -> bool {
    operators_progress(res, block_num, quorum_nums, stakes, resolved, stakes.len() as int, 0)
}

/// The requested quorum identifiers: at least one, all distinct.
pub open spec fn quorums_wf(quorum_nums: Seq<u8>) -> bool {
    &&& quorum_nums.len() >= 1
    &&& forall|i1: int, i2: int|
        0 <= i1 < i2 < quorum_nums.len() ==> quorum_nums[i1] != quorum_nums[i2]
}

/// Each quorum's list names an operator at most once: one entry per
/// (quorum, operator) pair, as the ledger supplies them.
pub open spec fn stakes_wf(stakes: Seq<Vec<StakeEntry>>) -> bool {
    forall|i: int, j1: int, j2: int|
        0 <= i < stakes.len() && 0 <= j1 < j2 < stakes[i]@.len() ==> (#[trigger] entry_at(
            stakes,
            i,
            j1,
        )).operator_id@ != (#[trigger] entry_at(stakes, i, j2)).operator_id@
}

/// Every operator named by a stake entry has a row in the resolution
/// table (an identifier with recorded stake always resolves to an
/// address; a missing row is the caller's fatal lookup failure).
pub open spec fn resolved_covers(resolved: Seq<ResolvedKey>, stakes: Seq<Vec<StakeEntry>>) -> bool {
    forall|i: int, j: int|
        valid_entry(stakes, i, j) ==> resolved_has(
            resolved,
            (#[trigger] entry_at(stakes, i, j)).operator_id@,
        )
}

/// Strictly sorted operators have pairwise distinct identifiers.
pub proof fn lemma_sorted_ids_unique(res: Seq<OperatorAvsState>)
    requires
        ids_strictly_sorted(res),
    ensures
        forall|k1: int, k2: int|
            0 <= k1 < res.len() && 0 <= k2 < res.len() && k1 != k2 ==> (#[trigger] res[k1]).operator_id@
                != (#[trigger] res[k2]).operator_id@,
{
    assert forall|k1: int, k2: int|
        0 <= k1 < res.len() && 0 <= k2 < res.len() && k1 != k2 implies (#[trigger] res[k1]).operator_id@
        != (#[trigger] res[k2]).operator_id@ by {
        if k1 < k2 {
            lemma_id_lt_irreflexive(res[k1].operator_id@, res[k2].operator_id@);
        } else {
            lemma_id_lt_irreflexive(res[k2].operator_id@, res[k1].operator_id@);
        }
    }
}

/// Whether an identifier list holds `id`.
pub open spec fn ids_contain(ids: Seq<[u8; 32]>, id: Seq<u8>) -> bool {
    exists|m: int| 0 <= m < ids.len() && (#[trigger] ids[m])@ == id
}

/// Whether an identifier list holds `id`.
fn find_id(ids: &Vec<[u8; 32]>, id: &[u8; 32]) -> (r: bool)
    ensures
        r == ids_contain(ids@, id@),
{
    let mut m: usize = 0;
    while m < ids.len()
        invariant
            0 <= m <= ids@.len(),
            forall|m2: int| 0 <= m2 < m ==> (#[trigger] ids@[m2])@ != id@,
        decreases ids@.len() - m,
    {
        if id_eq(&ids[m], id) {
            return true;
        }
        m += 1;
    }
    false
}

/// The distinct operator identifiers named anywhere in the per-quorum
/// stake lists, in order of first appearance: each exactly once, so a
/// caller resolves every operator's key material once per call, however
/// many quorums the operator appears in.
#[verifier::loop_isolation(false)]
pub fn distinct_operator_ids(stakes: &Vec<Vec<StakeEntry>>) -> (r: Vec<[u8; 32]>)
    ensures
        forall|m1: int, m2: int|
            0 <= m1 < m2 < r@.len() ==> (#[trigger] r@[m1])@ != (#[trigger] r@[m2])@,
        forall|i: int, j: int|
            valid_entry(stakes@, i, j) ==> ids_contain(
                r@,
                (#[trigger] entry_at(stakes@, i, j)).operator_id@,
            ),
        forall|m: int|
            0 <= m < r@.len() ==> traces_to_done(
                stakes@,
                (#[trigger] r@[m])@,
                stakes@.len() as int,
                0,
            ),
{
    let mut ids: Vec<[u8; 32]> = Vec::new();
    let mut i: usize = 0;
    while i < stakes.len()
        invariant
            0 <= i <= stakes@.len(),
            forall|m1: int, m2: int|
                0 <= m1 < m2 < ids@.len() ==> (#[trigger] ids@[m1])@ != (#[trigger] ids@[m2])@,
            forall|i2: int, j2: int|
                valid_entry(stakes@, i2, j2) && done(i2, j2, i as int, 0) ==> ids_contain(
                    ids@,
                    (#[trigger] entry_at(stakes@, i2, j2)).operator_id@,
                ),
            forall|m: int|
                0 <= m < ids@.len() ==> traces_to_done(stakes@, (#[trigger] ids@[m])@, i as int, 0),
        decreases stakes@.len() - i,
    {
        let mut j: usize = 0;
        while j < stakes[i].len()
            invariant
                0 <= j <= stakes@[i as int]@.len(),
                i < stakes@.len(),
                forall|m1: int, m2: int|
                    0 <= m1 < m2 < ids@.len() ==> (#[trigger] ids@[m1])@ != (#[trigger] ids@[m2])@,
                forall|i2: int, j2: int|
                    valid_entry(stakes@, i2, j2) && done(i2, j2, i as int, j as int) ==> ids_contain(
                        ids@,
                        (#[trigger] entry_at(stakes@, i2, j2)).operator_id@,
                    ),
                forall|m: int|
                    0 <= m < ids@.len() ==> traces_to_done(
                        stakes@,
                        (#[trigger] ids@[m])@,
                        i as int,
                        j as int,
                    ),
            decreases stakes@[i as int]@.len() - j,
        {
            let e = stakes[i][j];
            assert(e == entry_at(stakes@, i as int, j as int));
            let ghost ids0 = ids@;
            if !find_id(&ids, &e.operator_id) {
                ids.push(e.operator_id);
            }
            proof {
                assert forall|i2: int, j2: int|
                    valid_entry(stakes@, i2, j2) && done(i2, j2, i as int, j as int + 1) implies ids_contain(
                    ids@,
                    (#[trigger] entry_at(stakes@, i2, j2)).operator_id@,
                ) by {
                    if done(i2, j2, i as int, j as int) {
                        let w = choose|w: int|
                            0 <= w < ids0.len() && (#[trigger] ids0[w])@ == entry_at(
                                stakes@,
                                i2,
                                j2,
                            ).operator_id@;
                        assert((ids@[w])@ == entry_at(stakes@, i2, j2).operator_id@);
                    } else {
                        assert(i2 == i as int && j2 == j as int);
                        if ids_contain(ids0, e.operator_id@) {
                            let w = choose|w: int|
                                0 <= w < ids0.len() && (#[trigger] ids0[w])@ == e.operator_id@;
                            assert((ids@[w])@ == e.operator_id@);
                        } else {
                            assert((ids@[ids@.len() - 1])@ == e.operator_id@);
                        }
                    }
                }
                assert forall|m: int| 0 <= m < ids@.len() implies traces_to_done(
                    stakes@,
                    (#[trigger] ids@[m])@,
                    i as int,
                    j as int + 1,
                ) by {
                    if m < ids0.len() {
                        assert(ids@[m] == ids0[m]);
                        let (i2, j2) = choose|i2: int, j2: int|
                            valid_entry(stakes@, i2, j2) && done(i2, j2, i as int, j as int) && (#[trigger] entry_at(
                                stakes@,
                                i2,
                                j2,
                            )).operator_id@ == (ids0[m])@;
                        assert(valid_entry(stakes@, i2, j2) && done(i2, j2, i as int, j as int + 1)
                            && entry_at(stakes@, i2, j2).operator_id@ == (ids@[m])@);
                    } else {
                        assert((ids@[m])@ == e.operator_id@);
                        assert(valid_entry(stakes@, i as int, j as int) && done(
                            i as int,
                            j as int,
                            i as int,
                            j as int + 1,
                        ) && entry_at(stakes@, i as int, j as int).operator_id@ == (ids@[m])@);
                    }
                }
            }
            j += 1;
        }
        proof {
            let jlen = stakes@[i as int]@.len() as int;
            assert forall|i2: int, j2: int|
                valid_entry(stakes@, i2, j2) && done(i2, j2, i as int + 1, 0) implies ids_contain(
                ids@,
                (#[trigger] entry_at(stakes@, i2, j2)).operator_id@,
            ) by {
                assert(done(i2, j2, i as int, jlen));
            }
            assert forall|m: int| 0 <= m < ids@.len() implies traces_to_done(
                stakes@,
                (#[trigger] ids@[m])@,
                i as int + 1,
                0,
            ) by {
                let (i2, j2) = choose|i2: int, j2: int|
                    valid_entry(stakes@, i2, j2) && done(i2, j2, i as int, jlen) && (#[trigger] entry_at(
                        stakes@,
                        i2,
                        j2,
                    )).operator_id@ == (ids@[m])@;
                assert(valid_entry(stakes@, i2, j2) && done(i2, j2, i as int + 1, 0) && entry_at(
                    stakes@,
                    i2,
                    j2,
                ).operator_id@ == (ids@[m])@);
            }
        }
        i += 1;
    }
    ids
}

/// The index of the operator carrying `id`, if one is present.
fn find_op(res: &Vec<OperatorAvsState>, id: &[u8; 32]) -> (r: Option<usize>)
    ensures
        match r {
            Some(k) => (k as int) < res@.len() && res@[k as int].operator_id@ == id@,
            None => !has_op(res@, id@),
        },
{
    let mut k: usize = 0;
    while k < res.len()
        invariant
            0 <= k <= res@.len(),
            forall|k2: int| 0 <= k2 < k ==> (#[trigger] res@[k2]).operator_id@ != id@,
        decreases res@.len() - k,
    {
        if id_eq(&res[k].operator_id, id) {
            return Some(k);
        }
        k += 1;
    }
    None
}

/// Inserts a fresh operator at its place in ascending identifier order.
#[verifier::loop_isolation(false)]
fn insert_op_sorted(res: &mut Vec<OperatorAvsState>, op: OperatorAvsState)
    requires
        ids_strictly_sorted(old(res)@),
        !has_op(old(res)@, op.operator_id@),
    ensures
        exists|p: int| 0 <= p <= old(res)@.len() && final(res)@ == old(res)@.insert(p, op),
        ids_strictly_sorted(final(res)@),
{
    let mut p: usize = 0;
    while p < res.len()
        invariant
            0 <= p <= res@.len(),
            forall|k: int| 0 <= k < p ==> id_lt((#[trigger] res@[k]).operator_id@, op.operator_id@),
        decreases res@.len() - p,
    {
        if !id_less(&res[p].operator_id, &op.operator_id) {
            break ;
        }
        p += 1;
    }
    proof {
        if (p as int) < res@.len() {
            assert(res@[p as int].operator_id@ != op.operator_id@);
            if !id_lt(op.operator_id@, res@[p as int].operator_id@) {
                lemma_id_trichotomy(res@[p as int].operator_id@, op.operator_id@);
                assert(false);
            }
            assert forall|k: int| p < k < res@.len() implies id_lt(
                op.operator_id@,
                (#[trigger] res@[k]).operator_id@,
            ) by {
                lemma_id_lt_trans(
                    op.operator_id@,
                    res@[p as int].operator_id@,
                    res@[k].operator_id@,
                );
            }
        }
        res@.insert_ensures(p as int, op);
    }
    let ghost r0 = res@;
    res.insert(p, op);
    proof {
        assert forall|k1: int, k2: int| 0 <= k1 < k2 < res@.len() implies id_lt(
            res@[k1].operator_id@,
            res@[k2].operator_id@,
        ) by {
            if k2 < p {
            } else if k1 == p {
                assert(res@[k2] == r0[k2 - 1]);
            } else if k2 == p {
                assert(res@[k1] == r0[k1]);
            } else if k1 < p {
                assert(res@[k1] == r0[k1] && res@[k2] == r0[k2 - 1]);
                if k2 - 1 == k1 {
                    assert(k1 < p <= k2 - 1);
                } else {
                }
            } else {
                assert(res@[k1] == r0[k1 - 1] && res@[k2] == r0[k2 - 1]);
            }
        }
    }
}

/// Builds, for a block height and the requested quorums, the composite
/// state of every operator seen in the ledger's stake lists: its resolved
/// key material and its stake in each requested quorum, keyed by operator
/// identifier in ascending order. Fails with `MalformedResponse` exactly
/// when the stake reader handed back a different number of per-quorum
/// lists than quorums requested.
#[verifier::loop_isolation(false)]
pub fn get_operators_avs_state(
    block_num: u32,
    quorum_nums: &Vec<u8>,
    stakes: &Vec<Vec<StakeEntry>>,
    resolved: &Vec<ResolvedKey>,
) -> (r: Result<Vec<OperatorAvsState>, AvsError>)
    requires
        quorums_wf(quorum_nums@),
        stakes_wf(stakes@),
        stakes@.len() == quorum_nums@.len() ==> resolved_covers(resolved@, stakes@),
    ensures
        match r {
            Ok(res) => stakes@.len() == quorum_nums@.len() && operators_post(
                res@,
                block_num,
                quorum_nums@,
                stakes@,
                resolved@,
            ),
            Err(e) => stakes@.len() != quorum_nums@.len() && e == AvsError::MalformedResponse,
        },
{
    if stakes.len() != quorum_nums.len() {
        return Err(AvsError::MalformedResponse);
    }
    let mut res: Vec<OperatorAvsState> = Vec::new();
    let mut i: usize = 0;
    while i < quorum_nums.len()
        invariant
            0 <= i <= quorum_nums@.len(),
            operators_progress(res@, block_num, quorum_nums@, stakes@, resolved@, i as int, 0),
        decreases quorum_nums@.len() - i,
    {
        let q = quorum_nums[i];
        let mut j: usize = 0;
        while j < stakes[i].len()
            invariant
                0 <= j <= stakes@[i as int]@.len(),
                operators_progress(
                    res@,
                    block_num,
                    quorum_nums@,
                    stakes@,
                    resolved@,
                    i as int,
                    j as int,
                ),
            decreases stakes@[i as int]@.len() - j,
        {
            let e = stakes[i][j];
            assert(e == entry_at(stakes@, i as int, j as int));
            match find_op(&res, &e.operator_id) {
                Some(k) => {
                    fold_into_existing(block_num, quorum_nums, stakes, resolved, &mut res, i, j, k, q, e);
                }
                None => {
                    let keys = get_operator_public_keys(resolved, &e.operator_id);
                    let mut spq: Vec<(u8, U256)> = Vec::new();
                    spq.push((q, e.stake));
                    let op = OperatorAvsState {
                        operator_id: e.operator_id,
                        operator_pub_keys: keys,
                        stake_per_quorum: spq,
                        block_num: block_num as u64,
                    };
                    fold_in_fresh(block_num, quorum_nums, stakes, resolved, &mut res, i, j, q, e, op);
                }
            }
            j += 1;
        }
        proof {
            lemma_progress_next_quorum(
                res@,
                block_num,
                quorum_nums@,
                stakes@,
                resolved@,
                i as int,
            );
        }
        i += 1;
    }
    Ok(res)
}

/// After the whole list of quorum `i` is folded, progress restarts at the
/// head of quorum `i + 1`: the two positions bound the same entry set.
proof fn lemma_progress_next_quorum(
    res: Seq<OperatorAvsState>,
    block_num: u32,
    quorum_nums: Seq<u8>,
    stakes: Seq<Vec<StakeEntry>>,
    resolved: Seq<ResolvedKey>,
    i: int,
)
    requires
        0 <= i < stakes.len(),
        operators_progress(res, block_num, quorum_nums, stakes, resolved, i, stakes[i]@.len() as int),
    ensures
        operators_progress(res, block_num, quorum_nums, stakes, resolved, i + 1, 0),
{
    let jlen = stakes[i]@.len() as int;
    assert forall|i2: int, j2: int| valid_entry(stakes, i2, j2) implies (done(i2, j2, i + 1, 0)
        == done(i2, j2, i, jlen)) by {}
    assert forall|k: int| 0 <= k < res.len() implies traces_to_done(
        stakes,
        (#[trigger] res[k]).operator_id@,
        i + 1,
        0,
    ) by {
        assert(traces_to_done(stakes, res[k].operator_id@, i, jlen));
        let (i2, j2) = choose|i2: int, j2: int|
            valid_entry(stakes, i2, j2) && done(i2, j2, i, jlen) && (#[trigger] entry_at(
                stakes,
                i2,
                j2,
            )).operator_id@ == res[k].operator_id@;
        assert(valid_entry(stakes, i2, j2) && done(i2, j2, i + 1, 0) && entry_at(
            stakes,
            i2,
            j2,
        ).operator_id@ == res[k].operator_id@);
    }
    assert forall|i2: int, j2: int|
        valid_entry(stakes, i2, j2) && done(i2, j2, i + 1, 0) implies has_op(
        res,
        (#[trigger] entry_at(stakes, i2, j2)).operator_id@,
    ) by {
        assert(done(i2, j2, i, jlen));
    }
    assert forall|k: int, i2: int, j2: int|
        0 <= k < res.len() && valid_entry(stakes, i2, j2) && done(i2, j2, i + 1, 0) && (#[trigger] entry_at(
            stakes,
            i2,
            j2,
        )).operator_id@ == (#[trigger] res[k]).operator_id@ implies op_stake(
        res[k],
        quorum_nums[i2],
    ) == Some(entry_at(stakes, i2, j2).stake) by {
        assert(done(i2, j2, i, jlen));
    }
    assert forall|k: int, q: u8|
        0 <= k < res.len() && (#[trigger] op_stake(res[k], q)) is Some implies stake_traces_to_done(
        stakes,
        quorum_nums,
        res[k].operator_id@,
        q,
        i + 1,
        0,
    ) by {
        assert(stake_traces_to_done(stakes, quorum_nums, res[k].operator_id@, q, i, jlen));
        let (i2, j2) = choose|i2: int, j2: int|
            valid_entry(stakes, i2, j2) && done(i2, j2, i, jlen) && quorum_nums[i2] == q && (#[trigger] entry_at(
                stakes,
                i2,
                j2,
            )).operator_id@ == res[k].operator_id@;
        assert(valid_entry(stakes, i2, j2) && done(i2, j2, i + 1, 0) && quorum_nums[i2] == q
            && entry_at(stakes, i2, j2).operator_id@ == res[k].operator_id@);
    }
}

/// Folds one stake entry into an operator already present at index `k`.
#[verifier::loop_isolation(false)]
fn fold_into_existing(
    block_num: u32,
    quorum_nums: &Vec<u8>,
    stakes: &Vec<Vec<StakeEntry>>,
    resolved: &Vec<ResolvedKey>,
    res: &mut Vec<OperatorAvsState>,
    i: usize,
    j: usize,
    k: usize,
    q: u8,
    e: StakeEntry,
)
    requires
        quorums_wf(quorum_nums@),
        stakes_wf(stakes@),
        stakes@.len() == quorum_nums@.len(),
        (i as int) < stakes@.len(),
        (j as int) < stakes@[i as int]@.len(),
        e == entry_at(stakes@, i as int, j as int),
        q == quorum_nums@[i as int],
        (k as int) < old(res)@.len(),
        old(res)@[k as int].operator_id@ == e.operator_id@,
        operators_progress(
            old(res)@,
            block_num,
            quorum_nums@,
            stakes@,
            resolved@,
            i as int,
            j as int,
        ),
    ensures
        operators_progress(
            final(res)@,
            block_num,
            quorum_nums@,
            stakes@,
            resolved@,
            i as int,
            j as int + 1,
        ),
{
    let ghost r0 = res@;
    let ghost opold = res@[k as int];
    proof {
        // the operator cannot already hold a stake for quorum `q`
        if op_stake(opold, q) is Some {
            assert(op_stake(old(res)@[k as int], q) is Some);
            assert(stake_traces_to_done(
                stakes@,
                quorum_nums@,
                opold.operator_id@,
                q,
                i as int,
                j as int,
            ));
            let (i2, j2) = choose|i2: int, j2: int|
                valid_entry(stakes@, i2, j2) && done(i2, j2, i as int, j as int) && quorum_nums@[i2]
                    == q && (#[trigger] entry_at(stakes@, i2, j2)).operator_id@
                    == opold.operator_id@;
            assert(i2 == i as int);
            assert(entry_at(stakes@, i2, j2).operator_id@ == entry_at(
                stakes@,
                i as int,
                j as int,
            ).operator_id@);
            assert(false);
        }
        lemma_sorted_ids_unique(r0);
    }
    let mut op = res.remove(k);
    op.stake_per_quorum.push((q, e.stake));
    let ghost opnew = op;
    res.insert(k, op);
    proof {
        r0.remove_ensures(k as int);
        r0.remove(k as int).insert_ensures(k as int, opnew);
        assert(res@ =~= r0.update(k as int, opnew));
        assert(opnew.stake_per_quorum@ == opold.stake_per_quorum@.push((q, e.stake)));
        assert forall|q2: u8| true implies op_stake(opnew, q2) == (match op_stake(opold, q2) {
            Some(v) => Some(v),
            None => if q == q2 {
                Some(e.stake)
            } else {
                None
            },
        }) by {
            lemma_spq_push(opold.stake_per_quorum@, (q, e.stake), q2);
        }
        // sortedness and per-element facts: identifiers are unchanged
        assert forall|m: int| 0 <= m < res@.len() implies (#[trigger] res@[m]).operator_id@
            == r0[m].operator_id@ && res@[m].block_num == r0[m].block_num
            && res@[m].operator_pub_keys == r0[m].operator_pub_keys by {}
        assert forall|id: Seq<u8>| has_op(r0, id) implies has_op(res@, id) by {
            let w = choose|w: int| 0 <= w < r0.len() && (#[trigger] r0[w]).operator_id@ == id;
            assert(res@[w].operator_id@ == id);
        }
        // coverage of the freshly folded entry
        assert(has_op(res@, entry_at(stakes@, i as int, j as int).operator_id@)) by {
            assert(res@[k as int].operator_id@ == e.operator_id@);
        }
        // coverage of all earlier entries
        assert forall|i2: int, j2: int|
            valid_entry(stakes@, i2, j2) && done(i2, j2, i as int, j as int + 1) implies has_op(
            res@,
            (#[trigger] entry_at(stakes@, i2, j2)).operator_id@,
        ) by {
            if done(i2, j2, i as int, j as int) {
                assert(has_op(r0, entry_at(stakes@, i2, j2).operator_id@));
            } else {
                assert(i2 == i as int && j2 == j as int);
            }
        }
        // stake amounts
        assert forall|m: int, i2: int, j2: int|
            0 <= m < res@.len() && valid_entry(stakes@, i2, j2) && done(
                i2,
                j2,
                i as int,
                j as int + 1,
            ) && (#[trigger] entry_at(stakes@, i2, j2)).operator_id@ == (#[trigger] res@[m]).operator_id@
            implies op_stake(res@[m], quorum_nums@[i2]) == Some(
            entry_at(stakes@, i2, j2).stake,
        ) by {
            if m == k as int {
                if done(i2, j2, i as int, j as int) {
                    assert(op_stake(opold, quorum_nums@[i2]) == Some(
                        entry_at(stakes@, i2, j2).stake,
                    ));
                } else {
                    assert(i2 == i as int && j2 == j as int);
                    assert(op_stake(opnew, q) == Some(e.stake));
                }
            } else {
                assert(res@[m] == r0[m]);
                if i2 == i as int && j2 == j as int {
                    assert(r0[m].operator_id@ != r0[k as int].operator_id@);
                    assert(false);
                } else {
                    assert(done(i2, j2, i as int, j as int));
                }
            }
        }
        // no stake appears for a quorum without a folded entry
        assert forall|m: int, q2: u8|
            0 <= m < res@.len() && (#[trigger] op_stake(res@[m], q2)) is Some implies stake_traces_to_done(
            stakes@,
            quorum_nums@,
            res@[m].operator_id@,
            q2,
            i as int,
            j as int + 1,
        ) by {
            if m == k as int {
                if op_stake(opold, q2) is Some {
                    assert(op_stake(r0[m], q2) is Some);
                    assert(stake_traces_to_done(
                        stakes@,
                        quorum_nums@,
                        r0[m].operator_id@,
                        q2,
                        i as int,
                        j as int,
                    ));
                    let (i2, j2) = choose|i2: int, j2: int|
                        valid_entry(stakes@, i2, j2) && done(i2, j2, i as int, j as int)
                            && quorum_nums@[i2] == q2 && (#[trigger] entry_at(
                            stakes@,
                            i2,
                            j2,
                        )).operator_id@ == r0[m].operator_id@;
                    assert(valid_entry(stakes@, i2, j2) && done(i2, j2, i as int, j as int + 1)
                        && quorum_nums@[i2] == q2 && entry_at(stakes@, i2, j2).operator_id@
                        == res@[m].operator_id@);
                } else {
                    assert(q2 == q);
                    assert(valid_entry(stakes@, i as int, j as int) && done(
                        i as int,
                        j as int,
                        i as int,
                        j as int + 1,
                    ) && quorum_nums@[i as int] == q2 && entry_at(
                        stakes@,
                        i as int,
                        j as int,
                    ).operator_id@ == res@[m].operator_id@);
                }
            } else {
                assert(res@[m] == r0[m]);
                assert(op_stake(r0[m], q2) is Some);
                assert(stake_traces_to_done(
                    stakes@,
                    quorum_nums@,
                    r0[m].operator_id@,
                    q2,
                    i as int,
                    j as int,
                ));
                let (i2, j2) = choose|i2: int, j2: int|
                    valid_entry(stakes@, i2, j2) && done(i2, j2, i as int, j as int)
                        && quorum_nums@[i2] == q2 && (#[trigger] entry_at(
                        stakes@,
                        i2,
                        j2,
                    )).operator_id@ == r0[m].operator_id@;
                assert(valid_entry(stakes@, i2, j2) && done(i2, j2, i as int, j as int + 1)
                    && quorum_nums@[i2] == q2 && entry_at(stakes@, i2, j2).operator_id@
                    == res@[m].operator_id@);
            }
        }
        // every operator still traces back to a folded entry
        assert forall|m: int| 0 <= m < res@.len() implies traces_to_done(
            stakes@,
            (#[trigger] res@[m]).operator_id@,
            i as int,
            j as int + 1,
        ) by {
            assert(traces_to_done(stakes@, r0[m].operator_id@, i as int, j as int));
            let (i2, j2) = choose|i2: int, j2: int|
                valid_entry(stakes@, i2, j2) && done(i2, j2, i as int, j as int) && (#[trigger] entry_at(
                    stakes@,
                    i2,
                    j2,
                )).operator_id@ == r0[m].operator_id@;
            assert(valid_entry(stakes@, i2, j2) && done(i2, j2, i as int, j as int + 1) && entry_at(
                stakes@,
                i2,
                j2,
            ).operator_id@ == res@[m].operator_id@);
        }
    }
}

/// Folds one stake entry naming an operator not yet present: the new
/// operator state goes in at its sorted position.
#[verifier::loop_isolation(false)]
fn fold_in_fresh(
    block_num: u32,
    quorum_nums: &Vec<u8>,
    stakes: &Vec<Vec<StakeEntry>>,
    resolved: &Vec<ResolvedKey>,
    res: &mut Vec<OperatorAvsState>,
    i: usize,
    j: usize,
    q: u8,
    e: StakeEntry,
    op: OperatorAvsState,
)
    requires
        quorums_wf(quorum_nums@),
        stakes_wf(stakes@),
        stakes@.len() == quorum_nums@.len(),
        (i as int) < stakes@.len(),
        (j as int) < stakes@[i as int]@.len(),
        e == entry_at(stakes@, i as int, j as int),
        q == quorum_nums@[i as int],
        !has_op(old(res)@, e.operator_id@),
        op.operator_id == e.operator_id,
        op.operator_pub_keys == resolved_lookup(resolved@, e.operator_id@),
        op.stake_per_quorum@ == Seq::<(u8, U256)>::empty().push((q, e.stake)),
        op.block_num == block_num as u64,
        operators_progress(
            old(res)@,
            block_num,
            quorum_nums@,
            stakes@,
            resolved@,
            i as int,
            j as int,
        ),
    ensures
        operators_progress(
            final(res)@,
            block_num,
            quorum_nums@,
            stakes@,
            resolved@,
            i as int,
            j as int + 1,
        ),
{
    let ghost r0 = res@;
    proof {
        // the new operator's stake map reads as the one folded entry
        assert forall|q2: u8| true implies op_stake(op, q2) == (if q2 == q {
            Some(e.stake)
        } else {
            None
        }) by {
            let s = op.stake_per_quorum@;
            assert(s.len() == 1);
            assert(s[0] == (q, e.stake));
            assert(s[0].0 == q && s[0].1 == e.stake);
            assert(s.skip(1) =~= Seq::<(u8, U256)>::empty());
            if q2 == q {
                assert(spq_lookup(s, q2) == Some(e.stake));
            } else {
                assert(spq_lookup(s, q2) == spq_lookup(s.skip(1), q2));
                assert(spq_lookup(s.skip(1), q2) == None::<U256>);
            }
        }
    }
    insert_op_sorted(res, op);
    proof {
        let p = choose|p: int| 0 <= p <= r0.len() && res@ == r0.insert(p, op);
        r0.insert_ensures(p, op);
        // membership: everything of before, plus the new operator
        assert forall|id: Seq<u8>| has_op(r0, id) || id == op.operator_id@ implies has_op(
            res@,
            id,
        ) by {
            if has_op(r0, id) {
                let w = choose|w: int| 0 <= w < r0.len() && (#[trigger] r0[w]).operator_id@ == id;
                if w < p {
                    assert(res@[w].operator_id@ == id);
                } else {
                    assert(res@[w + 1].operator_id@ == id);
                }
            } else {
                assert(res@[p].operator_id@ == id);
            }
        }
        // coverage of old and new entries
        assert forall|i2: int, j2: int|
            valid_entry(stakes@, i2, j2) && done(i2, j2, i as int, j as int + 1) implies has_op(
            res@,
            (#[trigger] entry_at(stakes@, i2, j2)).operator_id@,
        ) by {
            if done(i2, j2, i as int, j as int) {
                assert(has_op(r0, entry_at(stakes@, i2, j2).operator_id@));
            } else {
                assert(i2 == i as int && j2 == j as int);
                assert(entry_at(stakes@, i2, j2).operator_id@ == op.operator_id@);
            }
        }
        // per-element facts, stake amounts, and the no-spurious direction
        assert forall|m: int| 0 <= m < res@.len() implies (#[trigger] res@[m]).block_num
            == block_num as u64 && res@[m].operator_pub_keys == resolved_lookup(
            resolved@,
            res@[m].operator_id@,
        ) by {
            if m < p {
                assert(res@[m] == r0[m]);
            } else if m == p {
            } else {
                assert(res@[m] == r0[m - 1]);
            }
        }
        assert forall|m: int, i2: int, j2: int|
            0 <= m < res@.len() && valid_entry(stakes@, i2, j2) && done(
                i2,
                j2,
                i as int,
                j as int + 1,
            ) && (#[trigger] entry_at(stakes@, i2, j2)).operator_id@ == (#[trigger] res@[m]).operator_id@
            implies op_stake(res@[m], quorum_nums@[i2]) == Some(
            entry_at(stakes@, i2, j2).stake,
        ) by {
            if m == p {
                if done(i2, j2, i as int, j as int) {
                    assert(has_op(r0, entry_at(stakes@, i2, j2).operator_id@));
                    assert(false);
                } else {
                    assert(i2 == i as int && j2 == j as int);
                    assert(op_stake(op, q) == Some(e.stake));
                }
            } else {
                let mold: int = if m < p {
                    m
                } else {
                    m - 1
                };
                assert(res@[m] == r0[mold]);
                if i2 == i as int && j2 == j as int {
                    assert(has_op(r0, e.operator_id@));
                    assert(false);
                } else {
                    assert(done(i2, j2, i as int, j as int));
                }
            }
        }
        assert forall|m: int, q2: u8|
            0 <= m < res@.len() && (#[trigger] op_stake(res@[m], q2)) is Some implies stake_traces_to_done(
            stakes@,
            quorum_nums@,
            res@[m].operator_id@,
            q2,
            i as int,
            j as int + 1,
        ) by {
            if m == p {
                assert(q2 == q);
                assert(valid_entry(stakes@, i as int, j as int) && done(
                    i as int,
                    j as int,
                    i as int,
                    j as int + 1,
                ) && quorum_nums@[i as int] == q2 && entry_at(
                    stakes@,
                    i as int,
                    j as int,
                ).operator_id@ == res@[m].operator_id@);
            } else {
                let mold: int = if m < p {
                    m
                } else {
                    m - 1
                };
                assert(res@[m] == r0[mold]);
                assert(op_stake(r0[mold], q2) is Some);
                assert(stake_traces_to_done(
                    stakes@,
                    quorum_nums@,
                    r0[mold].operator_id@,
                    q2,
                    i as int,
                    j as int,
                ));
                let (i2, j2) = choose|i2: int, j2: int|
                    valid_entry(stakes@, i2, j2) && done(i2, j2, i as int, j as int)
                        && quorum_nums@[i2] == q2 && (#[trigger] entry_at(
                        stakes@,
                        i2,
                        j2,
                    )).operator_id@ == r0[mold].operator_id@;
                assert(valid_entry(stakes@, i2, j2) && done(i2, j2, i as int, j as int + 1)
                    && quorum_nums@[i2] == q2 && entry_at(stakes@, i2, j2).operator_id@
                    == res@[m].operator_id@);
            }
        }
        assert forall|m: int| 0 <= m < res@.len() implies traces_to_done(
            stakes@,
            (#[trigger] res@[m]).operator_id@,
            i as int,
            j as int + 1,
        ) by {
            if m == p {
                assert(valid_entry(stakes@, i as int, j as int) && done(
                    i as int,
                    j as int,
                    i as int,
                    j as int + 1,
                ) && entry_at(stakes@, i as int, j as int).operator_id@ == res@[m].operator_id@);
            } else {
                let mold: int = if m < p {
                    m
                } else {
                    m - 1
                };
                assert(res@[m] == r0[mold]);
                assert(traces_to_done(stakes@, r0[mold].operator_id@, i as int, j as int));
                let (i2, j2) = choose|i2: int, j2: int|
                    valid_entry(stakes@, i2, j2) && done(i2, j2, i as int, j as int) && (#[trigger] entry_at(
                        stakes@,
                        i2,
                        j2,
                    )).operator_id@ == r0[mold].operator_id@;
                assert(valid_entry(stakes@, i2, j2) && done(i2, j2, i as int, j as int + 1)
                    && entry_at(stakes@, i2, j2).operator_id@ == res@[m].operator_id@);
            }
        }
    }
}

} // verus!
