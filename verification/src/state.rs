//! The data model: stake entries as the ledger reports them, the resolved
//! key table, per-operator and per-quorum composite state, and the error
//! kinds a call can surface. Operator identifiers are 32-byte values,
//! ordered lexicographically so that results come out in one canonical
//! order.

use vstd::prelude::*;

use crate::g1::G1PublicKey;
use crate::u256::U256;

verus! {

/// One stake record for one operator within one quorum.
#[derive(Clone, Copy, Debug)]
pub struct StakeEntry {
    pub operator_id: [u8; 32],
    pub stake: U256,
}

/// The outcome of resolving one operator's identity: its key material,
/// or `None` when no public key is on file for it.
#[derive(Clone, Copy, Debug)]
pub struct ResolvedKey {
    pub operator_id: [u8; 32],
    pub pub_keys: Option<G1PublicKey>,
}

/// An operator's composite view for one call: its resolved key material
/// and its stake in each requested quorum it appears in.
#[derive(Clone, Debug)]
pub struct OperatorAvsState {
    pub operator_id: [u8; 32],
    pub operator_pub_keys: Option<G1PublicKey>,
    pub stake_per_quorum: Vec<(u8, U256)>,
    pub block_num: u64,
}

/// A quorum's aggregate state: total stake and the curve-group sum of the
/// included operators' keys (`None` for the group identity, in particular
/// when no operator qualifies).
#[derive(Clone, Debug)]
pub struct QuorumAvsState {
    pub quorum_num: u8,
    pub total_stake: U256,
    pub agg_pub_key_g1: Option<G1PublicKey>,
    pub block_num: u32,
}

/// What a call can fail with. Only a per-quorum list count that does not
/// match the request arises inside this crate; the other kinds are for
/// the collaborators' failures, mapped by the caller that performs the
/// ledger and resolver traffic.
#[derive(Clone, Copy, Debug, PartialEq, Eq, Structural)]
pub enum AvsError {
    /// A ledger or resolver call failed outright.
    CollaboratorUnavailable,
    /// The stake reader returned a different number of per-quorum lists
    /// than quorums requested.
    MalformedResponse,
    /// An operator with recorded stake has no resolvable address.
    UnknownOperatorAddress,
}

/// Lexicographic (equivalently big-endian numeric) order on operator
/// identifiers.
pub open spec fn id_lt(a: Seq<u8>, b: Seq<u8>) -> bool {
    exists|i: int|
        0 <= i < 32 && #[trigger] a[i] < b[i] && (forall|k: int| 0 <= k < i ==> a[k] == b[k])
}

/// Two identifiers not ordered either way are equal.
pub proof fn lemma_id_trichotomy(a: Seq<u8>, b: Seq<u8>)
    requires
        a.len() == 32,
        b.len() == 32,
        !id_lt(a, b),
        !id_lt(b, a),
    ensures
        a == b,
{
    assert forall|i: int| 0 <= i < 32 implies a[i] == b[i] by {
        if exists|i: int| 0 <= i < 32 && a[i] != b[i] {
            lemma_first_diff(a, b, 0);
        }
    }
    assert(a =~= b);
}

/// Where two identifiers differ somewhere past an equal prefix, one of
/// them is lexicographically smaller.
proof fn lemma_first_diff(a: Seq<u8>, b: Seq<u8>, n: int)
    requires
        a.len() == 32,
        b.len() == 32,
        0 <= n <= 32,
        exists|i: int| n <= i < 32 && a[i] != b[i],
        forall|k: int| 0 <= k < n ==> a[k] == b[k],
    ensures
        id_lt(a, b) || id_lt(b, a),
    decreases 32 - n,
{
    let w = choose|i: int| n <= i < 32 && a[i] != b[i];
    if a[n] != b[n] {
        if a[n] < b[n] {
            assert(id_lt(a, b));
        } else {
            assert(id_lt(b, a));
        }
    } else {
        assert(w != n);
        lemma_first_diff(a, b, n + 1);
    }
}

/// The order is strict: no identifier is below itself.
pub proof fn lemma_id_lt_irreflexive(a: Seq<u8>, b: Seq<u8>)
    requires
        id_lt(a, b),
    ensures
        a != b,
{
    let i = choose|i: int|
        0 <= i < 32 && #[trigger] a[i] < b[i] && (forall|k: int| 0 <= k < i ==> a[k] == b[k]);
    assert(a[i] != b[i]);
}

/// The order is transitive.
pub proof fn lemma_id_lt_trans(a: Seq<u8>, b: Seq<u8>, c: Seq<u8>)
    requires
        id_lt(a, b),
        id_lt(b, c),
    ensures
        id_lt(a, c),
{
    let i1 = choose|i: int|
        0 <= i < 32 && #[trigger] a[i] < b[i] && (forall|k: int| 0 <= k < i ==> a[k] == b[k]);
    let i2 = choose|i: int|
        0 <= i < 32 && #[trigger] b[i] < c[i] && (forall|k: int| 0 <= k < i ==> b[k] == c[k]);
    if i1 < i2 {
        assert(a[i1] < c[i1]);
        assert(id_lt(a, c));
    } else if i2 < i1 {
        assert(a[i2] < c[i2]);
        assert(id_lt(a, c));
    } else {
        assert(a[i1] < c[i1]);
        assert(id_lt(a, c));
    }
}

/// Whether two identifiers are byte-for-byte equal.
pub fn id_eq(a: &[u8; 32], b: &[u8; 32]) -> (r: bool)
    ensures
        r == (a@ == b@),
{
    let mut i: usize = 0;
    while i < 32
        invariant
            0 <= i <= 32,
            forall|k: int| 0 <= k < i ==> a@[k] == b@[k],
        decreases 32 - i,
    {
        if a[i] != b[i] {
            assert(a@ != b@);
            return false;
        }
        i += 1;
    }
    assert(a@ =~= b@);
    true
}

/// Whether `a` comes strictly before `b` in identifier order.
pub fn id_less(a: &[u8; 32], b: &[u8; 32]) -> (r: bool)
    ensures
        r == id_lt(a@, b@),
{
    let mut i: usize = 0;
    while i < 32
        invariant
            0 <= i <= 32,
            forall|k: int| 0 <= k < i ==> a@[k] == b@[k],
        decreases 32 - i,
    {
        if a[i] < b[i] {
            assert(id_lt(a@, b@));
            return true;
        }
        if a[i] > b[i] {
            assert forall|w: int|
                0 <= w < 32 && #[trigger] a@[w] < b@[w] implies !(forall|k: int|
                0 <= k < w ==> a@[k] == b@[k]) by {
                assert(w > i);
                assert(a@[i as int] != b@[i as int]);
            }
            return false;
        }
        i += 1;
    }
    assert(a@ =~= b@);
    proof {
        if id_lt(a@, b@) {
            lemma_id_lt_irreflexive(a@, b@);
        }
    }
    false
}

/// The stake recorded for quorum `q` in a per-quorum stake list, `None`
/// when the list has no entry for `q`; the first entry wins.
pub open spec fn spq_lookup(s: Seq<(u8, U256)>, q: u8) -> Option<U256>
    decreases s.len(),
{
    if s.len() == 0 {
        None
    } else if s[0].0 == q {
        Some(s[0].1)
    } else {
        spq_lookup(s.skip(1), q)
    }
}

/// The stake an operator's state records for quorum `q`.
pub open spec fn op_stake(op: OperatorAvsState, q: u8) -> Option<U256> {
    spq_lookup(op.stake_per_quorum@, q)
}

/// Appending an entry for a fresh quorum leaves earlier lookups alone and
/// makes the new quorum's lookup find it.
pub proof fn lemma_spq_push(s: Seq<(u8, U256)>, p: (u8, U256), q: u8)
    ensures
        spq_lookup(s.push(p), q) == (match spq_lookup(s, q) {
            Some(v) => Some(v),
            None => if p.0 == q {
                Some(p.1)
            } else {
                None
            },
        }),
    decreases s.len(),
{
    if s.len() == 0 {
        assert(s.push(p)[0] == p);
        assert(s.push(p).skip(1) =~= Seq::<(u8, U256)>::empty());
        assert(spq_lookup(s.push(p).skip(1), q) == None::<U256>);
        assert(spq_lookup(s, q) == None::<U256>);
    } else {
        assert(s.push(p)[0] == s[0]);
        assert(s.push(p).skip(1) =~= s.skip(1).push(p));
        lemma_spq_push(s.skip(1), p, q);
    }
}

/// Reads the stake an operator's state records for quorum `q`.
pub fn get_stake_for_quorum(spq: &Vec<(u8, U256)>, q: u8) -> (r: Option<U256>)
    ensures
        r == spq_lookup(spq@, q),
{
    proof {
        assert(spq@.skip(0) =~= spq@);
    }
    let mut m: usize = 0;
    while m < spq.len()
        invariant
            0 <= m <= spq@.len(),
            spq_lookup(spq@, q) == spq_lookup(spq@.skip(m as int), q),
        decreases spq@.len() - m,
    {
        let pair = spq[m];
        proof {
            assert(spq@.skip(m as int)[0] == spq@[m as int]);
            assert(spq@.skip(m as int).skip(1) =~= spq@.skip(m as int + 1));
        }
        if pair.0 == q {
            return Some(pair.1);
        }
        m += 1;
    }
    proof {
        assert(spq@.skip(spq@.len() as int) =~= Seq::<(u8, U256)>::empty());
    }
    None
}

/// The key material the resolution table holds for `id`; the first entry
/// wins, and an absent identifier reads as unresolved.
pub open spec fn resolved_lookup(rs: Seq<ResolvedKey>, id: Seq<u8>) -> Option<G1PublicKey>
    decreases rs.len(),
{
    if rs.len() == 0 {
        None
    } else if rs[0].operator_id@ == id {
        rs[0].pub_keys
    } else {
        resolved_lookup(rs.skip(1), id)
    }
}

/// Whether the resolution table has an entry for `id`.
pub open spec fn resolved_has(rs: Seq<ResolvedKey>, id: Seq<u8>) -> bool {
    exists|m: int| 0 <= m < rs.len() && (#[trigger] rs[m]).operator_id@ == id
}

/// Reads the key material resolved for one operator, `None` when no
/// public key is on file. This is the single-operator lookup the callers
/// of this crate use directly.
pub fn get_operator_public_keys(resolved: &Vec<ResolvedKey>, operator_id: &[u8; 32]) -> (r: Option<
    G1PublicKey,
>)
    ensures
        r == resolved_lookup(resolved@, operator_id@),
{
    proof {
        assert(resolved@.skip(0) =~= resolved@);
    }
    let mut m: usize = 0;
    while m < resolved.len()
        invariant
            0 <= m <= resolved@.len(),
            resolved_lookup(resolved@, operator_id@) == resolved_lookup(
                resolved@.skip(m as int),
                operator_id@,
            ),
        decreases resolved@.len() - m,
    {
        proof {
            assert(resolved@.skip(m as int)[0] == resolved@[m as int]);
            assert(resolved@.skip(m as int).skip(1) =~= resolved@.skip(m as int + 1));
        }
        if id_eq(&resolved[m].operator_id, operator_id) {
            return resolved[m].pub_keys;
        }
        m += 1;
    }
    proof {
        assert(resolved@.skip(resolved@.len() as int) =~= Seq::<ResolvedKey>::empty());
    }
    None
}

} // verus!
