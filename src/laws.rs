//! What holds of every tree that is built and every proof made from it.

use vstd::prelude::*;

use crate::hash::{leaf_digest, pair_digest};
use crate::inclusion::{
    fold_proof, is_first_match, path_in_bounds, path_index, proof_steps, running_digest,
    sibling_index,
};
use crate::tree::{combine, leaves, levels_from, merkle_tree, pad, stored, well_formed};

verus! {

/// The levels grown from a nonempty level form a Merkle tree whose first
/// level is that level as stored.
pub proof fn lemma_levels_from_well_formed(cur: Seq<Seq<u8>>)
    requires
        cur.len() >= 1,
    ensures
        well_formed(levels_from(cur)),
        levels_from(cur)[0] == stored(cur),
    decreases cur.len(),
{
    if cur.len() > 1 {
        let c = combine(pad(cur));
        lemma_levels_from_well_formed(c);
        let rest = levels_from(c);
        let all = levels_from(cur);
        assert(all == seq![pad(cur)] + rest);
        assert forall|i: int| #![trigger all[i]] 0 <= i < all.len() - 1 implies {
            &&& all[i].len() % 2 == 0
            &&& all[i].len() >= 2
            &&& all[i + 1] == stored(combine(all[i]))
        } by {
            if i > 0 {
                assert(all[i] == rest[i - 1]);
                assert(all[i + 1] == rest[i]);
            }
        }
    }
}

/// Shape of a built tree: the last level is the single root digest, every
/// level below it has even length (so padding leaves it as it is), and the
/// level above it is its pairwise combination, half as long, stored padded
/// unless it is the root. Its length is therefore half that of the padded
/// level below, except where that half is odd and above one: then it is one
/// more, for the copy that padding adds.
pub proof fn lemma_tree_shape(inputs: Seq<i32>)
    requires
        inputs.len() > 0,
    ensures
        merkle_tree(inputs).len() >= 1,
        merkle_tree(inputs).last().len() == 1,
        merkle_tree(inputs)[0] == stored(leaves(inputs)),
        forall|i: int|
            #![trigger merkle_tree(inputs)[i]]
            0 <= i < merkle_tree(inputs).len() - 1 ==> {
                let level = merkle_tree(inputs)[i];
                let half = pad(level).len() / 2;
                &&& pad(level) == level
                &&& combine(level).len() == half
                &&& merkle_tree(inputs)[i + 1] == stored(combine(level))
                &&& (half == 1 || half % 2 == 0) ==> merkle_tree(inputs)[i + 1].len() == half
                &&& (half > 1 && half % 2 == 1) ==> merkle_tree(inputs)[i + 1].len() == half
                    + 1
            },
{
    lemma_levels_from_well_formed(leaves(inputs));
}

/// A single input gives a tree of one level that holds its leaf digest.
pub proof fn lemma_single_input(v: i32)
    ensures
        merkle_tree(seq![v]) == seq![seq![leaf_digest(v)]],
{
    assert(leaves(seq![v]) =~= seq![leaf_digest(v)]);
}

/// Three inputs: the third leaf is repeated at the leaf level, the two pairs
/// are combined, and the root combines those two digests.
pub proof fn lemma_three_inputs(a: i32, b: i32, c: i32)
    ensures
        ({
            let (la, lb, lc) = (leaf_digest(a), leaf_digest(b), leaf_digest(c));
            let l1 = seq![pair_digest(la, lb), pair_digest(lc, lc)];
            merkle_tree(seq![a, b, c]) == seq![
                seq![la, lb, lc, lc],
                l1,
                seq![pair_digest(l1[0], l1[1])],
            ]
        }),
{
    let (la, lb, lc) = (leaf_digest(a), leaf_digest(b), leaf_digest(c));
    let l0 = seq![la, lb, lc];
    assert(leaves(seq![a, b, c]) =~= l0);
    let p0 = seq![la, lb, lc, lc];
    assert(pad(l0) =~= p0);
    let l1 = seq![pair_digest(la, lb), pair_digest(lc, lc)];
    assert(combine(p0) =~= l1);
    assert(pad(l1) =~= l1);
    let l2 = seq![pair_digest(l1[0], l1[1])];
    assert(combine(l1) =~= l2);
    assert(levels_from(l2) == seq![l2]);
    assert(levels_from(l1) =~= seq![l1, l2]);
    assert(levels_from(l0) =~= seq![p0, l1, l2]);
}

/// Along the path of the leaf at `p` in a Merkle tree, the ancestor at each
/// level lies inside it, and the digest reached after `k` steps of its proof
/// is the ancestor's digest at level `k`.
pub proof fn lemma_running_digest(t: Seq<Seq<Seq<u8>>>, p: nat, k: nat)
    requires
        well_formed(t),
        p < t[0].len(),
        k < t.len(),
    ensures
        path_index(p, k) < t[k as int].len(),
        running_digest(proof_steps(t, t[0][p as int], p), k) == t[k as int][path_index(
            p,
            k,
        ) as int],
    decreases k,
{
    if k > 0 {
        let i = (k - 1) as int;
        lemma_running_digest(t, p, (k - 1) as nat);
        let idx = path_index(p, (k - 1) as nat);
        let j = idx / 2;
        assert(t[i].len() % 2 == 0 && t[i].len() >= 2);
        assert(t[i + 1] == stored(combine(t[i])));
        let c = combine(t[i]);
        assert(j < c.len());
        assert(stored(c)[j as int] == c[j as int]);
        assert(sibling_index(idx) < t[i].len());
        let steps = proof_steps(t, t[0][p as int], p);
        assert(steps[k as int] == (
            t[i][sibling_index(idx) as int],
            crate::inclusion::side_of(sibling_index(idx)),
        ));
    }
}

/// A leaf digest that occurs in a level has a first position there.
pub proof fn lemma_first_match_exists(level: Seq<Seq<u8>>, d: Seq<u8>, q: int)
    requires
        0 <= q < level.len(),
        level[q] == d,
    ensures
        exists|p: int| is_first_match(level, d, p),
    decreases q,
{
    if exists|r: int| 0 <= r < q && level[r] == d {
        let r = choose|r: int| 0 <= r < q && level[r] == d;
        lemma_first_match_exists(level, d, r);
    } else {
        assert(is_first_match(level, d, q));
    }
}

/// Round trip: for every leaf digest of a tree built from a nonempty
/// sequence, every sibling on the path of its first position lies inside its
/// level, and folding the proof of that position gives the root digest.
pub proof fn lemma_proof_folds_to_root(inputs: Seq<i32>, d: Seq<u8>, q: int)
    requires
        inputs.len() > 0,
        0 <= q < merkle_tree(inputs)[0].len(),
        merkle_tree(inputs)[0][q] == d,
    ensures
        exists|p: int| is_first_match(merkle_tree(inputs)[0], d, p),
        forall|p: int|
            #[trigger] is_first_match(merkle_tree(inputs)[0], d, p) ==> {
                &&& path_in_bounds(merkle_tree(inputs), p as nat)
                &&& fold_proof(proof_steps(merkle_tree(inputs), d, p as nat)) == merkle_tree(
                    inputs,
                ).last()[0]
            },
{
    let t = merkle_tree(inputs);
    lemma_levels_from_well_formed(leaves(inputs));
    lemma_first_match_exists(t[0], d, q);
    assert forall|p: int| #[trigger] is_first_match(t[0], d, p) implies {
        &&& path_in_bounds(t, p as nat)
        &&& fold_proof(proof_steps(t, d, p as nat)) == t.last()[0]
    } by {
        assert forall|i: int| 0 <= i < t.len() - 1 implies sibling_index(
            #[trigger] path_index(p as nat, i as nat),
        ) < t[i].len() by {
            lemma_running_digest(t, p as nat, i as nat);
            assert(t[i].len() % 2 == 0);
        }
        let n = (t.len() - 1) as nat;
        lemma_running_digest(t, p as nat, n);
        assert(proof_steps(t, d, p as nat).len() == t.len());
    }
}

/// Building is a function of the inputs alone, and so is a proof of a
/// target in a tree: equal arguments give equal results.
pub proof fn lemma_deterministic(
    a: Seq<i32>,
    b: Seq<i32>,
    d: Seq<u8>,
    e: Seq<u8>,
    p: nat,
    q: nat,
)
    requires
        a == b,
        d == e,
        p == q,
    ensures
        merkle_tree(a) == merkle_tree(b),
        proof_steps(merkle_tree(a), d, p) == proof_steps(merkle_tree(b), e, q),
{
}

} // verus!
