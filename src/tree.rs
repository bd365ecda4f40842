//! Building a Merkle tree level by level, from the leaves up to the root.

use vstd::prelude::*;

use crate::hash::{hash_leaf, hash_pair, leaf_digest, pair_digest};

verus! {

/// The digests of one level, as byte sequences.
pub open spec fn level_view(level: Vec<[u8; 32]>) -> Seq<Seq<u8>> {
    level@.map_values(|d: [u8; 32]| d@)
}

/// The levels of a tree, leaves first, as sequences of byte sequences.
pub open spec fn tree_view(tree: Vec<Vec<[u8; 32]>>) -> Seq<Seq<Seq<u8>>> {
    tree@.map_values(|l: Vec<[u8; 32]>| level_view(l))
}

/// A level made even: one of odd length gets a second copy of its last
/// digest.
pub open spec fn pad(level: Seq<Seq<u8>>) -> Seq<Seq<u8>> {
    if level.len() % 2 == 1 {
        level.push(level.last())
    } else {
        level
    }
}

/// The level above an even level: the digest of each adjacent pair.
pub open spec fn combine(level: Seq<Seq<u8>>) -> Seq<Seq<u8>> {
    Seq::new(level.len() / 2, |j: int| pair_digest(level[2 * j], level[2 * j + 1]))
}

/// The levels stored for a level `cur` and everything above it: a level of
/// one digest is the root; any longer one is stored padded, and the level
/// above it is the combination of the padded one.
pub open spec fn levels_from(cur: Seq<Seq<u8>>) -> Seq<Seq<Seq<u8>>>
    decreases cur.len(),
{
    if cur.len() <= 1 {
        seq![cur]
    } else {
        seq![pad(cur)] + levels_from(combine(pad(cur)))
    }
}

/// How a level is stored: a single digest (the root) as it is, any longer
/// level padded to even length.
pub open spec fn stored(level: Seq<Seq<u8>>) -> Seq<Seq<u8>> {
    if level.len() <= 1 {
        level
    } else {
        pad(level)
    }
}

/// The levels form a Merkle tree: the last level is a single root digest,
/// every other level has even length, and each level above the leaves is
/// the stored combination of the level below it.
pub open spec fn well_formed(t: Seq<Seq<Seq<u8>>>) -> bool {
    &&& t.len() >= 1
    &&& t.last().len() == 1
    &&& forall|i: int|
        #![trigger t[i]]
        0 <= i < t.len() - 1 ==> {
            &&& t[i].len() % 2 == 0
            &&& t[i].len() >= 2
            &&& t[i + 1] == stored(combine(t[i]))
        }
}

/// The leaf digests of the inputs, in order.
pub open spec fn leaves(inputs: Seq<i32>) -> Seq<Seq<u8>> {
    inputs.map_values(|v: i32| leaf_digest(v))
}

/// The tree built from the inputs: no levels for no inputs, otherwise the
/// levels grown from the leaf digests.
pub open spec fn merkle_tree(inputs: Seq<i32>) -> Seq<Seq<Seq<u8>>> {
    if inputs.len() == 0 {
        Seq::empty()
    } else {
        levels_from(leaves(inputs))
    }
}

/// Makes a level even by repeating its last digest when its length is odd.
pub fn make_even(hashes: Vec<[u8; 32]>) -> (r: Vec<[u8; 32]>)
    ensures
        level_view(r) == pad(level_view(hashes)),
{
    let ghost before = level_view(hashes);
    let mut hashes = hashes;
    if hashes.len() % 2 != 0 {
        let last = hashes[hashes.len() - 1];
        hashes.push(last);
    }
    assert(level_view(hashes) =~= pad(before));
    hashes
}

/// The level above an even level: the digest of each adjacent pair.
pub fn combine_level(level: &Vec<[u8; 32]>) -> (r: Vec<[u8; 32]>)
    requires
        level@.len() % 2 == 0,
    ensures
        level_view(r) == combine(level_view(*level)),
{
    let n: usize = level.len();
    let half = n / 2;
    let mut out: Vec<[u8; 32]> = Vec::new();
    let mut k: usize = 0;
    while k < half
        invariant
            n == level@.len(),
            half == n / 2,
            k <= half,
            out@.len() == k,
            forall|j: int|
                0 <= j < k ==> (#[trigger] out@[j])@ == pair_digest(
                    level@[2 * j]@,
                    level@[2 * j + 1]@,
                ),
        decreases half - k,
    {
        assert(2 * k + 1 < n) by (nonlinear_arith)
            requires
                k < half,
                half == n / 2,
        ;
        let d = hash_pair(&level[2 * k], &level[2 * k + 1]);
        out.push(d);
        k = k + 1;
    }
    assert(level_view(out) =~= combine(level_view(*level)));
    out
}

/// Builds the Merkle tree of `hashes`: the leaf level first, the root level
/// last, every level below the root padded to even length.
pub fn generate_merkle_tree(hashes: &Vec<i32>) -> (tree: Vec<Vec<[u8; 32]>>)
    ensures
        tree_view(tree) == merkle_tree(hashes@),
{
    if hashes.len() == 0 {
        let empty: Vec<Vec<[u8; 32]>> = Vec::new();
        assert(tree_view(empty) =~= merkle_tree(hashes@));
        return empty;
    }
    let mut leaf_nodes: Vec<[u8; 32]> = Vec::new();
    let mut i: usize = 0;
    while i < hashes.len()
        invariant
            i <= hashes@.len(),
            leaf_nodes@.len() == i,
            forall|j: int| 0 <= j < i ==> (#[trigger] leaf_nodes@[j])@ == leaf_digest(hashes@[j]),
        decreases hashes@.len() - i,
    {
        leaf_nodes.push(hash_leaf(hashes[i]));
        i = i + 1;
    }
    assert(level_view(leaf_nodes) =~= leaves(hashes@));
    let mut tree: Vec<Vec<[u8; 32]>> = Vec::new();
    let mut current = leaf_nodes;
    assert(tree_view(tree) + levels_from(level_view(current)) =~= merkle_tree(hashes@));
    while current.len() != 1
        invariant
            current@.len() >= 1,
            tree_view(tree) + levels_from(level_view(current)) == merkle_tree(hashes@),
        decreases current@.len(),
    {
        let ghost before = tree_view(tree);
        let ghost cur = level_view(current);
        current = make_even(current);
        let combined = combine_level(&current);
        tree.push(current);
        assert(tree_view(tree) =~= before.push(pad(cur)));
        assert(levels_from(cur) == seq![pad(cur)] + levels_from(combine(pad(cur))));
        assert(tree_view(tree) + levels_from(level_view(combined)) =~= before + levels_from(
            cur,
        ));
        current = combined;
    }
    assert(levels_from(level_view(current)) == seq![level_view(current)]);
    tree.push(current);
    assert(tree_view(tree) =~= merkle_tree(hashes@));
    tree
}

} // verus!
