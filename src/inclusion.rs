//! Inclusion proofs: for a leaf digest, the sibling digests met on the way
//! from the leaf level up to the root, each with the side it stands on.

use vstd::prelude::*;

use crate::hash::pair_digest;
use crate::tree::{level_view, tree_view};

verus! {

/// The side on which a digest stands when two digests are combined.
#[derive(Clone, Copy, Debug, PartialEq, Eq, Structural)]
pub enum Direction {
    LEFT,
    RIGHT,
}

/// One step of a proof: a digest and the side it stands on.
#[derive(Clone, Copy, Debug)]
pub struct Node {
    pub hash: [u8; 32],
    pub direction: Direction,
}

/// Why no proof could be made.
#[derive(Clone, Copy, Debug, PartialEq, Eq, Structural)]
pub enum ProofError {
    /// The target digest is not in the leaf level.
    NotFound,
    /// The sibling at `index` of level `level` lies past the end of that
    /// level: the tree was not built as a Merkle tree is.
    InvariantViolation { level: usize, index: usize },
}

/// `p` is the first position of `target` in `level`.
pub open spec fn is_first_match(level: Seq<Seq<u8>>, target: Seq<u8>, p: int) -> bool {
    &&& 0 <= p < level.len()
    &&& level[p] == target
    &&& forall|q: int| 0 <= q < p ==> level[q] != target
}

/// `target` occurs in `level`.
pub open spec fn occurs(level: Seq<Seq<u8>>, target: Seq<u8>) -> bool {
    exists|q: int| 0 <= q < level.len() && level[q] == target
}

/// The position, at level `i`, of the ancestor of the leaf at position `p`.
pub open spec fn path_index(p: nat, i: nat) -> nat
    decreases i,
{
    if i == 0 {
        p
    } else {
        path_index(p, (i - 1) as nat) / 2
    }
}

/// The position of the digest combined with the one at `idx`.
pub open spec fn sibling_index(idx: nat) -> nat {
    if idx % 2 == 0 {
        idx + 1
    } else {
        (idx - 1) as nat
    }
}

/// The side of a digest that stands at position `idx`.
pub open spec fn side_of(idx: nat) -> Direction {
    if idx % 2 == 0 {
        Direction::LEFT
    } else {
        Direction::RIGHT
    }
}

/// Every sibling on the path of the leaf at `p` lies inside its level.
pub open spec fn path_in_bounds(tree: Seq<Seq<Seq<u8>>>, p: nat) -> bool {
    forall|i: int|
        0 <= i < tree.len() - 1 ==> sibling_index(#[trigger] path_index(p, i as nat))
            < tree[i].len()
}

/// The sibling at `index` of level `level` is the first one on the path of
/// the leaf at `p` that lies past the end of its level.
pub open spec fn first_breach(tree: Seq<Seq<Seq<u8>>>, p: nat, level: int, index: int) -> bool {
    &&& 0 <= level < tree.len() - 1
    &&& index == sibling_index(path_index(p, level as nat))
    &&& index >= tree[level].len()
    &&& forall|i: int|
        0 <= i < level ==> sibling_index(#[trigger] path_index(p, i as nat)) < tree[i].len()
}

/// The proof of the leaf at `p` holding `target`: the target with its own
/// side, then for each level below the root the sibling on the path with
/// its side.
pub open spec fn proof_steps(tree: Seq<Seq<Seq<u8>>>, target: Seq<u8>, p: nat) -> Seq<
    (Seq<u8>, Direction),
> {
    seq![(target, side_of(p))] + Seq::new(
        (tree.len() - 1) as nat,
        |i: int|
            {
                let idx = path_index(p, i as nat);
                (tree[i][sibling_index(idx) as int], side_of(sibling_index(idx)))
            },
    )
}

/// The digest got by combining `running` with the digest of a step on the
/// side that the step gives.
pub open spec fn apply_step(running: Seq<u8>, step: (Seq<u8>, Direction)) -> Seq<u8> {
    match step.1 {
        Direction::LEFT => pair_digest(step.0, running),
        Direction::RIGHT => pair_digest(running, step.0),
    }
}

/// The digest reached from the first step's digest after combining it with
/// the next `k` steps in turn.
pub open spec fn running_digest(steps: Seq<(Seq<u8>, Direction)>, k: nat) -> Seq<u8>
    decreases k,
{
    if k == 0 {
        steps[0].0
    } else {
        apply_step(running_digest(steps, (k - 1) as nat), steps[k as int])
    }
}

/// The root that a proof leads to: its first digest combined with every
/// later step.
pub open spec fn fold_proof(steps: Seq<(Seq<u8>, Direction)>) -> Seq<u8> {
    running_digest(steps, (steps.len() - 1) as nat)
}

/// The steps of a proof, as digests and sides.
pub open spec fn proof_view(nodes: Vec<Node>) -> Seq<(Seq<u8>, Direction)> {
    nodes@.map_values(|n: Node| (n.hash@, n.direction))
}

/// Whether two digests hold the same bytes.
pub fn same_digest(a: &[u8; 32], b: &[u8; 32]) -> (r: bool)
    ensures
        r == (a@ == b@),
{
    let mut i: usize = 0;
    while i < 32
        invariant
            i <= 32,
            a@.len() == 32,
            b@.len() == 32,
            a@.subrange(0, i as int) == b@.subrange(0, i as int),
        decreases 32 - i,
    {
        if a[i] != b[i] {
            return false;
        }
        i = i + 1;
        assert(a@.subrange(0, i as int) =~= a@.subrange(0, i as int - 1).push(a@[i - 1]));
        assert(b@.subrange(0, i as int) =~= b@.subrange(0, i as int - 1).push(b@[i - 1]));
    }
    assert(a@ =~= a@.subrange(0, 32));
    assert(b@ =~= b@.subrange(0, 32));
    true
}

/// The first position of `target` in `vector`, if it occurs there.
pub fn index(target: &[u8; 32], vector: &Vec<[u8; 32]>) -> (r: Option<usize>)
    ensures
        r is None <==> !occurs(level_view(*vector), target@),
        r matches Some(p) ==> is_first_match(level_view(*vector), target@, p as int),
{
    let mut i: usize = 0;
    while i < vector.len()
        invariant
            i <= vector@.len(),
            forall|q: int| 0 <= q < i ==> level_view(*vector)[q] != target@,
        decreases vector@.len() - i,
    {
        if same_digest(&vector[i], target) {
            assert(level_view(*vector)[i as int] == target@);
            return Some(i);
        }
        i = i + 1;
    }
    None
}

/// The side of the first occurrence of `target` at level `level`, if it
/// occurs there.
pub fn get_direction(target: &[u8; 32], tree: &Vec<Vec<[u8; 32]>>, level: usize) -> (r: Option<
    Direction,
>)
    requires
        level < tree@.len(),
    ensures
        r is None <==> !occurs(tree_view(*tree)[level as int], target@),
        forall|p: int|
            is_first_match(tree_view(*tree)[level as int], target@, p) ==> r == Some(
                side_of(p as nat),
            ),
{
    match index(target, &tree[level]) {
        None => None,
        Some(location) => {
            if location % 2 == 0 {
                Some(Direction::LEFT)
            } else {
                Some(Direction::RIGHT)
            }
        },
    }
}

/// The inclusion proof of the leaf digest `hash` in `tree`: the digest
/// itself with the side of its first position in the leaf level, then the
/// sibling of each ancestor below the root with the sibling's side.
pub fn generate_merkle_proof(hash: &[u8; 32], tree: &Vec<Vec<[u8; 32]>>) -> (r: Result<
    Vec<Node>,
    ProofError,
>)
    ensures
        tree@.len() == 0 ==> (r matches Ok(nodes) && nodes@.len() == 0),
        tree@.len() > 0 ==> (r matches Err(ProofError::NotFound) <==> !occurs(
            tree_view(*tree)[0],
            hash@,
        )),
        forall|p: int|
            tree@.len() > 0 && #[trigger] is_first_match(tree_view(*tree)[0], hash@, p) ==> {
                &&& path_in_bounds(tree_view(*tree), p as nat) ==> (r matches Ok(nodes)
                    && proof_view(nodes) == proof_steps(tree_view(*tree), hash@, p as nat))
                &&& !path_in_bounds(tree_view(*tree), p as nat) ==> (r matches Err(
                    ProofError::InvariantViolation { level, index },
                ) && first_breach(tree_view(*tree), p as nat, level as int, index as int))
            },
{
    if tree.len() == 0 {
        return Ok(Vec::new());
    }
    let ghost tv = tree_view(*tree);
    let p = match index(hash, &tree[0]) {
        None => {
            return Err(ProofError::NotFound);
        },
        Some(p) => p,
    };
    assert(tv[0] == level_view(tree@[0]));
    assert forall|q: int| #[trigger] is_first_match(tv[0], hash@, q) implies q == p by {
        if q < p {
            assert(tv[0][q] != hash@);
        } else if q > p {
            assert(tv[0][p as int] != hash@);
        }
    }
    let n0: usize = tree[0].len();
    let direction = if p % 2 == 0 {
        Direction::LEFT
    } else {
        Direction::RIGHT
    };
    let mut merkle_proof: Vec<Node> = Vec::new();
    merkle_proof.push(Node { hash: *hash, direction });
    assert(proof_view(merkle_proof) =~= proof_steps(tv, hash@, p as nat).subrange(0, 1));
    let top: usize = tree.len() - 1;
    let mut hash_index: usize = p;
    let mut level: usize = 0;
    while level < top
        invariant
            tv == tree_view(*tree),
            is_first_match(tv[0], hash@, p as int),
            forall|q: int| #[trigger] is_first_match(tv[0], hash@, q) ==> q == p,
            top == tree@.len() - 1,
            level <= top,
            p < n0,
            n0 == tree@[0]@.len(),
            hash_index == path_index(p as nat, level as nat),
            hash_index <= p,
            proof_view(merkle_proof) == proof_steps(tv, hash@, p as nat).subrange(
                0,
                level + 1,
            ),
            forall|i: int|
                0 <= i < level ==> sibling_index(#[trigger] path_index(p as nat, i as nat))
                    < tv[i].len(),
        decreases top - level,
    {
        let sibling: usize;
        let sibling_direction: Direction;
        if hash_index % 2 == 0 {
            sibling = hash_index + 1;
            sibling_direction = Direction::RIGHT;
        } else {
            sibling = hash_index - 1;
            sibling_direction = Direction::LEFT;
        }
        if sibling >= tree[level].len() {
            assert(first_breach(tv, p as nat, level as int, sibling as int));
            assert(sibling_index(path_index(p as nat, level as nat)) >= tv[level as int].len());
            assert(!path_in_bounds(tv, p as nat));
            return Err(ProofError::InvariantViolation { level, index: sibling });
        }
        let ghost before = proof_view(merkle_proof);
        merkle_proof.push(Node { hash: tree[level][sibling], direction: sibling_direction });
        assert(proof_view(merkle_proof) =~= before.push(
            proof_steps(tv, hash@, p as nat)[level + 1],
        ));
        assert(proof_view(merkle_proof) =~= proof_steps(tv, hash@, p as nat).subrange(
            0,
            level + 2,
        ));
        hash_index = hash_index / 2;
        level = level + 1;
    }
    assert(proof_view(merkle_proof) =~= proof_steps(tv, hash@, p as nat));
    Ok(merkle_proof)
}

} // verus!
