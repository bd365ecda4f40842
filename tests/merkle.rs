use merkle_tree::hash::{decimal_bytes, hash_leaf, hash_pair};
use merkle_tree::hex::to_hex;
use merkle_tree::inclusion::{
    generate_merkle_proof, get_direction, index, same_digest, Direction, Node, ProofError,
};
use merkle_tree::tree::{combine_level, generate_merkle_tree, make_even};
use sha2::{Digest, Sha256};

fn h(text: &str) -> [u8; 32] {
    Sha256::digest(text.as_bytes()).into()
}

fn hp(left: &[u8; 32], right: &[u8; 32]) -> [u8; 32] {
    let mut hasher = Sha256::new();
    hasher.update(left);
    hasher.update(right);
    hasher.finalize().into()
}

fn fold(proof: &[Node]) -> [u8; 32] {
    let mut running = proof[0].hash;
    for node in &proof[1..] {
        running = match node.direction {
            Direction::LEFT => hp(&node.hash, &running),
            Direction::RIGHT => hp(&running, &node.hash),
        };
    }
    running
}

fn check_round_trip(inputs: Vec<i32>) {
    let tree = generate_merkle_tree(&inputs);
    let root = tree[tree.len() - 1][0];
    for leaf in &tree[0] {
        let proof = generate_merkle_proof(leaf, &tree).unwrap();
        assert_eq!(proof.len(), tree.len());
        assert_eq!(proof[0].hash, *leaf);
        assert_eq!(fold(&proof), root);
    }
}

#[test]
fn build_of_nothing_is_empty() {
    let tree = generate_merkle_tree(&vec![]);
    assert!(tree.is_empty());
}

#[test]
fn proof_in_empty_tree_is_empty() {
    let tree: Vec<Vec<[u8; 32]>> = vec![];
    let proof = generate_merkle_proof(&h("1"), &tree).unwrap();
    assert!(proof.is_empty());
}

#[test]
fn single_input_gives_one_level() {
    let tree = generate_merkle_tree(&vec![42]);
    assert_eq!(tree, vec![vec![h("42")]]);
}

#[test]
fn three_inputs_repeat_last_leaf() {
    let tree = generate_merkle_tree(&vec![1, 2, 3]);
    let (a, b, c) = (h("1"), h("2"), h("3"));
    let l1 = vec![hp(&a, &b), hp(&c, &c)];
    assert_eq!(tree.len(), 3);
    assert_eq!(tree[0], vec![a, b, c, c]);
    assert_eq!(tree[1], l1);
    assert_eq!(tree[2], vec![hp(&l1[0], &l1[1])]);
}

#[test]
fn five_inputs_pad_twice() {
    let tree = generate_merkle_tree(&vec![1, 2, 3, 4, 5]);
    let lengths: Vec<usize> = tree.iter().map(|l| l.len()).collect();
    assert_eq!(lengths, vec![6, 4, 2, 1]);
    assert_eq!(tree[0][5], h("5"));
    assert_eq!(tree[1][2], hp(&h("5"), &h("5")));
    assert_eq!(tree[1][3], tree[1][2]);
}

#[test]
fn round_trip_two_leaves() {
    check_round_trip(vec![10, 20]);
}

#[test]
fn round_trip_three_leaves() {
    check_round_trip(vec![1, 2, 3]);
}

#[test]
fn round_trip_four_leaves() {
    check_round_trip(vec![1, 2, 3, 4]);
}

#[test]
fn round_trip_five_leaves() {
    check_round_trip(vec![1, 2, 3, 4, 5]);
}

#[test]
fn round_trip_single_leaf() {
    check_round_trip(vec![-7]);
}

#[test]
fn absent_target_is_not_found() {
    let tree = generate_merkle_tree(&vec![1, 2, 3]);
    let r = generate_merkle_proof(&h("4"), &tree);
    assert_eq!(r.err(), Some(ProofError::NotFound));
}

#[test]
fn inner_digest_is_not_a_leaf() {
    let tree = generate_merkle_tree(&vec![1, 2]);
    let r = generate_merkle_proof(&tree[1][0], &tree);
    assert_eq!(r.err(), Some(ProofError::NotFound));
}

#[test]
fn malformed_tree_is_an_invariant_violation() {
    let tree = vec![vec![h("1")], vec![h("2")]];
    let r = generate_merkle_proof(&h("1"), &tree);
    assert_eq!(r.err(), Some(ProofError::InvariantViolation { level: 0, index: 1 }));
}

#[test]
fn build_and_prove_are_deterministic() {
    let inputs = vec![3, 1, 4, 1, 5, 9, 2];
    let first = generate_merkle_tree(&inputs);
    let second = generate_merkle_tree(&inputs);
    assert_eq!(first, second);
    let p1 = generate_merkle_proof(&h("9"), &first).unwrap();
    let p2 = generate_merkle_proof(&h("9"), &first).unwrap();
    assert_eq!(p1.len(), p2.len());
    for (x, y) in p1.iter().zip(p2.iter()) {
        assert_eq!(x.hash, y.hash);
        assert_eq!(x.direction, y.direction);
    }
}

#[test]
fn example_one_two_three() {
    let tree = generate_merkle_tree(&vec![1, 2, 3]);
    assert_eq!(tree[0], vec![h("1"), h("2"), h("3"), h("3")]);
    assert_eq!(tree[1].len(), 2);
    assert_eq!(tree[2].len(), 1);
    let proof = generate_merkle_proof(&h("1"), &tree).unwrap();
    assert_eq!(proof.len(), tree.len());
    let directions: Vec<Direction> = proof.iter().map(|n| n.direction).collect();
    assert_eq!(directions, vec![Direction::LEFT, Direction::RIGHT, Direction::RIGHT]);
    assert_eq!(proof[0].hash, h("1"));
    assert_eq!(proof[1].hash, h("2"));
    assert_eq!(proof[2].hash, hp(&h("3"), &h("3")));
}

#[test]
fn proof_of_right_leaf_starts_right() {
    let tree = generate_merkle_tree(&vec![1, 2, 3]);
    let proof = generate_merkle_proof(&h("2"), &tree).unwrap();
    assert_eq!(proof[0].direction, Direction::RIGHT);
    assert_eq!(proof[1].direction, Direction::LEFT);
    assert_eq!(proof[1].hash, h("1"));
}

#[test]
fn duplicated_leaf_uses_first_position() {
    let tree = generate_merkle_tree(&vec![1, 2, 3]);
    let proof = generate_merkle_proof(&h("3"), &tree).unwrap();
    assert_eq!(proof[0].direction, Direction::LEFT);
    assert_eq!(proof[1].hash, h("3"));
    assert_eq!(proof[1].direction, Direction::RIGHT);
}

#[test]
fn make_even_repeats_last_of_odd() {
    assert_eq!(make_even(vec![h("a"), h("b"), h("c")]), vec![h("a"), h("b"), h("c"), h("c")]);
    assert_eq!(make_even(vec![h("a"), h("b")]), vec![h("a"), h("b")]);
    assert_eq!(make_even(vec![]), Vec::<[u8; 32]>::new());
}

#[test]
fn combine_level_hashes_pairs() {
    let level = vec![h("a"), h("b"), h("c"), h("d")];
    assert_eq!(combine_level(&level), vec![hp(&h("a"), &h("b")), hp(&h("c"), &h("d"))]);
}

#[test]
fn index_finds_first_match() {
    let level = vec![h("a"), h("b"), h("b")];
    assert_eq!(index(&h("b"), &level), Some(1));
    assert_eq!(index(&h("z"), &level), None);
}

#[test]
fn direction_follows_position_parity() {
    let tree = generate_merkle_tree(&vec![1, 2, 3, 4]);
    assert_eq!(get_direction(&h("3"), &tree, 0), Some(Direction::LEFT));
    assert_eq!(get_direction(&h("4"), &tree, 0), Some(Direction::RIGHT));
    assert_eq!(get_direction(&h("5"), &tree, 0), None);
}

#[test]
fn decimal_text_of_integers() {
    assert_eq!(decimal_bytes(0), b"0".to_vec());
    assert_eq!(decimal_bytes(1234), b"1234".to_vec());
    assert_eq!(decimal_bytes(-56), b"-56".to_vec());
    assert_eq!(decimal_bytes(i32::MIN), i32::MIN.to_string().into_bytes());
    assert_eq!(decimal_bytes(i32::MAX), i32::MAX.to_string().into_bytes());
}

#[test]
fn leaf_digest_is_sha256_of_decimal_text() {
    assert_eq!(
        to_hex(&hash_leaf(1)),
        "6b86b273ff34fce19d6b804eff5a3f5747ada4eaa22f1d49c01e52ddb7875b4b"
    );
    assert_eq!(hash_leaf(-5), h("-5"));
}

#[test]
fn pair_digest_is_sha256_of_concatenation() {
    let (a, b) = (h("1"), h("2"));
    let mut joined = a.to_vec();
    joined.extend_from_slice(&b);
    let expected: [u8; 32] = Sha256::digest(&joined).into();
    assert_eq!(hash_pair(&a, &b), expected);
    assert_ne!(hash_pair(&a, &b), hash_pair(&b, &a));
}

#[test]
fn hex_text_of_digest() {
    let mut d = [0u8; 32];
    d[0] = 0xab;
    d[31] = 0x0f;
    let text = to_hex(&d);
    assert_eq!(text.len(), 64);
    assert!(text.starts_with("ab00"));
    assert!(text.ends_with("000f"));
}

#[test]
fn same_digest_compares_bytes() {
    assert!(same_digest(&h("x"), &h("x")));
    assert!(!same_digest(&h("x"), &h("y")));
}
