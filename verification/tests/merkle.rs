use utxo_node::merkle_tree::{MerkleNode, MerkleTree};
use utxo_node::text::to_hex;

fn data(items: &[&str]) -> Vec<Vec<u8>> {
    items.iter().map(|s| s.as_bytes().to_vec()).collect()
}

#[test]
fn single_datum_is_paired_with_itself() {
    let mut d = data(&["a"]);
    let tree = MerkleTree::new(&mut d);
    assert_eq!(
        to_hex(&tree.data()),
        "251a262291b87cb3c93a6ed71865da1f2c090c3d0196661a8f4a705b65836f71"
    );
    assert_eq!(d, data(&["a", "a"]));
}

#[test]
fn two_data_make_one_parent() {
    let mut d = data(&["a", "b"]);
    let tree = MerkleTree::new(&mut d);
    assert_eq!(
        to_hex(&tree.data()),
        "e5a01fee14e0ed5c48714f22180f25ad8365b53f9779f79dc4a3d7e93963f94a"
    );
    assert_eq!(d, data(&["a", "b"]));
}

#[test]
fn odd_count_repeats_the_last_datum() {
    let mut d = data(&["a", "b", "c"]);
    let tree = MerkleTree::new(&mut d);
    assert_eq!(
        to_hex(&tree.data()),
        "d31a37ef6ac14a2db1470c4316beb5592e6afd4465022339adafda76a18ffabe"
    );
    assert_eq!(d, data(&["a", "b", "c", "c"]));
    let mut same = data(&["a", "b", "c", "c"]);
    assert_eq!(MerkleTree::new(&mut same).data(), tree.data());
}

#[test]
fn odd_level_above_the_leaves_repeats_its_last_node() {
    let mut d = data(&["1", "2", "3", "4", "5"]);
    let tree = MerkleTree::new(&mut d);
    assert_eq!(
        to_hex(&tree.data()),
        "0abb51d233d9b6172ff6fcb56b4ef172f550da4cb15aa328ebf43751288b8011"
    );
}

#[test]
fn order_of_the_data_matters() {
    let mut ab = data(&["a", "b"]);
    let mut ba = data(&["b", "a"]);
    assert_ne!(MerkleTree::new(&mut ab).data(), MerkleTree::new(&mut ba).data());
}

#[test]
fn nodes_hash_their_datum_or_their_children() {
    let left = MerkleNode::new(None, None, Some(b"a".to_vec()));
    let right = MerkleNode::new(None, None, Some(b"b".to_vec()));
    assert_eq!(
        to_hex(&left.digest()),
        "ca978112ca1bbdcafac231b39a23dc4da786eff8147c4e72b9807785afee48bb"
    );
    let copy = left.duplicate();
    assert_eq!(copy.digest(), left.digest());
    let parent = MerkleNode::new(Some(left), Some(right), None);
    assert_eq!(
        to_hex(&parent.digest()),
        "e5a01fee14e0ed5c48714f22180f25ad8365b53f9779f79dc4a3d7e93963f94a"
    );
    assert_eq!(parent.duplicate().digest(), parent.digest());
}

#[test]
fn digests_have_thirty_two_bytes() {
    let leaf = MerkleNode::new(None, None, Some(vec![]));
    assert_eq!(
        to_hex(&leaf.digest()),
        "e3b0c44298fc1c149afbf4c8996fb92427ae41e4649b934ca495991b7852b855"
    );
    assert_eq!(leaf.digest().len(), 32);
    let parent = MerkleNode::new(Some(leaf.duplicate()), Some(leaf), None);
    assert_eq!(parent.digest().len(), 32);
    let mut five: Vec<Vec<u8>> = vec![vec![1], vec![2], vec![3], vec![4], vec![5]];
    let tree = MerkleTree::new(&mut five);
    assert_eq!(tree.data().len(), 32);
    assert_eq!(tree.data(), tree.data());
    assert_eq!(five.len(), 6);
    let mut changed: Vec<Vec<u8>> = vec![vec![1], vec![2], vec![3], vec![5], vec![4]];
    assert_ne!(MerkleTree::new(&mut changed).data(), tree.data());
}
