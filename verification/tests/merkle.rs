use indy_vdr::merkle::MerkleTree;

fn hex(bytes: &[u8]) -> String {
    let mut out = String::new();
    for b in bytes {
        out.push_str(&format!("{:02x}", b));
    }
    out
}

fn unhex(text: &str) -> Vec<u8> {
    let digits: Vec<u32> = text.chars().map(|c| c.to_digit(16).unwrap()).collect();
    digits.chunks(2).map(|p| (p[0] * 16 + p[1]) as u8).collect()
}

fn reference_leaves() -> Vec<Vec<u8>> {
    vec![
        unhex(""),
        unhex("00"),
        unhex("10"),
        unhex("2021"),
        unhex("3031"),
        unhex("40414243"),
        unhex("5051525354555657"),
        unhex("606162636465666768696a6b6c6d6e6f"),
    ]
}

#[test]
fn empty_tree_root_is_hash_of_nothing() {
    let tree = MerkleTree::new();
    assert_eq!(tree.count(), 0);
    assert_eq!(
        hex(&tree.root_hash()),
        "e3b0c44298fc1c149afbf4c8996fb92427ae41e4649b934ca495991b7852b855"
    );
}

#[test]
fn single_leaf_root_is_the_leaf_hash() {
    let mut tree = MerkleTree::new();
    tree.append(&[]);
    assert_eq!(tree.count(), 1);
    assert_eq!(
        hex(&tree.root_hash()),
        "6e340b9cffb37a989ca544e6bb780a2c78901d3fb33738768511a30617afa01d"
    );
}

#[test]
fn roots_of_growing_tree_match_known_values() {
    let expected = [
        "6e340b9cffb37a989ca544e6bb780a2c78901d3fb33738768511a30617afa01d",
        "fac54203e7cc696cf0dfcb42c92a1d9dbaf70ad9e621f4bd8d98662f00e3c125",
        "aeb6bcfe274b70a14fb067a5e5578264db0fa9b51af5e0ba159158f329e06e77",
        "d37ee418976dd95753c1c73862b9398fa2a2cf9b4ff0fdfe8b30cd95209614b7",
        "4e3bbb1f7b478dcfe71fb631631519a3bca12c9aefca1612bfce4c13a86264d4",
        "76e67dadbcdf1e10e1b74ddc608abd2f98dfb16fbce75277b5232a127f2087ef",
        "ddb89be403809e325750d3d263cd78929c2942b7942a34b77e122c9594a74c8c",
        "5dc9da79a70659a9ad559cb701ded9a2ab9d823aad2f4960cfe370eff4604328",
    ];
    let mut tree = MerkleTree::new();
    for (i, leaf) in reference_leaves().iter().enumerate() {
        tree.append(leaf);
        assert_eq!(tree.count(), i + 1);
        assert_eq!(hex(&tree.root_hash()), expected[i]);
    }
}

#[test]
fn root_hash_is_thirty_two_bytes_and_not_the_input() {
    let mut tree = MerkleTree::new();
    let data = b"some leaf data".to_vec();
    tree.append(&data);
    let root = tree.root_hash();
    assert_eq!(root.len(), 32);
    assert_ne!(root, data);
}

#[test]
fn duplicate_tree_has_same_root() {
    let mut tree = MerkleTree::new();
    for leaf in reference_leaves() {
        tree.append(&leaf);
    }
    let copy = tree.duplicate();
    assert_eq!(copy.count(), tree.count());
    assert_eq!(copy.root_hash(), tree.root_hash());
}

#[test]
fn order_of_leaves_changes_the_root() {
    let mut a = MerkleTree::new();
    a.append(b"one");
    a.append(b"two");
    let mut b = MerkleTree::new();
    b.append(b"two");
    b.append(b"one");
    assert_ne!(a.root_hash(), b.root_hash());
}
