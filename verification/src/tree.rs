//! The authenticated map: a binary search tree keyed by byte strings, each
//! node carrying a digest derived from its key, its value digest and its
//! children's digests, with insertion, lookup of the root digest, and
//! witness extraction.

use crate::hash_tree::{reconstruct, HashTree, SpecTree};
use crate::hashing::{
    empty_hash, fork_hash, hash_empty, hash_fork, hash_labeled, hash_leaf, labeled_hash, leaf_hash,
};
use crate::order::{arr32_to_vec, clone_bytes, cmp_bytes, lemma_lex_asym, lemma_lex_trans, lex_lt,
    KeyOrder};
use vstd::prelude::*;

verus! {

struct Node {
    key: Vec<u8>,
    value: [u8; 32],
    digest: [u8; 32],
    left: Option<Box<Node>>,
    right: Option<Box<Node>>,
}

impl Node {
    spec fn optional_as_map(node_opt: Option<Box<Node>>) -> Map<Seq<u8>, Seq<u8>>
        decreases node_opt,
    {
        match node_opt {
            None => Map::empty(),
            Some(node) => node.as_map(),
        }
    }

    spec fn as_map(self) -> Map<Seq<u8>, Seq<u8>>
        decreases self,
    {
        Node::optional_as_map(self.left).union_prefer_right(
            Node::optional_as_map(self.right),
        ).insert(self.key@, self.value@)
    }

    /// The node digest: the empty sentinel for an absent child, otherwise a
    /// fork of the left child, the labeled own entry, and the right child.
    spec fn optional_hash(node_opt: Option<Box<Node>>) -> Seq<u8>
        decreases node_opt,
    {
        match node_opt {
            None => empty_hash(),
            Some(node) => node.node_hash(),
        }
    }

    spec fn node_hash(self) -> Seq<u8>
        decreases self,
    {
        fork_hash(
            Node::optional_hash(self.left),
            fork_hash(
                labeled_hash(self.key@, leaf_hash(self.value@)),
                Node::optional_hash(self.right),
            ),
        )
    }

    spec fn well_formed(self) -> bool
        decreases self,
    {
        &&& (forall|k|
            Node::optional_as_map(self.left).dom().contains(k) ==> lex_lt(k, self.key@))
        &&& (forall|k|
            Node::optional_as_map(self.right).dom().contains(k) ==> lex_lt(self.key@, k))
        &&& (match self.left {
            Some(l) => l.well_formed(),
            None => true,
        })
        &&& (match self.right {
            Some(r) => r.well_formed(),
            None => true,
        })
        &&& self.digest@ == self.node_hash()
    }

    spec fn optional_well_formed(node_opt: Option<Box<Node>>) -> bool {
        match node_opt {
            None => true,
            Some(node) => node.well_formed(),
        }
    }

    /// Reads the cached digest of an optional subtree.
    fn optional_digest(node_opt: &Option<Box<Node>>) -> (r: [u8; 32])
        requires
            Node::optional_well_formed(*node_opt),
        ensures
            r@ == Node::optional_hash(*node_opt),
    {
        match node_opt {
            None => hash_empty(),
            Some(node) => node.digest,
        }
    }

    fn insert_into_optional(node: &mut Option<Box<Node>>, key: &Vec<u8>, value: &[u8; 32])
        requires
            Node::optional_well_formed(*old(node)),
        ensures
            Node::optional_well_formed(*final(node)),
            Node::optional_as_map(*final(node)) =~= Node::optional_as_map(*old(node)).insert(
                key@,
                value@,
            ),
            Node::optional_as_map(*old(node)).contains_pair(key@, value@) ==> Node::optional_hash(
                *final(node),
            ) == Node::optional_hash(*old(node)),
        decreases *old(node),
    {
        match node.take() {
            None => {
                let e = hash_empty();
                let lab = hash_labeled(key.as_slice(), &hash_leaf(value));
                let digest = hash_fork(&e, &hash_fork(&lab, &e));
                *node = Some(
                    Box::new(
                        Node {
                            key: clone_bytes(key),
                            value: *value,
                            digest,
                            left: None,
                            right: None,
                        },
                    ),
                );
            },
            Some(mut boxed_node) => {
                (&mut *boxed_node).insert(key, value);
                *node = Some(boxed_node);
            },
        }
    }

    fn insert(&mut self, key: &Vec<u8>, value: &[u8; 32])
        requires
            old(self).well_formed(),
        ensures
            final(self).well_formed(),
            final(self).as_map() =~= old(self).as_map().insert(key@, value@),
            final(self).key@ == old(self).key@,
            old(self).as_map().contains_pair(key@, value@) ==> final(self).node_hash() == old(
                self,
            ).node_hash(),
        decreases *old(self),
    {
        let o = cmp_bytes(key.as_slice(), self.key.as_slice());
        match o {
            KeyOrder::Equal => {
                proof {
                    if Node::optional_as_map(self.left).dom().contains(key@) {
                        lemma_lex_asym(key@, self.key@);
                    }
                    if Node::optional_as_map(self.right).dom().contains(key@) {
                        lemma_lex_asym(self.key@, key@);
                    }
                    assert(!Node::optional_as_map(self.left).dom().contains(key@));
                    assert(!Node::optional_as_map(self.right).dom().contains(key@));
                }
                self.value = *value;
            },
            KeyOrder::Less => {
                proof {
                    lemma_lex_asym(key@, self.key@);
                    if Node::optional_as_map(self.right).dom().contains(key@) {
                        lemma_lex_trans(key@, self.key@, key@);
                    }
                    assert(!Node::optional_as_map(self.right).dom().contains(key@));
                }
                Self::insert_into_optional(&mut self.left, key, value);
            },
            KeyOrder::Greater => {
                proof {
                    lemma_lex_asym(self.key@, key@);
                    if Node::optional_as_map(self.left).dom().contains(key@) {
                        lemma_lex_trans(key@, self.key@, key@);
                    }
                    assert(!Node::optional_as_map(self.left).dom().contains(key@));
                }
                Self::insert_into_optional(&mut self.right, key, value);
            },
        }
        let lab = hash_labeled(self.key.as_slice(), &hash_leaf(&self.value));
        let rd = Node::optional_digest(&self.right);
        let ld = Node::optional_digest(&self.left);
        self.digest = hash_fork(&ld, &hash_fork(&lab, &rd));
    }

    /// The witness for `key` in an optional subtree: the path toward `key`
    /// is walked, the keys along it are revealed, everything off the path is
    /// pruned down to its digest.
    spec fn spec_witness(node_opt: Option<Box<Node>>, key: Seq<u8>) -> SpecTree
        decreases node_opt,
    {
        match node_opt {
            None => SpecTree::Empty,
            Some(n) => {
                if key == n.key@ {
                    SpecTree::Fork(
                        Box::new(SpecTree::Pruned(Node::optional_hash(n.left))),
                        Box::new(
                            SpecTree::Fork(
                                Box::new(
                                    SpecTree::Labeled(n.key@, Box::new(SpecTree::Leaf(n.value@))),
                                ),
                                Box::new(SpecTree::Pruned(Node::optional_hash(n.right))),
                            ),
                        ),
                    )
                } else if lex_lt(key, n.key@) {
                    SpecTree::Fork(
                        Box::new(Node::spec_witness(n.left, key)),
                        Box::new(
                            SpecTree::Fork(
                                Box::new(
                                    SpecTree::Labeled(
                                        n.key@,
                                        Box::new(SpecTree::Pruned(leaf_hash(n.value@))),
                                    ),
                                ),
                                Box::new(SpecTree::Pruned(Node::optional_hash(n.right))),
                            ),
                        ),
                    )
                } else {
                    SpecTree::Fork(
                        Box::new(SpecTree::Pruned(Node::optional_hash(n.left))),
                        Box::new(
                            SpecTree::Fork(
                                Box::new(
                                    SpecTree::Labeled(
                                        n.key@,
                                        Box::new(SpecTree::Pruned(leaf_hash(n.value@))),
                                    ),
                                ),
                                Box::new(Node::spec_witness(n.right, key)),
                            ),
                        ),
                    )
                }
            },
        }
    }

    fn witness_optional(node_opt: &Option<Box<Node>>, key: &[u8]) -> (w: HashTree)
        requires
            Node::optional_well_formed(*node_opt),
        ensures
            w@ == Node::spec_witness(*node_opt, key@),
        decreases *node_opt,
    {
        proof {
            reveal_with_fuel(crate::hash_tree::tree_view, 5);
        }
        match node_opt {
            None => HashTree::Empty,
            Some(n) => {
                let o = cmp_bytes(key, n.key.as_slice());
                match o {
                    KeyOrder::Equal => HashTree::Fork(
                        Box::new(HashTree::Pruned(Node::optional_digest(&n.left))),
                        Box::new(
                            HashTree::Fork(
                                Box::new(
                                    HashTree::Labeled(
                                        clone_bytes(&n.key),
                                        Box::new(HashTree::Leaf(arr32_to_vec(&n.value))),
                                    ),
                                ),
                                Box::new(HashTree::Pruned(Node::optional_digest(&n.right))),
                            ),
                        ),
                    ),
                    KeyOrder::Less => {
                        proof {
                            lemma_lex_asym(key@, n.key@);
                        }
                        HashTree::Fork(
                            Box::new(Node::witness_optional(&n.left, key)),
                            Box::new(
                                HashTree::Fork(
                                    Box::new(
                                        HashTree::Labeled(
                                            clone_bytes(&n.key),
                                            Box::new(HashTree::Pruned(hash_leaf(&n.value))),
                                        ),
                                    ),
                                    Box::new(HashTree::Pruned(Node::optional_digest(&n.right))),
                                ),
                            ),
                        )
                    },
                    KeyOrder::Greater => {
                        proof {
                            lemma_lex_asym(n.key@, key@);
                        }
                        HashTree::Fork(
                            Box::new(HashTree::Pruned(Node::optional_digest(&n.left))),
                            Box::new(
                                HashTree::Fork(
                                    Box::new(
                                        HashTree::Labeled(
                                            clone_bytes(&n.key),
                                            Box::new(HashTree::Pruned(hash_leaf(&n.value))),
                                        ),
                                    ),
                                    Box::new(Node::witness_optional(&n.right, key)),
                                ),
                            ),
                        )
                    },
                }
            },
        }
    }

    /// The digest recomputed from a witness is the digest of the subtree the
    /// witness was extracted from, whether or not the key is present.
    proof fn lemma_witness_digest(node_opt: Option<Box<Node>>, key: Seq<u8>)
        ensures
            reconstruct(Node::spec_witness(node_opt, key)) == Node::optional_hash(node_opt),
        decreases node_opt,
    {
        reveal_with_fuel(crate::hash_tree::reconstruct, 5);
        match node_opt {
            None => {},
            Some(n) => {
                if key == n.key@ {
                } else if lex_lt(key, n.key@) {
                    Node::lemma_witness_digest(n.left, key);
                } else {
                    Node::lemma_witness_digest(n.right, key);
                }
            },
        }
    }
}

/// The authenticated map over asset paths: each path carries the digest of
/// the asset bytes stored at that path.
///
/// The tree is a plain binary search tree in lexicographic byte order; no
/// rebalancing is done, so the shape (and with it the root digest) is
/// determined by the insertion order alone.
pub struct AssetHashes {
    root: Option<Box<Node>>,
}

impl View for AssetHashes {
    type V = Map<Seq<u8>, Seq<u8>>;

    closed spec fn view(&self) -> Map<Seq<u8>, Seq<u8>> {
        Node::optional_as_map(self.root)
    }
}

impl AssetHashes {
    /// The search-tree order and the digest cache hold throughout the tree.
    pub closed spec fn well_formed(&self) -> bool {
        Node::optional_well_formed(self.root)
    }

    /// The root digest of the tree, the empty sentinel when no key is held.
    pub closed spec fn root_hash_spec(&self) -> Seq<u8> {
        Node::optional_hash(self.root)
    }

    /// The witness extracted for `key`.
    pub closed spec fn witness_spec(&self, key: Seq<u8>) -> SpecTree {
        Node::spec_witness(self.root, key)
    }

    /// An empty authenticated map.
    pub fn new() -> (r: AssetHashes)
        ensures
            r.well_formed(),
            r@ == Map::<Seq<u8>, Seq<u8>>::empty(),
            r.root_hash_spec() == empty_hash(),
    {
        AssetHashes { root: None }
    }

    /// Inserts or overwrites the value digest held for `key`.
    ///
    /// Overwriting a key with the digest it already carries leaves the root
    /// digest unchanged, so repeating an insertion is idempotent.
    pub fn insert(&mut self, key: &Vec<u8>, value: &[u8; 32])
        requires
            old(self).well_formed(),
        ensures
            final(self).well_formed(),
            final(self)@ == old(self)@.insert(key@, value@),
            old(self)@.contains_pair(key@, value@) ==> final(self).root_hash_spec() == old(
                self,
            ).root_hash_spec(),
    {
        Node::insert_into_optional(&mut self.root, key, value);
    }

    /// The current root digest.
    pub fn root_hash(&self) -> (r: [u8; 32])
        requires
            self.well_formed(),
        ensures
            r@ == self.root_hash_spec(),
    {
        Node::optional_digest(&self.root)
    }

    /// Extracts a witness for `key`: a pruned tree from which a verifier
    /// recomputes the root digest, whether `key` is present or absent.
    pub fn witness(&self, key: &[u8]) -> (w: HashTree)
        requires
            self.well_formed(),
        ensures
            w@ == self.witness_spec(key@),
    {
        Node::witness_optional(&self.root, key)
    }

    /// Witness soundness: the digest recomputed from the witness for any
    /// key, present or absent, is exactly the current root digest.
    pub proof fn lemma_witness_reconstructs(&self, key: Seq<u8>)
        requires
            self.well_formed(),
        ensures
            reconstruct(self.witness_spec(key)) == self.root_hash_spec(),
    {
        Node::lemma_witness_digest(self.root, key);
    }
}

impl Default for AssetHashes {
    /// An empty authenticated map.
    fn default() -> (r: AssetHashes)
        ensures
            r.well_formed(),
            r@ == Map::<Seq<u8>, Seq<u8>>::empty(),
            r.root_hash_spec() == empty_hash(),
    {
        AssetHashes { root: None }
    }
}

} // verus!
