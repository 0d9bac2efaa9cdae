//! The pruned hash tree that a witness is made of, the digest a verifier
//! recomputes from it, and its canonical self-describing binary encoding.

use crate::hashing::{empty_hash, fork_hash, labeled_hash, leaf_hash};
use vstd::prelude::*;

verus! {

/// The mathematical shape of a pruned hash tree.
pub enum SpecTree {
    Empty,
    Fork(Box<SpecTree>, Box<SpecTree>),
    Labeled(Seq<u8>, Box<SpecTree>),
    Leaf(Seq<u8>),
    Pruned(Seq<u8>),
}

/// A pruned hash tree: enough of the authenticated map to recompute the root
/// digest while revealing only what the witness is about.
pub enum HashTree {
    Empty,
    Fork(Box<HashTree>, Box<HashTree>),
    Labeled(Vec<u8>, Box<HashTree>),
    Leaf(Vec<u8>),
    Pruned([u8; 32]),
}

/// The shape of an executable hash tree.
pub open spec fn tree_view(t: HashTree) -> SpecTree
    decreases t,
{
    match t {
        HashTree::Empty => SpecTree::Empty,
        HashTree::Fork(l, r) => SpecTree::Fork(Box::new(tree_view(*l)), Box::new(tree_view(*r))),
        HashTree::Labeled(lab, s) => SpecTree::Labeled(lab@, Box::new(tree_view(*s))),
        HashTree::Leaf(v) => SpecTree::Leaf(v@),
        HashTree::Pruned(d) => SpecTree::Pruned(d@),
    }
}

impl View for HashTree {
    type V = SpecTree;

    open spec fn view(&self) -> SpecTree {
        tree_view(*self)
    }
}

/// The digest a verifier recomputes from a pruned hash tree: forks, labels
/// and leaves are hashed with their domain separators, a pruned subtree
/// stands for its own digest.
pub open spec fn reconstruct(t: SpecTree) -> Seq<u8>
    decreases t,
{
    match t {
        SpecTree::Empty => empty_hash(),
        SpecTree::Fork(l, r) => fork_hash(reconstruct(*l), reconstruct(*r)),
        SpecTree::Labeled(lab, s) => labeled_hash(lab, reconstruct(*s)),
        SpecTree::Leaf(v) => leaf_hash(v),
        SpecTree::Pruned(d) => d,
    }
}

/// Header of a definite-length item in the canonical binary encoding:
/// the major type in the top three bits, then the shortest length form.
pub open spec fn cbor_header(major: u8, len: nat) -> Seq<u8>
    recommends
        major < 6,
{
    if len < 24 {
        seq![(major * 32 + len) as u8]
    } else if len < 256 {
        seq![(major * 32 + 24) as u8, len as u8]
    } else if len < 65536 {
        seq![(major * 32 + 25) as u8, (len / 256) as u8, (len % 256) as u8]
    } else if len < 4294967296 {
        seq![
            (major * 32 + 26) as u8,
            (len / 16777216) as u8,
            ((len / 65536) % 256) as u8,
            ((len / 256) % 256) as u8,
            (len % 256) as u8,
        ]
    } else {
        seq![
            (major * 32 + 27) as u8,
            (len / 72057594037927936) as u8,
            ((len / 281474976710656) % 256) as u8,
            ((len / 1099511627776) % 256) as u8,
            ((len / 4294967296) % 256) as u8,
            ((len / 16777216) % 256) as u8,
            ((len / 65536) % 256) as u8,
            ((len / 256) % 256) as u8,
            (len % 256) as u8,
        ]
    }
}

/// Encoding of a byte string: its header, then the bytes themselves.
pub open spec fn cbor_bytes(s: Seq<u8>) -> Seq<u8> {
    cbor_header(2, s.len()) + s
}

/// Canonical encoding of a pruned hash tree: each node is an array tagged
/// with its kind, labels, leaves and digests are byte strings.
pub open spec fn cbor_tree(t: SpecTree) -> Seq<u8>
    decreases t,
{
    match t {
        SpecTree::Empty => seq![0x81u8, 0x00],
        SpecTree::Fork(l, r) => seq![0x83u8, 0x01] + cbor_tree(*l) + cbor_tree(*r),
        SpecTree::Labeled(lab, s) => seq![0x83u8, 0x02] + cbor_bytes(lab) + cbor_tree(*s),
        SpecTree::Leaf(v) => seq![0x82u8, 0x03] + cbor_bytes(v),
        SpecTree::Pruned(d) => seq![0x82u8, 0x04] + cbor_bytes(d),
    }
}

/// A serialized tree: the self-description tag, then the tree.
pub open spec fn serialized_tree(t: SpecTree) -> Seq<u8> {
    seq![0xd9u8, 0xd9, 0xf7] + cbor_tree(t)
}

/// Appends the header of a definite-length item to `out`.
fn push_cbor_header(out: &mut Vec<u8>, major: u8, len: usize)
    requires
        major < 6,
    ensures
        final(out)@ == old(out)@ + cbor_header(major, len as nat),
{
    if len < 24 {
        out.push(major * 32 + (len as u8));
        proof {
            assert(out@ =~= old(out)@ + cbor_header(major, len as nat));
        }
    } else if len < 256 {
        out.push(major * 32 + 24);
        out.push(len as u8);
        proof {
            assert(out@ =~= old(out)@ + cbor_header(major, len as nat));
        }
    } else if len < 65536 {
        out.push(major * 32 + 25);
        out.push((len / 256) as u8);
        out.push((len % 256) as u8);
        proof {
            assert(out@ =~= old(out)@ + cbor_header(major, len as nat));
        }
    } else if (len as u64) < 4294967296u64 {
        out.push(major * 32 + 26);
        out.push((len / 16777216) as u8);
        out.push(((len / 65536) % 256) as u8);
        out.push(((len / 256) % 256) as u8);
        out.push((len % 256) as u8);
        proof {
            assert(out@ =~= old(out)@ + cbor_header(major, len as nat));
        }
    } else {
        let w = len as u64;
        out.push(major * 32 + 27);
        out.push((w / 72057594037927936u64) as u8);
        out.push(((w / 281474976710656u64) % 256) as u8);
        out.push(((w / 1099511627776u64) % 256) as u8);
        out.push(((w / 4294967296u64) % 256) as u8);
        out.push(((w / 16777216u64) % 256) as u8);
        out.push(((w / 65536u64) % 256) as u8);
        out.push(((w / 256u64) % 256) as u8);
        out.push((w % 256u64) as u8);
        proof {
            assert(out@ =~= old(out)@ + cbor_header(major, len as nat));
        }
    }
}

/// Appends the encoding of the byte string `s` to `out`.
fn push_cbor_bytes(out: &mut Vec<u8>, s: &[u8])
    ensures
        final(out)@ == old(out)@ + cbor_bytes(s@),
{
    push_cbor_header(out, 2, s.len());
    crate::hashing::push_slice(out, s);
    proof {
        assert(out@ =~= old(out)@ + cbor_bytes(s@));
    }
}

/// Appends the encoding of the tree `t` to `out`.
fn encode_into(t: &HashTree, out: &mut Vec<u8>)
    ensures
        final(out)@ == old(out)@ + cbor_tree(t@),
    decreases *t,
{
    match t {
        HashTree::Empty => {
            out.push(0x81);
            out.push(0x00);
            proof {
                assert(out@ =~= old(out)@ + cbor_tree(t@));
            }
        },
        HashTree::Fork(l, r) => {
            out.push(0x83);
            out.push(0x01);
            encode_into(l, out);
            encode_into(r, out);
            proof {
                assert(out@ =~= old(out)@ + cbor_tree(t@));
            }
        },
        HashTree::Labeled(lab, s) => {
            out.push(0x83);
            out.push(0x02);
            push_cbor_bytes(out, lab.as_slice());
            encode_into(s, out);
            proof {
                assert(out@ =~= old(out)@ + cbor_tree(t@));
            }
        },
        HashTree::Leaf(v) => {
            out.push(0x82);
            out.push(0x03);
            push_cbor_bytes(out, v.as_slice());
            proof {
                assert(out@ =~= old(out)@ + cbor_tree(t@));
            }
        },
        HashTree::Pruned(d) => {
            out.push(0x82);
            out.push(0x04);
            let dv = crate::order::arr32_to_vec(d);
            push_cbor_bytes(out, dv.as_slice());
            proof {
                assert(out@ =~= old(out)@ + cbor_tree(t@));
            }
        },
    }
}

/// Serializes a pruned hash tree to its canonical self-describing encoding.
pub fn encode_tree(t: &HashTree) -> (r: Vec<u8>)
    ensures
        r@ == serialized_tree(t@),
{
    let mut out: Vec<u8> = Vec::new();
    out.push(0xd9);
    out.push(0xd9);
    out.push(0xf7);
    encode_into(t, &mut out);
    proof {
        assert(out@ =~= serialized_tree(t@));
    }
    out
}

} // verus!

