//! The digest primitive and the node-digest combinators.
//!
//! Every digest in the authenticated map is a SHA-256 hash of a
//! domain-separated byte string, so that leaf, fork, labeled and empty
//! subtrees can never collide with one another trivially.

use sha2::{Digest, Sha256};
use vstd::prelude::*;

verus! {

/// What SHA-256 returns for a given byte string; the digest is a function of
/// the input bytes alone.
pub uninterp spec fn sha256_of(bytes: Seq<u8>) -> Seq<u8>;

/// Relies on sha2's Sha256 (new / update / finalize): one 32-byte digest of
/// the whole input.
#[verifier::external_body]
pub fn hash_bytes(value: &[u8]) -> (r: [u8; 32])
    ensures
        r@ == sha256_of(value@),
{
    let mut hasher = Sha256::new();
    hasher.update(value);
    hasher.finalize().into()
}

/// Domain separator for an empty subtree: length-prefixed "ic-hashtree-empty".
pub open spec fn ds_empty() -> Seq<u8> {
    seq![17u8, 105, 99, 45, 104, 97, 115, 104, 116, 114, 101, 101, 45, 101, 109, 112, 116, 121]
}

/// Domain separator for a fork: length-prefixed "ic-hashtree-fork".
pub open spec fn ds_fork() -> Seq<u8> {
    seq![16u8, 105, 99, 45, 104, 97, 115, 104, 116, 114, 101, 101, 45, 102, 111, 114, 107]
}

/// Domain separator for a labeled subtree: length-prefixed "ic-hashtree-labeled".
pub open spec fn ds_labeled() -> Seq<u8> {
    seq![19u8, 105, 99, 45, 104, 97, 115, 104, 116, 114, 101, 101, 45, 108, 97, 98, 101, 108, 101, 100]
}

/// Domain separator for a leaf: length-prefixed "ic-hashtree-leaf".
pub open spec fn ds_leaf() -> Seq<u8> {
    seq![16u8, 105, 99, 45, 104, 97, 115, 104, 116, 114, 101, 101, 45, 108, 101, 97, 102]
}

/// Digest of an empty subtree (the sentinel for absent children).
pub open spec fn empty_hash() -> Seq<u8> {
    sha256_of(ds_empty())
}

/// Digest of a leaf carrying the value `v`.
pub open spec fn leaf_hash(v: Seq<u8>) -> Seq<u8> {
    sha256_of(ds_leaf() + v)
}

/// Digest of a fork with child digests `l` and `r`.
pub open spec fn fork_hash(l: Seq<u8>, r: Seq<u8>) -> Seq<u8> {
    sha256_of(ds_fork() + l + r)
}

/// Digest of a subtree with digest `h` placed under the label `label`.
pub open spec fn labeled_hash(label: Seq<u8>, h: Seq<u8>) -> Seq<u8> {
    sha256_of(ds_labeled() + label + h)
}

/// Appends all of `s` to `out`.
pub fn push_slice(out: &mut Vec<u8>, s: &[u8])
    ensures
        final(out)@ == old(out)@ + s@,
{
    let mut i: usize = 0;
    while i < s.len()
        invariant
            i <= s@.len(),
            out@ == old(out)@ + s@.take(i as int),
        decreases s@.len() - i,
    {
        out.push(s[i]);
        proof {
            assert(out@ =~= old(out)@ + s@.take(i + 1));
        }
        i = i + 1;
    }
    proof {
        assert(s@.take(s@.len() as int) =~= s@);
    }
}

/// Appends all 32 bytes of `a` to `out`.
pub fn push_arr32(out: &mut Vec<u8>, a: &[u8; 32])
    ensures
        final(out)@ == old(out)@ + a@,
{
    let mut i: usize = 0;
    while i < 32
        invariant
            i <= 32,
            a@.len() == 32,
            out@ == old(out)@ + a@.take(i as int),
        decreases 32 - i,
    {
        out.push(a[i]);
        proof {
            assert(out@ =~= old(out)@ + a@.take(i + 1));
        }
        i = i + 1;
    }
    proof {
        assert(a@.take(32) =~= a@);
    }
}

fn ds_prefix() -> (r: Vec<u8>)
    ensures
        r@ == seq![105u8, 99, 45, 104, 97, 115, 104, 116, 114, 101, 101, 45],
{
    let mut v: Vec<u8> = Vec::new();
    v.push(105);
    v.push(99);
    v.push(45);
    v.push(104);
    v.push(97);
    v.push(115);
    v.push(104);
    v.push(116);
    v.push(114);
    v.push(101);
    v.push(101);
    v.push(45);
    proof {
        assert(v@ =~= seq![105u8, 99, 45, 104, 97, 115, 104, 116, 114, 101, 101, 45]);
    }
    v
}

fn ds_empty_vec() -> (r: Vec<u8>)
    ensures
        r@ == ds_empty(),
{
    let mut v: Vec<u8> = Vec::new();
    v.push(17);
    let mut p = ds_prefix();
    v.append(&mut p);
    v.push(101);
    v.push(109);
    v.push(112);
    v.push(116);
    v.push(121);
    proof {
        assert(v@ =~= ds_empty());
    }
    v
}

fn ds_fork_vec() -> (r: Vec<u8>)
    ensures
        r@ == ds_fork(),
{
    let mut v: Vec<u8> = Vec::new();
    v.push(16);
    let mut p = ds_prefix();
    v.append(&mut p);
    v.push(102);
    v.push(111);
    v.push(114);
    v.push(107);
    proof {
        assert(v@ =~= ds_fork());
    }
    v
}

fn ds_labeled_vec() -> (r: Vec<u8>)
    ensures
        r@ == ds_labeled(),
{
    let mut v: Vec<u8> = Vec::new();
    v.push(19);
    let mut p = ds_prefix();
    v.append(&mut p);
    v.push(108);
    v.push(97);
    v.push(98);
    v.push(101);
    v.push(108);
    v.push(101);
    v.push(100);
    proof {
        assert(v@ =~= ds_labeled());
    }
    v
}

fn ds_leaf_vec() -> (r: Vec<u8>)
    ensures
        r@ == ds_leaf(),
{
    let mut v: Vec<u8> = Vec::new();
    v.push(16);
    let mut p = ds_prefix();
    v.append(&mut p);
    v.push(108);
    v.push(101);
    v.push(97);
    v.push(102);
    proof {
        assert(v@ =~= ds_leaf());
    }
    v
}

/// Computes the digest of an empty subtree.
pub fn hash_empty() -> (r: [u8; 32])
    ensures
        r@ == empty_hash(),
{
    let buf = ds_empty_vec();
    hash_bytes(buf.as_slice())
}

/// Computes the digest of a leaf carrying `v`.
pub fn hash_leaf(v: &[u8]) -> (r: [u8; 32])
    ensures
        r@ == leaf_hash(v@),
{
    let mut buf = ds_leaf_vec();
    push_slice(&mut buf, v);
    hash_bytes(buf.as_slice())
}

/// Computes the digest of a fork over the child digests `l` and `r2`.
pub fn hash_fork(l: &[u8; 32], r2: &[u8; 32]) -> (r: [u8; 32])
    ensures
        r@ == fork_hash(l@, r2@),
{
    let mut buf = ds_fork_vec();
    push_arr32(&mut buf, l);
    push_arr32(&mut buf, r2);
    proof {
        assert(buf@ =~= ds_fork() + l@ + r2@);
    }
    hash_bytes(buf.as_slice())
}

/// Computes the digest of the subtree digest `h` under `label`.
pub fn hash_labeled(label: &[u8], h: &[u8; 32]) -> (r: [u8; 32])
    ensures
        r@ == labeled_hash(label@, h@),
{
    let mut buf = ds_labeled_vec();
    push_slice(&mut buf, label);
    push_arr32(&mut buf, h);
    proof {
        assert(buf@ =~= ds_labeled() + label@ + h@);
    }
    hash_bytes(buf.as_slice())
}

} // verus!
