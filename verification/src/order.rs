//! Lexicographic order on byte strings, the key order of the authenticated
//! map, together with the small helpers on byte vectors the crate needs.

use vstd::prelude::*;

verus! {

/// `a` comes strictly before `b` in lexicographic byte order.
pub open spec fn lex_lt(a: Seq<u8>, b: Seq<u8>) -> bool
    decreases a.len(),
{
    if b.len() == 0 {
        false
    } else if a.len() == 0 {
        true
    } else if a[0] < b[0] {
        true
    } else if a[0] > b[0] {
        false
    } else {
        lex_lt(a.skip(1), b.skip(1))
    }
}

/// Two byte strings sharing a prefix compare according to the first
/// position at which they differ, or by length when one is a prefix of
/// the other.
pub proof fn lemma_lex_from_prefix(a: Seq<u8>, b: Seq<u8>, i: int)
    requires
        0 <= i <= a.len(),
        i <= b.len(),
        forall|j: int| 0 <= j < i ==> a[j] == b[j],
    ensures
        (i < a.len() && i < b.len() && a[i] < b[i]) ==> lex_lt(a, b),
        (i == a.len() && i < b.len()) ==> lex_lt(a, b),
        (i == a.len() && i == b.len()) ==> a == b,
    decreases i,
{
    if i == 0 {
        if i == a.len() && i == b.len() {
            assert(a =~= b);
        }
    } else {
        lemma_lex_from_prefix(a.skip(1), b.skip(1), i - 1);
        if i == a.len() && i == b.len() {
            assert(a =~= b);
        }
    }
}

/// The order is asymmetric, and strictly ordered strings are distinct.
pub proof fn lemma_lex_asym(a: Seq<u8>, b: Seq<u8>)
    requires
        lex_lt(a, b),
    ensures
        !lex_lt(b, a),
        a != b,
    decreases a.len(),
{
    if a.len() != 0 && b.len() != 0 && a[0] == b[0] {
        lemma_lex_asym(a.skip(1), b.skip(1));
        assert(a != b) by {
            if a == b {
                assert(a.skip(1) =~= b.skip(1));
            }
        }
    } else {
        if a == b {
            assert(a.len() == b.len());
        }
    }
}

/// The order is transitive.
pub proof fn lemma_lex_trans(a: Seq<u8>, b: Seq<u8>, c: Seq<u8>)
    requires
        lex_lt(a, b),
        lex_lt(b, c),
    ensures
        lex_lt(a, c),
    decreases a.len(),
{
    if b.len() == 0 {
        // impossible: lex_lt(b, c) would still allow it, but lex_lt(a, b) fails
    } else if c.len() == 0 {
        // impossible: lex_lt(b, c) is false
    } else if a.len() == 0 {
    } else {
        if a[0] == b[0] && b[0] == c[0] {
            lemma_lex_trans(a.skip(1), b.skip(1), c.skip(1));
        }
    }
}

/// Outcome of a three-way byte-string comparison.
pub enum KeyOrder {
    Less,
    Equal,
    Greater,
}

/// Three-way lexicographic comparison of two byte strings.
pub fn cmp_bytes(a: &[u8], b: &[u8]) -> (o: KeyOrder)
    ensures
        match o {
            KeyOrder::Less => lex_lt(a@, b@),
            KeyOrder::Equal => a@ == b@,
            KeyOrder::Greater => lex_lt(b@, a@),
        },
{
    let mut i: usize = 0;
    while i < a.len() && i < b.len()
        invariant
            i <= a@.len(),
            i <= b@.len(),
            forall|j: int| 0 <= j < i ==> a@[j] == b@[j],
        decreases a@.len() - i,
    {
        if a[i] < b[i] {
            proof {
                lemma_lex_from_prefix(a@, b@, i as int);
            }
            return KeyOrder::Less;
        }
        if a[i] > b[i] {
            proof {
                lemma_lex_from_prefix(b@, a@, i as int);
            }
            return KeyOrder::Greater;
        }
        i = i + 1;
    }
    if a.len() == b.len() {
        proof {
            lemma_lex_from_prefix(a@, b@, i as int);
        }
        KeyOrder::Equal
    } else if a.len() < b.len() {
        proof {
            lemma_lex_from_prefix(a@, b@, i as int);
        }
        KeyOrder::Less
    } else {
        proof {
            lemma_lex_from_prefix(b@, a@, i as int);
        }
        KeyOrder::Greater
    }
}

/// Whether two byte strings are equal.
pub fn bytes_eq(a: &[u8], b: &[u8]) -> (r: bool)
    ensures
        r == (a@ == b@),
{
    match cmp_bytes(a, b) {
        KeyOrder::Equal => true,
        KeyOrder::Less => {
            proof {
                lemma_lex_asym(a@, b@);
            }
            false
        },
        KeyOrder::Greater => {
            proof {
                lemma_lex_asym(b@, a@);
            }
            false
        },
    }
}

/// Copies a byte vector.
pub fn clone_bytes(v: &Vec<u8>) -> (r: Vec<u8>)
    ensures
        r@ == v@,
{
    vstd::slice::slice_to_vec(v.as_slice())
}

/// Copies a 32-byte digest into a vector.
pub fn arr32_to_vec(a: &[u8; 32]) -> (r: Vec<u8>)
    ensures
        r@ == a@,
{
    let mut v: Vec<u8> = Vec::new();
    crate::hashing::push_arr32(&mut v, a);
    proof {
        assert(v@ =~= a@);
    }
    v
}

} // verus!
