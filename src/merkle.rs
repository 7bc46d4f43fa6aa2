//! SHA-256 Merkle inclusion proofs with leaf / node domain separation.
use vstd::prelude::*;

use crate::codec::{bytes32_eq, push_bytes};
use crate::crypto::sha256;
use crate::digest::{leaf_digest, leaf_tag, node_digest, node_tag};

verus! {

/// The node reached by folding `proof` (bottom-up `(sibling, is_right)`
/// pairs) over the hash `current`: a sibling marked right sits to the right
/// of the current node.
pub open spec fn fold_proof(current: Seq<u8>, proof: Seq<([u8; 32], bool)>) -> Seq<u8>
    decreases proof.len(),
{
    if proof.len() == 0 {
        current
    } else {
        let below = fold_proof(current, proof.drop_last());
        let (sibling, is_right) = proof.last();
        if is_right {
            node_digest(below, sibling@)
        } else {
            node_digest(sibling@, below)
        }
    }
}

/// The root that a proof for `leaf` leads to.
pub open spec fn proof_root(leaf: Seq<u8>, proof: Seq<([u8; 32], bool)>) -> Seq<u8> {
    fold_proof(leaf_digest(leaf), proof)
}

/// The leaf hash: SHA-256 of `stellot:leaf` followed by the leaf bytes.
pub fn leaf_hash(leaf_bytes: &[u8]) -> (r: [u8; 32])
    ensures
        r@ == leaf_digest(leaf_bytes@),
{
    let prefix: [u8; 8] = [115u8, 116u8, 101u8, 108u8, 108u8, 111u8, 116u8, 58u8];
    let suffix: [u8; 4] = [108u8, 101u8, 97u8, 102u8];
    let mut data: Vec<u8> = Vec::new();
    push_bytes(&mut data, &prefix);
    push_bytes(&mut data, &suffix);
    assert(prefix@ + suffix@ =~= leaf_tag());
    push_bytes(&mut data, leaf_bytes);
    sha256(data.as_slice())
}

/// The inner-node hash: SHA-256 of `stellot:node`, the left child and the
/// right child.
pub fn node_hash(left: &[u8; 32], right: &[u8; 32]) -> (r: [u8; 32])
    ensures
        r@ == node_digest(left@, right@),
{
    let prefix: [u8; 8] = [115u8, 116u8, 101u8, 108u8, 108u8, 111u8, 116u8, 58u8];
    let suffix: [u8; 4] = [110u8, 111u8, 100u8, 101u8];
    let mut data: Vec<u8> = Vec::new();
    push_bytes(&mut data, &prefix);
    push_bytes(&mut data, &suffix);
    assert(prefix@ + suffix@ =~= node_tag());
    push_bytes(&mut data, left);
    push_bytes(&mut data, right);
    sha256(data.as_slice())
}

/// Verifies a Merkle inclusion proof of `leaf_bytes` against `root`.
pub fn verify(root: &[u8; 32], leaf_bytes: &[u8], proof: &Vec<([u8; 32], bool)>) -> (r: bool)
    ensures
        r == (proof_root(leaf_bytes@, proof@) == root@),
{
    let mut current = leaf_hash(leaf_bytes);
    let mut i: usize = 0;
    while i < proof.len()
        invariant
            i <= proof@.len(),
            current@ == fold_proof(leaf_digest(leaf_bytes@), proof@.take(i as int)),
        decreases proof@.len() - i,
    {
        let sibling = proof[i].0;
        let is_right = proof[i].1;
        assert(proof@.take(i + 1).drop_last() =~= proof@.take(i as int));
        current = if is_right {
            node_hash(&current, &sibling)
        } else {
            node_hash(&sibling, &current)
        };
        i = i + 1;
    }
    assert(proof@.take(i as int) =~= proof@);
    let r = bytes32_eq(&current, root);
    proof {
        if current@ == root@ {
            assert(current =~= *root);
        }
    }
    r
}

} // verus!
