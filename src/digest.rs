//! Domain-separated SHA-256 messages that distributors, voters and key-holders
//! sign, and the Merkle hashes.
use vstd::prelude::*;

use crate::codec::{push_bytes, push_u64_le, u64_le};
use crate::crypto::{sha256, sha256_of};

verus! {

/// The ASCII bytes `stellot:` that open every domain tag.
pub open spec fn tag_prefix() -> Seq<u8> {
    seq![115u8, 116u8, 101u8, 108u8, 108u8, 111u8, 116u8, 58u8]
}

/// `stellot:issue`
pub open spec fn issue_tag() -> Seq<u8> {
    tag_prefix() + seq![105u8, 115u8, 115u8, 117u8, 101u8]
}

/// `stellot:cast`
pub open spec fn cast_tag() -> Seq<u8> {
    tag_prefix() + seq![99u8, 97u8, 115u8, 116u8]
}

/// `stellot:shares`
pub open spec fn shares_tag() -> Seq<u8> {
    tag_prefix() + seq![115u8, 104u8, 97u8, 114u8, 101u8, 115u8]
}

/// `stellot:leaf`
pub open spec fn leaf_tag() -> Seq<u8> {
    tag_prefix() + seq![108u8, 101u8, 97u8, 102u8]
}

/// `stellot:node`
pub open spec fn node_tag() -> Seq<u8> {
    tag_prefix() + seq![110u8, 111u8, 100u8, 101u8]
}

/// What a distributor signs (hashed) to admit `pk_cast` under `nf_issue`.
pub open spec fn issue_preimage(eid: u64, pk_cast: Seq<u8>, nf_issue: Seq<u8>) -> Seq<u8> {
    issue_tag() + u64_le(eid) + pk_cast + nf_issue
}

/// What a voter signs (hashed) to cast the ciphertext `(c1, c2)`.
pub open spec fn cast_preimage(eid: u64, nf_cast: Seq<u8>, c1: Seq<u8>, c2: Seq<u8>) -> Seq<u8> {
    cast_tag() + u64_le(eid) + nf_cast + c1 + c2
}

/// What a key-holder signs (hashed) to post a shares blob.
pub open spec fn shares_preimage(eid: u64, blob: Seq<u8>) -> Seq<u8> {
    shares_tag() + u64_le(eid) + blob
}

/// The hash of a Merkle leaf.
pub open spec fn leaf_digest(leaf: Seq<u8>) -> Seq<u8> {
    sha256_of(leaf_tag() + leaf)
}

/// The hash of an inner Merkle node.
pub open spec fn node_digest(left: Seq<u8>, right: Seq<u8>) -> Seq<u8> {
    sha256_of(node_tag() + left + right)
}

/// Starts a pre-image with `stellot:` followed by `suffix`.
fn tagged(suffix: &[u8]) -> (r: Vec<u8>)
    ensures
        r@ == tag_prefix() + suffix@,
{
    let prefix: [u8; 8] = [115u8, 116u8, 101u8, 108u8, 108u8, 111u8, 116u8, 58u8];
    let mut out: Vec<u8> = Vec::new();
    push_bytes(&mut out, &prefix);
    assert(prefix@ =~= tag_prefix());
    push_bytes(&mut out, suffix);
    out
}

/// The message a distributor signs: SHA-256 of `stellot:issue`, the election
/// id (little-endian), `pk_cast` and `nf_issue`.
pub fn issue_msg(eid: u64, pk_cast: &[u8; 32], nf_issue: &[u8; 32]) -> (r: [u8; 32])
    ensures
        r@ == sha256_of(issue_preimage(eid, pk_cast@, nf_issue@)),
{
    let suffix: [u8; 5] = [105u8, 115u8, 115u8, 117u8, 101u8];
    assert(tag_prefix() + suffix@ =~= issue_tag());
    let mut data = tagged(&suffix);
    push_u64_le(&mut data, eid);
    push_bytes(&mut data, pk_cast);
    push_bytes(&mut data, nf_issue);
    sha256(data.as_slice())
}

/// The message a voter signs: SHA-256 of `stellot:cast`, the election id
/// (little-endian), `nf_cast`, `c1` and `c2`.
pub fn cast_msg(eid: u64, nf_cast: &[u8; 32], c1: &[u8], c2: &[u8]) -> (r: [u8; 32])
    ensures
        r@ == sha256_of(cast_preimage(eid, nf_cast@, c1@, c2@)),
{
    let suffix: [u8; 4] = [99u8, 97u8, 115u8, 116u8];
    assert(tag_prefix() + suffix@ =~= cast_tag());
    let mut data = tagged(&suffix);
    push_u64_le(&mut data, eid);
    push_bytes(&mut data, nf_cast);
    push_bytes(&mut data, c1);
    push_bytes(&mut data, c2);
    sha256(data.as_slice())
}

/// The message a key-holder signs: SHA-256 of `stellot:shares`, the election
/// id (little-endian) and the shares blob.
pub fn shares_msg(eid: u64, shares_blob: &[u8]) -> (r: [u8; 32])
    ensures
        r@ == sha256_of(shares_preimage(eid, shares_blob@)),
{
    let suffix: [u8; 6] = [115u8, 104u8, 97u8, 114u8, 101u8, 115u8];
    assert(tag_prefix() + suffix@ =~= shares_tag());
    let mut data = tagged(&suffix);
    push_u64_le(&mut data, eid);
    push_bytes(&mut data, shares_blob);
    sha256(data.as_slice())
}

} // verus!
