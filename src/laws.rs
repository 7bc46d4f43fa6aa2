//! Laws of the election state machine, stated over the model of `model.rs`
//! and proved from it.
use vstd::prelude::*;

use crate::codec::shares_blob;
use crate::crypto::{ed25519_accepts, sha256_of};
use crate::digest::{cast_preimage, shares_preimage};
use crate::error::ContractError;
use crate::types::DataKey;
use crate::model::{
    cast_outcome, cast_post, commitment_outcome, commitment_post, count_posted, deploy_post, delete_outcome, delete_post, inv, issue_outcome, issue_post,
    key_present, record_of, share_outcome, share_post, tally_outcome, tally_post, ContractView,
};

verus! {

/// The number of ballots stored for `eid` (0 when it does not exist).
pub open spec fn ballot_count(v: ContractView, eid: u64) -> nat {
    match record_of(v, eid) {
        Some(r) => r.ballots.len(),
        None => 0,
    }
}

/// No two ballots of an election carry the same cast nullifier.
pub proof fn lemma_ballot_nullifiers_unique(v: ContractView, eid: u64, i: int, j: int)
    requires
        inv(v),
        record_of(v, eid) is Some,
        0 <= i < record_of(v, eid)->0.ballots.len(),
        0 <= j < record_of(v, eid)->0.ballots.len(),
        i != j,
    ensures
        record_of(v, eid)->0.ballots[i].nf_cast != record_of(v, eid)->0.ballots[j].nf_cast,
{
}

/// Once an issue nullifier is consumed for `eid`, no issuance with it
/// succeeds again, and no transition ever gives it back.
pub proof fn lemma_issue_nullifier_single_use(
    v: ContractView,
    eid: u64,
    pk_cast: [u8; 32],
    nf_issue: [u8; 32],
    sigs: Seq<([u8; 32], [u8; 64])>,
)
    requires
        v.issue_nullifiers.contains((eid, nf_issue)),
    ensures
        issue_outcome(v, eid, pk_cast, nf_issue, sigs) is Err,
{
}

/// A successful issuance consumes its nullifier: a second issuance with the
/// same nullifier, whatever the rest of its inputs, fails.
pub proof fn lemma_issue_consumes_nullifier(
    v: ContractView,
    eid: u64,
    pk_cast: [u8; 32],
    nf_issue: [u8; 32],
    sigs: Seq<([u8; 32], [u8; 64])>,
    pk_again: [u8; 32],
    sigs_again: Seq<([u8; 32], [u8; 64])>,
)
    requires
        issue_outcome(v, eid, pk_cast, nf_issue, sigs) is Ok,
    ensures
        issue_post(v, eid, pk_cast, nf_issue).issue_nullifiers.contains((eid, nf_issue)),
        issue_outcome(issue_post(v, eid, pk_cast, nf_issue), eid, pk_again, nf_issue, sigs_again)
            == Err::<(), ContractError>(ContractError::AlreadyIssued),
{
}

/// No transition removes a consumed nullifier or a casting account (for
/// deploy see [`lemma_deploy_frame`]).
pub proof fn lemma_presence_sets_only_grow(
    v: ContractView,
    eid: u64,
    pk_cast: [u8; 32],
    nf: [u8; 32],
    c1: Seq<u8>,
    c2: Seq<u8>,
    kh_idx: u32,
    shares: Seq<(Seq<u8>, Seq<u8>)>,
    tally: Seq<u32>,
)
    ensures
        v.issue_nullifiers == commitment_post(v, eid, kh_idx, c1).issue_nullifiers,
        v.casting_accounts == commitment_post(v, eid, kh_idx, c1).casting_accounts,
        v.cast_nullifiers == commitment_post(v, eid, kh_idx, c1).cast_nullifiers,
        v.issue_nullifiers.subset_of(issue_post(v, eid, pk_cast, nf).issue_nullifiers),
        v.casting_accounts.subset_of(issue_post(v, eid, pk_cast, nf).casting_accounts),
        v.cast_nullifiers.subset_of(cast_post(v, eid, nf, c1, c2).cast_nullifiers),
        v.issue_nullifiers == cast_post(v, eid, nf, c1, c2).issue_nullifiers,
        v.casting_accounts == cast_post(v, eid, nf, c1, c2).casting_accounts,
        v.issue_nullifiers == share_post(v, eid, kh_idx, shares).issue_nullifiers,
        v.cast_nullifiers == share_post(v, eid, kh_idx, shares).cast_nullifiers,
        v.issue_nullifiers == tally_post(v, eid, tally).issue_nullifiers,
        v.cast_nullifiers == tally_post(v, eid, tally).cast_nullifiers,
        v.issue_nullifiers == delete_post(v, eid).issue_nullifiers,
        v.casting_accounts == delete_post(v, eid).casting_accounts,
        v.cast_nullifiers == delete_post(v, eid).cast_nullifiers,
{
}

/// Each successful cast adds exactly one ballot to its election and none
/// to any other; commitments, issuance, share posting and finalisation add
/// none (for deploy see [`lemma_deploy_frame`]).
pub proof fn lemma_ballot_count_follows_casts(
    v: ContractView,
    eid: u64,
    other: u64,
    nf_cast: [u8; 32],
    c1: Seq<u8>,
    c2: Seq<u8>,
    pk_cast: [u8; 32],
    sig: [u8; 64],
    now: u64,
    kh_idx: u32,
    shares: Seq<(Seq<u8>, Seq<u8>)>,
    tally: Seq<u32>,
)
    requires
        inv(v),
    ensures
        cast_outcome(v, eid, nf_cast, c1, c2, pk_cast, sig, now) is Ok ==> {
            &&& ballot_count(cast_post(v, eid, nf_cast, c1, c2), eid) == ballot_count(v, eid) + 1
            &&& (other != eid ==> ballot_count(cast_post(v, eid, nf_cast, c1, c2), other) == ballot_count(v, other))
        },
        ballot_count(issue_post(v, eid, pk_cast, nf_cast), other) == ballot_count(v, other),
        commitment_outcome(v, eid, kh_idx) is Ok ==> ballot_count(commitment_post(v, eid, kh_idx, c1), other) == ballot_count(v, other),
        record_of(v, eid) is Some ==> ballot_count(share_post(v, eid, kh_idx, shares), other) == ballot_count(v, other),
        record_of(v, eid) is Some ==> ballot_count(tally_post(v, eid, tally), other) == ballot_count(v, other),
{
}

/// The share count of an election is the number of roster positions with a
/// posted batch, and a position that has posted cannot post again.
pub proof fn lemma_share_count_counts_posts(
    v: ContractView,
    eid: u64,
    kh_idx: u32,
    shares: Seq<(Seq<u8>, Seq<u8>)>,
    kh_pk: [u8; 32],
    sig: [u8; 64],
    now: u64,
)
    requires
        inv(v),
        record_of(v, eid) is Some,
    ensures
        record_of(v, eid)->0.share_count == count_posted(record_of(v, eid)->0.kh_shares),
        kh_idx < record_of(v, eid)->0.kh_shares.len() && record_of(v, eid)->0.kh_shares[kh_idx as int] is Some
            ==> share_outcome(v, eid, kh_idx, shares, kh_pk, sig, now) is Err,
{
}

/// A posted batch is final: posting again at the same position, with the
/// same inputs, fails with `AlreadyPosted`.
pub proof fn lemma_share_replay_rejected(
    v: ContractView,
    eid: u64,
    kh_idx: u32,
    shares: Seq<(Seq<u8>, Seq<u8>)>,
    kh_pk: [u8; 32],
    sig: [u8; 64],
    now: u64,
)
    requires
        inv(v),
        share_outcome(v, eid, kh_idx, shares, kh_pk, sig, now) is Ok,
    ensures
        share_outcome(share_post(v, eid, kh_idx, shares), eid, kh_idx, shares, kh_pk, sig, now)
            == Err::<u32, ContractError>(ContractError::AlreadyPosted),
{
}

/// A tally is stored exactly when the election is marked tallied, and a
/// successful finalisation is what sets both.
pub proof fn lemma_tally_iff_tallied(v: ContractView, eid: u64, tally: Seq<u32>, now: u64)
    requires
        inv(v),
    ensures
        record_of(v, eid) is Some ==> (record_of(v, eid)->0.tally is Some <==> record_of(v, eid)->0.params.tallied),
        record_of(v, eid) is Some ==> (key_present(v, DataKey::Tally(eid)) <==> record_of(v, eid)->0.params.tallied),
        tally_outcome(v, eid, tally, now) is Ok ==> {
            &&& record_of(tally_post(v, eid, tally), eid)->0.tally == Some(tally)
            &&& record_of(tally_post(v, eid, tally), eid)->0.params.tallied
            &&& record_of(v, eid)->0.tally is None
        },
{
}

/// Finalising twice with the same inputs fails the second time with
/// `AlreadyTallied`.
pub proof fn lemma_tally_replay_rejected(v: ContractView, eid: u64, tally: Seq<u32>, now: u64)
    requires
        tally_outcome(v, eid, tally, now) is Ok,
    ensures
        tally_outcome(tally_post(v, eid, tally), eid, tally, now) == Err::<(), ContractError>(ContractError::AlreadyTallied),
{
}

/// After a successful cast its nullifier is consumed and the ballot at the
/// returned index carries it.
pub proof fn lemma_cast_records_nullifier(
    v: ContractView,
    eid: u64,
    nf_cast: [u8; 32],
    c1: Seq<u8>,
    c2: Seq<u8>,
    pk_cast: [u8; 32],
    sig: [u8; 64],
    now: u64,
)
    requires
        cast_outcome(v, eid, nf_cast, c1, c2, pk_cast, sig, now) is Ok,
    ensures
        ({
            let post = cast_post(v, eid, nf_cast, c1, c2);
            let index = cast_outcome(v, eid, nf_cast, c1, c2, pk_cast, sig, now)->Ok_0;
            &&& post.cast_nullifiers.contains((eid, nf_cast))
            &&& index < record_of(post, eid)->0.ballots.len()
            &&& record_of(post, eid)->0.ballots[index as int].nf_cast == nf_cast
        }),
{
}

/// Casting twice with the same inputs fails the second time with
/// `AlreadyVoted`.
pub proof fn lemma_cast_replay_rejected(
    v: ContractView,
    eid: u64,
    nf_cast: [u8; 32],
    c1: Seq<u8>,
    c2: Seq<u8>,
    pk_cast: [u8; 32],
    sig: [u8; 64],
    now: u64,
)
    requires
        cast_outcome(v, eid, nf_cast, c1, c2, pk_cast, sig, now) is Ok,
    ensures
        cast_outcome(cast_post(v, eid, nf_cast, c1, c2), eid, nf_cast, c1, c2, pk_cast, sig, now)
            == Err::<u32, ContractError>(ContractError::AlreadyVoted),
{
}

/// Deleting twice fails the second time with `NotFound`.
pub proof fn lemma_delete_replay_rejected(v: ContractView, eid: u64, now: u64)
    requires
        delete_outcome(v, eid, now) is Ok,
    ensures
        delete_outcome(delete_post(v, eid), eid, now) == Err::<(), ContractError>(ContractError::NotFound),
{
}

/// The voting window is closed below and open above: with every other
/// condition met, a cast at `start_time` succeeds and one at `end_time`
/// fails with `OutsideVotingWindow`.
pub proof fn lemma_cast_window_bounds(
    v: ContractView,
    eid: u64,
    nf_cast: [u8; 32],
    c1: Seq<u8>,
    c2: Seq<u8>,
    pk_cast: [u8; 32],
    sig: [u8; 64],
)
    requires
        record_of(v, eid) is Some,
        record_of(v, eid)->0.params.start_time < record_of(v, eid)->0.params.end_time,
        !v.cast_nullifiers.contains((eid, nf_cast)),
        v.casting_accounts.contains((eid, pk_cast)),
        ed25519_accepts(pk_cast@, sha256_of(cast_preimage(eid, nf_cast@, c1, c2)), sig@),
        record_of(v, eid)->0.ballots.len() < u32::MAX,
    ensures
        cast_outcome(v, eid, nf_cast, c1, c2, pk_cast, sig, record_of(v, eid)->0.params.start_time) is Ok,
        cast_outcome(v, eid, nf_cast, c1, c2, pk_cast, sig, record_of(v, eid)->0.params.end_time)
            == Err::<u32, ContractError>(ContractError::OutsideVotingWindow),
{
}

/// Posting shares is open from `end_time` on: with every other condition
/// met, a post at exactly `end_time` succeeds.
pub proof fn lemma_share_at_end_time(
    v: ContractView,
    eid: u64,
    kh_idx: u32,
    shares: Seq<(Seq<u8>, Seq<u8>)>,
    kh_pk: [u8; 32],
    sig: [u8; 64],
)
    requires
        record_of(v, eid) is Some,
        !record_of(v, eid)->0.params.tallied,
        kh_idx < record_of(v, eid)->0.kh_roster.len(),
        record_of(v, eid)->0.kh_roster[kh_idx as int] == kh_pk,
        record_of(v, eid)->0.kh_shares[kh_idx as int] is None,
        ed25519_accepts(kh_pk@, sha256_of(shares_preimage(eid, shares_blob(shares))), sig@),
    ensures
        share_outcome(v, eid, kh_idx, shares, kh_pk, sig, record_of(v, eid)->0.params.end_time) is Ok,
{
}

/// Finalisation needs exactly `kh_threshold` batches: with every other
/// condition met it succeeds at the threshold and fails one below it with
/// `InsufficientShares`.
pub proof fn lemma_tally_threshold_boundary(v: ContractView, w: ContractView, eid: u64, tally: Seq<u32>, now: u64)
    requires
        record_of(v, eid) is Some,
        record_of(w, eid) is Some,
        !record_of(v, eid)->0.params.tallied,
        now >= record_of(v, eid)->0.params.end_time,
        tally.len() == record_of(v, eid)->0.params.options_count,
        record_of(v, eid)->0.share_count == record_of(v, eid)->0.kh_threshold,
        record_of(w, eid)->0 == (crate::model::RecordView {
            share_count: (record_of(v, eid)->0.kh_threshold - 1) as u32,
            ..record_of(v, eid)->0
        }),
        record_of(v, eid)->0.kh_threshold > 0,
    ensures
        tally_outcome(v, eid, tally, now) is Ok,
        tally_outcome(w, eid, tally, now) == Err::<(), ContractError>(ContractError::InsufficientShares),
{
}

/// A tally one entry short or one entry long is rejected with `InvalidTally`.
pub proof fn lemma_tally_length_mismatch(v: ContractView, eid: u64, tally: Seq<u32>, now: u64)
    requires
        record_of(v, eid) is Some,
        !record_of(v, eid)->0.params.tallied,
        now >= record_of(v, eid)->0.params.end_time,
        record_of(v, eid)->0.share_count >= record_of(v, eid)->0.kh_threshold,
        tally.len() == record_of(v, eid)->0.params.options_count + 1
            || tally.len() + 1 == record_of(v, eid)->0.params.options_count,
    ensures
        tally_outcome(v, eid, tally, now) == Err::<(), ContractError>(ContractError::InvalidTally),
{
}

/// Deploying touches neither the presence sets nor the ballots of any
/// election, and the new election starts with none.
pub proof fn lemma_deploy_frame(
    v: ContractView,
    title: Seq<u8>,
    options_count: u32,
    start_time: u64,
    end_time: u64,
    enc_pubkey: Seq<u8>,
    eligibility_root: [u8; 32],
    dist_roster: Seq<[u8; 32]>,
    dist_threshold: u32,
    kh_roster: Seq<[u8; 32]>,
    kh_threshold: u32,
    eid: u64,
)
    requires
        inv(v),
        v.next_election_id < u64::MAX,
    ensures
        ({
            let post = deploy_post(
                v, title, options_count, start_time, end_time, enc_pubkey, eligibility_root,
                dist_roster, dist_threshold, kh_roster, kh_threshold,
            );
            &&& post.issue_nullifiers == v.issue_nullifiers
            &&& post.casting_accounts == v.casting_accounts
            &&& post.cast_nullifiers == v.cast_nullifiers
            &&& ballot_count(post, eid) == ballot_count(v, eid)
        }),
{
}

/// Recording the same commitment twice leaves the state of the first call.
pub proof fn lemma_commitment_idempotent(v: ContractView, eid: u64, kh_idx: u32, commitment: Seq<u8>)
    requires
        inv(v),
        commitment_outcome(v, eid, kh_idx) is Ok,
    ensures
        commitment_outcome(commitment_post(v, eid, kh_idx, commitment), eid, kh_idx) is Ok,
        commitment_post(commitment_post(v, eid, kh_idx, commitment), eid, kh_idx, commitment)
            == commitment_post(v, eid, kh_idx, commitment),
{
    let once = commitment_post(v, eid, kh_idx, commitment);
    let twice = commitment_post(once, eid, kh_idx, commitment);
    let r = record_of(v, eid)->0;
    assert(r.kh_commitments.len() == r.kh_roster.len());
    assert(r.kh_commitments.update(kh_idx as int, Some(commitment)).update(kh_idx as int, Some(commitment))
        =~= r.kh_commitments.update(kh_idx as int, Some(commitment)));
    assert(twice.elections =~= once.elections);
}

} // verus!
