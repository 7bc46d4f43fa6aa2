//! The mathematical state of the ledger and, for every transition, the result
//! it returns and the state it leaves.
use vstd::prelude::*;

use crate::codec::shares_blob;
use crate::crypto::{ed25519_accepts, sha256_of};
use crate::digest::{cast_preimage, issue_preimage, shares_preimage};
use crate::error::ContractError;
use crate::types::{BallotView, DataKey, Event, ParamsView};

verus! {

/// Everything stored for one live election.
pub ghost struct RecordView {
    pub params: ParamsView,
    pub eligibility_root: [u8; 32],
    pub dist_roster: Seq<[u8; 32]>,
    pub dist_threshold: u32,
    pub kh_roster: Seq<[u8; 32]>,
    pub kh_threshold: u32,
    /// Indexed by key-holder position; `None` until posted.
    pub kh_commitments: Seq<Option<Seq<u8>>>,
    /// Indexed by key-holder position; `None` until posted.
    pub kh_shares: Seq<Option<Seq<u8>>>,
    pub share_count: u32,
    pub ballots: Seq<BallotView>,
    pub tally: Option<Seq<u32>>,
}

/// The whole ledger: elections indexed by id (`None` once deleted), the
/// presence sets keyed by `(eid, value)`, and the published events.
pub ghost struct ContractView {
    pub next_election_id: u64,
    pub elections: Seq<Option<RecordView>>,
    pub issue_nullifiers: Set<(u64, [u8; 32])>,
    pub casting_accounts: Set<(u64, [u8; 32])>,
    pub cast_nullifiers: Set<(u64, [u8; 32])>,
    pub events: Seq<Event>,
}

/// The record of election `eid`, if it exists.
pub open spec fn record_of(v: ContractView, eid: u64) -> Option<RecordView> {
    if eid < v.elections.len() {
        v.elections[eid as int]
    } else {
        None
    }
}

/// The number of key-holder positions that have posted a batch.
pub open spec fn count_posted(s: Seq<Option<Seq<u8>>>) -> nat
    decreases s.len(),
{
    if s.len() == 0 {
        0
    } else {
        count_posted(s.drop_last()) + if s.last() is Some { 1nat } else { 0nat }
    }
}

/// What holds of every stored election after every committed transition.
pub open spec fn record_inv(v: ContractView, eid: u64, r: RecordView) -> bool {
    &&& r.params.eid == eid
    &&& r.dist_roster.len() <= u32::MAX
    &&& r.kh_roster.len() <= u32::MAX
    &&& r.kh_commitments.len() == r.kh_roster.len()
    &&& r.kh_shares.len() == r.kh_roster.len()
    &&& r.share_count == count_posted(r.kh_shares)
    &&& r.ballots.len() <= u32::MAX
    &&& forall|i: int| 0 <= i < r.ballots.len() ==> v.cast_nullifiers.contains((eid, #[trigger] r.ballots[i].nf_cast))
    &&& forall|i: int, j: int| 0 <= i < r.ballots.len() && 0 <= j < r.ballots.len() && i != j
            ==> #[trigger] r.ballots[i].nf_cast != #[trigger] r.ballots[j].nf_cast
    &&& (r.tally is Some <==> r.params.tallied)
    &&& (r.tally is Some ==> r.tally->0.len() == r.params.options_count)
}

pub open spec fn inv(v: ContractView) -> bool {
    &&& v.elections.len() == v.next_election_id
    &&& forall|eid: u64| #[trigger] record_of(v, eid) is Some ==> record_inv(v, eid, record_of(v, eid)->0)
}

/// `v` with the record of `eid` replaced.
pub open spec fn with_record(v: ContractView, eid: u64, r: RecordView) -> ContractView {
    ContractView { elections: v.elections.update(eid as int, Some(r)), ..v }
}

/// Whether `key` holds a value in the ledger's persistent map. Counters are
/// written by the first transition that moves them off zero; everything of an
/// election but its nullifiers and casting accounts goes when it is deleted.
pub open spec fn key_present(v: ContractView, key: DataKey) -> bool {
    match key {
        DataKey::NextElectionId => v.next_election_id > 0,
        DataKey::Election(eid) => record_of(v, eid) is Some,
        DataKey::KhCommitment(eid, i) => record_of(v, eid) is Some && i < record_of(v, eid)->0.kh_commitments.len()
            && record_of(v, eid)->0.kh_commitments[i as int] is Some,
        DataKey::EligibleRoot(eid) => record_of(v, eid) is Some,
        DataKey::DistRoster(eid) => record_of(v, eid) is Some,
        DataKey::DistThreshold(eid) => record_of(v, eid) is Some,
        DataKey::KhRoster(eid) => record_of(v, eid) is Some,
        DataKey::KhThreshold(eid) => record_of(v, eid) is Some,
        DataKey::IssueNullifier(eid, nf) => v.issue_nullifiers.contains((eid, nf)),
        DataKey::CastingAccount(eid, pk) => v.casting_accounts.contains((eid, pk)),
        DataKey::CastNullifier(eid, nf) => v.cast_nullifiers.contains((eid, nf)),
        DataKey::BallotCount(eid) => record_of(v, eid) is Some && record_of(v, eid)->0.ballots.len() > 0,
        DataKey::Ballot(eid, i) => record_of(v, eid) is Some && i < record_of(v, eid)->0.ballots.len(),
        DataKey::ShareCount(eid) => record_of(v, eid) is Some && record_of(v, eid)->0.share_count > 0,
        DataKey::KhShare(eid, i) => record_of(v, eid) is Some && i < record_of(v, eid)->0.kh_shares.len()
            && record_of(v, eid)->0.kh_shares[i as int] is Some,
        DataKey::Tally(eid) => record_of(v, eid) is Some && record_of(v, eid)->0.tally is Some,
    }
}

// ── deploy ─────────────────────────────────────────────────────────────────

pub open spec fn deploy_outcome(v: ContractView, dist_len: nat, kh_len: nat) -> Result<u64, ContractError> {
    if v.next_election_id == u64::MAX || dist_len > u32::MAX || kh_len > u32::MAX {
        Err(ContractError::EncodingError)
    } else {
        Ok(v.next_election_id)
    }
}

pub open spec fn deploy_post(
    v: ContractView,
    title: Seq<u8>,
    options_count: u32,
    start_time: u64,
    end_time: u64,
    enc_pubkey: Seq<u8>,
    eligibility_root: [u8; 32],
    dist_roster: Seq<[u8; 32]>,
    dist_threshold: u32,
    kh_roster: Seq<[u8; 32]>,
    kh_threshold: u32,
) -> ContractView {
    let eid = v.next_election_id;
    let r = RecordView {
        params: ParamsView { eid, title, options_count, start_time, end_time, enc_pubkey, tallied: false },
        eligibility_root,
        dist_roster,
        dist_threshold,
        kh_roster,
        kh_threshold,
        kh_commitments: Seq::new(kh_roster.len(), |i: int| None),
        kh_shares: Seq::new(kh_roster.len(), |i: int| None),
        share_count: 0,
        ballots: Seq::empty(),
        tally: None,
    };
    ContractView {
        next_election_id: (eid + 1) as u64,
        elections: v.elections.push(Some(r)),
        events: v.events.push(Event::Deploy { eid, start_time, end_time, options_count }),
        ..v
    }
}

// ── set_kh_commitment ──────────────────────────────────────────────────────

pub open spec fn commitment_outcome(v: ContractView, eid: u64, kh_idx: u32) -> Result<(), ContractError> {
    match record_of(v, eid) {
        None => Err(ContractError::NotFound),
        Some(r) => if kh_idx >= r.kh_roster.len() {
            Err(ContractError::NotKeyHolder)
        } else {
            Ok(())
        },
    }
}

pub open spec fn commitment_post(v: ContractView, eid: u64, kh_idx: u32, commitment: Seq<u8>) -> ContractView {
    let r = record_of(v, eid)->0;
    with_record(v, eid, RecordView { kh_commitments: r.kh_commitments.update(kh_idx as int, Some(commitment)), ..r })
}

// ── issue_account ──────────────────────────────────────────────────────────

/// The number of signature rows whose signer is on the distributor roster
/// (a signer listed twice counts twice).
pub open spec fn roster_rows(sigs: Seq<([u8; 32], [u8; 64])>, roster: Seq<[u8; 32]>) -> nat
    decreases sigs.len(),
{
    if sigs.len() == 0 {
        0
    } else {
        roster_rows(sigs.drop_last(), roster) + if roster.contains(sigs.last().0) { 1nat } else { 0nat }
    }
}

/// Every row whose signer is on the roster carries a valid signature of `msg`.
pub open spec fn roster_sigs_valid(sigs: Seq<([u8; 32], [u8; 64])>, roster: Seq<[u8; 32]>, msg: Seq<u8>) -> bool {
    forall|i: int| 0 <= i < sigs.len() && roster.contains(#[trigger] sigs[i].0)
        ==> ed25519_accepts(sigs[i].0@, msg, sigs[i].1@)
}

pub open spec fn issue_outcome(
    v: ContractView,
    eid: u64,
    pk_cast: [u8; 32],
    nf_issue: [u8; 32],
    sigs: Seq<([u8; 32], [u8; 64])>,
) -> Result<(), ContractError> {
    match record_of(v, eid) {
        None => Err(ContractError::NotFound),
        Some(r) => if v.issue_nullifiers.contains((eid, nf_issue)) {
            Err(ContractError::AlreadyIssued)
        } else if !roster_sigs_valid(sigs, r.dist_roster, sha256_of(issue_preimage(eid, pk_cast@, nf_issue@))) {
            Err(ContractError::InvalidSignature)
        } else if roster_rows(sigs, r.dist_roster) < r.dist_threshold {
            Err(ContractError::InvalidDistributorSig)
        } else {
            Ok(())
        },
    }
}

pub open spec fn issue_post(v: ContractView, eid: u64, pk_cast: [u8; 32], nf_issue: [u8; 32]) -> ContractView {
    ContractView {
        issue_nullifiers: v.issue_nullifiers.insert((eid, nf_issue)),
        casting_accounts: v.casting_accounts.insert((eid, pk_cast)),
        events: v.events.push(Event::Issued { eid, nf_issue, pk_cast }),
        ..v
    }
}

// ── cast ───────────────────────────────────────────────────────────────────

pub open spec fn cast_outcome(
    v: ContractView,
    eid: u64,
    nf_cast: [u8; 32],
    c1: Seq<u8>,
    c2: Seq<u8>,
    pk_cast: [u8; 32],
    sig: [u8; 64],
    now: u64,
) -> Result<u32, ContractError> {
    match record_of(v, eid) {
        None => Err(ContractError::NotFound),
        Some(r) => if now < r.params.start_time || now >= r.params.end_time {
            Err(ContractError::OutsideVotingWindow)
        } else if v.cast_nullifiers.contains((eid, nf_cast)) {
            Err(ContractError::AlreadyVoted)
        } else if !v.casting_accounts.contains((eid, pk_cast)) {
            Err(ContractError::NotIssuedAccount)
        } else if !ed25519_accepts(pk_cast@, sha256_of(cast_preimage(eid, nf_cast@, c1, c2)), sig@) {
            Err(ContractError::InvalidSignature)
        } else if r.ballots.len() >= u32::MAX {
            Err(ContractError::EncodingError)
        } else {
            Ok(r.ballots.len() as u32)
        },
    }
}

pub open spec fn cast_post(v: ContractView, eid: u64, nf_cast: [u8; 32], c1: Seq<u8>, c2: Seq<u8>) -> ContractView {
    let r = record_of(v, eid)->0;
    let index = r.ballots.len() as u32;
    ContractView {
        elections: v.elections.update(
            eid as int,
            Some(RecordView { ballots: r.ballots.push(BallotView { nf_cast, c1, c2 }), ..r }),
        ),
        cast_nullifiers: v.cast_nullifiers.insert((eid, nf_cast)),
        events: v.events.push(Event::Cast { eid, nf_cast, ballot_index: index }),
        ..v
    }
}

// ── post_share ─────────────────────────────────────────────────────────────

pub open spec fn share_outcome(
    v: ContractView,
    eid: u64,
    kh_idx: u32,
    shares: Seq<(Seq<u8>, Seq<u8>)>,
    kh_pk: [u8; 32],
    sig: [u8; 64],
    now: u64,
) -> Result<u32, ContractError> {
    match record_of(v, eid) {
        None => Err(ContractError::NotFound),
        Some(r) => if now < r.params.end_time {
            Err(ContractError::OutsideVotingWindow)
        } else if r.params.tallied {
            Err(ContractError::AlreadyTallied)
        } else if kh_idx >= r.kh_roster.len() || r.kh_roster[kh_idx as int] != kh_pk {
            Err(ContractError::NotKeyHolder)
        } else if r.kh_shares[kh_idx as int] is Some {
            Err(ContractError::AlreadyPosted)
        } else if !ed25519_accepts(kh_pk@, sha256_of(shares_preimage(eid, shares_blob(shares))), sig@) {
            Err(ContractError::InvalidSignature)
        } else {
            Ok((r.share_count + 1) as u32)
        },
    }
}

pub open spec fn share_post(v: ContractView, eid: u64, kh_idx: u32, shares: Seq<(Seq<u8>, Seq<u8>)>) -> ContractView {
    let r = record_of(v, eid)->0;
    let count = (r.share_count + 1) as u32;
    let v2 = with_record(
        v,
        eid,
        RecordView { kh_shares: r.kh_shares.update(kh_idx as int, Some(shares_blob(shares))), share_count: count, ..r },
    );
    if count >= r.kh_threshold {
        ContractView { events: v.events.push(Event::Threshold { eid, share_count: count }), ..v2 }
    } else {
        v2
    }
}

// ── finalize_tally ─────────────────────────────────────────────────────────

pub open spec fn tally_outcome(v: ContractView, eid: u64, tally: Seq<u32>, now: u64) -> Result<(), ContractError> {
    match record_of(v, eid) {
        None => Err(ContractError::NotFound),
        Some(r) => if r.params.tallied {
            Err(ContractError::AlreadyTallied)
        } else if now < r.params.end_time {
            Err(ContractError::OutsideVotingWindow)
        } else if r.share_count < r.kh_threshold {
            Err(ContractError::InsufficientShares)
        } else if tally.len() != r.params.options_count {
            Err(ContractError::InvalidTally)
        } else {
            Ok(())
        },
    }
}

pub open spec fn tally_post(v: ContractView, eid: u64, tally: Seq<u32>) -> ContractView {
    let r = record_of(v, eid)->0;
    let v2 = with_record(
        v,
        eid,
        RecordView { tally: Some(tally), params: ParamsView { tallied: true, ..r.params }, ..r },
    );
    ContractView { events: v.events.push(Event::Tallied { eid, share_count: r.share_count }), ..v2 }
}

// ── delete_election ────────────────────────────────────────────────────────

pub open spec fn delete_outcome(v: ContractView, eid: u64, now: u64) -> Result<(), ContractError> {
    match record_of(v, eid) {
        None => Err(ContractError::NotFound),
        Some(r) => if now < r.params.end_time {
            Err(ContractError::OutsideVotingWindow)
        } else if r.params.tallied {
            Err(ContractError::AlreadyTallied)
        } else {
            Ok(())
        },
    }
}

pub open spec fn delete_post(v: ContractView, eid: u64) -> ContractView {
    ContractView {
        elections: v.elections.update(eid as int, None),
        events: v.events.push(Event::Deleted { eid }),
        ..v
    }
}

} // verus!
