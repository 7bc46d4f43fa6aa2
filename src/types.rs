//! The records kept per election, their mathematical views, and the events
//! published by successful transitions.
use vstd::prelude::*;

verus! {

/// The core record of an election, written at deploy; `tallied` flips at
/// finalize.
pub struct ElectionParams {
    pub eid: u64,
    pub title: Vec<u8>,
    pub options_count: u32,
    pub start_time: u64,
    pub end_time: u64,
    /// Combined key-holder public key (33-byte compressed secp256k1), opaque here.
    pub enc_pubkey: Vec<u8>,
    pub tallied: bool,
}

pub ghost struct ParamsView {
    pub eid: u64,
    pub title: Seq<u8>,
    pub options_count: u32,
    pub start_time: u64,
    pub end_time: u64,
    pub enc_pubkey: Seq<u8>,
    pub tallied: bool,
}

impl View for ElectionParams {
    type V = ParamsView;

    open spec fn view(&self) -> ParamsView {
        ParamsView {
            eid: self.eid,
            title: self.title@,
            options_count: self.options_count,
            start_time: self.start_time,
            end_time: self.end_time,
            enc_pubkey: self.enc_pubkey@,
            tallied: self.tallied,
        }
    }
}

impl ElectionParams {
    /// A copy of the record.
    pub fn copy(&self) -> (r: ElectionParams)
        ensures
            r@ == self@,
    {
        ElectionParams {
            eid: self.eid,
            title: self.title.clone(),
            options_count: self.options_count,
            start_time: self.start_time,
            end_time: self.end_time,
            enc_pubkey: self.enc_pubkey.clone(),
            tallied: self.tallied,
        }
    }
}

/// A single encrypted ballot: `(c1, c2)` are compressed curve points, opaque here.
pub struct EncryptedBallot {
    pub nf_cast: [u8; 32],
    pub c1: Vec<u8>,
    pub c2: Vec<u8>,
}

pub ghost struct BallotView {
    pub nf_cast: [u8; 32],
    pub c1: Seq<u8>,
    pub c2: Seq<u8>,
}

impl View for EncryptedBallot {
    type V = BallotView;

    open spec fn view(&self) -> BallotView {
        BallotView { nf_cast: self.nf_cast, c1: self.c1@, c2: self.c2@ }
    }
}

impl EncryptedBallot {
    /// A copy of the ballot.
    pub fn copy(&self) -> (r: EncryptedBallot)
        ensures
            r@ == self@,
    {
        EncryptedBallot { nf_cast: self.nf_cast, c1: self.c1.clone(), c2: self.c2.clone() }
    }
}

/// An observable lifecycle event; the second topic field of each is the
/// election id.
#[derive(Clone, Copy, Debug, PartialEq, Eq)]
pub enum Event {
    Deploy { eid: u64, start_time: u64, end_time: u64, options_count: u32 },
    Issued { eid: u64, nf_issue: [u8; 32], pk_cast: [u8; 32] },
    Cast { eid: u64, nf_cast: [u8; 32], ballot_index: u32 },
    Threshold { eid: u64, share_count: u32 },
    Tallied { eid: u64, share_count: u32 },
    Deleted { eid: u64 },
}

/// The typed keyspace of the ledger's persistent map, one variant per stored
/// concept, in their stable order.
#[derive(Clone, Copy, Debug, PartialEq, Eq)]
pub enum DataKey {
    /// Global counter; value = next eid to assign
    NextElectionId,
    /// Core election parameters
    Election(u64),
    /// Per key-holder constant-term commitment, by roster position
    KhCommitment(u64, u32),
    /// Merkle root of the eligible-voter set
    EligibleRoot(u64),
    /// Distributor committee public keys
    DistRoster(u64),
    /// Distributor threshold (M-of-N)
    DistThreshold(u64),
    /// Key-holder public keys
    KhRoster(u64),
    /// Key-holder threshold (t-of-m)
    KhThreshold(u64),
    /// Issue nullifiers consumed
    IssueNullifier(u64, [u8; 32]),
    /// Casting accounts that have been registered
    CastingAccount(u64, [u8; 32]),
    /// Cast nullifiers consumed
    CastNullifier(u64, [u8; 32]),
    /// Number of ballots stored
    BallotCount(u64),
    /// Ballot at index i
    Ballot(u64, u32),
    /// Number of key-holder share batches posted
    ShareCount(u64),
    /// Serialised decryption shares posted by the key-holder at a position
    KhShare(u64, u32),
    /// Final tally (one count per option)
    Tally(u64),
}

} // verus!
