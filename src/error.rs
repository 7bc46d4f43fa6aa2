use vstd::prelude::*;

verus! {

/// Every way a transition can be rejected. Each variant has a stable numeric
/// code (see [`ContractError::code`]) that clients use to tell them apart.
#[derive(Clone, Copy, Debug, PartialEq, Eq, Structural)]
pub enum ContractError {
    /// Election already exists for this eid
    AlreadyExists,
    /// Election not found
    NotFound,
    /// Voting window has not opened yet or has already closed
    OutsideVotingWindow,
    /// Issue nullifier already used
    AlreadyIssued,
    /// Cast nullifier already used (double-vote attempt)
    AlreadyVoted,
    /// Casting account is not registered (not issued)
    NotIssuedAccount,
    /// Ed25519 signature verification failed
    InvalidSignature,
    /// Merkle proof verification failed
    InvalidMerkleProof,
    /// Caller is not in the key-holder roster
    NotKeyHolder,
    /// Key holder has already posted their shares
    AlreadyPosted,
    /// Not enough decryption shares have been posted yet
    InsufficientShares,
    /// Tally length does not match options_count
    InvalidTally,
    /// Election already tallied
    AlreadyTallied,
    /// Not enough valid distributor signatures
    InvalidDistributorSig,
    /// Distributor is not in the roster
    NotDistributor,
    /// Arithmetic / encoding error
    EncodingError,
}

impl ContractError {
    pub open spec fn spec_code(self) -> u32 {
        match self {
            ContractError::AlreadyExists => 1,
            ContractError::NotFound => 2,
            ContractError::OutsideVotingWindow => 3,
            ContractError::AlreadyIssued => 4,
            ContractError::AlreadyVoted => 5,
            ContractError::NotIssuedAccount => 6,
            ContractError::InvalidSignature => 7,
            ContractError::InvalidMerkleProof => 8,
            ContractError::NotKeyHolder => 9,
            ContractError::AlreadyPosted => 10,
            ContractError::InsufficientShares => 11,
            ContractError::InvalidTally => 12,
            ContractError::AlreadyTallied => 13,
            ContractError::InvalidDistributorSig => 14,
            ContractError::NotDistributor => 15,
            ContractError::EncodingError => 16,
        }
    }

    /// The stable numeric code of this error.
    pub fn code(&self) -> (r: u32)
        ensures
            r == self.spec_code(),
    {
        match self {
            ContractError::AlreadyExists => 1,
            ContractError::NotFound => 2,
            ContractError::OutsideVotingWindow => 3,
            ContractError::AlreadyIssued => 4,
            ContractError::AlreadyVoted => 5,
            ContractError::NotIssuedAccount => 6,
            ContractError::InvalidSignature => 7,
            ContractError::InvalidMerkleProof => 8,
            ContractError::NotKeyHolder => 9,
            ContractError::AlreadyPosted => 10,
            ContractError::InsufficientShares => 11,
            ContractError::InvalidTally => 12,
            ContractError::AlreadyTallied => 13,
            ContractError::InvalidDistributorSig => 14,
            ContractError::NotDistributor => 15,
            ContractError::EncodingError => 16,
        }
    }
}

} // verus!
