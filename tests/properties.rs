use ed25519_dalek::{Signer, SigningKey};
use election::codec::parse_shares;
use election::{
    cast_msg, issue_msg, leaf_hash, node_hash, serialise_shares, shares_msg, verify, ContractError,
    DataKey, ElectionContract, Event,
};
use sha2::{Digest, Sha256};

struct TestKey {
    signing: SigningKey,
}

impl TestKey {
    fn from_seed(seed: u8) -> Self {
        let mut raw = [0u8; 32];
        raw[0] = seed;
        raw[31] = seed.wrapping_add(1);
        TestKey { signing: SigningKey::from_bytes(&raw) }
    }

    fn pk(&self) -> [u8; 32] {
        self.signing.verifying_key().to_bytes()
    }

    fn sign(&self, msg: &[u8; 32]) -> [u8; 64] {
        self.signing.sign(msg).to_bytes()
    }
}

fn fake_point(seed: u8) -> Vec<u8> {
    let mut arr = vec![0u8; 33];
    arr[0] = 0x02;
    arr[1] = seed;
    arr
}

fn fake_nf(seed: u8) -> [u8; 32] {
    [seed; 32]
}

fn deploy_election(
    c: &mut ElectionContract,
    now: u64,
    kh_keys: &[&TestKey],
    dist_keys: &[&TestKey],
    dist_threshold: u32,
    kh_threshold: u32,
    start_offset: u64,
    end_offset: u64,
) -> u64 {
    let dist_roster: Vec<[u8; 32]> = dist_keys.iter().map(|k| k.pk()).collect();
    let kh_roster: Vec<[u8; 32]> = kh_keys.iter().map(|k| k.pk()).collect();
    let eid = c
        .deploy(
            b"Test Election".to_vec(),
            2,
            now + start_offset,
            now + end_offset,
            fake_point(0xAA),
            fake_nf(0x42),
            dist_roster,
            dist_threshold,
            kh_roster,
            kh_threshold,
        )
        .unwrap();
    for i in 0..kh_keys.len() {
        c.set_kh_commitment(eid, i as u32, fake_point(0x10 + i as u8)).unwrap();
    }
    eid
}

fn dist_sigs(eid: u64, pk_cast: &[u8; 32], nf_issue: &[u8; 32], dist_keys: &[&TestKey]) -> Vec<([u8; 32], [u8; 64])> {
    let msg = issue_msg(eid, pk_cast, nf_issue);
    dist_keys.iter().map(|k| (k.pk(), k.sign(&msg))).collect()
}

fn issue(c: &mut ElectionContract, eid: u64, pk_cast: &[u8; 32], nf_issue: &[u8; 32], dist_keys: &[&TestKey]) -> Result<(), ContractError> {
    let sigs = dist_sigs(eid, pk_cast, nf_issue, dist_keys);
    c.issue_account(eid, *pk_cast, *nf_issue, sigs)
}

fn cast_ballot(
    c: &mut ElectionContract,
    eid: u64,
    key: &TestKey,
    nf_cast: &[u8; 32],
    c1: &[u8],
    c2: &[u8],
    now: u64,
) -> Result<u32, ContractError> {
    let sig = key.sign(&cast_msg(eid, nf_cast, c1, c2));
    c.cast(eid, *nf_cast, c1.to_vec(), c2.to_vec(), key.pk(), sig, now)
}

fn share_batch(ballot_count: u32) -> Vec<(Vec<u8>, Vec<u8>)> {
    (0..ballot_count).map(|i| (fake_point(i as u8 + 1), fake_point(i as u8 + 10))).collect()
}

fn post_kh_share(c: &mut ElectionContract, eid: u64, key: &TestKey, kh_idx: u32, ballot_count: u32, now: u64) -> Result<u32, ContractError> {
    let shares = share_batch(ballot_count);
    let blob = serialise_shares(&shares);
    let sig = key.sign(&shares_msg(eid, &blob));
    c.post_share(eid, kh_idx, shares, key.pk(), sig, now)
}


#[test]
fn happy_path_events_in_order() {
    let mut c = ElectionContract::new();
    let t0: u64 = 1000;
    let kh1 = TestKey::from_seed(1);
    let kh2 = TestKey::from_seed(2);
    let dist1 = TestKey::from_seed(3);
    let voter1 = TestKey::from_seed(4);
    let voter2 = TestKey::from_seed(5);
    let eid = deploy_election(&mut c, t0, &[&kh1, &kh2], &[&dist1], 1, 2, 10, 200);
    let now = t0 + 15;
    issue(&mut c, eid, &voter1.pk(), &fake_nf(1), &[&dist1]).unwrap();
    issue(&mut c, eid, &voter2.pk(), &fake_nf(2), &[&dist1]).unwrap();
    assert_eq!(cast_ballot(&mut c, eid, &voter1, &fake_nf(0x10), &fake_point(1), &fake_point(2), now), Ok(0));
    assert_eq!(cast_ballot(&mut c, eid, &voter2, &fake_nf(0x20), &fake_point(3), &fake_point(4), now), Ok(1));
    let now = now + 300;
    assert_eq!(post_kh_share(&mut c, eid, &kh1, 0, 2, now), Ok(1));
    assert_eq!(post_kh_share(&mut c, eid, &kh2, 1, 2, now), Ok(2));
    assert_eq!(c.finalize_tally(eid, vec![1, 1], now), Ok(()));
    assert_eq!(c.get_tally(eid), Some(vec![1, 1]));
    assert!(c.get_election(eid).unwrap().tallied);
    let expected = vec![
        Event::Deploy { eid, start_time: t0 + 10, end_time: t0 + 200, options_count: 2 },
        Event::Issued { eid, nf_issue: fake_nf(1), pk_cast: voter1.pk() },
        Event::Issued { eid, nf_issue: fake_nf(2), pk_cast: voter2.pk() },
        Event::Cast { eid, nf_cast: fake_nf(0x10), ballot_index: 0 },
        Event::Cast { eid, nf_cast: fake_nf(0x20), ballot_index: 1 },
        Event::Threshold { eid, share_count: 2 },
        Event::Tallied { eid, share_count: 2 },
    ];
    assert_eq!(c.events(), &expected);
    let b = c.get_ballot(eid, 1).unwrap();
    assert_eq!(b.nf_cast, fake_nf(0x20));
    assert_eq!(b.c1, fake_point(3));
    assert_eq!(b.c2, fake_point(4));
    assert_eq!(c.get_kh_commitment(eid, 1), Some(fake_point(0x11)));
    assert_eq!(c.get_kh_roster(eid), Some(vec![kh1.pk(), kh2.pk()]));
    assert_eq!(c.get_eligibility_root(eid), Some(fake_nf(0x42)));
    assert_eq!(c.get_kh_shares(eid, 0), Some(serialise_shares(&share_batch(2))));
    assert_eq!(c.get_next_election_id(), 1);
}

#[test]
fn double_vote_keeps_one_ballot() {
    let mut c = ElectionContract::new();
    let kh1 = TestKey::from_seed(1);
    let dist1 = TestKey::from_seed(3);
    let voter1 = TestKey::from_seed(4);
    let eid = deploy_election(&mut c, 1000, &[&kh1], &[&dist1], 1, 1, 10, 200);
    issue(&mut c, eid, &voter1.pk(), &fake_nf(1), &[&dist1]).unwrap();
    let nf = [0x10u8; 32];
    assert_eq!(cast_ballot(&mut c, eid, &voter1, &nf, &fake_point(1), &fake_point(2), 1015), Ok(0));
    let events = c.events().len();
    assert_eq!(cast_ballot(&mut c, eid, &voter1, &nf, &fake_point(1), &fake_point(2), 1015), Err(ContractError::AlreadyVoted));
    assert_eq!(c.get_ballot_count(eid), 1);
    assert_eq!(c.events().len(), events);
    assert!(c.is_cast_nullifier_used(eid, nf));
}

#[test]
fn premature_cast_then_after_close() {
    let mut c = ElectionContract::new();
    let kh1 = TestKey::from_seed(1);
    let dist1 = TestKey::from_seed(3);
    let voter1 = TestKey::from_seed(4);
    let eid = deploy_election(&mut c, 0, &[&kh1], &[&dist1], 1, 1, 100, 200);
    issue(&mut c, eid, &voter1.pk(), &fake_nf(1), &[&dist1]).unwrap();
    let nf = fake_nf(0x33);
    assert_eq!(cast_ballot(&mut c, eid, &voter1, &nf, &fake_point(1), &fake_point(2), 0), Err(ContractError::OutsideVotingWindow));
    assert_eq!(cast_ballot(&mut c, eid, &voter1, &nf, &fake_point(1), &fake_point(2), 1000), Err(ContractError::OutsideVotingWindow));
    assert!(!c.is_cast_nullifier_used(eid, nf));
}

#[test]
fn cast_window_boundaries() {
    let mut c = ElectionContract::new();
    let kh1 = TestKey::from_seed(1);
    let dist1 = TestKey::from_seed(3);
    let voter1 = TestKey::from_seed(4);
    let voter2 = TestKey::from_seed(5);
    let eid = deploy_election(&mut c, 1000, &[&kh1], &[&dist1], 1, 1, 10, 200);
    issue(&mut c, eid, &voter1.pk(), &fake_nf(1), &[&dist1]).unwrap();
    issue(&mut c, eid, &voter2.pk(), &fake_nf(2), &[&dist1]).unwrap();
    assert_eq!(cast_ballot(&mut c, eid, &voter1, &fake_nf(0x10), &fake_point(1), &fake_point(2), 1010), Ok(0));
    assert_eq!(cast_ballot(&mut c, eid, &voter2, &fake_nf(0x20), &fake_point(1), &fake_point(2), 1200), Err(ContractError::OutsideVotingWindow));
    assert_eq!(cast_ballot(&mut c, eid, &voter2, &fake_nf(0x20), &fake_point(1), &fake_point(2), 1199), Ok(1));
}

#[test]
fn post_share_at_end_time_and_replay() {
    let mut c = ElectionContract::new();
    let kh1 = TestKey::from_seed(1);
    let kh2 = TestKey::from_seed(2);
    let dist1 = TestKey::from_seed(3);
    let eid = deploy_election(&mut c, 1000, &[&kh1, &kh2], &[&dist1], 1, 2, 10, 200);
    assert_eq!(post_kh_share(&mut c, eid, &kh1, 0, 1, 1199), Err(ContractError::OutsideVotingWindow));
    assert_eq!(post_kh_share(&mut c, eid, &kh1, 0, 1, 1200), Ok(1));
    assert_eq!(c.events().last(), Some(&Event::Deploy { eid, start_time: 1010, end_time: 1200, options_count: 2 }));
    assert_eq!(post_kh_share(&mut c, eid, &kh1, 0, 1, 1200), Err(ContractError::AlreadyPosted));
    assert_eq!(post_kh_share(&mut c, eid, &kh1, 1, 1, 1200), Err(ContractError::NotKeyHolder));
    assert_eq!(post_kh_share(&mut c, eid, &kh2, 2, 1, 1200), Err(ContractError::NotKeyHolder));
    assert_eq!(c.get_share_count(eid), 1);
}

#[test]
fn finalize_at_threshold_and_one_below() {
    let mut c = ElectionContract::new();
    let kh1 = TestKey::from_seed(1);
    let kh2 = TestKey::from_seed(2);
    let dist1 = TestKey::from_seed(3);
    let eid = deploy_election(&mut c, 1000, &[&kh1, &kh2], &[&dist1], 1, 2, 10, 120);
    post_kh_share(&mut c, eid, &kh1, 0, 0, 1200).unwrap();
    assert_eq!(c.finalize_tally(eid, vec![0, 0], 1200), Err(ContractError::InsufficientShares));
    assert!(c.get_tally(eid).is_none());
    post_kh_share(&mut c, eid, &kh2, 1, 0, 1200).unwrap();
    assert_eq!(c.finalize_tally(eid, vec![0], 1200), Err(ContractError::InvalidTally));
    assert_eq!(c.finalize_tally(eid, vec![0, 0, 0], 1200), Err(ContractError::InvalidTally));
    assert_eq!(c.finalize_tally(eid, vec![3, 4], 1200), Ok(()));
    assert_eq!(c.finalize_tally(eid, vec![3, 4], 1200), Err(ContractError::AlreadyTallied));
    assert_eq!(post_kh_share(&mut c, eid, &kh1, 0, 0, 1200), Err(ContractError::AlreadyTallied));
    assert_eq!(c.delete_election(eid, 1200), Err(ContractError::AlreadyTallied));
    assert_eq!(c.get_tally(eid), Some(vec![3, 4]));
}

#[test]
fn finalize_before_end_is_outside_window() {
    let mut c = ElectionContract::new();
    let kh1 = TestKey::from_seed(1);
    let dist1 = TestKey::from_seed(3);
    let eid = deploy_election(&mut c, 1000, &[&kh1], &[&dist1], 1, 0, 10, 120);
    assert_eq!(c.finalize_tally(eid, vec![0, 0], 1119), Err(ContractError::OutsideVotingWindow));
    assert_eq!(c.finalize_tally(eid, vec![0, 0], 1120), Ok(()));
    assert_eq!(c.events().last(), Some(&Event::Tallied { eid, share_count: 0 }));
}

#[test]
fn unknown_election_is_not_found() {
    let mut c = ElectionContract::new();
    let key = TestKey::from_seed(4);
    assert_eq!(c.set_kh_commitment(7, 0, vec![1]), Err(ContractError::NotFound));
    assert_eq!(c.issue_account(7, key.pk(), fake_nf(1), vec![]), Err(ContractError::NotFound));
    assert_eq!(cast_ballot(&mut c, 7, &key, &fake_nf(1), &[1], &[2], 0), Err(ContractError::NotFound));
    assert_eq!(post_kh_share(&mut c, 7, &key, 0, 0, 0), Err(ContractError::NotFound));
    assert_eq!(c.finalize_tally(7, vec![], 0), Err(ContractError::NotFound));
    assert_eq!(c.delete_election(7, 0), Err(ContractError::NotFound));
    assert_eq!(c.get_ballot_count(7), 0);
    assert_eq!(c.get_share_count(7), 0);
    assert!(c.get_election(7).is_none());
    assert!(c.events().is_empty());
}

#[test]
fn issuance_needs_enough_roster_signatures() {
    let mut c = ElectionContract::new();
    let kh1 = TestKey::from_seed(1);
    let d1 = TestKey::from_seed(3);
    let d2 = TestKey::from_seed(6);
    let outsider = TestKey::from_seed(7);
    let voter = TestKey::from_seed(4);
    let eid = deploy_election(&mut c, 1000, &[&kh1], &[&d1, &d2], 2, 1, 10, 200);
    assert_eq!(issue(&mut c, eid, &voter.pk(), &fake_nf(1), &[&d1]), Err(ContractError::InvalidDistributorSig));
    assert_eq!(issue(&mut c, eid, &voter.pk(), &fake_nf(1), &[&d1, &outsider]), Err(ContractError::InvalidDistributorSig));
    let mut sigs = dist_sigs(eid, &voter.pk(), &fake_nf(1), &[&d1, &d2]);
    sigs[1].1[0] ^= 1;
    assert_eq!(c.issue_account(eid, voter.pk(), fake_nf(1), sigs), Err(ContractError::InvalidSignature));
    assert!(!c.is_issue_nullifier_used(eid, fake_nf(1)));
    assert_eq!(issue(&mut c, eid, &voter.pk(), &fake_nf(1), &[&outsider, &d1, &d2]), Ok(()));
    assert!(c.is_issue_nullifier_used(eid, fake_nf(1)));
    assert_eq!(issue(&mut c, eid, &voter.pk(), &fake_nf(1), &[&d1, &d2]), Err(ContractError::AlreadyIssued));
}

#[test]
fn forged_cast_signature_rejected() {
    let mut c = ElectionContract::new();
    let kh1 = TestKey::from_seed(1);
    let dist1 = TestKey::from_seed(3);
    let voter = TestKey::from_seed(4);
    let other = TestKey::from_seed(5);
    let eid = deploy_election(&mut c, 1000, &[&kh1], &[&dist1], 1, 1, 10, 200);
    issue(&mut c, eid, &voter.pk(), &fake_nf(1), &[&dist1]).unwrap();
    let nf = fake_nf(0x10);
    let sig = other.sign(&cast_msg(eid, &nf, &fake_point(1), &fake_point(2)));
    assert_eq!(c.cast(eid, nf, fake_point(1), fake_point(2), voter.pk(), sig, 1015), Err(ContractError::InvalidSignature));
    let sig = voter.sign(&cast_msg(eid, &nf, &fake_point(1), &fake_point(9)));
    assert_eq!(c.cast(eid, nf, fake_point(1), fake_point(2), voter.pk(), sig, 1015), Err(ContractError::InvalidSignature));
    assert_eq!(c.get_ballot_count(eid), 0);
    assert!(!c.is_cast_nullifier_used(eid, nf));
}

#[test]
fn commitments_overwrite_and_check_index() {
    let mut c = ElectionContract::new();
    let kh1 = TestKey::from_seed(1);
    let dist1 = TestKey::from_seed(3);
    let eid = deploy_election(&mut c, 1000, &[&kh1], &[&dist1], 1, 1, 10, 200);
    assert_eq!(c.set_kh_commitment(eid, 1, vec![9]), Err(ContractError::NotKeyHolder));
    assert_eq!(c.set_kh_commitment(eid, 0, vec![9, 9]), Ok(()));
    assert_eq!(c.get_kh_commitment(eid, 0), Some(vec![9, 9]));
    assert_eq!(c.get_kh_commitment(eid, 1), None);
}

#[test]
fn delete_removes_election_but_keeps_nullifiers() {
    let mut c = ElectionContract::new();
    let kh1 = TestKey::from_seed(1);
    let dist1 = TestKey::from_seed(3);
    let voter = TestKey::from_seed(4);
    let eid = deploy_election(&mut c, 1000, &[&kh1], &[&dist1], 1, 1, 10, 200);
    issue(&mut c, eid, &voter.pk(), &fake_nf(1), &[&dist1]).unwrap();
    cast_ballot(&mut c, eid, &voter, &fake_nf(0x10), &fake_point(1), &fake_point(2), 1015).unwrap();
    assert_eq!(c.delete_election(eid, 1199), Err(ContractError::OutsideVotingWindow));
    assert_eq!(c.delete_election(eid, 1200), Ok(()));
    assert_eq!(c.events().last(), Some(&Event::Deleted { eid }));
    assert!(c.get_election(eid).is_none());
    assert_eq!(c.get_ballot_count(eid), 0);
    assert!(c.get_ballot(eid, 0).is_none());
    assert!(c.get_kh_roster(eid).is_none());
    assert!(c.is_cast_nullifier_used(eid, fake_nf(0x10)));
    assert!(c.is_issue_nullifier_used(eid, fake_nf(1)));
    assert_eq!(c.delete_election(eid, 1200), Err(ContractError::NotFound));
    let next = deploy_election(&mut c, 1000, &[&kh1], &[&dist1], 1, 1, 10, 200);
    assert_eq!(next, 1);
}

#[test]
fn error_codes_are_stable() {
    let all = [
        ContractError::AlreadyExists,
        ContractError::NotFound,
        ContractError::OutsideVotingWindow,
        ContractError::AlreadyIssued,
        ContractError::AlreadyVoted,
        ContractError::NotIssuedAccount,
        ContractError::InvalidSignature,
        ContractError::InvalidMerkleProof,
        ContractError::NotKeyHolder,
        ContractError::AlreadyPosted,
        ContractError::InsufficientShares,
        ContractError::InvalidTally,
        ContractError::AlreadyTallied,
        ContractError::InvalidDistributorSig,
        ContractError::NotDistributor,
        ContractError::EncodingError,
    ];
    for (i, e) in all.iter().enumerate() {
        assert_eq!(e.code(), i as u32 + 1);
    }
}

#[test]
fn shares_blob_exact_bytes() {
    let shares = vec![(vec![0xAAu8, 0xBB], vec![0xCCu8]), (vec![], vec![1u8, 2, 3])];
    let blob = serialise_shares(&shares);
    let expected: Vec<u8> = vec![
        2, 0, 0, 0, 2, 0, 0, 0, 0xAA, 0xBB, 1, 0, 0, 0, 0xCC, 0, 0, 0, 0, 3, 0, 0, 0, 1, 2, 3,
    ];
    assert_eq!(blob, expected);
    assert_eq!(serialise_shares(&vec![]), vec![0u8, 0, 0, 0]);
}

#[test]
fn shares_round_trip() {
    let shares = vec![(fake_point(1), fake_point(10)), (vec![], vec![7u8]), (vec![5u8; 300], vec![])];
    let blob = serialise_shares(&shares);
    let parsed = parse_shares(&blob).unwrap();
    assert_eq!(parsed, shares);
    assert_eq!(serialise_shares(&parsed), blob);
    assert_eq!(parse_shares(&[0, 0, 0, 0]), Some(vec![]));
    assert_eq!(parse_shares(&blob[..blob.len() - 1]), None);
    let mut longer = blob.clone();
    longer.push(0);
    assert_eq!(parse_shares(&longer), None);
    assert_eq!(parse_shares(&[1, 0, 0]), None);
}

#[test]
fn digests_match_their_preimages() {
    let pk = [7u8; 32];
    let nf = [9u8; 32];
    let mut pre = b"stellot:issue".to_vec();
    pre.extend_from_slice(&5u64.to_le_bytes());
    pre.extend_from_slice(&pk);
    pre.extend_from_slice(&nf);
    let expected: [u8; 32] = Sha256::digest(&pre).into();
    assert_eq!(issue_msg(5, &pk, &nf), expected);

    let mut pre = b"stellot:cast".to_vec();
    pre.extend_from_slice(&0x0102030405060708u64.to_le_bytes());
    pre.extend_from_slice(&nf);
    pre.extend_from_slice(&[1, 2]);
    pre.extend_from_slice(&[3]);
    let expected: [u8; 32] = Sha256::digest(&pre).into();
    assert_eq!(cast_msg(0x0102030405060708, &nf, &[1, 2], &[3]), expected);

    let mut pre = b"stellot:shares".to_vec();
    pre.extend_from_slice(&0u64.to_le_bytes());
    pre.extend_from_slice(&[0, 0, 0, 0]);
    let expected: [u8; 32] = Sha256::digest(&pre).into();
    assert_eq!(shares_msg(0, &[0, 0, 0, 0]), expected);
}

#[test]
fn sha256_of_empty_input() {
    let leaf = leaf_hash(&[]);
    let expected: [u8; 32] = Sha256::digest(b"stellot:leaf").into();
    assert_eq!(leaf, expected);
    assert_ne!(leaf, [0u8; 32]);
}

#[test]
fn merkle_proof_of_two_leaves() {
    let a = b"voter-a".to_vec();
    let b = b"voter-b".to_vec();
    let la = leaf_hash(&a);
    let lb = leaf_hash(&b);
    let mut pre = b"stellot:node".to_vec();
    pre.extend_from_slice(&la);
    pre.extend_from_slice(&lb);
    let expected_root: [u8; 32] = Sha256::digest(&pre).into();
    let root = node_hash(&la, &lb);
    assert_eq!(root, expected_root);
    assert!(verify(&root, &a, &vec![(lb, true)]));
    assert!(verify(&root, &b, &vec![(la, false)]));
    assert!(!verify(&root, &a, &vec![(lb, false)]));
    assert!(!verify(&root, &b"voter-c".to_vec(), &vec![(lb, true)]));
    assert!(verify(&la, &a, &vec![]));
}

#[test]
fn storage_keys_follow_the_lifecycle() {
    let mut c = ElectionContract::new();
    assert!(!c.has(DataKey::NextElectionId));
    let kh1 = TestKey::from_seed(1);
    let dist1 = TestKey::from_seed(3);
    let voter = TestKey::from_seed(4);
    let eid = deploy_election(&mut c, 1000, &[&kh1], &[&dist1], 1, 1, 10, 200);
    assert!(c.has(DataKey::NextElectionId));
    assert!(c.has(DataKey::Election(eid)));
    assert!(c.has(DataKey::KhRoster(eid)));
    assert!(c.has(DataKey::KhCommitment(eid, 0)));
    assert!(!c.has(DataKey::KhCommitment(eid, 1)));
    assert!(!c.has(DataKey::BallotCount(eid)));
    issue(&mut c, eid, &voter.pk(), &fake_nf(1), &[&dist1]).unwrap();
    assert!(c.has(DataKey::IssueNullifier(eid, fake_nf(1))));
    assert!(c.has(DataKey::CastingAccount(eid, voter.pk())));
    cast_ballot(&mut c, eid, &voter, &fake_nf(0x10), &fake_point(1), &fake_point(2), 1015).unwrap();
    assert!(c.has(DataKey::BallotCount(eid)));
    assert!(c.has(DataKey::Ballot(eid, 0)));
    assert!(!c.has(DataKey::Ballot(eid, 1)));
    assert!(c.has(DataKey::CastNullifier(eid, fake_nf(0x10))));
    post_kh_share(&mut c, eid, &kh1, 0, 1, 1200).unwrap();
    assert!(c.has(DataKey::ShareCount(eid)));
    assert!(c.has(DataKey::KhShare(eid, 0)));
    assert!(!c.has(DataKey::Tally(eid)));
    c.finalize_tally(eid, vec![1, 0], 1200).unwrap();
    assert!(c.has(DataKey::Tally(eid)));
    assert!(c.get_election(eid).unwrap().tallied);
}
