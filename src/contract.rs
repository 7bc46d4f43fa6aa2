//! The election state machine. Each transition either commits all of its
//! writes and publishes its event, or returns an error and changes nothing.
use vstd::prelude::*;

use crate::codec::{bytes32_eq, serialise_shares, shares_fit, shares_view};
use crate::crypto::{ed25519_accepts, ed25519_verify};
use crate::digest::{cast_msg, issue_msg, shares_msg};
use crate::error::ContractError;
use crate::keyset::KeySet;
use crate::model::{
    cast_outcome, cast_post, commitment_outcome, commitment_post, count_posted, delete_outcome,
    delete_post, deploy_outcome, deploy_post, inv, issue_outcome, issue_post, record_inv, record_of,
    key_present, roster_rows, roster_sigs_valid, share_outcome, share_post, tally_outcome, tally_post,
    ContractView, RecordView,
};
use crate::types::{DataKey, ElectionParams, EncryptedBallot, Event, ParamsView};

verus! {

/// Everything stored for one live election.
pub struct ElectionRecord {
    params: ElectionParams,
    eligibility_root: [u8; 32],
    dist_roster: Vec<[u8; 32]>,
    dist_threshold: u32,
    kh_roster: Vec<[u8; 32]>,
    kh_threshold: u32,
    kh_commitments: Vec<Option<Vec<u8>>>,
    kh_shares: Vec<Option<Vec<u8>>>,
    share_count: u32,
    ballots: Vec<EncryptedBallot>,
    tally: Option<Vec<u32>>,
}

pub open spec fn opt_bytes_view(o: Option<Vec<u8>>) -> Option<Seq<u8>> {
    match o {
        Some(b) => Some(b@),
        None => None,
    }
}

impl View for ElectionRecord {
    type V = RecordView;

    closed spec fn view(&self) -> RecordView {
        RecordView {
            params: self.params@,
            eligibility_root: self.eligibility_root,
            dist_roster: self.dist_roster@,
            dist_threshold: self.dist_threshold,
            kh_roster: self.kh_roster@,
            kh_threshold: self.kh_threshold,
            kh_commitments: self.kh_commitments@.map_values(|o: Option<Vec<u8>>| opt_bytes_view(o)),
            kh_shares: self.kh_shares@.map_values(|o: Option<Vec<u8>>| opt_bytes_view(o)),
            share_count: self.share_count,
            ballots: self.ballots@.map_values(|b: EncryptedBallot| b@),
            tally: match self.tally {
                Some(t) => Some(t@),
                None => None,
            },
        }
    }
}

pub open spec fn opt_record_view(o: Option<ElectionRecord>) -> Option<RecordView> {
    match o {
        Some(r) => Some(r@),
        None => None,
    }
}

/// The ledger state of all elections.
pub struct ElectionContract {
    next_election_id: u64,
    elections: Vec<Option<ElectionRecord>>,
    issue_nullifiers: KeySet,
    casting_accounts: KeySet,
    cast_nullifiers: KeySet,
    events: Vec<Event>,
}

impl View for ElectionContract {
    type V = ContractView;

    closed spec fn view(&self) -> ContractView {
        ContractView {
            next_election_id: self.next_election_id,
            elections: self.elections@.map_values(|o: Option<ElectionRecord>| opt_record_view(o)),
            issue_nullifiers: self.issue_nullifiers@,
            casting_accounts: self.casting_accounts@,
            cast_nullifiers: self.cast_nullifiers@,
            events: self.events@,
        }
    }
}

proof fn lemma_count_posted_none(n: nat)
    ensures
        count_posted(Seq::new(n, |i: int| None::<Seq<u8>>)) == 0,
    decreases n,
{
    if n > 0 {
        assert(Seq::new(n, |i: int| None::<Seq<u8>>).drop_last() =~= Seq::new((n - 1) as nat, |i: int| None::<Seq<u8>>));
        lemma_count_posted_none((n - 1) as nat);
    }
}

proof fn lemma_count_posted_bound(s: Seq<Option<Seq<u8>>>)
    ensures
        count_posted(s) <= s.len(),
    decreases s.len(),
{
    if s.len() > 0 {
        lemma_count_posted_bound(s.drop_last());
    }
}

proof fn lemma_count_posted_fill(s: Seq<Option<Seq<u8>>>, i: int, x: Seq<u8>)
    requires
        0 <= i < s.len(),
        s[i] is None,
    ensures
        count_posted(s.update(i, Some(x))) == count_posted(s) + 1,
    decreases s.len(),
{
    let t = s.update(i, Some(x));
    if i == s.len() - 1 {
        assert(t.drop_last() =~= s.drop_last());
    } else {
        assert(t.drop_last() =~= s.drop_last().update(i, Some(x)));
        lemma_count_posted_fill(s.drop_last(), i, x);
    }
}

/// A copy of a list of 32-byte keys.
fn copy_keys(v: &Vec<[u8; 32]>) -> (r: Vec<[u8; 32]>)
    ensures
        r@ == v@,
{
    let mut out: Vec<[u8; 32]> = Vec::new();
    let mut i: usize = 0;
    while i < v.len()
        invariant
            i <= v@.len(),
            out@ == v@.take(i as int),
        decreases v@.len() - i,
    {
        out.push(v[i]);
        i = i + 1;
        assert(out@ =~= v@.take(i as int));
    }
    assert(v@.take(i as int) =~= v@);
    out
}

/// Whether `pk` is on `roster`.
fn roster_contains(roster: &Vec<[u8; 32]>, pk: &[u8; 32]) -> (r: bool)
    ensures
        r == roster@.contains(*pk),
{
    let mut i: usize = 0;
    while i < roster.len()
        invariant
            i <= roster@.len(),
            forall|j: int| 0 <= j < i ==> roster@[j] != *pk,
        decreases roster@.len() - i,
    {
        if bytes32_eq(&roster[i], pk) {
            assert(roster@[i as int] == *pk);
            return true;
        }
        i = i + 1;
    }
    false
}

/// Checks every row whose signer is on `roster` against `msg` and counts
/// those rows; `None` as soon as one of them does not verify.
fn count_roster_sigs(roster: &Vec<[u8; 32]>, msg: &[u8; 32], sigs: &Vec<([u8; 32], [u8; 64])>) -> (r: Option<usize>)
    ensures
        r is None <==> !roster_sigs_valid(sigs@, roster@, msg@),
        r is Some ==> r->0 == roster_rows(sigs@, roster@),
{
    let mut count: usize = 0;
    let mut i: usize = 0;
    while i < sigs.len()
        invariant
            i <= sigs@.len(),
            count <= i,
            count == roster_rows(sigs@.take(i as int), roster@),
            roster_sigs_valid(sigs@.take(i as int), roster@, msg@),
        decreases sigs@.len() - i,
    {
        let (pk, sig) = sigs[i];
        assert(sigs@.take(i + 1).drop_last() =~= sigs@.take(i as int));
        assert(sigs@.take(i + 1).last() == sigs@[i as int]);
        if roster_contains(roster, &pk) {
            if !ed25519_verify(&pk, msg.as_slice(), &sig) {
                assert(sigs@[i as int].0 == pk);
                return None;
            }
            count = count + 1;
        }
        assert forall|j: int| 0 <= j < i + 1 && roster@.contains(#[trigger] sigs@.take(i + 1)[j].0)
            implies ed25519_accepts(sigs@.take(i + 1)[j].0@, msg@, sigs@.take(i + 1)[j].1@) by {
            if j < i {
                assert(sigs@.take(i + 1)[j] == sigs@.take(i as int)[j]);
            }
        }
        i = i + 1;
    }
    assert(sigs@.take(i as int) =~= sigs@);
    Some(count)
}

impl ElectionContract {
    /// An empty ledger: no election yet, the id counter at 0.
    pub fn new() -> (r: ElectionContract)
        ensures
            inv(r@),
            r@.next_election_id == 0,
            r@.elections.len() == 0,
            r@.issue_nullifiers.is_empty(),
            r@.casting_accounts.is_empty(),
            r@.cast_nullifiers.is_empty(),
            r@.events.len() == 0,
    {
        let r = ElectionContract {
            next_election_id: 0,
            elections: Vec::new(),
            issue_nullifiers: KeySet::new(),
            casting_accounts: KeySet::new(),
            cast_nullifiers: KeySet::new(),
            events: Vec::new(),
        };
        assert(r@.elections =~= Seq::<Option<RecordView>>::empty());
        r
    }

    /// The position of election `eid` in storage, if it exists.
    fn slot(&self, eid: u64) -> (r: Option<usize>)
        requires
            inv(self@),
        ensures
            r is Some <==> record_of(self@, eid) is Some,
            r is Some ==> r->0 == eid && r->0 < self.elections@.len() && self.elections@[r->0 as int] is Some,
    {
        let len = self.elections.len();
        assert(self@.elections.len() == len);
        if (eid as u128) < (len as u128) {
            let i = eid as usize;
            assert(self@.elections[i as int] == opt_record_view(self.elections@[i as int]));
            match &self.elections[i] {
                Some(_) => Some(i),
                None => None,
            }
        } else {
            None
        }
    }

    /// Creates an election and returns its id, taken from a counter that
    /// starts at 0 and is never reused. Degenerate configurations (fewer than
    /// two options, thresholds above the roster size, start after end) are
    /// accepted as given.
    pub fn deploy(
        &mut self,
        title: Vec<u8>,
        options_count: u32,
        start_time: u64,
        end_time: u64,
        enc_pubkey: Vec<u8>,
        eligibility_root: [u8; 32],
        dist_roster: Vec<[u8; 32]>,
        dist_threshold: u32,
        kh_roster: Vec<[u8; 32]>,
        kh_threshold: u32,
    ) -> (r: Result<u64, ContractError>)
        requires
            inv(old(self)@),
        ensures
            inv(final(self)@),
            r == deploy_outcome(old(self)@, dist_roster@.len(), kh_roster@.len()),
            r is Ok ==> final(self)@ == deploy_post(
                old(self)@, title@, options_count, start_time, end_time, enc_pubkey@,
                eligibility_root, dist_roster@, dist_threshold, kh_roster@, kh_threshold,
            ),
            r is Err ==> final(self)@ == old(self)@,
    {
        if self.next_election_id == u64::MAX || dist_roster.len() > 0xffff_ffffusize
            || kh_roster.len() > 0xffff_ffffusize {
            return Err(ContractError::EncodingError);
        }
        let eid = self.next_election_id;
        let n = kh_roster.len();
        let mut kh_commitments: Vec<Option<Vec<u8>>> = Vec::new();
        let mut kh_shares: Vec<Option<Vec<u8>>> = Vec::new();
        let mut i: usize = 0;
        while i < n
            invariant
                i <= n,
                kh_commitments@.len() == i,
                kh_shares@.len() == i,
                forall|j: int| 0 <= j < i ==> kh_commitments@[j] is None && kh_shares@[j] is None,
            decreases n - i,
        {
            kh_commitments.push(None);
            kh_shares.push(None);
            i = i + 1;
        }
        let rec = ElectionRecord {
            params: ElectionParams {
                eid,
                title,
                options_count,
                start_time,
                end_time,
                enc_pubkey,
                tallied: false,
            },
            eligibility_root,
            dist_roster,
            dist_threshold,
            kh_roster,
            kh_threshold,
            kh_commitments,
            kh_shares,
            share_count: 0,
            ballots: Vec::new(),
            tally: None,
        };
        let ghost old_v = self@;
        let ghost none_seq = Seq::new(n as nat, |j: int| None::<Seq<u8>>);
        assert(rec@.kh_commitments =~= none_seq);
        assert(rec@.kh_shares =~= none_seq);
        assert(rec@.ballots =~= Seq::empty());
        proof {
            lemma_count_posted_none(n as nat);
        }
        self.elections.push(Some(rec));
        self.next_election_id = eid + 1;
        self.events.push(Event::Deploy { eid, start_time, end_time, options_count });
        let ghost post = deploy_post(
            old_v, rec@.params.title, options_count, start_time, end_time, rec@.params.enc_pubkey,
            eligibility_root, rec@.dist_roster, dist_threshold, rec@.kh_roster, kh_threshold,
        );
        assert(self@.elections =~= post.elections);
        assert(self@ == post);
        assert forall|e: u64| #[trigger] record_of(self@, e) is Some implies record_inv(self@, e, record_of(self@, e)->0) by {
            if e != eid {
                assert(record_of(self@, e) == record_of(old_v, e));
            }
        }
        Ok(eid)
    }

    /// Records an encrypted ballot and returns its 0-based index. The
    /// election must be open at `now` (`start_time <= now < end_time`),
    /// `nf_cast` unused, `pk_cast` an issued casting account, and `sig` a
    /// valid signature by `pk_cast` of [`cast_msg`].
    pub fn cast(
        &mut self,
        eid: u64,
        nf_cast: [u8; 32],
        c1: Vec<u8>,
        c2: Vec<u8>,
        pk_cast: [u8; 32],
        sig: [u8; 64],
        now: u64,
    ) -> (r: Result<u32, ContractError>)
        requires
            inv(old(self)@),
        ensures
            inv(final(self)@),
            r == cast_outcome(old(self)@, eid, nf_cast, c1@, c2@, pk_cast, sig, now),
            r is Ok ==> final(self)@ == cast_post(old(self)@, eid, nf_cast, c1@, c2@),
            r is Err ==> final(self)@ == old(self)@,
    {
        let idx = match self.slot(eid) {
            Some(i) => i,
            None => return Err(ContractError::NotFound),
        };
        let ghost old_v = self@;
        let ghost old_rec = self.elections@[idx as int]->0;
        assert(old_v.elections[idx as int] == Some(old_rec@));
        let (start_time, end_time, n) = match &self.elections[idx] {
            Some(rec) => (rec.params.start_time, rec.params.end_time, rec.ballots.len()),
            None => return Err(ContractError::NotFound),
        };
        assert(old_rec@.ballots.len() == n);
        if now < start_time || now >= end_time {
            return Err(ContractError::OutsideVotingWindow);
        }
        if self.cast_nullifiers.contains(eid, &nf_cast) {
            return Err(ContractError::AlreadyVoted);
        }
        if !self.casting_accounts.contains(eid, &pk_cast) {
            return Err(ContractError::NotIssuedAccount);
        }
        let msg = cast_msg(eid, &nf_cast, c1.as_slice(), c2.as_slice());
        if !ed25519_verify(&pk_cast, msg.as_slice(), &sig) {
            return Err(ContractError::InvalidSignature);
        }
        if n >= 0xffff_ffffusize {
            return Err(ContractError::EncodingError);
        }
        let index = n as u32;
        let ballot = EncryptedBallot { nf_cast, c1, c2 };
        let ghost b = ballot@;
        match &mut self.elections[idx] {
            Some(rec) => {
                rec.ballots.push(ballot);
                assert(rec@.ballots =~= old_rec@.ballots.push(b));
                assert(rec@ == RecordView { ballots: old_rec@.ballots.push(b), ..old_rec@ });
            },
            None => {},
        }
        self.cast_nullifiers.insert(eid, &nf_cast);
        self.events.push(Event::Cast { eid, nf_cast, ballot_index: index });
        let ghost post = cast_post(old_v, eid, nf_cast, b.c1, b.c2);
        assert(self@.elections =~= post.elections);
        assert(self@ == post);
        assert forall|e: u64| #[trigger] record_of(self@, e) is Some implies record_inv(self@, e, record_of(self@, e)->0) by {
            if e != eid {
                assert(record_of(self@, e) == record_of(old_v, e));
                assert(record_inv(old_v, e, record_of(old_v, e)->0));
            } else {
                let nr = record_of(self@, e)->0;
                assert(record_inv(old_v, e, old_rec@));
                assert forall|i: int| 0 <= i < nr.ballots.len() implies self@.cast_nullifiers.contains((eid, #[trigger] nr.ballots[i].nf_cast)) by {
                    if i < nr.ballots.len() - 1 {
                        assert(nr.ballots[i] == old_rec@.ballots[i]);
                    }
                }
                assert forall|i: int, j: int| 0 <= i < nr.ballots.len() && 0 <= j < nr.ballots.len() && i != j
                    implies #[trigger] nr.ballots[i].nf_cast != #[trigger] nr.ballots[j].nf_cast by {
                    let last = nr.ballots.len() - 1;
                    if i == last {
                        assert(old_v.cast_nullifiers.contains((eid, old_rec@.ballots[j].nf_cast)));
                    } else if j == last {
                        assert(old_v.cast_nullifiers.contains((eid, old_rec@.ballots[i].nf_cast)));
                    } else {
                        assert(nr.ballots[i] == old_rec@.ballots[i]);
                        assert(nr.ballots[j] == old_rec@.ballots[j]);
                    }
                }
            }
        }
        Ok(index)
    }

    /// Records a key-holder's verifiable-secret-sharing commitment at its
    /// roster position. A later call overwrites an earlier one.
    pub fn set_kh_commitment(&mut self, eid: u64, kh_idx: u32, commitment: Vec<u8>) -> (r: Result<(), ContractError>)
        requires
            inv(old(self)@),
        ensures
            inv(final(self)@),
            r == commitment_outcome(old(self)@, eid, kh_idx),
            r is Ok ==> final(self)@ == commitment_post(old(self)@, eid, kh_idx, commitment@),
            r is Err ==> final(self)@ == old(self)@,
    {
        let idx = match self.slot(eid) {
            Some(i) => i,
            None => return Err(ContractError::NotFound),
        };
        let ghost old_v = self@;
        let ghost old_rec = self.elections@[idx as int]->0;
        assert(old_v.elections[idx as int] == Some(old_rec@));
        assert(record_inv(old_v, eid, old_rec@));
        let n = match &self.elections[idx] {
            Some(rec) => rec.kh_roster.len(),
            None => return Err(ContractError::NotFound),
        };
        if kh_idx as usize >= n {
            return Err(ContractError::NotKeyHolder);
        }
        let ghost c = commitment@;
        match &mut self.elections[idx] {
            Some(rec) => {
                rec.kh_commitments.set(kh_idx as usize, Some(commitment));
                assert(rec@.kh_commitments =~= old_rec@.kh_commitments.update(kh_idx as int, Some(c)));
                assert(rec@ == RecordView { kh_commitments: old_rec@.kh_commitments.update(kh_idx as int, Some(c)), ..old_rec@ });
            },
            None => {},
        }
        let ghost post = commitment_post(old_v, eid, kh_idx, c);
        assert(self@.elections =~= post.elections);
        assert(self@ == post);
        assert forall|e: u64| #[trigger] record_of(self@, e) is Some implies record_inv(self@, e, record_of(self@, e)->0) by {
            if e != eid {
                assert(record_of(self@, e) == record_of(old_v, e));
            }
        }
        Ok(())
    }

    /// Registers `pk_cast` as a casting account once enough distributors
    /// approve. `nf_issue` must be unused; every row whose signer is on the
    /// distributor roster must carry a valid signature of [`issue_msg`]
    /// (rows of other signers are skipped), and at least `dist_threshold`
    /// such rows are needed.
    pub fn issue_account(
        &mut self,
        eid: u64,
        pk_cast: [u8; 32],
        nf_issue: [u8; 32],
        dist_sigs: Vec<([u8; 32], [u8; 64])>,
    ) -> (r: Result<(), ContractError>)
        requires
            inv(old(self)@),
        ensures
            inv(final(self)@),
            r == issue_outcome(old(self)@, eid, pk_cast, nf_issue, dist_sigs@),
            r is Ok ==> final(self)@ == issue_post(old(self)@, eid, pk_cast, nf_issue),
            r is Err ==> final(self)@ == old(self)@,
    {
        let idx = match self.slot(eid) {
            Some(i) => i,
            None => return Err(ContractError::NotFound),
        };
        let ghost old_v = self@;
        let ghost old_rec = self.elections@[idx as int]->0;
        assert(old_v.elections[idx as int] == Some(old_rec@));
        if self.issue_nullifiers.contains(eid, &nf_issue) {
            return Err(ContractError::AlreadyIssued);
        }
        let msg = issue_msg(eid, &pk_cast, &nf_issue);
        let (counted, threshold) = match &self.elections[idx] {
            Some(rec) => (count_roster_sigs(&rec.dist_roster, &msg, &dist_sigs), rec.dist_threshold),
            None => return Err(ContractError::NotFound),
        };
        let count = match counted {
            Some(c) => c,
            None => return Err(ContractError::InvalidSignature),
        };
        if (count as u128) < (threshold as u128) {
            return Err(ContractError::InvalidDistributorSig);
        }
        self.issue_nullifiers.insert(eid, &nf_issue);
        self.casting_accounts.insert(eid, &pk_cast);
        self.events.push(Event::Issued { eid, nf_issue, pk_cast });
        assert(self@ == issue_post(old_v, eid, pk_cast, nf_issue));
        assert forall|e: u64| #[trigger] record_of(self@, e) is Some implies record_inv(self@, e, record_of(self@, e)->0) by {
            assert(record_of(self@, e) == record_of(old_v, e));
        }
        Ok(())
    }

    /// Stores a key-holder's batch of partial decryption shares, serialised
    /// with [`serialise_shares`], and returns the new number of batches. Voting
    /// must be over at `now` (`now >= end_time`), the election not tallied,
    /// `kh_pk` the roster entry at `kh_idx`, no batch posted there yet, and
    /// `sig` a valid signature by `kh_pk` of [`shares_msg`] over the blob.
    pub fn post_share(
        &mut self,
        eid: u64,
        kh_idx: u32,
        shares: Vec<(Vec<u8>, Vec<u8>)>,
        kh_pk: [u8; 32],
        sig: [u8; 64],
        now: u64,
    ) -> (r: Result<u32, ContractError>)
        requires
            inv(old(self)@),
            shares_fit(shares_view(shares@)),
        ensures
            inv(final(self)@),
            r == share_outcome(old(self)@, eid, kh_idx, shares_view(shares@), kh_pk, sig, now),
            r is Ok ==> final(self)@ == share_post(old(self)@, eid, kh_idx, shares_view(shares@)),
            r is Err ==> final(self)@ == old(self)@,
    {
        let idx = match self.slot(eid) {
            Some(i) => i,
            None => return Err(ContractError::NotFound),
        };
        let ghost old_v = self@;
        let ghost old_rec = self.elections@[idx as int]->0;
        assert(old_v.elections[idx as int] == Some(old_rec@));
        assert(record_inv(old_v, eid, old_rec@));
        let blob = match &self.elections[idx] {
            Some(rec) => {
                if now < rec.params.end_time {
                    return Err(ContractError::OutsideVotingWindow);
                }
                if rec.params.tallied {
                    return Err(ContractError::AlreadyTallied);
                }
                if kh_idx as usize >= rec.kh_roster.len() || !bytes32_eq(&rec.kh_roster[kh_idx as usize], &kh_pk) {
                    return Err(ContractError::NotKeyHolder);
                }
                assert(old_rec@.kh_shares[kh_idx as int] == opt_bytes_view(rec.kh_shares@[kh_idx as int]));
                if rec.kh_shares[kh_idx as usize].is_some() {
                    return Err(ContractError::AlreadyPosted);
                }
                let blob = serialise_shares(&shares);
                let msg = shares_msg(eid, blob.as_slice());
                if !ed25519_verify(&kh_pk, msg.as_slice(), &sig) {
                    return Err(ContractError::InvalidSignature);
                }
                blob
            },
            None => return Err(ContractError::NotFound),
        };
        let ghost bv = blob@;
        let ghost new_shares = old_rec@.kh_shares.update(kh_idx as int, Some(bv));
        proof {
            lemma_count_posted_fill(old_rec@.kh_shares, kh_idx as int, bv);
            lemma_count_posted_bound(new_shares);
        }
        let mut new_count: u32 = 0;
        let mut threshold: u32 = 0;
        match &mut self.elections[idx] {
            Some(rec) => {
                rec.kh_shares.set(kh_idx as usize, Some(blob));
                rec.share_count = rec.share_count + 1;
                new_count = rec.share_count;
                threshold = rec.kh_threshold;
                assert(rec@.kh_shares =~= new_shares);
                assert(rec@ == RecordView { kh_shares: new_shares, share_count: new_count, ..old_rec@ });
            },
            None => {},
        }
        if new_count >= threshold {
            self.events.push(Event::Threshold { eid, share_count: new_count });
        }
        let ghost post = share_post(old_v, eid, kh_idx, shares_view(shares@));
        assert(self@.elections =~= post.elections);
        assert(self@ == post);
        assert forall|e: u64| #[trigger] record_of(self@, e) is Some implies record_inv(self@, e, record_of(self@, e)->0) by {
            if e != eid {
                assert(record_of(self@, e) == record_of(old_v, e));
            }
        }
        Ok(new_count)
    }

    /// Stores the tally computed off-ledger and marks the election tallied.
    /// Voting must be over at `now`, at least `kh_threshold` batches posted,
    /// and the tally must have one entry per option.
    pub fn finalize_tally(&mut self, eid: u64, tally: Vec<u32>, now: u64) -> (r: Result<(), ContractError>)
        requires
            inv(old(self)@),
        ensures
            inv(final(self)@),
            r == tally_outcome(old(self)@, eid, tally@, now),
            r is Ok ==> final(self)@ == tally_post(old(self)@, eid, tally@),
            r is Err ==> final(self)@ == old(self)@,
    {
        let idx = match self.slot(eid) {
            Some(i) => i,
            None => return Err(ContractError::NotFound),
        };
        let ghost old_v = self@;
        let ghost old_rec = self.elections@[idx as int]->0;
        assert(old_v.elections[idx as int] == Some(old_rec@));
        assert(record_inv(old_v, eid, old_rec@));
        let share_count = match &self.elections[idx] {
            Some(rec) => {
                if rec.params.tallied {
                    return Err(ContractError::AlreadyTallied);
                }
                if now < rec.params.end_time {
                    return Err(ContractError::OutsideVotingWindow);
                }
                if rec.share_count < rec.kh_threshold {
                    return Err(ContractError::InsufficientShares);
                }
                if tally.len() != rec.params.options_count as usize {
                    return Err(ContractError::InvalidTally);
                }
                rec.share_count
            },
            None => return Err(ContractError::NotFound),
        };
        let ghost t = tally@;
        match &mut self.elections[idx] {
            Some(rec) => {
                rec.tally = Some(tally);
                rec.params.tallied = true;
                assert(rec@ == RecordView { tally: Some(t), params: ParamsView { tallied: true, ..old_rec@.params }, ..old_rec@ });
            },
            None => {},
        }
        self.events.push(Event::Tallied { eid, share_count });
        let ghost post = tally_post(old_v, eid, t);
        assert(self@.elections =~= post.elections);
        assert(self@ == post);
        assert forall|e: u64| #[trigger] record_of(self@, e) is Some implies record_inv(self@, e, record_of(self@, e)->0) by {
            if e != eid {
                assert(record_of(self@, e) == record_of(old_v, e));
            }
        }
        Ok(())
    }

    /// Removes an election whose voting is over and which was not tallied:
    /// its record, rosters, ballots, commitments and share batches. The
    /// nullifiers and casting accounts stay.
    pub fn delete_election(&mut self, eid: u64, now: u64) -> (r: Result<(), ContractError>)
        requires
            inv(old(self)@),
        ensures
            inv(final(self)@),
            r == delete_outcome(old(self)@, eid, now),
            r is Ok ==> final(self)@ == delete_post(old(self)@, eid),
            r is Err ==> final(self)@ == old(self)@,
    {
        let idx = match self.slot(eid) {
            Some(i) => i,
            None => return Err(ContractError::NotFound),
        };
        let ghost old_v = self@;
        let ghost old_rec = self.elections@[idx as int]->0;
        assert(old_v.elections[idx as int] == Some(old_rec@));
        match &self.elections[idx] {
            Some(rec) => {
                if now < rec.params.end_time {
                    return Err(ContractError::OutsideVotingWindow);
                }
                if rec.params.tallied {
                    return Err(ContractError::AlreadyTallied);
                }
            },
            None => return Err(ContractError::NotFound),
        }
        self.elections.set(idx, None);
        self.events.push(Event::Deleted { eid });
        let ghost post = delete_post(old_v, eid);
        assert(self@.elections =~= post.elections);
        assert(self@ == post);
        assert forall|e: u64| #[trigger] record_of(self@, e) is Some implies record_inv(self@, e, record_of(self@, e)->0) by {
            if e != eid {
                assert(record_of(self@, e) == record_of(old_v, e));
            }
        }
        Ok(())
    }

    /// The record of `eid`, by reference, with its view.
    fn record(&self, eid: u64) -> (r: Option<&ElectionRecord>)
        requires
            inv(self@),
        ensures
            match r {
                Some(rec) => record_of(self@, eid) == Some(rec@),
                None => record_of(self@, eid) is None,
            },
    {
        match self.slot(eid) {
            Some(i) => {
                assert(self@.elections[i as int] == opt_record_view(self.elections@[i as int]));
                self.elections[i].as_ref()
            },
            None => None,
        }
    }

    /// The core record of `eid`, if it exists.
    pub fn get_election(&self, eid: u64) -> (r: Option<ElectionParams>)
        requires
            inv(self@),
        ensures
            match r {
                Some(p) => record_of(self@, eid) is Some && p@ == record_of(self@, eid)->0.params,
                None => record_of(self@, eid) is None,
            },
    {
        match self.record(eid) {
            Some(rec) => Some(rec.params.copy()),
            None => None,
        }
    }

    /// The number of ballots cast in `eid` (0 when it does not exist).
    pub fn get_ballot_count(&self, eid: u64) -> (r: u32)
        requires
            inv(self@),
        ensures
            r == match record_of(self@, eid) {
                Some(rec) => rec.ballots.len(),
                None => 0,
            },
    {
        match self.record(eid) {
            Some(rec) => rec.ballots.len() as u32,
            None => 0,
        }
    }

    /// The ballot at `index` of `eid`, if there is one.
    pub fn get_ballot(&self, eid: u64, index: u32) -> (r: Option<EncryptedBallot>)
        requires
            inv(self@),
        ensures
            match r {
                Some(b) => record_of(self@, eid) is Some && index < record_of(self@, eid)->0.ballots.len()
                    && b@ == record_of(self@, eid)->0.ballots[index as int],
                None => record_of(self@, eid) is None || index >= record_of(self@, eid)->0.ballots.len(),
            },
    {
        match self.record(eid) {
            Some(rec) => {
                if (index as usize) < rec.ballots.len() {
                    assert(rec@.ballots[index as int] == rec.ballots@[index as int]@);
                    Some(rec.ballots[index as usize].copy())
                } else {
                    None
                }
            },
            None => None,
        }
    }

    /// The number of share batches posted for `eid` (0 when it does not exist).
    pub fn get_share_count(&self, eid: u64) -> (r: u32)
        requires
            inv(self@),
        ensures
            r == match record_of(self@, eid) {
                Some(rec) => rec.share_count,
                None => 0,
            },
    {
        match self.record(eid) {
            Some(rec) => rec.share_count,
            None => 0,
        }
    }

    /// The shares blob posted by the key-holder at `kh_idx`, if any.
    pub fn get_kh_shares(&self, eid: u64, kh_idx: u32) -> (r: Option<Vec<u8>>)
        requires
            inv(self@),
        ensures
            opt_bytes_view(r) == match record_of(self@, eid) {
                Some(rec) => if kh_idx < rec.kh_shares.len() { rec.kh_shares[kh_idx as int] } else { None },
                None => None,
            },
    {
        match self.record(eid) {
            Some(rec) => {
                if (kh_idx as usize) < rec.kh_shares.len() {
                    assert(rec@.kh_shares[kh_idx as int] == opt_bytes_view(rec.kh_shares@[kh_idx as int]));
                    match &rec.kh_shares[kh_idx as usize] {
                        Some(b) => Some(b.clone()),
                        None => None,
                    }
                } else {
                    None
                }
            },
            None => None,
        }
    }

    /// The commitment of the key-holder at `kh_idx`, if any.
    pub fn get_kh_commitment(&self, eid: u64, kh_idx: u32) -> (r: Option<Vec<u8>>)
        requires
            inv(self@),
        ensures
            opt_bytes_view(r) == match record_of(self@, eid) {
                Some(rec) => if kh_idx < rec.kh_commitments.len() { rec.kh_commitments[kh_idx as int] } else { None },
                None => None,
            },
    {
        match self.record(eid) {
            Some(rec) => {
                if (kh_idx as usize) < rec.kh_commitments.len() {
                    assert(rec@.kh_commitments[kh_idx as int] == opt_bytes_view(rec.kh_commitments@[kh_idx as int]));
                    match &rec.kh_commitments[kh_idx as usize] {
                        Some(b) => Some(b.clone()),
                        None => None,
                    }
                } else {
                    None
                }
            },
            None => None,
        }
    }

    /// The stored tally of `eid`, if finalised.
    pub fn get_tally(&self, eid: u64) -> (r: Option<Vec<u32>>)
        requires
            inv(self@),
        ensures
            match r {
                Some(t) => record_of(self@, eid) is Some && record_of(self@, eid)->0.tally == Some(t@),
                None => record_of(self@, eid) is None || record_of(self@, eid)->0.tally is None,
            },
    {
        match self.record(eid) {
            Some(rec) => match &rec.tally {
                Some(t) => Some(t.clone()),
                None => None,
            },
            None => None,
        }
    }

    /// The id the next deploy will assign.
    pub fn get_next_election_id(&self) -> (r: u64)
        ensures
            r == self@.next_election_id,
    {
        self.next_election_id
    }

    /// Whether the cast nullifier `nf` is consumed for `eid`.
    pub fn is_cast_nullifier_used(&self, eid: u64, nf: [u8; 32]) -> (r: bool)
        ensures
            r == self@.cast_nullifiers.contains((eid, nf)),
    {
        self.cast_nullifiers.contains(eid, &nf)
    }

    /// Whether the issue nullifier `nf` is consumed for `eid`.
    pub fn is_issue_nullifier_used(&self, eid: u64, nf: [u8; 32]) -> (r: bool)
        ensures
            r == self@.issue_nullifiers.contains((eid, nf)),
    {
        self.issue_nullifiers.contains(eid, &nf)
    }

    /// The Merkle root of eligible voters of `eid`, if it exists.
    pub fn get_eligibility_root(&self, eid: u64) -> (r: Option<[u8; 32]>)
        requires
            inv(self@),
        ensures
            match r {
                Some(root) => record_of(self@, eid) is Some && root == record_of(self@, eid)->0.eligibility_root,
                None => record_of(self@, eid) is None,
            },
    {
        match self.record(eid) {
            Some(rec) => Some(rec.eligibility_root),
            None => None,
        }
    }

    /// The key-holder roster of `eid`, if it exists.
    pub fn get_kh_roster(&self, eid: u64) -> (r: Option<Vec<[u8; 32]>>)
        requires
            inv(self@),
        ensures
            match r {
                Some(k) => record_of(self@, eid) is Some && k@ == record_of(self@, eid)->0.kh_roster,
                None => record_of(self@, eid) is None,
            },
    {
        match self.record(eid) {
            Some(rec) => Some(copy_keys(&rec.kh_roster)),
            None => None,
        }
    }

    /// The events published so far, oldest first.
    pub fn events(&self) -> (r: &Vec<Event>)
        ensures
            r@ == self@.events,
    {
        &self.events
    }

    /// Whether `key` holds a value in the ledger's persistent map.
    pub fn has(&self, key: DataKey) -> (r: bool)
        requires
            inv(self@),
        ensures
            r == key_present(self@, key),
    {
        match key {
            DataKey::NextElectionId => self.next_election_id > 0,
            DataKey::IssueNullifier(eid, nf) => self.issue_nullifiers.contains(eid, &nf),
            DataKey::CastingAccount(eid, pk) => self.casting_accounts.contains(eid, &pk),
            DataKey::CastNullifier(eid, nf) => self.cast_nullifiers.contains(eid, &nf),
            DataKey::Election(eid) | DataKey::EligibleRoot(eid) | DataKey::DistRoster(eid)
            | DataKey::DistThreshold(eid) | DataKey::KhRoster(eid) | DataKey::KhThreshold(eid) => {
                self.record(eid).is_some()
            },
            DataKey::KhCommitment(eid, i) => match self.record(eid) {
                Some(rec) => {
                    if (i as usize) < rec.kh_commitments.len() {
                        assert(rec@.kh_commitments[i as int] == opt_bytes_view(rec.kh_commitments@[i as int]));
                        rec.kh_commitments[i as usize].is_some()
                    } else {
                        false
                    }
                },
                None => false,
            },
            DataKey::KhShare(eid, i) => match self.record(eid) {
                Some(rec) => {
                    if (i as usize) < rec.kh_shares.len() {
                        assert(rec@.kh_shares[i as int] == opt_bytes_view(rec.kh_shares@[i as int]));
                        rec.kh_shares[i as usize].is_some()
                    } else {
                        false
                    }
                },
                None => false,
            },
            DataKey::BallotCount(eid) => match self.record(eid) {
                Some(rec) => rec.ballots.len() > 0,
                None => false,
            },
            DataKey::Ballot(eid, i) => match self.record(eid) {
                Some(rec) => (i as usize) < rec.ballots.len(),
                None => false,
            },
            DataKey::ShareCount(eid) => match self.record(eid) {
                Some(rec) => rec.share_count > 0,
                None => false,
            },
            DataKey::Tally(eid) => match self.record(eid) {
                Some(rec) => rec.tally.is_some(),
                None => false,
            },
        }
    }
}

} // verus!
