//! The challenge ledger: its data model, invariant and operations.
//!
//! The ledger owns four tables: the challenges themselves (append-only, in
//! creation order), the set of distinct creator identities, an audit log of
//! submissions, and the log of emitted events. Each write operation is an
//! atomic state transition: it either commits completely or returns an
//! error and leaves every table unchanged.

use vstd::pervasive::VecAdditionalExecFns;
use vstd::prelude::*;

verus! {

/// The identity of a caller, as the execution context supplies it.
/// The ledger only stores and compares identities.
pub type AccountId = u64;

/// A non-negative prize amount. The ledger records and returns amounts;
/// it never does arithmetic on them.
pub type Balance = u128;

/// The identifier of a challenge: the commitment hash it was created
/// with, which is unique across all challenges of one ledger.
pub type ChallengeId = Vec<u8>;

/// One posted challenge: a commitment to a secret answer, the prize
/// promised for it, its creator, and whether (and by whom) it was solved.
#[derive(Debug, PartialEq, Eq)]
pub struct Challenge {
    /// The hash the creator computed over the secret answer.
    pub commitment: Vec<u8>,
    /// The amount promised at creation; immutable afterwards.
    pub prize: Balance,
    /// The identity that created the challenge.
    pub owner: AccountId,
    /// Whether an accepted submission has solved the challenge.
    pub solved: bool,
    /// The identity whose submission was accepted, once one was.
    pub solver: Option<AccountId>,
}

/// The mathematical value of a [`Challenge`].
pub ghost struct ChallengeView {
    pub commitment: Seq<u8>,
    pub prize: Balance,
    pub owner: AccountId,
    pub solved: bool,
    pub solver: Option<AccountId>,
}

impl View for Challenge {
    type V = ChallengeView;

    open spec fn view(&self) -> ChallengeView {
        ChallengeView {
            commitment: self.commitment@,
            prize: self.prize,
            owner: self.owner,
            solved: self.solved,
            solver: self.solver,
        }
    }
}

/// One recorded attempt to solve a challenge, kept for audit.
#[derive(Debug, PartialEq, Eq)]
pub struct Submission {
    /// The challenge the attempt was made against.
    pub challenge_id: ChallengeId,
    /// The identity that made the attempt.
    pub submitter: AccountId,
    /// The plaintext candidate answer.
    pub answer: String,
    /// Whether the attempt solved the challenge.
    pub accepted: bool,
}

/// The mathematical value of a [`Submission`].
pub ghost struct SubmissionView {
    pub challenge_id: Seq<u8>,
    pub submitter: AccountId,
    pub answer: Seq<char>,
    pub accepted: bool,
}

impl View for Submission {
    type V = SubmissionView;

    open spec fn view(&self) -> SubmissionView {
        SubmissionView {
            challenge_id: self.challenge_id@,
            submitter: self.submitter,
            answer: self.answer@,
            accepted: self.accepted,
        }
    }
}

/// Event emitted when a challenge gets created.
#[derive(Debug, PartialEq, Eq)]
pub struct Creation {
    /// The challenge that was created.
    pub challenge: ChallengeId,
    /// The challenge prize.
    pub challenge_prize: Balance,
}

/// Event emitted when a challenge gets solved.
#[derive(Debug, PartialEq, Eq)]
pub struct Resolution {
    /// The challenge that was solved.
    pub challenge: ChallengeId,
    /// The identity whose submission was accepted.
    pub solver: AccountId,
}

/// One emitted event, in the order of the writes that produced it.
#[derive(Debug, PartialEq, Eq)]
pub enum Event {
    Creation(Creation),
    Resolution(Resolution),
}

/// The mathematical value of an [`Event`].
pub ghost enum EventView {
    Creation { challenge: Seq<u8>, prize: Balance },
    Resolution { challenge: Seq<u8>, solver: AccountId },
}

impl View for Event {
    type V = EventView;

    open spec fn view(&self) -> EventView {
        match self {
            Event::Creation(c) => EventView::Creation {
                challenge: c.challenge@,
                prize: c.challenge_prize,
            },
            Event::Resolution(r) => EventView::Resolution {
                challenge: r.challenge@,
                solver: r.solver,
            },
        }
    }
}

/// Why a write call was rejected. A rejected call leaves the ledger
/// unchanged.
#[derive(Debug, PartialEq, Eq, Structural, Clone, Copy)]
pub enum LedgerError {
    /// A challenge with the same commitment already exists.
    DuplicateChallenge,
    /// The prize is outside the configured bounds. Amounts are
    /// non-negative by type and no cap is configured, so no call
    /// currently returns this.
    InvalidPrize,
    /// No challenge with the given identifier exists.
    UnknownChallenge,
    /// The challenge was already solved by an earlier submission.
    AlreadySolved,
}

/// The outcome of a validated submission against an unsolved challenge.
#[derive(Debug, PartialEq, Eq, Structural, Clone, Copy)]
pub enum SubmissionOutcome {
    /// The answer's digest equals the commitment: the challenge is now
    /// solved by the submitter.
    Accepted,
    /// The digest differs: the challenge stays unsolved.
    Rejected,
}

/// The ledger state: all challenges, their creators, the submission audit
/// log, and the emitted events.
pub struct ChallengeLedger {
    challenges: Vec<Challenge>,
    owners: Vec<AccountId>,
    submissions: Vec<Submission>,
    events: Vec<Event>,
}

/// The mathematical value of a [`ChallengeLedger`]: four sequences, each
/// in insertion order.
pub ghost struct LedgerView {
    pub challenges: Seq<ChallengeView>,
    pub owners: Seq<AccountId>,
    pub submissions: Seq<SubmissionView>,
    pub events: Seq<EventView>,
}

impl View for ChallengeLedger {
    type V = LedgerView;

    closed spec fn view(&self) -> LedgerView {
        LedgerView {
            challenges: self.challenges@.map_values(|c: Challenge| c@),
            owners: self.owners@,
            submissions: self.submissions@.map_values(|s: Submission| s@),
            events: self.events@.map_values(|e: Event| e@),
        }
    }
}

impl LedgerView {
    /// Whether some challenge carries this commitment.
    pub open spec fn has_challenge(self, id: Seq<u8>) -> bool {
        exists|i: int|
            0 <= i < self.challenges.len() && self.challenges[i].commitment == id
    }

    /// The position of the challenge with this commitment. Meaningful
    /// only when `has_challenge(id)` holds; unique under `wf()`.
    pub open spec fn challenge_index(self, id: Seq<u8>) -> int {
        choose|i: int|
            0 <= i < self.challenges.len() && self.challenges[i].commitment == id
    }

    /// The challenge stored under this identifier, if any.
    pub open spec fn spec_get(self, id: Seq<u8>) -> Option<ChallengeView> {
        if self.has_challenge(id) {
            Some(self.challenges[self.challenge_index(id)])
        } else {
            None
        }
    }

    /// Whether this identity created at least one challenge.
    pub open spec fn is_creator(self, a: AccountId) -> bool {
        exists|i: int| 0 <= i < self.challenges.len() && self.challenges[i].owner == a
    }

    /// The set of identities that created at least one challenge.
    pub open spec fn creators(self) -> Set<AccountId> {
        Set::new(|a: AccountId| self.is_creator(a))
    }

    /// The state change one successful creation makes: the new challenge
    /// is appended unsolved, the caller joins the owners exactly when it
    /// is new, one `Creation` event is appended, and the submission log
    /// is untouched.
    pub open spec fn created(
        self,
        post: LedgerView,
        commitment: Seq<u8>,
        prize: Balance,
        caller: AccountId,
    ) -> bool {
        &&& post.challenges == self.challenges.push(
            ChallengeView { commitment, prize, owner: caller, solved: false, solver: None },
        )
        &&& post.owners == (if self.owners.contains(caller) {
            self.owners
        } else {
            self.owners.push(caller)
        })
        &&& post.events == self.events.push(EventView::Creation { challenge: commitment, prize })
        &&& post.submissions == self.submissions
    }

    /// One submission attempt is appended to the audit log, with the
    /// given outcome.
    pub open spec fn submission_recorded(
        self,
        post: LedgerView,
        id: Seq<u8>,
        answer: Seq<char>,
        caller: AccountId,
        accepted: bool,
    ) -> bool {
        post.submissions == self.submissions.push(
            SubmissionView { challenge_id: id, submitter: caller, answer, accepted },
        )
    }

    /// The state change a rejected submission makes: the attempt is
    /// recorded for audit and everything else stays as it was.
    pub open spec fn rejected(
        self,
        post: LedgerView,
        id: Seq<u8>,
        answer: Seq<char>,
        caller: AccountId,
    ) -> bool {
        &&& post.challenges == self.challenges
        &&& post.owners == self.owners
        &&& post.events == self.events
        &&& self.submission_recorded(post, id, answer, caller, false)
    }

    /// The state change an accepted submission makes: the challenge
    /// under `id` becomes solved by the caller with every other field
    /// and every other challenge untouched, one `Resolution` event is
    /// appended, and the attempt is recorded for audit.
    pub open spec fn solved_by(
        self,
        post: LedgerView,
        id: Seq<u8>,
        answer: Seq<char>,
        caller: AccountId,
    ) -> bool {
        let i = self.challenge_index(id);
        &&& post.challenges == self.challenges.update(
            i,
            (ChallengeView { solved: true, solver: Some(caller), ..self.challenges[i] }),
        )
        &&& post.owners == self.owners
        &&& post.events == self.events.push(
            EventView::Resolution { challenge: id, solver: caller },
        )
        &&& self.submission_recorded(post, id, answer, caller, true)
    }

    /// No two challenges share a commitment.
    pub open spec fn distinct_commitments(self) -> bool {
        forall|i: int, j: int|
            0 <= i < j < self.challenges.len() ==> self.challenges[i].commitment
                != self.challenges[j].commitment
    }

    /// The ledger's invariant: commitments are unique and non-empty, a
    /// challenge has a solver exactly when it is solved, and `owners`
    /// lists each distinct creator identity exactly once.
    pub open spec fn wf(self) -> bool {
        &&& self.distinct_commitments()
        &&& forall|i: int|
            0 <= i < self.challenges.len() ==> (#[trigger] self.challenges[i]).commitment.len()
                > 0
        &&& forall|i: int|
            0 <= i < self.challenges.len() ==> ((#[trigger] self.challenges[i]).solved
                <==> self.challenges[i].solver is Some)
        &&& self.owners.no_duplicates()
        &&& forall|a: AccountId| #[trigger] self.owners.contains(a) <==> self.is_creator(a)
    }
}

/// The identifiers of the challenges with this owner, in creation order.
pub open spec fn owned_ids(challenges: Seq<ChallengeView>, owner: AccountId) -> Seq<Seq<u8>>
    decreases challenges.len(),
{
    if challenges.len() == 0 {
        Seq::empty()
    } else {
        let rest = owned_ids(challenges.drop_last(), owner);
        if challenges.last().owner == owner {
            rest.push(challenges.last().commitment)
        } else {
            rest
        }
    }
}

/// Under the ledger invariant an index with a given commitment is the
/// index the lookup functions speak of: commitments are unique.
proof fn lemma_index_is_unique(v: LedgerView, id: Seq<u8>, i: int)
    requires
        v.wf(),
        0 <= i < v.challenges.len(),
        v.challenges[i].commitment == id,
    ensures
        v.has_challenge(id),
        v.challenge_index(id) == i,
        v.spec_get(id) == Some(v.challenges[i]),
{
    assert(v.has_challenge(id));
    let j = v.challenge_index(id);
    assert(0 <= j < v.challenges.len() && v.challenges[j].commitment == id);
    if i < j {
        assert(v.challenges[i].commitment != v.challenges[j].commitment);
    } else if j < i {
        assert(v.challenges[j].commitment != v.challenges[i].commitment);
    }
}

/// A successful creation keeps the ledger well-formed.
proof fn lemma_create_preserves_wf(
    pre: LedgerView,
    post: LedgerView,
    commitment: Seq<u8>,
    prize: Balance,
    caller: AccountId,
)
    requires
        pre.wf(),
        !pre.has_challenge(commitment),
        commitment.len() > 0,
        pre.created(post, commitment, prize, caller),
    ensures
        post.wf(),
{
    let n = pre.challenges.len() as int;
    assert forall|i: int, j: int| 0 <= i < j < post.challenges.len() implies post.challenges[i].commitment
        != post.challenges[j].commitment by {
        if j == n {
            assert(post.challenges[j].commitment == commitment);
            if post.challenges[i].commitment == commitment {
                assert(pre.challenges[i].commitment == commitment);
                assert(pre.has_challenge(commitment));
            }
        }
    }
    assert forall|i: int| 0 <= i < post.challenges.len() implies (
    #[trigger] post.challenges[i]).commitment.len() > 0 by {
        if i < n {
            assert(post.challenges[i] == pre.challenges[i]);
        }
    }
    assert forall|i: int| 0 <= i < post.challenges.len() implies ((
    #[trigger] post.challenges[i]).solved <==> post.challenges[i].solver is Some) by {
        if i < n {
            assert(post.challenges[i] == pre.challenges[i]);
        }
    }
    let m = pre.owners.len() as int;
    if !pre.owners.contains(caller) {
        assert forall|i: int, j: int|
            0 <= i < post.owners.len() && 0 <= j < post.owners.len() && i != j implies post.owners[i]
            != post.owners[j] by {
            if i == m {
                if post.owners[j] == caller {
                    assert(pre.owners.contains(caller));
                }
            } else if j == m {
                if post.owners[i] == caller {
                    assert(pre.owners.contains(caller));
                }
            }
        }
        assert(post.owners.no_duplicates());
    }
    assert forall|a: AccountId| #![trigger post.owners.contains(a)]
        post.owners.contains(a) implies exists|i: int|
        0 <= i < post.challenges.len() && post.challenges[i].owner == a by {
        let k = choose|k: int| 0 <= k < post.owners.len() && post.owners[k] == a;
        if k < m {
            assert(pre.owners.contains(a));
            let i = choose|i: int|
                0 <= i < pre.challenges.len() && pre.challenges[i].owner == a;
            assert(post.challenges[i].owner == a);
        } else {
            assert(post.owners[k] == caller);
            assert(post.challenges[n].owner == caller);
        }
    }
    assert forall|a: AccountId| #![trigger post.owners.contains(a)]
        (exists|i: int| 0 <= i < post.challenges.len() && post.challenges[i].owner == a)
        implies post.owners.contains(a) by {
        let i = choose|i: int|
            0 <= i < post.challenges.len() && post.challenges[i].owner == a;
        if i < n {
            assert(pre.challenges[i].owner == a);
            assert(pre.owners.contains(a));
            let k = choose|k: int| 0 <= k < pre.owners.len() && pre.owners[k] == a;
            assert(post.owners[k] == a);
        } else {
            assert(post.challenges[i].owner == caller);
            if pre.owners.contains(caller) {
                let k = choose|k: int| 0 <= k < pre.owners.len() && pre.owners[k] == caller;
                assert(post.owners[k] == caller);
            } else {
                assert(post.owners[m] == caller);
            }
        }
    }
}

/// An accepted submission keeps the ledger well-formed.
proof fn lemma_solve_preserves_wf(
    pre: LedgerView,
    post: LedgerView,
    id: Seq<u8>,
    answer: Seq<char>,
    caller: AccountId,
)
    requires
        pre.wf(),
        pre.has_challenge(id),
        pre.solved_by(post, id, answer, caller),
    ensures
        post.wf(),
{
    let i = pre.challenge_index(id);
    assert forall|j: int| 0 <= j < post.challenges.len() implies {
        &&& (#[trigger] post.challenges[j]).owner == pre.challenges[j].owner
        &&& post.challenges[j].commitment == pre.challenges[j].commitment
        &&& post.challenges[j].commitment.len() > 0
        &&& (post.challenges[j].solved <==> post.challenges[j].solver is Some)
    } by {
        if j != i {
            assert(post.challenges[j] == pre.challenges[j]);
        }
    }
    assert forall|a: int, b: int| 0 <= a < b < post.challenges.len() implies post.challenges[a].commitment
        != post.challenges[b].commitment by {
        assert(post.challenges[a].commitment == pre.challenges[a].commitment);
        assert(post.challenges[b].commitment == pre.challenges[b].commitment);
    }
    assert forall|a: AccountId| #![trigger post.owners.contains(a)]
        post.owners.contains(a) implies exists|j: int|
        0 <= j < post.challenges.len() && post.challenges[j].owner == a by {
        assert(pre.owners.contains(a));
        let j = choose|j: int| 0 <= j < pre.challenges.len() && pre.challenges[j].owner == a;
        assert(post.challenges[j].owner == a);
    }
    assert forall|a: AccountId| #![trigger post.owners.contains(a)]
        (exists|j: int| 0 <= j < post.challenges.len() && post.challenges[j].owner == a)
        implies post.owners.contains(a) by {
        let j = choose|j: int| 0 <= j < post.challenges.len() && post.challenges[j].owner == a;
        assert(pre.challenges[j].owner == a);
        assert(pre.owners.contains(a));
    }
}

/// Whether two byte vectors hold the same bytes.
fn bytes_eq(a: &Vec<u8>, b: &Vec<u8>) -> (r: bool)
    ensures
        r <==> a@ == b@,
{
    if a.len() != b.len() {
        return false;
    }
    let mut i: usize = 0;
    while i < a.len()
        invariant
            i <= a.len(),
            a@.len() == b@.len(),
            forall|j: int| 0 <= j < i ==> a@[j] == b@[j],
        decreases a.len() - i,
    {
        if a[i] != b[i] {
            return false;
        }
        i += 1;
    }
    proof {
        assert(a@ =~= b@);
    }
    true
}

/// A fresh byte vector with the same bytes.
fn copy_bytes(v: &Vec<u8>) -> (r: Vec<u8>)
    ensures
        r@ == v@,
{
    let mut r: Vec<u8> = Vec::new();
    let mut i: usize = 0;
    while i < v.len()
        invariant
            i <= v.len(),
            r@ == v@.take(i as int),
        decreases v.len() - i,
    {
        r.push(v[i]);
        proof {
            assert(r@ =~= v@.take(i as int + 1));
        }
        i += 1;
    }
    proof {
        assert(v@.take(v@.len() as int) =~= v@);
    }
    r
}

impl ChallengeLedger {
    /// A ledger with no challenges, owners, submissions or events.
    pub fn new() -> (r: ChallengeLedger)
        ensures
            r@.wf(),
            r@.challenges.len() == 0,
            r@.owners.len() == 0,
            r@.submissions.len() == 0,
            r@.events.len() == 0,
    {
        ChallengeLedger {
            challenges: Vec::new(),
            owners: Vec::new(),
            submissions: Vec::new(),
            events: Vec::new(),
        }
    }

    /// The position of the challenge with this commitment, if one exists.
    fn find_challenge(&self, id: &Vec<u8>) -> (r: Option<usize>)
        ensures
            (match r {
                Some(i) => i < self@.challenges.len() && self@.challenges[i as int].commitment
                    == id@,
                None => !self@.has_challenge(id@),
            }),
    {
        let mut i: usize = 0;
        while i < self.challenges.len()
            invariant
                i <= self@.challenges.len(),
                self@.challenges.len() == self.challenges@.len(),
                forall|j: int| 0 <= j < i ==> self@.challenges[j].commitment != id@,
            decreases self.challenges@.len() - i,
        {
            if bytes_eq(&self.challenges[i].commitment, id) {
                return Some(i);
            }
            i += 1;
        }
        None
    }

    /// Posts a new challenge under the given commitment.
    ///
    /// Rejects with `DuplicateChallenge`, leaving the ledger unchanged,
    /// exactly when some challenge already carries this commitment; no
    /// other error is ever returned. On success the returned identifier
    /// is the commitment itself and the ledger changes by
    /// [`LedgerView::created`]: the challenge is appended unsolved with
    /// the given prize and owner, the caller is registered as an owner if
    /// it was not yet one, and one `Creation` event is emitted.
    pub fn create_challenge(
        &mut self,
        commitment: Vec<u8>,
        prize: Balance,
        caller: AccountId,
    ) -> (r: Result<ChallengeId, LedgerError>)
        requires
            old(self)@.wf(),
            commitment@.len() > 0,
        ensures
            final(self)@.wf(),
            old(self)@.has_challenge(commitment@) ==> {
                &&& r == Err::<ChallengeId, LedgerError>(LedgerError::DuplicateChallenge)
                &&& final(self)@ == old(self)@
            },
            !old(self)@.has_challenge(commitment@) ==> {
                &&& (r matches Ok(id) && id@ == commitment@)
                &&& old(self)@.created(final(self)@, commitment@, prize, caller)
            },
    {
        if self.find_challenge(&commitment).is_some() {
            return Err(LedgerError::DuplicateChallenge);
        }
        let ghost pre = self@;
        let id = copy_bytes(&commitment);
        let event_id = copy_bytes(&commitment);
        let owner_is_new = !self.knows_owner(caller);
        if owner_is_new {
            self.owners.push(caller);
        }
        self.challenges.push(
            Challenge { commitment, prize, owner: caller, solved: false, solver: None },
        );
        self.events.push(
            Event::Creation(Creation { challenge: event_id, challenge_prize: prize }),
        );
        proof {
            let post = self@;
            let cv = ChallengeView {
                commitment: id@,
                prize,
                owner: caller,
                solved: false,
                solver: None,
            };
            assert(post.challenges =~= pre.challenges.push(cv));
            assert(post.events =~= pre.events.push(
                EventView::Creation { challenge: id@, prize },
            ));
            assert(post.submissions =~= pre.submissions);
            if owner_is_new {
                assert(post.owners =~= pre.owners.push(caller));
            } else {
                assert(post.owners =~= pre.owners);
            }
            lemma_create_preserves_wf(pre, post, id@, prize, caller);
        }
        Ok(id)
    }

    /// Returns a snapshot of the challenge stored under this identifier,
    /// or `None` when no challenge carries it. Read-only: the result is a
    /// function of the ledger state and the identifier alone.
    pub fn get_challenge(&self, challenge_id: &Vec<u8>) -> (r: Option<Challenge>)
        requires
            self@.wf(),
        ensures
            (match r {
                Some(c) => self@.spec_get(challenge_id@) == Some(c@),
                None => self@.spec_get(challenge_id@) is None,
            }),
    {
        match self.find_challenge(challenge_id) {
            None => None,
            Some(i) => {
                proof {
                    lemma_index_is_unique(self@, challenge_id@, i as int);
                }
                let commitment = copy_bytes(&self.challenges[i].commitment);
                Some(
                    Challenge {
                        commitment,
                        prize: self.challenges[i].prize,
                        owner: self.challenges[i].owner,
                        solved: self.challenges[i].solved,
                        solver: self.challenges[i].solver,
                    },
                )
            },
        }
    }

    /// Returns the identifiers of every challenge this owner created, in
    /// creation order.
    pub fn list_challenges_by_owner(&self, owner: AccountId) -> (r: Vec<ChallengeId>)
        ensures
            r@.map_values(|id: Vec<u8>| id@) == owned_ids(self@.challenges, owner),
    {
        let mut r: Vec<ChallengeId> = Vec::new();
        let mut i: usize = 0;
        while i < self.challenges.len()
            invariant
                i <= self.challenges@.len(),
                r@.map_values(|id: Vec<u8>| id@) == owned_ids(
                    self@.challenges.take(i as int),
                    owner,
                ),
            decreases self.challenges@.len() - i,
        {
            let ghost prev = r@.map_values(|id: Vec<u8>| id@);
            if self.challenges[i].owner == owner {
                r.push(copy_bytes(&self.challenges[i].commitment));
            }
            proof {
                let taken = self@.challenges.take(i as int + 1);
                assert(taken.drop_last() =~= self@.challenges.take(i as int));
                assert(taken.last() == self@.challenges[i as int]);
                if self@.challenges[i as int].owner == owner {
                    assert(r@.map_values(|id: Vec<u8>| id@) =~= prev.push(
                        self@.challenges[i as int].commitment,
                    ));
                } else {
                    assert(r@.map_values(|id: Vec<u8>| id@) =~= prev);
                }
            }
            i += 1;
        }
        proof {
            assert(self@.challenges.take(self@.challenges.len() as int) =~= self@.challenges);
        }
        r
    }

    /// Submits a candidate answer for the challenge under this
    /// identifier.
    ///
    /// Rejects with `UnknownChallenge` when no challenge carries the
    /// identifier, and with `AlreadySolved` when the challenge was solved
    /// earlier; both leave the ledger unchanged. Against an unsolved
    /// challenge the answer's digest is compared to the stored
    /// commitment: on a mismatch the outcome is `Rejected` and only the
    /// audit log grows by this attempt; on a match the outcome is
    /// `Accepted` and the ledger changes by [`LedgerView::solved_by`]:
    /// the challenge becomes solved with the caller as solver, one
    /// `Resolution` event is emitted, and the attempt is recorded.
    pub fn submit_answer(
        &mut self,
        challenge_id: &Vec<u8>,
        answer: String,
        caller: AccountId,
    ) -> (r: Result<SubmissionOutcome, LedgerError>)
        requires
            old(self)@.wf(),
        ensures
            final(self)@.wf(),
            !old(self)@.has_challenge(challenge_id@) ==> {
                &&& r == Err::<SubmissionOutcome, LedgerError>(LedgerError::UnknownChallenge)
                &&& final(self)@ == old(self)@
            },
            old(self)@.has_challenge(challenge_id@) ==> ({
                let c = old(self)@.challenges[old(self)@.challenge_index(challenge_id@)];
                &&& c.solved ==> {
                    &&& r == Err::<SubmissionOutcome, LedgerError>(LedgerError::AlreadySolved)
                    &&& final(self)@ == old(self)@
                }
                &&& (!c.solved && crate::hashing::hash_of(answer@) != c.commitment) ==> {
                    &&& r == Ok::<SubmissionOutcome, LedgerError>(SubmissionOutcome::Rejected)
                    &&& old(self)@.rejected(final(self)@, challenge_id@, answer@, caller)
                }
                &&& (!c.solved && crate::hashing::hash_of(answer@) == c.commitment) ==> {
                    &&& r == Ok::<SubmissionOutcome, LedgerError>(SubmissionOutcome::Accepted)
                    &&& old(self)@.solved_by(final(self)@, challenge_id@, answer@, caller)
                }
            }),
    {
        let found = self.find_challenge(challenge_id);
        match found {
            None => Err(LedgerError::UnknownChallenge),
            Some(i) => {
                proof {
                    lemma_index_is_unique(self@, challenge_id@, i as int);
                }
                if self.challenges[i].solved {
                    Err(LedgerError::AlreadySolved)
                } else {
                    let digest = crate::hashing::hash_answer(answer.as_str());
                    let matched = bytes_eq(&digest, &self.challenges[i].commitment);
                    let ghost pre = self@;
                    let recorded = Submission {
                        challenge_id: copy_bytes(challenge_id),
                        submitter: caller,
                        answer,
                        accepted: matched,
                    };
                    if matched {
                        let updated = Challenge {
                            commitment: copy_bytes(&self.challenges[i].commitment),
                            prize: self.challenges[i].prize,
                            owner: self.challenges[i].owner,
                            solved: true,
                            solver: Some(caller),
                        };
                        self.challenges.set(i, updated);
                        self.events.push(
                            Event::Resolution(
                                Resolution { challenge: copy_bytes(challenge_id), solver: caller },
                            ),
                        );
                        self.submissions.push(recorded);
                        proof {
                            let post = self@;
                            let cv = ChallengeView {
                                solved: true,
                                solver: Some(caller),
                                ..pre.challenges[i as int]
                            };
                            assert(post.challenges =~= pre.challenges.update(i as int, cv));
                            assert(post.owners =~= pre.owners);
                            assert(post.events =~= pre.events.push(
                                EventView::Resolution { challenge: challenge_id@, solver: caller },
                            ));
                            assert(post.submissions =~= pre.submissions.push(
                                SubmissionView {
                                    challenge_id: challenge_id@,
                                    submitter: caller,
                                    answer: recorded.answer@,
                                    accepted: true,
                                },
                            ));
                            lemma_solve_preserves_wf(
                                pre,
                                post,
                                challenge_id@,
                                recorded.answer@,
                                caller,
                            );
                        }
                        Ok(SubmissionOutcome::Accepted)
                    } else {
                        self.submissions.push(recorded);
                        proof {
                            let post = self@;
                            assert(post.challenges =~= pre.challenges);
                            assert(post.owners =~= pre.owners);
                            assert(post.events =~= pre.events);
                            assert(post.submissions =~= pre.submissions.push(
                                SubmissionView {
                                    challenge_id: challenge_id@,
                                    submitter: caller,
                                    answer: recorded.answer@,
                                    accepted: false,
                                },
                            ));
                        }
                        Ok(SubmissionOutcome::Rejected)
                    }
                }
            },
        }
    }

    /// The number of challenges ever created.
    pub fn challenge_count(&self) -> (n: usize)
        ensures
            n == self@.challenges.len(),
    {
        self.challenges.len()
    }

    /// The number of distinct creator identities.
    pub fn owner_count(&self) -> (n: usize)
        ensures
            n == self@.owners.len(),
    {
        self.owners.len()
    }

    /// The distinct creator identities, ordered by first creation.
    pub fn owners(&self) -> (r: Vec<AccountId>)
        ensures
            r@ == self@.owners,
    {
        let mut r: Vec<AccountId> = Vec::new();
        let mut i: usize = 0;
        while i < self.owners.len()
            invariant
                i <= self.owners@.len(),
                r@ == self.owners@.take(i as int),
            decreases self.owners@.len() - i,
        {
            r.push(self.owners[i]);
            proof {
                assert(r@ =~= self.owners@.take(i as int + 1));
            }
            i += 1;
        }
        proof {
            assert(self.owners@.take(self.owners@.len() as int) =~= self.owners@);
        }
        r
    }

    /// The number of submission attempts recorded for audit.
    pub fn submission_count(&self) -> (n: usize)
        ensures
            n == self@.submissions.len(),
    {
        self.submissions.len()
    }

    /// A copy of the audit-log entry at this position, in submission
    /// order.
    pub fn submission_at(&self, i: usize) -> (s: Submission)
        requires
            i < self@.submissions.len(),
        ensures
            s@ == self@.submissions[i as int],
    {
        Submission {
            challenge_id: copy_bytes(&self.submissions[i].challenge_id),
            submitter: self.submissions[i].submitter,
            answer: self.submissions[i].answer.clone(),
            accepted: self.submissions[i].accepted,
        }
    }

    /// The number of events emitted so far.
    pub fn event_count(&self) -> (n: usize)
        ensures
            n == self@.events.len(),
    {
        self.events.len()
    }

    /// A copy of the event at this position, in emission order.
    pub fn event_at(&self, i: usize) -> (e: Event)
        requires
            i < self@.events.len(),
        ensures
            e@ == self@.events[i as int],
    {
        match &self.events[i] {
            Event::Creation(c) => Event::Creation(
                Creation {
                    challenge: copy_bytes(&c.challenge),
                    challenge_prize: c.challenge_prize,
                },
            ),
            Event::Resolution(r) => Event::Resolution(
                Resolution { challenge: copy_bytes(&r.challenge), solver: r.solver },
            ),
        }
    }

    /// Whether this identity already created some challenge.
    fn knows_owner(&self, a: AccountId) -> (r: bool)
        ensures
            r <==> self@.owners.contains(a),
    {
        let mut i: usize = 0;
        while i < self.owners.len()
            invariant
                i <= self.owners@.len(),
                forall|j: int| 0 <= j < i ==> self.owners@[j] != a,
            decreases self.owners@.len() - i,
        {
            if self.owners[i] == a {
                return true;
            }
            i += 1;
        }
        false
    }
}

} // verus!
