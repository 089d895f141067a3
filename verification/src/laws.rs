//! Ledger-wide laws, proved once over the mathematical model.
//!
//! Each law is stated over [`LedgerView`] and the transition predicates
//! that the ledger operations' contracts use, so it applies to every call
//! sequence that those contracts describe.

use crate::ledger::AccountId;
use crate::ledger::Balance;
use crate::ledger::ChallengeView;
use crate::ledger::LedgerView;
use vstd::prelude::*;

verus! {

/// After a successful creation, looking the new identifier up returns
/// exactly the record that was created: the given commitment and prize,
/// the caller as owner, not solved, and no solver.
pub proof fn lemma_create_then_get(
    pre: LedgerView,
    post: LedgerView,
    commitment: Seq<u8>,
    prize: Balance,
    caller: AccountId,
)
    requires
        !pre.has_challenge(commitment),
        pre.created(post, commitment, prize, caller),
    ensures
        post.spec_get(commitment) == Some(
            (ChallengeView { commitment, prize, owner: caller, solved: false, solver: None }),
        ),
{
    let n = pre.challenges.len() as int;
    assert(post.challenges[n].commitment == commitment);
    assert(post.has_challenge(commitment));
    let j = post.challenge_index(commitment);
    assert(0 <= j < post.challenges.len() && post.challenges[j].commitment == commitment);
    if j < n {
        assert(pre.challenges[j].commitment == commitment);
        assert(pre.has_challenge(commitment));
    }
}

/// Creating a challenge makes its commitment present, so by the contract
/// of `create_challenge` a second creation with the same commitment
/// returns `DuplicateChallenge` and leaves the ledger — in particular
/// the first challenge's record — exactly as it was.
pub proof fn lemma_duplicate_is_rejected(
    pre: LedgerView,
    post: LedgerView,
    commitment: Seq<u8>,
    prize: Balance,
    caller: AccountId,
)
    requires
        pre.created(post, commitment, prize, caller),
    ensures
        post.has_challenge(commitment),
{
    let n = pre.challenges.len() as int;
    assert(post.challenges[n].commitment == commitment);
}

/// The owners table is exactly the set of distinct creator identities:
/// it lists one entry per identity that created at least one challenge,
/// however many challenges each created.
pub proof fn lemma_owner_count_is_distinct_creators(v: LedgerView)
    requires
        v.wf(),
    ensures
        v.owners.to_set() == v.creators(),
        v.owners.len() == v.creators().len(),
{
    assert forall|a: AccountId| #![trigger v.owners.to_set().contains(a)]
        v.owners.to_set().contains(a) <==> v.creators().contains(a) by {
        assert(v.owners.contains(a) <==> v.is_creator(a));
    }
    assert(v.owners.to_set() =~= v.creators());
    v.owners.unique_seq_to_set();
}

/// Reading the same ledger twice with no intervening write yields the
/// same challenge: the result of a lookup is a function of the ledger
/// state and the identifier alone.
pub proof fn lemma_get_idempotent(
    ledger: LedgerView,
    id: Seq<u8>,
    first: Option<crate::ledger::ChallengeView>,
    second: Option<crate::ledger::ChallengeView>,
)
    requires
        first == ledger.spec_get(id),
        second == ledger.spec_get(id),
    ensures
        first == second,
{
}

} // verus!
