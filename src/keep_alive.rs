use vstd::prelude::*;

verus! {

/// Some sub-behaviour currently votes to keep the connection alive.
pub open spec fn any_keep_alive(votes: Seq<bool>) -> bool {
    exists|i: int| 0 <= i < votes.len() && #[trigger] votes[i]
}

/// An idle connection may be closed once its idle time exceeds the timeout
/// and no sub-behaviour votes to keep it alive.
pub open spec fn idle_close_allowed(idle_ms: u64, timeout_ms: u64, votes: Seq<bool>) -> bool {
    idle_ms > timeout_ms && !any_keep_alive(votes)
}

/// The aggregate vote of a connection: the logical or of every sub-behaviour's vote.
pub fn aggregate_keep_alive(votes: &Vec<bool>) -> (r: bool)
    ensures
        r == any_keep_alive(votes@),
{
    let mut i: usize = 0;
    while i < votes.len()
        invariant
            i <= votes@.len(),
            forall|m: int| 0 <= m < i ==> !#[trigger] votes@[m],
        decreases votes@.len() - i,
    {
        if votes[i] {
            return true;
        }
        i = i + 1;
    }
    false
}

/// Whether a connection that has been idle for `idle_ms` is to be closed now.
pub fn should_close_idle(idle_ms: u64, timeout_ms: u64, votes: &Vec<bool>) -> (r: bool)
    ensures
        r == idle_close_allowed(idle_ms, timeout_ms, votes@),
{
    idle_ms > timeout_ms && !aggregate_keep_alive(votes)
}

/// A sub-behaviour that votes to keep the connection alive holds it open,
/// however long it has been idle; once it flips its vote, and every other
/// vote allows closing, the idle timeout applies again.
pub proof fn lemma_keep_alive_vote_holds_connection(idle_ms: u64, timeout_ms: u64, votes: Seq<bool>, i: int)
    requires
        0 <= i < votes.len(),
        votes[i],
    ensures
        !idle_close_allowed(idle_ms, timeout_ms, votes),
        (forall|j: int| 0 <= j < votes.len() && j != i ==> !#[trigger] votes[j]) ==> (idle_close_allowed(
            idle_ms,
            timeout_ms,
            votes.update(i, false),
        ) <==> idle_ms > timeout_ms),
{
    let flipped = votes.update(i, false);
    if forall|j: int| 0 <= j < votes.len() && j != i ==> !#[trigger] votes[j] {
        assert forall|j: int| 0 <= j < flipped.len() implies !#[trigger] flipped[j] by {
            if j != i {
                assert(!votes[j]);
            }
        }
    }
}

} // verus!
