//! Applying a finished match to the participants: status, played
//! counters and ratings move together, exactly once.

use vstd::prelude::*;

use crate::domain::{
    Bot, IntegrityError, Match, MatchResult, MatchStatus, Rating, match_transition_ok, match_wf,
    rating_wf,
};

verus! {

/// A match whose outcome may still be applied: one that is running.
/// Pending matches have not been claimed, terminal ones have already
/// had their one application.
pub open spec fn match_ratable(m: Match) -> bool {
    m.status matches MatchStatus::Running
}

/// A terminal match is never ratable again: the one lawful road into
/// `Finished` starts at `Running`, so the rating update of a match
/// cannot be applied a second time.
pub proof fn lemma_rating_applied_at_most_once(m: Match)
    requires
        m.status matches MatchStatus::Finished(_) || m.status matches MatchStatus::Error(_),
    ensures
        !match_ratable(m),
        forall|to: MatchStatus, n: nat| !match_transition_ok(m.status, to, n),
{
}

/// The ranks handed to the rating model: exactly the result's ranks,
/// in participant order. Fault flags play no part — a faulted
/// participant is still rated by its rank.
pub fn rating_input(result: &MatchResult) -> (r: Vec<u8>)
    ensures
        r@ == result.ranks@,
{
    let n = result.ranks.len();
    let mut r: Vec<u8> = Vec::new();
    let mut i: usize = 0;
    while i < n
        invariant
            n == result.ranks@.len(),
            i <= n,
            r@ == result.ranks@.take(i as int),
        decreases n - i,
    {
        r.push(result.ranks[i]);
        proof {
            assert(result.ranks@.take(i + 1) =~= result.ranks@.take(i as int).push(
                result.ranks@[i as int],
            ));
        }
        i += 1;
    }
    proof {
        assert(result.ranks@.take(n as int) =~= result.ranks@);
    }
    r
}

/// Applies a finished match: the status moves to `Finished` with the
/// result, and, in the same logical operation, every participant's
/// played counter rises by exactly one and its rating is replaced by
/// the updated one. Refused, with everything unchanged, unless the
/// match is running — so the update cannot land twice.
#[verifier::loop_isolation(false)]
pub fn finish_match(
    m: &mut Match,
    result: MatchResult,
    participants: &mut Vec<Bot>,
    new_ratings: &Vec<Rating>,
) -> (r: Result<(), IntegrityError>)
    requires
        match_wf(*old(m)),
        old(participants)@.len() == old(m).bot_ids@.len(),
        forall|i: int|
            0 <= i < old(participants)@.len() ==> #[trigger] old(participants)@[i].id == old(
                m,
            ).bot_ids@[i],
        forall|i: int|
            0 <= i < old(participants)@.len() ==> #[trigger] old(
                participants,
            )@[i].matches_played < u32::MAX,
        new_ratings@.len() == old(m).bot_ids@.len(),
        forall|i: int| 0 <= i < new_ratings@.len() ==> rating_wf(#[trigger] new_ratings@[i]),
        result.ranks@.len() == old(m).bot_ids@.len(),
        result.errors@.len() == old(m).bot_ids@.len(),
    ensures
        r is Ok <==> match_ratable(*old(m)),
        (r is Err ==> {
            &&& r == Err::<(), IntegrityError>(IntegrityError::InvalidTransition)
            &&& *final(m) == *old(m)
            &&& final(participants)@ == old(participants)@
        }),
        (r is Ok ==> {
            &&& final(m).status is Finished
            &&& final(m).status->Finished_0.ranks@ == result.ranks@
            &&& final(m).status->Finished_0.errors@ == result.errors@
            &&& final(m).id == old(m).id
            &&& final(m).seed == old(m).seed
            &&& final(m).bot_ids@ == old(m).bot_ids@
            &&& match_wf(*final(m))
            &&& final(participants)@.len() == old(participants)@.len()
            &&& (forall|i: int|
                #![trigger final(participants)@[i]]
                0 <= i < final(participants)@.len() ==> {
                    &&& final(participants)@[i].matches_played == old(
                        participants,
                    )@[i].matches_played + 1
                    &&& final(participants)@[i].rating == new_ratings@[i]
                    &&& final(participants)@[i].id == old(participants)@[i].id
                    &&& final(participants)@[i].name@ == old(participants)@[i].name@
                    &&& final(participants)@[i].source_code@ == old(
                        participants,
                    )@[i].source_code@
                    &&& final(participants)@[i].language@ == old(participants)@[i].language@
                    &&& final(participants)@[i].created_at_millis == old(
                        participants,
                    )@[i].created_at_millis
                })
        }),
{
    let running = matches!(&m.status, MatchStatus::Running);
    if !running {
        return Err(IntegrityError::InvalidTransition);
    }
    let n = participants.len();
    m.status = MatchStatus::Finished(result);
    let mut i: usize = 0;
    while i < n
        invariant
            n == participants@.len(),
            n == new_ratings@.len(),
            i <= n,
            forall|q: int|
                #![trigger participants@[q]]
                i <= q < n ==> participants@[q] == old(participants)@[q],
            forall|q: int|
                #![trigger participants@[q]]
                0 <= q < i ==> {
                    &&& participants@[q].matches_played == old(
                        participants,
                    )@[q].matches_played + 1
                    &&& participants@[q].rating == new_ratings@[q]
                    &&& participants@[q].id == old(participants)@[q].id
                    &&& participants@[q].name@ == old(participants)@[q].name@
                    &&& participants@[q].source_code@ == old(participants)@[q].source_code@
                    &&& participants@[q].language@ == old(participants)@[q].language@
                    &&& participants@[q].created_at_millis == old(
                        participants,
                    )@[q].created_at_millis
                },
        decreases n - i,
    {
        participants[i].matches_played = participants[i].matches_played + 1;
        participants[i].rating = new_ratings[i];
        i += 1;
    }
    Ok(())
}

} // verus!
