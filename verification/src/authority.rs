//! The game authority: the single sequential consumer of the inbound
//! channel.  For each command it performs one state transition against the
//! score store and publishes exactly two outbound envelopes: the sender's
//! score, addressed to the sender alone, and the scoreboard snapshot,
//! addressed to everyone.
//!
//! All score mutations are linearized by the surrounding loop consuming one
//! command at a time; the transition here is that loop's whole body.

use vstd::prelude::*;
use crate::message::Client;
use crate::message::ClientMessage;
use crate::message::ScoreboardEntry;
use crate::message::ServerMessage;
use crate::message::UserId;
use crate::store::Store;
use crate::store::StoreRow;
use crate::store::lookup;
use crate::store::models;
use crate::store::scoreboard_of;
use crate::store::spec_score;

verus! {

/// The two envelopes published for a command from `user_id` whose store
/// read-back was `score` with leaderboard `scoreboard`: the score goes to
/// the sender alone, the scoreboard to everyone, in that order.
pub fn respond(user_id: UserId, score: i32, scoreboard: Vec<ScoreboardEntry>) -> (out: Vec<
    (Client, ServerMessage),
>)
    ensures
        out@.len() == 2,
        out@[0] == (Client::User(user_id), ServerMessage::UpdateScore(score)),
        out@[1] == (Client::All, ServerMessage::UpdateScoreboard(scoreboard)),
{
    let mut out: Vec<(Client, ServerMessage)> = Vec::new();
    out.push((Client::User(user_id), ServerMessage::UpdateScore(score)));
    out.push((Client::All, ServerMessage::UpdateScoreboard(scoreboard)));
    out
}

/// One authority transition.
///
/// `Increment` atomically adds one point to the sender's persisted score;
/// `Init` reads without mutating, so a fresh identity sees the store
/// default of zero.  Either way the published pair carries the sender's
/// current score and the scoreboard of the resulting store.
pub fn step(store: &mut Store, user_id: UserId, message: ClientMessage) -> (out: Vec<
    (Client, ServerMessage),
>)
    requires
        old(store).wf(),
        message is Increment ==> spec_score(old(store)@, user_id) < i32::MAX,
        message is Increment ==> old(store)@.len() < usize::MAX,
    ensures
        final(store).wf(),
        message is Init ==> final(store)@ == old(store)@,
        message is Increment ==> spec_score(final(store)@, user_id) == spec_score(
            old(store)@,
            user_id,
        ) + 1,
        message is Increment ==> forall|v: UserId|
            v != user_id ==> lookup(final(store)@, v) == lookup(old(store)@, v),
        message is Increment ==> final(store)@.len() <= old(store)@.len() + 1,
        message is Increment ==> match lookup(final(store)@, user_id) {
            Some(row) => row.username == match lookup(old(store)@, user_id) {
                Some(prev) => prev.username,
                None => None::<String>,
            },
            None => false,
        },
        out@.len() == 2,
        out@[0].0 == Client::User(user_id),
        out@[0].1 is UpdateScore,
        out@[0].1->UpdateScore_0 as int == spec_score(final(store)@, user_id),
        out@[1].0 == Client::All,
        out@[1].1 is UpdateScoreboard,
        models(out@[1].1->UpdateScoreboard_0@) == scoreboard_of(final(store)@),
{
    match message {
        ClientMessage::Increment => {
            let score = store.increment_and_get_score(user_id);
            let scoreboard = store.get_scoreboard();
            respond(user_id, score, scoreboard)
        },
        ClientMessage::Init => {
            let score = store.get_score(user_id);
            let scoreboard = store.get_scoreboard();
            respond(user_id, score, scoreboard)
        },
    }
}

proof fn lemma_score_chain(views: Seq<Seq<StoreRow>>, u: UserId, k: int)
    requires
        forall|j: int|
            0 <= j < views.len() - 1 ==> spec_score(views[j + 1], u) == spec_score(
                #[trigger] views[j],
                u,
            ) + 1,
        0 <= k < views.len(),
    ensures
        spec_score(views[k], u) == spec_score(views[0], u) + k,
    decreases k,
{
    if k > 0 {
        lemma_score_chain(views, u, k - 1);
    }
}

/// Ordering: a single identity issuing `Increment` commands sequentially,
/// awaiting each published score before sending the next, observes scores
/// that are strictly increasing by exactly one each step.
///
/// `views[k]` is the store before the `k`-th command and `observed[k]` the
/// score published for it; the two premises are exactly what the ensures of
/// [`step`] gives for each command.
pub proof fn lemma_increment_ordering(views: Seq<Seq<StoreRow>>, observed: Seq<int>, u: UserId)
    requires
        views.len() == observed.len() + 1,
        forall|k: int|
            0 <= k < observed.len() ==> #[trigger] observed[k] == spec_score(views[k], u) + 1,
        forall|k: int|
            0 <= k < observed.len() ==> spec_score(views[k + 1], u) == spec_score(
                #[trigger] views[k],
                u,
            ) + 1,
    ensures
        forall|k: int|
            0 <= k < observed.len() ==> observed[k] == spec_score(views[0], u) + k + 1,
        forall|k: int| 0 <= k < observed.len() - 1 ==> observed[k + 1] == #[trigger] observed[k] + 1,
{
    assert forall|k: int| 0 <= k < observed.len() implies observed[k] == spec_score(views[0], u)
        + k + 1 by {
        lemma_score_chain(views, u, k);
    }
    assert forall|k: int| 0 <= k < observed.len() - 1 implies observed[k + 1] == #[trigger] observed[k]
        + 1 by {
        assert(observed[k] == spec_score(views[k], u) + 1);
        assert(observed[k + 1] == spec_score(views[k + 1], u) + 1);
        assert(spec_score(views[k + 1], u) == spec_score(views[k], u) + 1);
    }
}

} // verus!
