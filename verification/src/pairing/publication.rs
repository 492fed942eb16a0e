//! Turns pairings with application-supplied match ids into published matches.
use vstd::prelude::*;

use crate::identity::{EntrantId, MatchId};
use crate::scheduling::{MatchPublicationStatus, RoundActivity, ScheduledMatch};

verus! {

/// Application-supplied identity for publishing one contestant pairing.
/// Pairing algorithms do not create match identifiers.
#[derive(Clone, Debug, PartialEq, Eq)]
pub struct MatchPublication {
    pub match_id: MatchId,
    pub first_entrant_id: EntrantId,
    pub second_entrant_id: EntrantId,
}

/// One published match per pairing, in the same order, the first entrant at
/// home, without a table yet and with the given activity.
pub fn publish_scheduled_matches(matches: Vec<MatchPublication>, round_activity: RoundActivity) -> (published: Vec<
    ScheduledMatch,
>)
    ensures
        published@.len() == matches@.len(),
        forall|i: int| 0 <= i < matches@.len() ==> {
            let scheduled = #[trigger] published@[i];
            &&& scheduled.match_id@ == matches@[i].match_id@
            &&& scheduled.home_entrant_id@ == matches@[i].first_entrant_id@
            &&& scheduled.away_entrant_id@ == matches@[i].second_entrant_id@
            &&& scheduled.spec_table_number() is None
            &&& scheduled.publication_status == MatchPublicationStatus::Published
            &&& scheduled.round_activity == round_activity
        },
{
    let ghost all = matches@;
    let mut published: Vec<ScheduledMatch> = Vec::new();
    for publication in iter: matches.into_iter()
        invariant
            iter.seq() == all,
            published@.len() == iter.index(),
            forall|i: int| 0 <= i < published@.len() ==> {
                let scheduled = #[trigger] published@[i];
                &&& scheduled.match_id@ == all[i].match_id@
                &&& scheduled.home_entrant_id@ == all[i].first_entrant_id@
                &&& scheduled.away_entrant_id@ == all[i].second_entrant_id@
                &&& scheduled.spec_table_number() is None
                &&& scheduled.publication_status == MatchPublicationStatus::Published
                &&& scheduled.round_activity == round_activity
            },
    {
        let ghost index = iter.index();
        let MatchPublication { match_id, first_entrant_id, second_entrant_id } = publication;
        published.push(ScheduledMatch::published(match_id, first_entrant_id, second_entrant_id, None, round_activity));
        proof {
            assert(all[index as int] == publication);
        }
    }
    published
}

} // verus!
