use vstd::prelude::*;

use crate::identity::{ClubId, EntrantId};
use crate::pairing::EloRating;

verus! {

#[derive(Clone, Debug, PartialEq, Eq)]
pub struct TournamentEntrant {
    pub entrant_id: EntrantId,
    pub name: String,
    pub club_id: ClubId,
    pub club_name: String,
    pub starting_elo: EloRating,
}

/// The two records hold the same id, name, club and starting ELO.
pub open spec fn same_entrant(a: TournamentEntrant, b: TournamentEntrant) -> bool {
    &&& a.entrant_id@ == b.entrant_id@
    &&& a.name@ == b.name@
    &&& a.club_id@ == b.club_id@
    &&& a.club_name@ == b.club_name@
    &&& a.starting_elo == b.starting_elo
}

impl TournamentEntrant {
    /// A copy with the same contents.
    pub fn duplicate(&self) -> (copy: Self)
        ensures
            copy.entrant_id@ == self.entrant_id@,
            copy.name@ == self.name@,
            copy.club_id@ == self.club_id@,
            copy.club_name@ == self.club_name@,
            copy.starting_elo == self.starting_elo,
    {
        TournamentEntrant {
            entrant_id: self.entrant_id.duplicate(),
            name: self.name.clone(),
            club_id: self.club_id.duplicate(),
            club_name: self.club_name.clone(),
            starting_elo: self.starting_elo,
        }
    }
}

} // verus!
