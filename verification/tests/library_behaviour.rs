use tabletennis_tournament::application::{
    EloExpectationDeltaV1, TournamentApplication, TournamentApplicationError, TournamentEntrant,
    TournamentSnapshotError,
};
use tabletennis_tournament::identity::{ClubId, EntrantId, MatchId};
use tabletennis_tournament::pairing::EloRating;
use tabletennis_tournament::pairing::{
    MatchPublication, TableAssignmentEntrant, TableAssignmentError, assign_tables, publish_scheduled_matches,
};
use tabletennis_tournament::scheduling::RoundActivity;
use tabletennis_tournament::pairing::algorithms::PairingPolicy;
use tabletennis_tournament::pairing::algorithms::blossom_v1::{BlossomPairingError, BlossomV1Policy};
use tabletennis_tournament::results::{GameScore, MatchFormat, MatchResultError, MatchSide};
use tabletennis_tournament::tournament::{MaximumRoundCount, TableCount, Tournament, TournamentId};

fn v1() -> PairingPolicy {
    PairingPolicy::from(BlossomV1Policy::default())
}

fn entrant(index: usize) -> TournamentEntrant {
    TournamentEntrant {
        entrant_id: EntrantId::new(&format!("entrant-{index}")),
        name: format!("Entrant {index}"),
        club_id: ClubId::new(&format!("club-{index}")),
        club_name: format!("Club {index}"),
        starting_elo: EloRating::new(1_400 + u32::try_from(index).unwrap() * 50),
    }
}

fn draft(entrant_count: usize) -> TournamentApplication {
    let tournament = Tournament::new(
        TournamentId::new("cup"),
        MatchFormat::BestOfThree,
        TableCount::try_from(2_i64).unwrap(),
        MaximumRoundCount::try_from(3_i64).unwrap(),
    );
    let mut application = TournamentApplication::new(tournament);
    for index in 0..entrant_count {
        application.register_entrant(entrant(index)).unwrap();
    }
    application
}

fn two_zero() -> Vec<GameScore> {
    vec![GameScore::new(1, 11, 4).unwrap(), GameScore::new(2, 11, 8).unwrap()]
}

fn published(entrant_count: usize) -> TournamentApplication {
    let mut application = draft(entrant_count);
    application.start_tournament().unwrap();
    application.calculate_pairings(v1()).unwrap();
    application.publish_pairings().unwrap();
    application
}

#[test]
fn expected_scores_of_both_sides_add_up_to_one_point() {
    let home_view = EloExpectationDeltaV1::calculate(EloRating::new(1_500), EloRating::new(1_700), MatchSide::Away);
    let away_view = EloExpectationDeltaV1::calculate(EloRating::new(1_700), EloRating::new(1_500), MatchSide::Away);
    assert_eq!(home_view.home.scaled_value() + away_view.home.scaled_value(), -1_000_000);
}

#[test]
fn expected_score_follows_the_elo_formula() {
    let delta = EloExpectationDeltaV1::calculate(EloRating::new(1_500), EloRating::new(1_700), MatchSide::Home);
    assert_eq!(delta.home.scaled_value(), 1_000_000 - 240_253);
    assert_eq!(delta.away.scaled_value(), -(1_000_000 - 240_253));
    let far = EloExpectationDeltaV1::calculate(EloRating::new(100), EloRating::new(4_000), MatchSide::Home);
    assert_eq!(far.home.scaled_value(), 1_000_000);
}

#[test]
fn starting_needs_two_entrants() {
    let mut application = draft(1);
    assert!(matches!(
        application.start_tournament(),
        Err(TournamentApplicationError::NotEnoughEntrants { entrant_count: 1 })
    ));
}

#[test]
fn registering_an_id_twice_is_refused() {
    let mut application = draft(2);
    assert!(matches!(
        application.register_entrant(entrant(1)),
        Err(TournamentApplicationError::DuplicateEntrant { .. })
    ));
    assert_eq!(application.entrants().len(), 2);
}

#[test]
fn pairing_before_start_or_during_a_round_is_refused() {
    let mut application = draft(4);
    assert!(matches!(application.calculate_pairings(v1()), Err(TournamentApplicationError::TournamentNotStarted)));
    application.start_tournament().unwrap();
    assert!(matches!(application.publish_pairings(), Err(TournamentApplicationError::NoPairingPreview)));
    application.calculate_pairings(v1()).unwrap();
    application.publish_pairings().unwrap();
    assert!(matches!(application.calculate_pairings(v1()), Err(TournamentApplicationError::ActiveRoundExists)));
}

#[test]
fn published_match_ids_name_the_tournament_round_and_position() {
    let application = published(4);
    let mut ids = application
        .active_round()
        .unwrap()
        .scheduled_matches
        .iter()
        .map(|scheduled| scheduled.match_id.as_str().to_owned())
        .collect::<Vec<_>>();
    ids.sort();
    assert_eq!(ids, vec!["cup-round-1-match-1".to_owned(), "cup-round-1-match-2".to_owned()]);
}

#[test]
fn refused_results_leave_the_tournament_unchanged() {
    let mut application = published(4);
    let before = application.snapshot();
    let unknown = MatchId::new("no-such-match");
    assert!(matches!(
        application.enter_match_result(&unknown, two_zero()),
        Err(TournamentApplicationError::UnknownMatch { .. })
    ));
    let first = application.active_round().unwrap().scheduled_matches[0].match_id.clone();
    let unfinished = vec![GameScore::new(1, 11, 4).unwrap()];
    assert!(matches!(
        application.enter_match_result(&first, unfinished),
        Err(TournamentApplicationError::MatchResult(MatchResultError::MatchIncomplete))
    ));
    assert_eq!(application.snapshot(), before);

    application.enter_match_result(&first, two_zero()).unwrap();
    assert!(matches!(
        application.enter_match_result(&first, two_zero()),
        Err(TournamentApplicationError::ResultAlreadyEntered { .. })
    ));
}

#[test]
fn results_are_kept_in_match_id_order() {
    let mut application = published(4);
    let mut ids = application
        .active_round()
        .unwrap()
        .scheduled_matches
        .iter()
        .map(|scheduled| scheduled.match_id.clone())
        .collect::<Vec<_>>();
    ids.sort_by(|a, b| b.as_str().cmp(a.as_str()));
    for id in &ids {
        application.enter_match_result(id, two_zero()).unwrap();
    }
    let stored = application
        .active_round()
        .unwrap()
        .results
        .iter()
        .map(|result| result.match_id().as_str().to_owned())
        .collect::<Vec<_>>();
    assert_eq!(stored, vec!["cup-round-1-match-1".to_owned(), "cup-round-1-match-2".to_owned()]);
    assert!(application.active_round().unwrap().results[0].entered_at_unix_milliseconds() > 1_600_000_000_000);
}

#[test]
fn entering_a_result_without_an_active_round_is_refused() {
    let mut application = draft(2);
    assert!(matches!(
        application.enter_match_result(&MatchId::new("x"), two_zero()),
        Err(TournamentApplicationError::NoActiveRound)
    ));
    assert!(matches!(application.complete_round(), Err(TournamentApplicationError::NoActiveRound)));
}

#[test]
fn a_completed_round_survives_a_snapshot_round_trip() {
    let mut application = published(4);
    let matches = application.active_round().unwrap().scheduled_matches.clone();
    for scheduled in matches {
        application.enter_match_result(&scheduled.match_id, two_zero()).unwrap();
    }
    application.complete_round().unwrap();
    let saved = application.snapshot();
    let restored = TournamentApplication::restore(saved.clone()).unwrap();
    assert_eq!(restored.snapshot(), saved);
    assert_eq!(restored.standings(), application.standings());
}

#[test]
fn restore_rejects_inconsistent_snapshots() {
    let application = published(4);

    let mut wrong_version = application.snapshot();
    wrong_version.schema_version = 2;
    assert_eq!(
        TournamentApplication::restore(wrong_version).err(),
        Some(TournamentSnapshotError::UnsupportedSchemaVersion { version: 2 })
    );

    let mut duplicate = application.snapshot();
    duplicate.entrants.push(duplicate.entrants[0].clone());
    assert!(matches!(
        TournamentApplication::restore(duplicate),
        Err(TournamentSnapshotError::DuplicateEntrant { .. })
    ));

    let mut unknown_active = application.snapshot();
    unknown_active.active_entrant_ids.push(EntrantId::new("ghost"));
    assert!(matches!(
        TournamentApplication::restore(unknown_active),
        Err(TournamentSnapshotError::UnknownActiveEntrant { .. })
    ));

    let mut twice_active = application.snapshot();
    let first = twice_active.active_entrant_ids[0].clone();
    twice_active.active_entrant_ids.push(first);
    assert!(matches!(
        TournamentApplication::restore(twice_active),
        Err(TournamentSnapshotError::DuplicateActiveEntrant { .. })
    ));

    let mut gap = application.snapshot();
    let mut round = gap.active_round.take().unwrap();
    round.scheduled_matches.push(round.scheduled_matches[0].clone());
    gap.active_round = Some(round);
    assert!(matches!(
        TournamentApplication::restore(gap),
        Err(TournamentSnapshotError::DuplicateMatch { .. })
    ));

    let mut draft_with_rounds = application.snapshot();
    draft_with_rounds.tournament = Tournament::new(
        TournamentId::new("cup"),
        MatchFormat::BestOfThree,
        TableCount::try_from(2_i64).unwrap(),
        MaximumRoundCount::try_from(3_i64).unwrap(),
    );
    let error = TournamentApplication::restore(draft_with_rounds).err().unwrap();
    assert_eq!(error, TournamentSnapshotError::DraftContainsRounds);
    assert_eq!(error.message(), "invalid tournament snapshot: DraftContainsRounds");
}

#[test]
fn errors_are_described_in_words() {
    assert_eq!(TournamentApplicationError::NoActiveRound.message(), "there is no active round");
    assert_eq!(
        TournamentApplicationError::RoundIncomplete { missing_result_count: 12 }.message(),
        "round cannot be completed while 12 results are missing"
    );
    assert_eq!(
        TournamentApplicationError::UnknownMatch { match_id: MatchId::new("m-1") }.message(),
        "match m-1 is not in the active round"
    );
    let table_error = TableCount::try_from(-5_i64).err().unwrap();
    assert_eq!(table_error.message(), "table count must be between 1 and 65535, received -5");
    assert_eq!(
        TournamentApplicationError::Tournament(table_error).message(),
        "table count must be between 1 and 65535, received -5"
    );
    assert_eq!(
        BlossomPairingError::NotEnoughEntrants { entrant_count: 1 }.message(),
        "at least two active entrants are required, received 1"
    );
    assert_eq!(
        BlossomPairingError::DuplicateEntrant { entrant_id: EntrantId::new("a") }.message(),
        "entrant \"a\" occurs more than once"
    );
    assert_eq!(
        MatchResultError::InvalidGameScore { game_number: 3 }.message(),
        "game 3 has an invalid score"
    );
}

#[test]
fn completing_a_round_replays_the_standings() {
    let mut application = published(4);
    let matches = application.active_round().unwrap().scheduled_matches.clone();
    for scheduled in matches {
        application.enter_match_result(&scheduled.match_id, two_zero()).unwrap();
    }
    let completed = application.complete_round().unwrap();
    assert_eq!(completed.results.len(), 2);
    let standings = application.standings();
    assert_eq!(standings.len(), 4);
    assert_eq!(standings.iter().map(|standing| standing.matches_won).sum::<u32>(), 2);
    assert_eq!(standings.iter().map(|standing| standing.performance_score.scaled_value()).sum::<i64>(), 0);
    for pair in standings.windows(2) {
        assert!(pair[0].performance_score.scaled_value() >= pair[1].performance_score.scaled_value());
    }
}

fn publication(id: &str, first: &str, second: &str) -> MatchPublication {
    MatchPublication {
        match_id: MatchId::new(id),
        first_entrant_id: EntrantId::new(first),
        second_entrant_id: EntrantId::new(second),
    }
}

fn snapshot_entrant(id: &str, elo: u32) -> TableAssignmentEntrant {
    TableAssignmentEntrant { entrant_id: EntrantId::new(id), starting_elo: EloRating::new(elo) }
}

#[test]
fn table_assignment_names_the_duplicate_or_missing_entrant() {
    let tables = TableCount::try_from(2_i64).unwrap();
    let matches = || publish_scheduled_matches(vec![publication("m-1", "a", "b")], RoundActivity::Active);
    let duplicate = vec![snapshot_entrant("a", 1500), snapshot_entrant("b", 1400), snapshot_entrant("a", 1300)];
    assert_eq!(
        assign_tables(tables, matches(), &duplicate),
        Err(TableAssignmentError::DuplicateEntrant { entrant_id: EntrantId::new("a") })
    );
    let missing = vec![snapshot_entrant("a", 1500)];
    assert_eq!(
        assign_tables(tables, matches(), &missing),
        Err(TableAssignmentError::MissingEntrantSnapshot { entrant_id: EntrantId::new("b") })
    );
    let complete = vec![snapshot_entrant("a", 1500), snapshot_entrant("b", 1400)];
    let ranked = assign_tables(tables, matches(), &complete).unwrap();
    assert_eq!(ranked.len(), 1);
    assert_eq!(ranked[0].home_entrant_id, EntrantId::new("a"));
}
