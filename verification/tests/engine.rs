use cgarena::config::{
    default_config, validate_config, Config, GameConfig, LanguageConfig, MatchmakingConfig,
    RankingConfig, ServerConfig, WorkerConfig,
};
use cgarena::domain::{Bot, BuildStatus, Match, MatchResult, MatchStatus, Rating};
use cgarena::matchmaker::{propose_match, Shuffler};
use cgarena::ranking::{finish_match, rating_input};
use cgarena::store::BotStore;
use cgarena::worker::{build_status_of, ExecOutcome, JobQueue, Job};
use cgarena::db::DBError;
use cgarena::domain::IntegrityError;
use cgarena::domain::Build;
use cgarena::domain::{check_bot_name, check_language, check_source_code};
use skillratings::weng_lin::{weng_lin_multi_team, WengLinConfig, WengLinRating};
use skillratings::MultiTeamOutcome;

fn bot(id: i64, name: &str, played: u32) -> Bot {
    let mut b = Bot::new(
        name.to_string(),
        "print(1)".to_string(),
        "python".to_string(),
        1_700_000_000_000,
    );
    b.id = id;
    b.matches_played = played;
    b
}

#[test]
fn default_config_is_valid() {
    let c: Config = default_config();
    if !validate_config(&c) {
        panic!("to be a valid config");
    }
}

#[test]
fn invalid_configs_are_rejected() {
    let mut c = default_config();
    c.game.min_players = 5;
    c.game.max_players = 2;
    assert!(!validate_config(&c));

    let mut c = default_config();
    c.game.min_players = 0;
    assert!(!validate_config(&c));

    let mut c = default_config();
    c.matchmaking.min_matches_preference_ppm = 2_000_000;
    assert!(!validate_config(&c));

    let mut c = default_config();
    if let Some(w) = &mut c.embedded_worker {
        let l = LanguageConfig {
            name: "python".to_string(),
            cmd_build: "x".to_string(),
            cmd_run: "y".to_string(),
        };
        w.languages.push(l);
    }
    assert!(!validate_config(&c), "duplicate language names must be rejected");
}

#[test]
fn proposed_count_within_bounds_and_distinct() {
    // Participant count stays within the configured bounds and, with
    // repeats disallowed, no id appears twice.
    let eligible: Vec<Bot> = (1..=6).map(|i| bot(i, &format!("b{i}"), i as u32)).collect();
    let game = GameConfig { min_players: 2, max_players: 4, symmetric: true };
    let mm = MatchmakingConfig {
        allow_same_bots: false,
        min_matches: 5,
        min_matches_preference_ppm: 500_000,
    };
    for seed in 1..200u64 {
        let mut rng = Shuffler::new(seed);
        let p = propose_match(&eligible, &game, &mm, &mut rng).expect("pool is large enough");
        assert!(p.bot_ids.len() >= 2 && p.bot_ids.len() <= 4);
        for a in 0..p.bot_ids.len() {
            assert!(eligible.iter().any(|b| b.id == p.bot_ids[a]));
            for b in a + 1..p.bot_ids.len() {
                assert_ne!(p.bot_ids[a], p.bot_ids[b]);
            }
        }
    }
}

#[test]
fn no_proposal_below_min_players() {
    // Too few distinct eligible bots: no match is proposed.
    let eligible: Vec<Bot> = vec![bot(1, "solo", 0)];
    let game = GameConfig { min_players: 2, max_players: 4, symmetric: false };
    let mm = MatchmakingConfig {
        allow_same_bots: false,
        min_matches: 5,
        min_matches_preference_ppm: 500_000,
    };
    let mut rng = Shuffler::new(7);
    assert!(propose_match(&eligible, &game, &mm, &mut rng).is_none());

    let empty: Vec<Bot> = Vec::new();
    let mm_rep = MatchmakingConfig { allow_same_bots: true, ..mm };
    assert!(propose_match(&empty, &game, &mm_rep, &mut rng).is_none());
}

#[test]
fn repeats_allowed_with_one_bot() {
    let eligible: Vec<Bot> = vec![bot(1, "solo", 0)];
    let game = GameConfig { min_players: 2, max_players: 2, symmetric: false };
    let mm = MatchmakingConfig {
        allow_same_bots: true,
        min_matches: 5,
        min_matches_preference_ppm: 0,
    };
    let mut rng = Shuffler::new(3);
    let p = propose_match(&eligible, &game, &mm, &mut rng).expect("repeats fill the match");
    assert_eq!(p.bot_ids, vec![1, 1]);
}

#[test]
fn under_sampled_bot_is_preferred() {
    // A with no matches sits under the minimum; B is a veteran. With a
    // strong preference, A fills far more seats than B over many calls.
    let eligible: Vec<Bot> = vec![bot(1, "A", 0), bot(2, "B", 10)];
    let game = GameConfig { min_players: 2, max_players: 2, symmetric: false };
    let mm = MatchmakingConfig {
        allow_same_bots: true,
        min_matches: 5,
        min_matches_preference_ppm: 900_000,
    };
    let mut rng = Shuffler::new(42);
    let mut seats_a = 0u32;
    let mut seats_b = 0u32;
    for _ in 0..500 {
        let p = propose_match(&eligible, &game, &mm, &mut rng).expect("proposal");
        for id in &p.bot_ids {
            if *id == 1 {
                seats_a += 1;
            } else {
                seats_b += 1;
            }
        }
    }
    assert!(
        seats_a > 3 * seats_b,
        "under-sampled bot should dominate: A {seats_a} vs B {seats_b}"
    );
}

#[test]
fn build_status_machine_moves_only_forward() {
    let mut s = BuildStatus::Pending;
    assert!(s.advance(BuildStatus::Running).is_ok());
    assert!(s.advance(BuildStatus::Success).is_ok());
    // A terminal build accepts nothing further, not even a rewind.
    assert_eq!(
        s.advance(BuildStatus::Running),
        Err(IntegrityError::InvalidTransition)
    );
    assert_eq!(
        s.advance(BuildStatus::Failure("x".to_string())),
        Err(IntegrityError::InvalidTransition)
    );

    let mut s = BuildStatus::Pending;
    assert!(s.advance(BuildStatus::Success).is_err(), "skipping Running is refused");

    let mut s = BuildStatus::Running;
    assert!(s.advance(BuildStatus::Failure("boom".to_string())).is_ok());
    assert!(s.advance(BuildStatus::Running).is_err());
}

#[test]
fn match_status_machine_checks_result_shape() {
    let mut m = Match {
        id: 1,
        seed: 9,
        bot_ids: vec![10, 11, 12],
        status: MatchStatus::Pending,
    };
    assert!(m.advance(MatchStatus::Running).is_ok());
    let bad = MatchResult { ranks: vec![0, 1], errors: vec![false, false] };
    assert!(
        m.advance(MatchStatus::Finished(bad)).is_err(),
        "two ranks for three participants is refused"
    );
    let good = MatchResult { ranks: vec![0, 1, 1], errors: vec![false, false, true] };
    assert!(m.advance(MatchStatus::Finished(good)).is_ok());
    assert!(m.advance(MatchStatus::Running).is_err(), "finished is terminal");
}

#[test]
fn rating_update_applies_exactly_once() {
    let mut m = Match {
        id: 1,
        seed: 5,
        bot_ids: vec![1, 2],
        status: MatchStatus::Running,
    };
    let mut bots = vec![bot(1, "A", 3), bot(2, "B", 7)];
    let new_ratings = vec![
        Rating { mu_milli: 26_000, sigma_milli: 8_000 },
        Rating { mu_milli: 24_000, sigma_milli: 8_000 },
    ];
    let result = MatchResult { ranks: vec![0, 1], errors: vec![false, false] };
    finish_match(&mut m, result, &mut bots, &new_ratings).expect("first application");
    assert_eq!(bots[0].matches_played, 4);
    assert_eq!(bots[1].matches_played, 8);
    assert_eq!(bots[0].rating, new_ratings[0]);
    assert_eq!(bots[1].rating, new_ratings[1]);
    assert!(matches!(m.status, MatchStatus::Finished(_)));

    // The guard: a second application of the same match is refused and
    // changes nothing.
    let again = MatchResult { ranks: vec![0, 1], errors: vec![false, false] };
    let r = finish_match(&mut m, again, &mut bots, &new_ratings);
    assert_eq!(r, Err(IntegrityError::InvalidTransition));
    assert_eq!(bots[0].matches_played, 4);
    assert_eq!(bots[1].matches_played, 8);
}

#[test]
fn rating_input_ignores_fault_flags() {
    let with_fault = MatchResult { ranks: vec![0, 1, 1], errors: vec![false, false, true] };
    let without = MatchResult { ranks: vec![0, 1, 1], errors: vec![false, false, false] };
    assert_eq!(rating_input(&with_fault), vec![0, 1, 1]);
    assert_eq!(rating_input(&with_fault), rating_input(&without));
}

#[test]
fn tied_participants_get_a_draw_update() {
    // Ranks [0, 1, 1]: the second and third tie, and the third's fault
    // flag plays no part in the rating. The numeric model agrees: the
    // tied participants receive identical updates.
    let result = MatchResult { ranks: vec![0, 1, 1], errors: vec![false, false, true] };
    let ranks = rating_input(&result);

    let priors = vec![WengLinRating::new(), WengLinRating::new(), WengLinRating::new()];
    let teams: Vec<(&[WengLinRating], MultiTeamOutcome)> = priors
        .iter()
        .enumerate()
        .map(|(i, r)| {
            (std::slice::from_ref(r), MultiTeamOutcome::new(ranks[i] as usize))
        })
        .collect();
    let updated = weng_lin_multi_team(&teams, &WengLinConfig::new());
    assert_eq!(updated.len(), 3);
    let (a, b, c) = (updated[0][0], updated[1][0], updated[2][0]);
    assert!(a.rating > b.rating, "the winner moves up relative to the tied pair");
    assert_eq!(b.rating, c.rating, "tied participants draw");
    assert_eq!(b.uncertainty, c.uncertainty);
}

#[test]
fn queue_prioritizes_builds_and_frees_slots() {
    let mut q = JobQueue::new(1);
    assert!(q.enqueue_match(100));
    assert!(q.enqueue_build(7));
    assert!(!q.enqueue_build(7), "a queued build is not queued twice");

    // Builds go first, and a busy pool claims nothing more.
    assert_eq!(q.claim(), Some(Job::Build(7)));
    assert_eq!(q.claim(), None);

    // Completing frees the slot for the waiting match.
    q.complete(Job::Build(7)).expect("the build was running");
    assert_eq!(q.claim(), Some(Job::Match(100)));
    assert_eq!(q.claim(), None);
    assert!(
        q.complete(Job::Match(999)).is_err(),
        "completing a job nobody runs is refused"
    );
    q.complete(Job::Match(100)).expect("the match was running");
    assert_eq!(q.claim(), None, "nothing left to claim");
}

#[test]
fn store_surfaces_conflict_and_not_found() {
    let mut store = BotStore::new();
    let id = store
        .create_bot(bot(0, "Alpha", 0))
        .expect("first create succeeds");
    assert_eq!(store.create_bot(bot(0, "Alpha", 0)), Err(DBError::AlreadyExists));
    assert_eq!(store.delete_bot(id + 50), Err(DBError::NotFound));
    assert_eq!(store.rename_bot(id + 50, "Beta".to_string()), Err(DBError::NotFound));

    let other = store.create_bot(bot(0, "Beta", 0)).expect("second create");
    assert_eq!(
        store.rename_bot(other, "Alpha".to_string()),
        Err(DBError::AlreadyExists)
    );
    store.rename_bot(other, "Gamma".to_string()).expect("free name");
    store.delete_bot(id).expect("present");
    assert_eq!(store.delete_bot(id), Err(DBError::NotFound));
}

#[test]
fn eligibility_follows_latest_build() {
    let mut store = BotStore::new();
    let id = store.create_bot(bot(0, "Alpha", 0)).expect("create");
    assert!(!store.is_eligible(id), "no build yet");
    store.upsert_build(Build {
        bot_id: id,
        worker_name: "w1".to_string(),
        status: BuildStatus::Failure("boom".to_string()),
    });
    assert!(!store.is_eligible(id), "failed build");
    store.upsert_build(Build {
        bot_id: id,
        worker_name: "w1".to_string(),
        status: BuildStatus::Success,
    });
    assert!(store.is_eligible(id), "the new build supersedes the old");
    assert!(store.find_build(id).is_some());
}

#[test]
fn fresh_bot_builds_clean() {
    // A newly registered bot passes validation, and a build command
    // that exits zero leaves a Success with empty diagnostics.
    let b = Bot::new(
        "Alpha".to_string(),
        "print(1)".to_string(),
        "python".to_string(),
        0,
    );
    assert!(check_bot_name(&b.name));
    assert!(check_source_code(&b.source_code));
    assert!(check_language(&b.language));
    assert_eq!(b.matches_played, 0);

    let outcome = ExecOutcome::Completed {
        exit_code: 0,
        stdout: String::new(),
        stderr: String::new(),
    };
    assert!(matches!(build_status_of(&outcome), BuildStatus::Success));
}

#[test]
fn failed_and_hung_builds_are_failures() {
    let outcome = ExecOutcome::Completed {
        exit_code: 1,
        stdout: String::new(),
        stderr: "compile error".to_string(),
    };
    match build_status_of(&outcome) {
        BuildStatus::Failure(msg) => assert_eq!(msg, "compile error"),
        other => panic!("expected a failure, got code {}", other.code()),
    }
    match build_status_of(&ExecOutcome::TimedOut) {
        BuildStatus::Failure(msg) => assert_eq!(msg, "build timed out"),
        _ => panic!("a timeout is a failure"),
    }
    match build_status_of(&ExecOutcome::SpawnFailed("no such file".to_string())) {
        BuildStatus::Failure(msg) => assert_eq!(msg, "no such file"),
        _ => panic!("a spawn failure is a failure"),
    }
}

#[test]
fn scores_and_default_rating() {
    let r = Rating::default_rating();
    assert_eq!(r.mu_milli, 25_000);
    assert_eq!(r.sigma_milli, 8_333);
    // mu - 3 sigma, exactly, in milli-units.
    assert_eq!(r.score_milli(), 25_000 - 3 * 8_333);
    let r2 = Rating { mu_milli: 30_000, sigma_milli: 1_000 };
    assert_eq!(r2.score_milli(), 27_000);
}

#[test]
fn shuffler_is_deterministic() {
    let mut a = Shuffler::new(99);
    let mut b = Shuffler::new(99);
    for _ in 0..10 {
        assert_eq!(a.next_u64(), b.next_u64());
    }
    let mut c = Shuffler::new(0);
    assert_ne!(c.next_u64(), 0, "the zero seed is replaced");
}

#[test]
fn ranking_config_is_a_closed_choice() {
    let c = default_config();
    assert_eq!(c.ranking, RankingConfig::WengLin);
    let s = ServerConfig { port: 9000 };
    assert_eq!(s.port, 9000);
    let w = WorkerConfig {
        threads: 2,
        dir_bots: "bots".to_string(),
        cmd_play_match: "driver".to_string(),
        languages: Vec::new(),
    };
    assert_eq!(w.threads, 2);
}
