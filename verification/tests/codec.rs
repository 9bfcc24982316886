use cgarena::db::{
    bot_from_row, build_from_row, build_status_columns, check_join_consistent,
    check_rows_consistent, decode_matches, match_from_rows, match_status_columns,
    participation_columns, BotsRow, BuildsRow, MatchRow,
};
use cgarena::domain::{BuildStatus, IntegrityError, Match, MatchResult, MatchStatus};
use cgarena::match_manager::{match_status_of, parse_outcome_line, render_outcome_line};
use cgarena::worker::{bot_dir, render_command, truncate_output, u64_digits, ExecOutcome};

fn row(match_id: i64, status: u8, index: u8, bot_id: i64, rank: Option<u8>, error: Option<u8>) -> MatchRow {
    MatchRow {
        match_id,
        seed: 77,
        status,
        status_error: None,
        bot_id,
        index,
        rank,
        error,
    }
}

#[test]
fn bot_row_round_trip_and_limits() {
    let r = BotsRow {
        id: 4,
        name: "Alpha".to_string(),
        source_code: "print(1)".to_string(),
        language: "python".to_string(),
        created_at_millis: 123,
        matches_played: 9,
        rating_mu_milli: 25_000,
        rating_sigma_milli: 8_333,
    };
    let b = bot_from_row(r).expect("a lawful row");
    assert_eq!(b.id, 4);
    assert_eq!(b.name, "Alpha");
    assert_eq!(b.matches_played, 9);
    assert_eq!(b.rating.mu_milli, 25_000);

    let bad_name = BotsRow {
        id: 1,
        name: String::new(),
        source_code: String::new(),
        language: "python".to_string(),
        created_at_millis: 0,
        matches_played: 0,
        rating_mu_milli: 0,
        rating_sigma_milli: 0,
    };
    assert!(matches!(bot_from_row(bad_name), Err(IntegrityError::InvalidTextField)));

    let bad_count = BotsRow {
        id: 1,
        name: "x".to_string(),
        source_code: String::new(),
        language: "python".to_string(),
        created_at_millis: 0,
        matches_played: -3,
        rating_mu_milli: 0,
        rating_sigma_milli: 0,
    };
    assert!(matches!(bot_from_row(bad_count), Err(IntegrityError::MatchCountOutOfRange)));

    let bad_rating = BotsRow {
        id: 1,
        name: "x".to_string(),
        source_code: String::new(),
        language: "python".to_string(),
        created_at_millis: 0,
        matches_played: 0,
        rating_mu_milli: 2_000_000_000,
        rating_sigma_milli: 0,
    };
    assert!(matches!(bot_from_row(bad_rating), Err(IntegrityError::RatingOutOfRange)));
}

#[test]
fn build_row_codes() {
    for code in [0u8, 1, 2] {
        let b = build_from_row(BuildsRow {
            bot_id: 3,
            worker_name: "w".to_string(),
            status: code,
            error: None,
        })
        .expect("codes 0..=2 need no message");
        assert_eq!(b.status.code(), code);
    }
    let failed = build_from_row(BuildsRow {
        bot_id: 3,
        worker_name: "w".to_string(),
        status: 3,
        error: Some("boom".to_string()),
    })
    .expect("a failure with its message");
    match failed.status {
        BuildStatus::Failure(msg) => assert_eq!(msg, "boom"),
        _ => panic!("code 3 is a failure"),
    }
    assert!(matches!(
        build_from_row(BuildsRow {
            bot_id: 3,
            worker_name: "w".to_string(),
            status: 3,
            error: None,
        }),
        Err(IntegrityError::MissingErrorMessage)
    ));
    assert!(matches!(
        build_from_row(BuildsRow {
            bot_id: 3,
            worker_name: "w".to_string(),
            status: 9,
            error: None,
        }),
        Err(IntegrityError::UnknownStatusCode)
    ));

    let (code, err) = build_status_columns(&BuildStatus::Failure("why".to_string()));
    assert_eq!(code, 3);
    assert_eq!(err.as_deref(), Some("why"));
    let (code, err) = build_status_columns(&BuildStatus::Success);
    assert_eq!((code, err), (2, None));
}

#[test]
fn finished_match_rows_align_or_fail_whole() {
    // Rows arrive out of order; the participation index places them.
    let rows = vec![
        row(5, 2, 1, 21, Some(1), Some(0)),
        row(5, 2, 0, 20, Some(0), Some(0)),
        row(5, 2, 2, 22, Some(1), Some(1)),
    ];
    let m = match_from_rows(&rows).expect("a lawful finished match");
    assert_eq!(m.id, 5);
    assert_eq!(m.seed, 77);
    assert_eq!(m.bot_ids, vec![20, 21, 22]);
    match m.status {
        MatchStatus::Finished(res) => {
            assert_eq!(res.ranks, vec![0, 1, 1]);
            assert_eq!(res.errors, vec![false, false, true]);
            assert_eq!(res.ranks.len(), m.bot_ids.len());
            assert_eq!(res.errors.len(), m.bot_ids.len());
        }
        _ => panic!("status code 2 is finished"),
    }

    // A finished match missing one rank is refused whole.
    let partial = vec![
        row(5, 2, 0, 20, Some(0), Some(0)),
        row(5, 2, 1, 21, None, Some(0)),
    ];
    assert!(matches!(match_from_rows(&partial), Err(IntegrityError::MissingRank)));

    let no_flag = vec![row(5, 2, 0, 20, Some(0), None)];
    assert!(matches!(match_from_rows(&no_flag), Err(IntegrityError::MissingFaultFlag)));

    assert!(matches!(
        match_from_rows(&Vec::new()),
        Err(IntegrityError::NoParticipations)
    ));

    let gap = vec![row(5, 2, 0, 20, Some(0), Some(0)), row(5, 2, 2, 21, Some(1), Some(0))];
    assert!(matches!(
        match_from_rows(&gap),
        Err(IntegrityError::BadParticipationIndices)
    ));

    let mut errored = vec![row(9, 3, 0, 20, None, None)];
    errored[0].status_error = Some("driver died".to_string());
    let m = match_from_rows(&errored).expect("an errored match");
    match m.status {
        MatchStatus::Error(msg) => assert_eq!(msg, "driver died"),
        _ => panic!("code 3 is an error"),
    }
    let bare = vec![row(9, 3, 0, 20, None, None)];
    assert!(matches!(match_from_rows(&bare), Err(IntegrityError::MissingErrorMessage)));
}

#[test]
fn grouping_splits_interleaved_matches() {
    // Two matches interleaved in one result set come back as two
    // matches; a grouping that handed the rows back as one group
    // would trip the index check instead.
    let rows = vec![
        row(1, 0, 0, 10, None, None),
        row(2, 1, 0, 30, None, None),
        row(1, 0, 1, 11, None, None),
        row(2, 1, 1, 31, None, None),
    ];
    let ms: Vec<Match> = decode_matches(rows).expect("two lawful matches");
    assert_eq!(ms.len(), 2);
    let mut ids: Vec<i64> = ms.iter().map(|m| m.id).collect();
    ids.sort();
    assert_eq!(ids, vec![1, 2]);
    for m in &ms {
        assert_eq!(m.bot_ids.len(), 2);
    }
}

#[test]
fn decoding_stops_on_a_broken_group() {
    // The second match's participation indices leave a gap, so the
    // whole reconstruction stops with the integrity violation.
    let rows = vec![
        row(1, 0, 0, 10, None, None),
        row(1, 0, 1, 11, None, None),
        row(2, 1, 1, 30, None, None),
    ];
    assert!(matches!(
        decode_matches(rows),
        Err(IntegrityError::BadParticipationIndices)
    ));
}

#[test]
fn consistency_checks_see_what_the_decoder_asks() {
    let consistent = vec![row(5, 2, 0, 20, Some(0), Some(0)), row(5, 2, 1, 21, Some(1), Some(0))];
    assert!(check_rows_consistent(&consistent));
    assert!(check_join_consistent(&consistent));

    let mut mixed_seed = vec![row(5, 2, 0, 20, None, None), row(5, 2, 1, 21, None, None)];
    mixed_seed[1].seed = 99;
    assert!(!check_rows_consistent(&mixed_seed));
    assert!(!check_join_consistent(&mixed_seed));

    // Two different matches: not one consistent group, but a lawful join.
    let two = vec![row(1, 0, 0, 10, None, None), row(2, 1, 0, 30, None, None)];
    assert!(!check_rows_consistent(&two));
    assert!(check_join_consistent(&two));
}

#[test]
fn match_status_columns_and_participations() {
    let m = Match {
        id: 8,
        seed: 1,
        bot_ids: vec![1, 2],
        status: MatchStatus::Finished(MatchResult {
            ranks: vec![0, 1],
            errors: vec![true, false],
        }),
    };
    let (code, err) = match_status_columns(&m.status);
    assert_eq!((code, err), (2, None));
    let cols = participation_columns(&m);
    assert_eq!(cols, vec![(Some(0), Some(1)), (Some(1), Some(0))]);

    let pending = Match { id: 9, seed: 1, bot_ids: vec![1, 2], status: MatchStatus::Pending };
    let cols = participation_columns(&pending);
    assert_eq!(cols, vec![(None, None), (None, None)]);

    let (code, err) = match_status_columns(&MatchStatus::Error("why".to_string()));
    assert_eq!(code, 3);
    assert_eq!(err.as_deref(), Some("why"));
}

#[test]
fn outcome_line_round_trip() {
    let result = MatchResult { ranks: vec![0, 1, 1], errors: vec![false, false, true] };
    let line = render_outcome_line(&result);
    assert_eq!(line, b"0 1 1!".to_vec());
    let back = parse_outcome_line(&line, 3).expect("the canonical line reads back");
    assert_eq!(back.ranks, vec![0, 1, 1]);
    assert_eq!(back.errors, vec![false, false, true]);

    let wide = MatchResult { ranks: vec![255, 0], errors: vec![true, true] };
    let line = render_outcome_line(&wide);
    assert_eq!(line, b"255! 0!".to_vec());
    let back = parse_outcome_line(&line, 2).expect("round trip");
    assert_eq!(back.ranks, vec![255, 0]);
}

#[test]
fn malformed_outcome_lines_are_refused() {
    assert!(parse_outcome_line(&b"0 1".to_vec(), 3).is_none(), "wrong entry count");
    assert!(parse_outcome_line(&b"".to_vec(), 1).is_none(), "an empty line names nobody");
    assert!(parse_outcome_line(&b"a b".to_vec(), 2).is_none(), "letters are not ranks");
    assert!(parse_outcome_line(&b"0  1".to_vec(), 2).is_none(), "double separator");
    assert!(parse_outcome_line(&b"00 1".to_vec(), 2).is_none(), "only canonical decimals");
    assert!(parse_outcome_line(&b"999 1".to_vec(), 2).is_none(), "rank beyond one byte");
    assert!(parse_outcome_line(&b"0 1 ".to_vec(), 2).is_none(), "trailing separator");
}

#[test]
fn driver_outcome_decides_match_status() {
    let ok = ExecOutcome::Completed {
        exit_code: 0,
        stdout: "0 1 1!".to_string(),
        stderr: String::new(),
    };
    match match_status_of(&ok, 3) {
        MatchStatus::Finished(res) => {
            assert_eq!(res.ranks, vec![0, 1, 1]);
            assert_eq!(res.errors, vec![false, false, true]);
        }
        _ => panic!("a clean driver with a lawful line finishes the match"),
    }

    // The hung driver: terminal Error with the timeout diagnostic.
    match match_status_of(&ExecOutcome::TimedOut, 3) {
        MatchStatus::Error(msg) => assert_eq!(msg, "match driver timed out"),
        _ => panic!("a timeout errors the match"),
    }

    let crash = ExecOutcome::Completed {
        exit_code: 2,
        stdout: "0 1 1!".to_string(),
        stderr: "segfault".to_string(),
    };
    match match_status_of(&crash, 3) {
        MatchStatus::Error(msg) => assert_eq!(msg, "segfault"),
        _ => panic!("a failing driver errors the match"),
    }

    let short = ExecOutcome::Completed {
        exit_code: 0,
        stdout: "0 1".to_string(),
        stderr: String::new(),
    };
    assert!(
        matches!(match_status_of(&short, 3), MatchStatus::Error(_)),
        "fewer entries than participants is never a partial finish"
    );
}

#[test]
fn output_truncation_is_bounded_and_marked() {
    assert_eq!(truncate_output("hello"), "hello");
    let long: String = std::iter::repeat('x').take(10_050).collect();
    let cut = truncate_output(&long);
    assert_eq!(cut.chars().count(), 10_000 + "...[truncated]".chars().count());
    assert!(cut.ends_with("...[truncated]"));
    assert!(cut.starts_with("xxx"));
}

#[test]
fn digits_directories_and_templates() {
    assert_eq!(u64_digits(0), b"0".to_vec());
    assert_eq!(u64_digits(1234), b"1234".to_vec());
    assert_eq!(bot_dir("bots", 17), b"bots/17".to_vec());

    let dir = bot_dir("bots", 5);
    let cmd = render_command("python3 {dir}/main.py --log {dir}/log", &dir);
    assert_eq!(cmd, b"python3 bots/5/main.py --log bots/5/log".to_vec());
    let cmd = render_command("make all", &dir);
    assert_eq!(cmd, b"make all".to_vec());
}
