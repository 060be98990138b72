use rocola::report::{
    choose_playlist_name, created_line, home_ref, orphaned, read_line, report_section,
    resolved_count, track_line, HomeRef, NameChoice,
};
use rocola::review::{App, Decision, Key, Screen};
use rocola::screen::{
    candidate_differences, confirm_text, key_from_char, minutes_seconds, review_footer, songs,
    FieldDiffs,
};
use rocola::types::{Candidate, Confidence, MatchedBy, SourceTrack, TrackMatch};

fn tm(title: &str, confidence: Confidence, n_candidates: usize) -> TrackMatch {
    let source = SourceTrack {
        title: title.into(),
        artists: vec!["A".into()],
        album: "L".into(),
        duration_ms: 200_000,
        isrc: None,
    };
    let candidates = (0..n_candidates)
        .map(|i| Candidate {
            catalog_id: format!("cat{i}"),
            title: title.into(),
            artists: vec!["A".into()],
            album: "L".into(),
            duration_ms: 200_000,
            matched_by: MatchedBy::Search,
        })
        .collect();
    TrackMatch {
        source,
        candidates,
        confidence,
    }
}

#[test]
fn triage_splits_by_confidence_and_counts_everything() {
    let app = App::from_matches(
        "Mix".into(),
        vec![
            tm("a", Confidence::Exact, 1),
            tm("b", Confidence::High, 1),
            tm("c", Confidence::Ambiguous, 3),
            tm("d", Confidence::NotFound, 0),
        ],
    );
    assert_eq!(app.auto_accepted.len(), 2);
    assert_eq!(app.not_found.len(), 1);
    let Screen::Review { items, cursor } = &app.screen else {
        panic!("ambiguous tracks must open the review screen")
    };
    assert_eq!(items.len(), 1);
    assert_eq!(*cursor, 0);
}

#[test]
fn no_ambiguous_tracks_skips_review_entirely() {
    let app = App::from_matches("Mix".into(), vec![tm("a", Confidence::Exact, 1)]);
    assert!(matches!(
        app.screen,
        Screen::Confirm {
            accepted: 1,
            skipped: 0,
            not_found: 0,
            ..
        }
    ));
}

#[test]
fn digit_accepts_that_candidate_and_review_completes_to_confirm() {
    let mut app = App::from_matches(
        "Mix".into(),
        vec![
            tm("c", Confidence::Ambiguous, 3),
            tm("e", Confidence::Ambiguous, 2),
        ],
    );
    app.on_key(Key::Digit(2));
    app.on_key(Key::Skip);
    app.on_key(Key::Confirm);
    let Screen::Confirm {
        accepted, skipped, ..
    } = &app.screen
    else {
        panic!("decided review must confirm")
    };
    assert_eq!((*accepted, *skipped), (1, 1));
    assert_eq!(app.accepted_catalog_ids(), vec!["cat1".to_string()]);
}

#[test]
fn confirm_is_refused_while_any_row_is_pending() {
    let mut app = App::from_matches("Mix".into(), vec![tm("c", Confidence::Ambiguous, 2)]);
    app.on_key(Key::Confirm);
    assert!(
        matches!(app.screen, Screen::Review { .. }),
        "cannot confirm with pending rows"
    );
}

#[test]
fn digit_out_of_range_is_ignored() {
    let mut app = App::from_matches("Mix".into(), vec![tm("c", Confidence::Ambiguous, 2)]);
    app.on_key(Key::Digit(9));
    let Screen::Review { items, .. } = &app.screen else {
        panic!()
    };
    assert!(matches!(items[0].decision, Decision::Pending));
}

#[test]
fn abort_works_from_any_screen_and_confirm_reaches_done() {
    let mut reviewing = App::from_matches("Mix".into(), vec![tm("c", Confidence::Ambiguous, 1)]);
    reviewing.on_key(Key::Abort);
    assert!(matches!(reviewing.screen, Screen::Aborted));

    let mut confirming = App::from_matches("Mix".into(), vec![tm("a", Confidence::Exact, 1)]);
    confirming.on_key(Key::Confirm);
    assert!(matches!(confirming.screen, Screen::Done));
}

#[test]
fn the_cursor_moves_within_the_rows() {
    let mut app = App::from_matches(
        "Mix".into(),
        vec![
            tm("c", Confidence::Ambiguous, 2),
            tm("e", Confidence::Ambiguous, 2),
        ],
    );
    app.on_key(Key::Up);
    assert!(matches!(app.screen, Screen::Review { cursor: 0, .. }));
    app.on_key(Key::Down);
    assert!(matches!(app.screen, Screen::Review { cursor: 1, .. }));
    app.on_key(Key::Down);
    assert!(matches!(app.screen, Screen::Review { cursor: 1, .. }));
    app.on_key(Key::Up);
    assert!(matches!(app.screen, Screen::Review { cursor: 0, .. }));
}

#[test]
fn finished_screens_ignore_everything_but_abort() {
    let mut app = App::from_matches("Mix".into(), vec![tm("a", Confidence::Exact, 1)]);
    app.on_key(Key::Confirm);
    app.on_key(Key::Confirm);
    app.on_key(Key::Digit(1));
    assert!(matches!(app.screen, Screen::Done));
    app.on_key(Key::Abort);
    assert!(matches!(app.screen, Screen::Aborted));
    app.on_key(Key::Confirm);
    assert!(matches!(app.screen, Screen::Aborted));
}

#[test]
fn accepted_ids_list_auto_accepted_first_then_the_listener_picks() {
    let mut app = App::from_matches(
        "Mix".into(),
        vec![
            tm("c", Confidence::Ambiguous, 3),
            tm("a", Confidence::Exact, 1),
        ],
    );
    app.on_key(Key::Digit(3));
    assert_eq!(
        app.accepted_catalog_ids(),
        vec!["cat0".to_string(), "cat2".to_string()]
    );
}

#[test]
fn a_report_line_names_the_track_and_every_artist() {
    let track = TrackMatch {
        source: SourceTrack {
            title: "Under Pressure".into(),
            artists: vec!["Queen".into(), "David Bowie".into()],
            album: "Hot Space".into(),
            duration_ms: 248_000,
            isrc: None,
        },
        candidates: Vec::new(),
        confidence: Confidence::NotFound,
    };
    assert_eq!(track_line(&track), "Under Pressure — Queen, David Bowie");
}

#[test]
fn an_empty_playlist_says_so_and_says_what_to_do() {
    let error = orphaned("Roadtrip", "Apple Music answered 500");
    assert_eq!(
        error,
        "Created \"Roadtrip\" but couldn't add the songs: Apple Music answered 500. \
         Delete it in Music.app and run rocola again."
    );
}

#[test]
fn report_sections_indent_their_lines() {
    assert_eq!(
        report_section("Not found:", &vec!["A — X".to_string(), "B — Y".to_string()]),
        vec![
            "Not found:".to_string(),
            "  A — X".to_string(),
            "  B — Y".to_string()
        ]
    );
    assert!(report_section("Skipped:", &vec![]).is_empty());
}

#[test]
fn summary_lines_count_in_words() {
    assert_eq!(created_line("Mix", 1), "Created \"Mix\" — 1 song added.");
    assert_eq!(created_line("Mix", 12), "Created \"Mix\" — 12 songs added.");
    assert_eq!(read_line("Mix", 0), "Read \"Mix\" — 0 songs from Spotify.");
}

#[test]
fn resolved_count_counts_isrcs_the_lookup_answered() {
    let c = Candidate {
        catalog_id: "1".into(),
        title: "T".into(),
        artists: vec![],
        album: "L".into(),
        duration_ms: 0,
        matched_by: MatchedBy::Isrc,
    };
    let pairs = vec![("AAA".to_string(), c)];
    let isrcs = vec!["AAA".to_string(), "BBB".to_string(), "AAA".to_string()];
    assert_eq!(resolved_count(&isrcs, &pairs), 2);
}

#[test]
fn expands_a_leading_tilde_slash() {
    assert_eq!(
        home_ref("~/keys/AuthKey_X.p8"),
        HomeRef::Under("keys/AuthKey_X.p8".into())
    );
    assert_eq!(home_ref("~"), HomeRef::Home);
}

#[test]
fn leaves_other_paths_alone() {
    assert_eq!(home_ref("/tmp/AuthKey_X.p8"), HomeRef::Plain);
    assert_eq!(home_ref("keys/~/AuthKey_X.p8"), HomeRef::Plain);
}

#[test]
fn a_free_name_is_kept() {
    assert_eq!(
        choose_playlist_name("Mix", &vec!["Roadtrip".to_string()]),
        NameChoice::Free
    );
}

#[test]
fn a_taken_name_gets_the_first_free_alternative() {
    let existing = vec![
        "Mix".to_string(),
        "Mix (rocola)".to_string(),
        "Mix (rocola 2)".to_string(),
    ];
    assert_eq!(
        choose_playlist_name("Mix", &existing),
        NameChoice::Taken("Mix (rocola 3)".into())
    );
    assert_eq!(
        choose_playlist_name("Mix", &vec!["Mix".to_string()]),
        NameChoice::Taken("Mix (rocola)".into())
    );
}

#[test]
fn renders_minutes_and_zero_padded_seconds() {
    assert_eq!(minutes_seconds(275_000), "4:35");
    assert_eq!(minutes_seconds(61_000), "1:01");
}

#[test]
fn durations_drop_partial_seconds() {
    assert_eq!(minutes_seconds(0), "0:00");
    assert_eq!(minutes_seconds(59_999), "0:59");
    assert_eq!(minutes_seconds(600_000), "10:00");
}

#[test]
fn counts_read_as_english() {
    assert_eq!(songs(0), "0 songs");
    assert_eq!(songs(1), "1 song");
    assert_eq!(songs(4), "4 songs");
}

fn source() -> SourceTrack {
    SourceTrack {
        title: "Umbrella".into(),
        artists: vec!["Rihanna".into()],
        album: "Good Girl Gone Bad".into(),
        duration_ms: 275_000,
        isrc: None,
    }
}

fn candidate(title: &str, artist: &str, album: &str, duration_ms: u32) -> Candidate {
    Candidate {
        catalog_id: "1".into(),
        title: title.into(),
        artists: vec![artist.into()],
        album: album.into(),
        duration_ms,
        matched_by: MatchedBy::Search,
    }
}

#[test]
fn only_the_fields_that_differ_are_bold() {
    let d = candidate_differences(
        &source(),
        &candidate("Umbrella", "Rihanna", "Now That's What I Call Music", 275_500),
    );
    assert_eq!(
        d,
        FieldDiffs {
            title: false,
            artists: false,
            album: true,
            duration: false
        }
    );
}

#[test]
fn a_shared_artist_and_a_remaster_suffix_are_not_differences() {
    let d = candidate_differences(
        &source(),
        &candidate("Umbrella (feat. JAY-Z)", "Rihanna", "Good Girl Gone Bad", 275_000),
    );
    assert_eq!(
        d,
        FieldDiffs {
            title: false,
            artists: false,
            album: false,
            duration: false
        }
    );
}

#[test]
fn a_foreign_artist_and_a_long_gap_are_differences() {
    let d = candidate_differences(&source(), &candidate("Umbrella", "Tiffany", "Good Girl Gone Bad", 280_000));
    assert!(d.artists);
    assert!(d.duration);
}

fn track(title: &str, confidence: Confidence) -> TrackMatch {
    TrackMatch {
        source: source(),
        candidates: vec![candidate(title, "Rihanna", "Good Girl Gone Bad", 275_000)],
        confidence,
    }
}

#[test]
fn review_shows_the_candidates_and_the_footer_tally() {
    let app = App::from_matches(
        "Mix".into(),
        vec![
            track("Umbrella", Confidence::Ambiguous),
            track("Diamonds", Confidence::Exact),
        ],
    );
    let Screen::Review { items, cursor } = &app.screen else {
        panic!("ambiguous tracks must open the review screen")
    };
    let first = &items[*cursor].track.candidates[0];
    assert_eq!(format!("1. {}", first.title), "1. Umbrella");
    let footer = review_footer(items);
    assert!(footer.contains("0/1 decided"), "{footer}");
}

#[test]
fn no_ambiguous_tracks_renders_the_confirm_question() {
    let app = App::from_matches("Mix".into(), vec![track("Umbrella", Confidence::Exact)]);
    let Screen::Confirm {
        playlist_name,
        accepted,
        skipped,
        not_found,
    } = &app.screen
    else {
        panic!("no ambiguous tracks must confirm")
    };
    let screen = confirm_text(playlist_name, *accepted, *skipped, *not_found);
    assert!(
        screen.contains("Create Apple Music playlist \"Mix\" with 1 song?"),
        "{screen}"
    );
    assert!(screen.contains("enter create · q abort"), "{screen}");
}

#[test]
fn typed_characters_map_to_keys() {
    assert_eq!(key_from_char('1'), Some(Key::Digit(1)));
    assert_eq!(key_from_char('9'), Some(Key::Digit(9)));
    assert_eq!(key_from_char('0'), None);
    assert_eq!(key_from_char('s'), Some(Key::Skip));
    assert_eq!(key_from_char('q'), Some(Key::Abort));
    assert_eq!(key_from_char('x'), None);
}

#[test]
fn review_moves_on_once_every_row_is_decided() {
    let mut app = App::from_matches(
        "Mix".into(),
        vec![tm("c", Confidence::Ambiguous, 2), tm("a", Confidence::Exact, 1)],
    );
    app.advance_if_review_done();
    assert!(matches!(app.screen, Screen::Review { .. }));
    app.on_key(Key::Digit(1));
    assert!(matches!(app.screen, Screen::Review { .. }));
    app.advance_if_review_done();
    assert!(matches!(
        app.screen,
        Screen::Confirm {
            accepted: 2,
            skipped: 0,
            not_found: 0,
            ..
        }
    ));
    assert_eq!(app.decided.len(), 1);
}
