use rocola::matching::{classify, score, AMBIGUOUS_THRESHOLD, HIGH_THRESHOLD};
use rocola::normalize::{normalize_artist, normalize_isrc, normalize_title, title_key_from};
use rocola::pipeline::{isrcs_to_resolve, MatchRun};
use rocola::types::{Candidate, Confidence, MatchedBy, SourceTrack};

fn src(title: &str, artist: &str, album: &str, ms: u32, isrc: Option<&str>) -> SourceTrack {
    SourceTrack {
        title: title.into(),
        artists: vec![artist.into()],
        album: album.into(),
        duration_ms: ms,
        isrc: isrc.map(Into::into),
    }
}

fn cand(title: &str, artist: &str, album: &str, ms: u32, by: MatchedBy) -> Candidate {
    Candidate {
        catalog_id: "123".into(),
        title: title.into(),
        artists: vec![artist.into()],
        album: album.into(),
        duration_ms: ms,
        matched_by: by,
    }
}

#[test]
fn identical_track_scores_100() {
    let s = src("Umbrella", "Rihanna", "Good Girl Gone Bad", 275_000, None);
    let c = cand(
        "Umbrella",
        "Rihanna",
        "Good Girl Gone Bad",
        275_000,
        MatchedBy::Search,
    );
    assert_eq!(score(&s, &c), 100);
}

#[test]
fn remaster_suffix_does_not_lower_title_score() {
    let s = src(
        "Bohemian Rhapsody - Remastered 2011",
        "Queen",
        "A Night at the Opera",
        354_000,
        None,
    );
    let c = cand(
        "Bohemian Rhapsody",
        "Queen",
        "A Night at the Opera (Deluxe)",
        355_000,
        MatchedBy::Search,
    );
    assert!(score(&s, &c) >= 85, "got {}", score(&s, &c));
}

#[test]
fn isrc_candidate_with_close_duration_is_exact() {
    let s = src(
        "Umbrella",
        "Rihanna",
        "Good Girl Gone Bad",
        275_000,
        Some("USUM70701234"),
    );
    let c = cand(
        "Umbrella (feat. JAY-Z)",
        "Rihanna",
        "Good Girl Gone Bad",
        276_000,
        MatchedBy::Isrc,
    );
    let m = classify(&s, vec![c]);
    assert_eq!(m.confidence, Confidence::Exact);
}

#[test]
fn no_candidates_is_not_found() {
    let s = src("Obscure B-side", "Nobody", "Nothing", 100_000, None);
    assert_eq!(classify(&s, vec![]).confidence, Confidence::NotFound);
}

#[test]
fn weak_candidates_are_ambiguous_and_sorted_best_first() {
    let s = src(
        "Wish You Were Here",
        "Pink Floyd",
        "Wish You Were Here",
        334_000,
        None,
    );
    let weak = cand(
        "Wish You Were Here",
        "Avril Lavigne",
        "Goodbye Lullaby",
        225_000,
        MatchedBy::Search,
    );
    let close = cand(
        "Wish You Were Here - Live",
        "Pink Floyd",
        "Pulse",
        340_000,
        MatchedBy::Search,
    );
    let m = classify(&s, vec![weak, close]);
    assert_eq!(m.confidence, Confidence::Ambiguous);
    assert_eq!(m.candidates[0].artists[0], "Pink Floyd");
}

#[test]
fn isrc_exact_beats_higher_scoring_search_decoy() {
    let s = src("Umbrella", "Rihanna", "Good Girl Gone Bad", 275_000, None);
    let isrc_exact = cand("We Found Love", "Rihanna", "Loud", 275_000, MatchedBy::Isrc);
    let search_decoy = cand(
        "Umbrella",
        "Rihanna",
        "Good Girl Gone Bad",
        280_000,
        MatchedBy::Search,
    );
    assert_eq!(score(&s, &isrc_exact), 50);
    assert_eq!(score(&s, &search_decoy), 90);

    let m = classify(&s, vec![isrc_exact, search_decoy]);
    assert_eq!(m.confidence, Confidence::Exact);
    assert_eq!(m.candidates[0].matched_by, MatchedBy::Isrc);
}

#[test]
fn isrc_uppercases_and_strips_hyphens() {
    assert_eq!(
        normalize_isrc("gb-arl-98-00212"),
        Some("GBARL9800212".into())
    );
    assert_eq!(normalize_isrc("USUM71703861"), Some("USUM71703861".into()));
}

#[test]
fn isrc_rejects_wrong_shape() {
    assert_eq!(normalize_isrc(""), None);
    assert_eq!(normalize_isrc("TOO-SHORT"), None);
    assert_eq!(normalize_isrc("GBARL98002123456"), None);
}

#[test]
fn title_strips_noise_and_case() {
    assert_eq!(
        normalize_title("Bohemian Rhapsody - Remastered 2011"),
        "bohemian rhapsody"
    );
    assert_eq!(normalize_title("Umbrella (feat. JAY-Z)"), "umbrella");
    assert_eq!(
        normalize_title("Como Te Extraño  [En Vivo]"),
        "como te extraño"
    );
}

#[test]
fn artist_lowercases_and_trims() {
    assert_eq!(normalize_artist("  Café Tacvba "), "café tacvba");
}

/// Drives a match run the way the app does: the ISRC lookup answered by
/// one known recording, each search answered by `search`.
fn run(tracks: Vec<SourceTrack>, search: impl Fn(&SourceTrack) -> Vec<Candidate>) -> Vec<rocola::types::TrackMatch> {
    let isrcs = isrcs_to_resolve(&tracks);
    let resolved: Vec<(String, Candidate)> = isrcs
        .iter()
        .filter(|i| i.as_str() == "USUM70701234")
        .map(|i| {
            (
                i.clone(),
                Candidate {
                    catalog_id: "900".into(),
                    title: "Umbrella".into(),
                    artists: vec!["Rihanna".into()],
                    album: "Good Girl Gone Bad".into(),
                    duration_ms: 275_000,
                    matched_by: MatchedBy::Isrc,
                },
            )
        })
        .collect();
    let mut m = MatchRun::new(tracks, resolved);
    while let Some(i) = m.next_search() {
        let found = search(&m.tracks()[i]);
        m.supply_search(found);
    }
    m.finish()
}

fn track(title: &str, isrc: Option<&str>) -> SourceTrack {
    SourceTrack {
        title: title.into(),
        artists: vec!["Rihanna".into()],
        album: "Good Girl Gone Bad".into(),
        duration_ms: 275_000,
        isrc: isrc.map(Into::into),
    }
}

fn findable(track: &SourceTrack) -> Vec<Candidate> {
    if track.title == "Findable" {
        vec![Candidate {
            catalog_id: "111".into(),
            title: "Findable".into(),
            artists: track.artists.clone(),
            album: track.album.clone(),
            duration_ms: track.duration_ms,
            matched_by: MatchedBy::Search,
        }]
    } else {
        vec![]
    }
}

#[test]
fn isrc_hit_search_hit_and_miss_all_appear_in_input_order() {
    let tracks = vec![
        track("Umbrella", Some("USUM70701234")),
        track("Findable", None),
        track("Vanished", Some("XX0000000000")),
    ];
    let matches = run(tracks, findable);
    assert_eq!(matches.len(), 3);
    assert_eq!(matches[0].confidence, Confidence::Exact);
    assert_eq!(matches[1].confidence, Confidence::High);
    assert_eq!(matches[2].confidence, Confidence::NotFound);
    assert_eq!(matches[2].source.title, "Vanished");
}

#[test]
fn isrcs_to_resolve_lists_each_track_isrc_in_order() {
    let tracks = vec![
        track("A", Some("USUM70701234")),
        track("B", None),
        track("C", Some("XX0000000000")),
    ];
    assert_eq!(
        isrcs_to_resolve(&tracks),
        vec!["USUM70701234".to_string(), "XX0000000000".to_string()]
    );
}

#[test]
fn a_track_with_isrc_hits_is_never_searched() {
    let tracks = vec![track("Umbrella", Some("USUM70701234"))];
    let matches = run(tracks, |_| panic!("searched a track the ISRC lookup had answered"));
    assert_eq!(matches[0].candidates[0].catalog_id, "900");
}

#[test]
fn score_formula_exact_values() {
    let s = src("Umbrella", "Rihanna", "Good Girl Gone Bad", 275_000, None);
    // Title only: 40.
    assert_eq!(score(&s, &cand("Umbrella", "X", "Y", 0, MatchedBy::Search)), 40);
    // Artist only: 30.
    assert_eq!(score(&s, &cand("Z", "Rihanna", "Y", 0, MatchedBy::Search)), 30);
    // Duration within 3 s: 20; within 10 s: 10; beyond: 0.
    assert_eq!(score(&s, &cand("Z", "X", "Y", 278_000, MatchedBy::Search)), 20);
    assert_eq!(score(&s, &cand("Z", "X", "Y", 285_000, MatchedBy::Search)), 10);
    assert_eq!(score(&s, &cand("Z", "X", "Y", 285_001, MatchedBy::Search)), 0);
    // Album only: 10.
    assert_eq!(score(&s, &cand("Z", "X", "Good Girl Gone Bad (Deluxe)", 0, MatchedBy::Search)), 10);
}

#[test]
fn partial_artist_overlap_scores_proportionally() {
    let s = SourceTrack {
        title: "Under Pressure".into(),
        artists: vec!["Queen".into(), "David Bowie".into()],
        album: "Hot Space".into(),
        duration_ms: 248_000,
        isrc: None,
    };
    let c = cand("Nope", "Queen", "Nope", 0, MatchedBy::Search);
    // One of two source artists shared: 30 * 1 / 2 = 15.
    assert_eq!(score(&s, &c), 15);
}

#[test]
fn scores_never_exceed_one_hundred() {
    let s = src("Umbrella", "Rihanna", "Good Girl Gone Bad", 275_000, None);
    let mut two = cand("Umbrella", "Rihanna", "Good Girl Gone Bad", 275_000, MatchedBy::Search);
    two.artists.push("Rihanna".into());
    assert!(score(&s, &two) <= 100);
}

#[test]
fn thresholds_split_high_ambiguous_and_not_found() {
    let s = src("Umbrella", "Rihanna", "Good Girl Gone Bad", 275_000, None);
    // 90 -> High
    let high = classify(&s, vec![cand("Umbrella", "Rihanna", "Good Girl Gone Bad", 280_000, MatchedBy::Search)]);
    assert_eq!(high.confidence, Confidence::High);
    // 50 -> Ambiguous (at the threshold)
    let amb = classify(&s, vec![cand("We Found Love", "Rihanna", "Loud", 275_000, MatchedBy::Search)]);
    assert_eq!(amb.confidence, Confidence::Ambiguous);
    // 40 -> below the ambiguity threshold: NotFound, candidate kept
    let low = classify(&s, vec![cand("Umbrella", "X", "Y", 0, MatchedBy::Search)]);
    assert_eq!(low.confidence, Confidence::NotFound);
    assert_eq!(low.candidates.len(), 1);
    assert_eq!(HIGH_THRESHOLD, 85);
    assert_eq!(AMBIGUOUS_THRESHOLD, 50);
}

#[test]
fn isrc_candidate_too_far_in_duration_is_not_exact() {
    let s = src("Umbrella", "Rihanna", "Good Girl Gone Bad", 275_000, None);
    let m = classify(&s, vec![cand("Umbrella", "Rihanna", "Good Girl Gone Bad", 279_000, MatchedBy::Isrc)]);
    assert_eq!(m.confidence, Confidence::High);
}

#[test]
fn classification_keeps_every_candidate() {
    let s = src("Umbrella", "Rihanna", "Good Girl Gone Bad", 275_000, None);
    let m = classify(
        &s,
        vec![
            cand("A", "X", "Y", 0, MatchedBy::Search),
            cand("Umbrella", "Rihanna", "Good Girl Gone Bad", 275_000, MatchedBy::Search),
            cand("B", "X", "Y", 0, MatchedBy::Search),
        ],
    );
    assert_eq!(m.candidates.len(), 3);
    assert_eq!(m.candidates[0].title, "Umbrella");
}

#[test]
fn isrc_drops_everything_but_letters_and_digits() {
    assert_eq!(normalize_isrc("  us-um7-07-01234 "), Some("USUM70701234".into()));
    assert_eq!(normalize_isrc("US UM70701234"), Some("USUM70701234".into()));
    assert_eq!(normalize_isrc("USUM7070123!"), None);
}

#[test]
fn title_and_artist_edge_cases() {
    assert_eq!(normalize_title(""), "");
    assert_eq!(normalize_title("Song (Live)"), "song");
    assert_eq!(normalize_title("  Spaced   Out  "), "spaced out");
    assert_eq!(normalize_artist("\tBEYONCÉ\n"), "beyoncé");
}

fn ascii_lows(s: &str) -> Vec<Vec<char>> {
    s.chars().map(|c| vec![c.to_ascii_lowercase()]).collect()
}

#[test]
fn title_key_from_given_lowercasing() {
    let raw = "Bohemian Rhapsody - Remastered 2011";
    assert_eq!(title_key_from(raw, &ascii_lows(raw)), "bohemian rhapsody");
    let raw = "Umbrella (feat. [JAY-Z]) Extra)  Mix";
    assert_eq!(title_key_from(raw, &ascii_lows(raw)), "umbrella extra mix");
    // The mapping is used as given, one entry per character.
    let raw = "AB";
    assert_eq!(title_key_from(raw, &vec![vec!['x', 'y'], vec![]]), "xy");
}
