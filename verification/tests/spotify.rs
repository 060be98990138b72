use rocola::spotify::api_types::{
    ApiAlbum, ApiArtist, ApiTrack, ExternalIds, PageItem, PlaylistPage,
};
use rocola::spotify::auth::{
    answer_request, callback_query, callback_reply, new_state, not_found_reply,
    parse_callback_query, state_from_draws,
};
use rocola::spotify::client::{
    items_url, meta_url, parse_u64, reply_for_status, retry_wait, Playlist, SpotifyReply,
    DEFAULT_RETRY_AFTER_SECS,
};
use rocola::spotify::pkce::{authorize_url, challenge_for, verifier_from_draws, Pkce};
use rocola::spotify::url::{parse_playlist_url, PlaylistRef};
use rocola::spotify::SpotifyError;

#[test]
fn extracts_code_when_state_matches() {
    let code = parse_callback_query("code=AQD123&state=xyz", "xyz").unwrap();
    assert_eq!(code, "AQD123");
}

#[test]
fn rejects_mismatched_state() {
    assert!(parse_callback_query("code=AQD123&state=evil", "xyz").is_err());
}

#[test]
fn picks_the_callback_request_out_of_the_raw_bytes() {
    let request = "GET /callback?code=AQD123&state=xyz HTTP/1.1\r\nHost: 127.0.0.1:8888\r\n\r\n";
    assert_eq!(
        callback_query(request).as_deref(),
        Some("code=AQD123&state=xyz")
    );
}

#[test]
fn ignores_requests_that_are_not_the_callback() {
    assert_eq!(callback_query("GET /favicon.ico HTTP/1.1\r\n\r\n"), None);
    assert_eq!(callback_query("GET /callback HTTP/1.1\r\n\r\n"), None);
    assert_eq!(
        callback_query("POST /callback?code=x HTTP/1.1\r\n\r\n"),
        None
    );
}

#[test]
fn ignores_a_connection_that_sent_nothing() {
    assert_eq!(callback_query(""), None);
}

#[test]
fn surfaces_spotify_denial_in_plain_english() {
    let err = parse_callback_query("error=access_denied&state=xyz", "xyz").unwrap_err();
    assert!(err.message().contains("didn't finish"), "got: {}", err.message());
}

#[test]
fn a_callback_without_a_code_is_an_auth_error() {
    let err = parse_callback_query("state=xyz", "xyz").unwrap_err();
    assert!(matches!(err, SpotifyError::Auth(_)));
    let err = parse_callback_query("code=abc", "xyz").unwrap_err();
    assert!(matches!(err, SpotifyError::Auth(_)));
}

#[test]
fn rfc7636_appendix_b_vector() {
    let verifier = "dBjftJeZ4CVP-mB92K27uhbUJU1p1r_wW1gFWFOEjXk";
    assert_eq!(
        challenge_for(verifier),
        "E9Melhoa2OwvFrEMTJguCHaoeK1t8URWbuGJSstw-cM"
    );
}

#[test]
fn verifier_is_64_unreserved_chars_and_random() {
    let a = Pkce::new();
    let b = Pkce::new();
    assert_eq!(a.verifier.len(), 64);
    assert!(a
        .verifier
        .chars()
        .all(|c| c.is_ascii_alphanumeric() || "-._~".contains(c)));
    assert_ne!(a.verifier, b.verifier);
}

#[test]
fn a_new_pkce_pairs_its_verifier_with_its_challenge() {
    let p = Pkce::new();
    assert_eq!(p.challenge, challenge_for(&p.verifier));
}

#[test]
fn authorize_url_pins_loopback_redirect() {
    let url = authorize_url("myclientid", &Pkce::new(), "st4te");
    assert!(url.starts_with("https://accounts.spotify.com/authorize?"));
    assert!(url.contains("redirect_uri=http%3A%2F%2F127.0.0.1%3A8888%2Fcallback"));
    assert!(url.contains("code_challenge_method=S256"));
    assert!(url.contains("state=st4te"));
}

#[test]
fn authorize_url_carries_the_client_and_the_challenge() {
    let p = Pkce::new();
    let url = authorize_url("myclientid", &p, "st4te");
    assert!(url.contains("client_id=myclientid"));
    assert!(url.contains(&format!("code_challenge={}", p.challenge)));
}

#[test]
fn parses_web_url_with_query() {
    let r = parse_playlist_url("https://open.spotify.com/playlist/37i9dQZF1DXcBWIGoYBM5M?si=abc")
        .unwrap();
    assert_eq!(r.0, "37i9dQZF1DXcBWIGoYBM5M");
}

#[test]
fn parses_uri_form() {
    let r = parse_playlist_url("spotify:playlist:37i9dQZF1DXcBWIGoYBM5M").unwrap();
    assert_eq!(r.0, "37i9dQZF1DXcBWIGoYBM5M");
}

#[test]
fn rejects_album_url_with_named_error() {
    let err = parse_playlist_url("https://open.spotify.com/album/xyz").unwrap_err();
    assert!(
        err.message().contains("playlist"),
        "error must tell the user it needs a playlist link"
    );
}

#[test]
fn parses_localized_url_with_query() {
    let r = parse_playlist_url(
        "https://open.spotify.com/intl-es/playlist/37i9dQZF1DXcBWIGoYBM5M?si=abc",
    )
    .unwrap();
    assert_eq!(r.0, "37i9dQZF1DXcBWIGoYBM5M");
}

#[test]
fn parses_localized_url_with_two_part_locale() {
    let r = parse_playlist_url(
        "https://open.spotify.com/intl-pt-br/playlist/37i9dQZF1DXcBWIGoYBM5M",
    )
    .unwrap();
    assert_eq!(r.0, "37i9dQZF1DXcBWIGoYBM5M");
}

#[test]
fn the_uri_of_a_parsed_id_parses_back_to_it() {
    let r = parse_playlist_url("https://open.spotify.com/playlist/abcDEF123").unwrap();
    let again = parse_playlist_url(&format!("spotify:playlist:{}", r.0)).unwrap();
    assert_eq!(again, PlaylistRef("abcDEF123".into()));
}

#[test]
fn rejects_empty_and_foreign_links() {
    assert!(matches!(parse_playlist_url(""), Err(SpotifyError::BadUrl(_))));
    assert!(matches!(
        parse_playlist_url("https://example.com/playlist/abc"),
        Err(SpotifyError::BadUrl(_))
    ));
    assert!(matches!(
        parse_playlist_url("spotify:playlist:"),
        Err(SpotifyError::BadUrl(_))
    ));
}

fn api_track(name: &str, artists: &[&str], isrc: Option<&str>, is_local: bool, kind: &str) -> ApiTrack {
    ApiTrack {
        name: name.into(),
        duration_ms: 275_000,
        album: ApiAlbum {
            name: "Good Girl Gone Bad".into(),
        },
        artists: artists
            .iter()
            .map(|a| ApiArtist { name: (*a).into() })
            .collect(),
        external_ids: ExternalIds {
            isrc: isrc.map(Into::into),
        },
        is_local,
        kind: kind.into(),
    }
}

fn fixture_page() -> PlaylistPage {
    PlaylistPage {
        next: Some("https://api.spotify.com/v1/playlists/x/items?offset=100".into()),
        items: vec![
            PageItem {
                item: Some(api_track(
                    "Umbrella",
                    &["Rihanna", "JAY-Z"],
                    Some("USUM70701234"),
                    false,
                    "track",
                )),
            },
            PageItem { item: None },
            PageItem {
                item: Some(api_track("Home Recording", &["Me"], None, true, "track")),
            },
            PageItem {
                item: Some(api_track(
                    "The Rest Is History: The Fall of Rome",
                    &[],
                    None,
                    false,
                    "episode",
                )),
            },
        ],
    }
}

#[test]
fn splits_a_page_into_tracks_and_named_leftovers() {
    let page = fixture_page();
    let split = page.partition();

    assert_eq!(split.tracks.len(), 1);
    assert_eq!(split.tracks[0].title, "Umbrella");
    assert_eq!(
        split.tracks[0].artists,
        vec!["Rihanna".to_string(), "JAY-Z".to_string()]
    );
    assert_eq!(split.tracks[0].isrc.as_deref(), Some("USUM70701234"));
    assert_eq!(
        split.skipped,
        vec![
            "(removed track)".to_string(),
            "Home Recording — Me".to_string(),
            "The Rest Is History: The Fall of Rome (podcast episode)".to_string()
        ]
    );

    assert!(page.next.is_some());
}

#[test]
fn a_local_file_without_artists_is_named_by_title_alone() {
    let page = PlaylistPage {
        next: None,
        items: vec![PageItem {
            item: Some(api_track("Voice Memo", &[], None, true, "track")),
        }],
    };
    assert_eq!(page.partition().skipped, vec!["Voice Memo".to_string()]);
}

#[test]
fn spotify_isrcs_are_normalised_and_malformed_ones_dropped() {
    let page = PlaylistPage {
        next: None,
        items: vec![
            PageItem {
                item: Some(api_track("A", &["X"], Some("us-um7-07-01234"), false, "track")),
            },
            PageItem {
                item: Some(api_track("B", &["X"], Some("bad"), false, "track")),
            },
        ],
    };
    let split = page.partition();
    assert_eq!(split.tracks[0].isrc.as_deref(), Some("USUM70701234"));
    assert_eq!(split.tracks[1].isrc, None);
}

#[test]
fn a_playlist_absorbs_pages_in_order() {
    let mut p = Playlist::new("Mix".into());
    let next = p.absorb(&fixture_page());
    assert!(next.is_some());
    let next = p.absorb(&PlaylistPage {
        next: None,
        items: vec![PageItem {
            item: Some(api_track("Diamonds", &["Rihanna"], None, false, "track")),
        }],
    });
    assert_eq!(next, None);
    assert_eq!(p.name, "Mix");
    let titles: Vec<&str> = p.tracks.iter().map(|t| t.title.as_str()).collect();
    assert_eq!(titles, vec!["Umbrella", "Diamonds"]);
    assert_eq!(p.skipped.len(), 3);
}

#[test]
fn playlist_urls_use_the_id() {
    assert_eq!(meta_url("abc"), "https://api.spotify.com/v1/playlists/abc?fields=name");
    assert!(items_url("abc").starts_with("https://api.spotify.com/v1/playlists/abc/items?"));
}

#[test]
fn parses_plain_decimal_seconds_only() {
    assert_eq!(parse_u64("0"), Some(0));
    assert_eq!(parse_u64("42"), Some(42));
    assert_eq!(parse_u64("18446744073709551615"), Some(u64::MAX));
    assert_eq!(parse_u64("18446744073709551616"), None);
    assert_eq!(parse_u64(""), None);
    assert_eq!(parse_u64("4 2"), None);
    assert_eq!(parse_u64("-1"), None);
    assert_eq!(parse_u64("+5"), Some(5));
    assert_eq!(parse_u64("+"), None);
}

#[test]
fn retry_after_falls_back_to_the_default() {
    assert_eq!(retry_wait(&Some("7".into())), 7);
    assert_eq!(retry_wait(&Some("soon".into())), DEFAULT_RETRY_AFTER_SECS);
    assert_eq!(retry_wait(&None), DEFAULT_RETRY_AFTER_SECS);
}

#[test]
fn each_status_gets_its_own_reply() {
    assert!(matches!(reply_for_status(200, &None), SpotifyReply::Proceed));
    assert!(matches!(
        reply_for_status(401, &None),
        SpotifyReply::Fail(SpotifyError::Auth(_))
    ));
    assert!(matches!(
        reply_for_status(403, &None),
        SpotifyReply::Fail(SpotifyError::NotYourPlaylist)
    ));
    assert!(matches!(
        reply_for_status(404, &None),
        SpotifyReply::Fail(SpotifyError::RestrictedPlaylist)
    ));
    assert!(matches!(
        reply_for_status(429, &Some("12".into())),
        SpotifyReply::WaitThenRateLimited(12)
    ));
    match reply_for_status(500, &None) {
        SpotifyReply::Fail(SpotifyError::Http(m)) => assert_eq!(m, "Spotify answered 500"),
        other => panic!("unexpected {other:?}"),
    }
}

#[test]
fn every_spotify_error_has_a_sentence() {
    assert_eq!(SpotifyError::BadUrl("x".into()).message(), "x");
    assert!(SpotifyError::Http("boom".into()).message().contains("boom"));
    assert!(SpotifyError::RateLimited.message().contains("slow down"));
    assert!(SpotifyError::Auth("nope".into()).message().ends_with("nope"));
    assert!(SpotifyError::RestrictedPlaylist.message().contains("couldn't find"));
    assert!(SpotifyError::NotYourPlaylist.message().contains("own"));
}

#[test]
fn sign_in_states_are_sixteen_random_lowercase_letters() {
    let a = new_state();
    let b = new_state();
    assert_eq!(a.chars().count(), 16);
    assert!(a.chars().all(|c| c.is_ascii_lowercase()));
    assert_ne!(a, b);
}

#[test]
fn the_callback_reply_carries_the_page_length() {
    let ok = callback_reply(true);
    let body = "Signed in. You can close this tab and return to the terminal.";
    assert!(ok.starts_with("HTTP/1.1 200 OK\r\n"));
    assert!(ok.contains(&format!("Content-Length: {}\r\n", body.len())));
    assert!(ok.ends_with(&format!("\r\n\r\n{body}")));
    let failed = callback_reply(false);
    assert!(failed.ends_with("Something went wrong. Return to the terminal for what to do next."));
    assert_eq!(
        not_found_reply(),
        "HTTP/1.1 404 Not Found\r\nContent-Length: 0\r\nConnection: close\r\n\r\n"
    );
}

#[test]
fn draws_spell_the_state_and_the_verifier() {
    assert_eq!(state_from_draws(&vec![0, 1, 25]), "abz");
    assert_eq!(
        verifier_from_draws(&vec![0, 25, 26, 51, 52, 61, 62, 63, 64, 65]),
        "AZaz09-._~"
    );
}

#[test]
fn only_the_callback_request_ends_the_wait() {
    let (reply, outcome) = answer_request("GET /favicon.ico HTTP/1.1\r\n\r\n", "xyz");
    assert_eq!(reply, not_found_reply());
    assert!(outcome.is_none());
    let (reply, outcome) = answer_request(
        "GET /callback?code=AQD123&state=xyz HTTP/1.1\r\n\r\n",
        "xyz",
    );
    assert_eq!(reply, callback_reply(true));
    assert_eq!(outcome.unwrap().unwrap(), "AQD123");
    let (reply, outcome) = answer_request(
        "GET /callback?code=AQD123&state=evil HTTP/1.1\r\n\r\n",
        "xyz",
    );
    assert_eq!(reply, callback_reply(false));
    assert!(matches!(outcome, Some(Err(SpotifyError::Auth(_)))));
}
