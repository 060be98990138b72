use rocola::config::{AppleConfig, Config, SpotifyConfig};

fn sample(p8_path: &str) -> Config {
    Config {
        spotify: SpotifyConfig {
            client_id: "cid".into(),
            refresh_token: Some("rt".into()),
        },
        apple: AppleConfig {
            team_id: "TEAM".into(),
            key_id: "KEY".into(),
            p8_path: p8_path.into(),
            music_user_token: None,
            storefront: Some("gb".into()),
        },
    }
}

#[test]
fn a_new_refresh_token_is_kept_and_reported() {
    let mut c = sample("/tmp/AuthKey_X.p8");
    assert!(c.remember_refresh_token(&Some("rt2".into())));
    assert_eq!(c.spotify.refresh_token.as_deref(), Some("rt2"));
    assert_eq!(c.spotify.client_id, "cid");
}

#[test]
fn the_same_or_no_refresh_token_changes_nothing() {
    let mut c = sample("/tmp/AuthKey_X.p8");
    assert!(!c.remember_refresh_token(&Some("rt".into())));
    assert!(!c.remember_refresh_token(&None));
    assert_eq!(c.spotify.refresh_token.as_deref(), Some("rt"));
}

#[test]
fn sign_in_results_are_remembered_and_forgotten() {
    let mut c = sample("/tmp/AuthKey_X.p8");
    c.remember_user_token("mut");
    assert_eq!(c.apple.music_user_token.as_deref(), Some("mut"));
    c.forget_user_token();
    assert_eq!(c.apple.music_user_token, None);
    c.remember_storefront("us");
    assert_eq!(c.apple.storefront.as_deref(), Some("us"));
}

fn sorted(mut v: Vec<String>) -> Vec<String> {
    v.sort();
    v.dedup();
    v
}

#[test]
fn key_dirs_of_an_absolute_path_reach_the_root() {
    let dirs = sorted(sample("/home/me/keys/AuthKey_X.p8").key_dirs());
    assert_eq!(
        dirs,
        vec![
            "/".to_string(),
            "/home".to_string(),
            "/home/me".to_string(),
            "/home/me/keys".to_string(),
            "/home/me/keys/AuthKey_X.p8".to_string(),
        ]
    );
}

#[test]
fn key_dirs_of_a_relative_path_reach_the_current_directory() {
    let dirs = sorted(sample("keys/AuthKey_X.p8").key_dirs());
    assert_eq!(
        dirs,
        vec![
            "".to_string(),
            "keys".to_string(),
            "keys/AuthKey_X.p8".to_string(),
        ]
    );
}

#[test]
fn key_dirs_match_std_ancestors_for_plain_paths() {
    for p in ["/tmp/AuthKey_X.p8", "a/b/c.p8", "c.p8", "/"] {
        let ours = sorted(sample(p).key_dirs());
        let theirs = sorted(
            std::path::Path::new(p)
                .ancestors()
                .map(|a| a.to_string_lossy().into_owned())
                .collect(),
        );
        assert_eq!(ours, theirs, "{p}");
    }
}
