//! What rocola keeps between runs, the changes a run makes to it, and the
//! directories to check for a git checkout around the Apple key.
use vstd::prelude::*;

use crate::text::{chars_of, same_chars, slice_chars, string_of};
use crate::types::{copy_opt_string, opt_str};

verus! {

/// Everything rocola keeps between runs.
#[derive(Debug)]
pub struct Config {
    pub spotify: SpotifyConfig,
    pub apple: AppleConfig,
}

/// The listener's own Spotify app, and the sign-in it granted.
#[derive(Debug)]
pub struct SpotifyConfig {
    pub client_id: String,
    pub refresh_token: Option<String>,
}

/// The Apple developer key, and what the listener's sign-in established.
#[derive(Debug)]
pub struct AppleConfig {
    pub team_id: String,
    pub key_id: String,
    /// Where the AuthKey_….p8 file is.
    pub p8_path: String,
    pub music_user_token: Option<String>,
    pub storefront: Option<String>,
}

/// The mathematical content of a [`Config`].
pub struct ConfigView {
    pub client_id: Seq<char>,
    pub refresh_token: Option<Seq<char>>,
    pub team_id: Seq<char>,
    pub key_id: Seq<char>,
    pub p8_path: Seq<char>,
    pub music_user_token: Option<Seq<char>>,
    pub storefront: Option<Seq<char>>,
}

impl View for Config {
    type V = ConfigView;

    open spec fn view(&self) -> ConfigView {
        ConfigView {
            client_id: self.spotify.client_id@,
            refresh_token: opt_str(self.spotify.refresh_token),
            team_id: self.apple.team_id@,
            key_id: self.apple.key_id@,
            p8_path: self.apple.p8_path@,
            music_user_token: opt_str(self.apple.music_user_token),
            storefront: opt_str(self.apple.storefront),
        }
    }
}

/// Whether a token exchange brought a refresh token other than the stored
/// one.
pub open spec fn new_refresh_token(stored: Option<Seq<char>>, received: Option<Seq<char>>) -> bool {
    received is Some && received != stored
}

/// Where a path's directories start: the root for an absolute path, the
/// current directory (`""`) for a relative one.
pub open spec fn base_dir(p: Seq<char>) -> Seq<char> {
    if p.len() > 0 && p[0] == '/' {
        "/"@
    } else {
        ""@
    }
}

/// `d` is the key's own path, a directory above it (the path up to a `/`
/// past the first character), or where the path starts from. These are the
/// paths `std::path::Path::ancestors` yields, up to repeated and trailing
/// separators, which name the same directories.
pub open spec fn is_key_dir(p: Seq<char>, d: Seq<char>) -> bool {
    ||| d == p
    ||| exists|i: int| 0 < i < p.len() && p[i] == '/' && d == #[trigger] p.take(i)
    ||| d == base_dir(p)
}

impl Config {
    /// Keeps the refresh token a token exchange brought when it differs from
    /// the stored one, and says whether anything changed (and so needs
    /// saving). Spotify doesn't rotate the token on use, but it is free to.
    pub fn remember_refresh_token(&mut self, received: &Option<String>) -> (changed: bool)
        ensures
            changed == new_refresh_token(old(self)@.refresh_token, opt_str(*received)),
            changed ==> final(self)@ == (ConfigView {
                refresh_token: opt_str(*received),
                ..old(self)@
            }),
            !changed ==> final(self)@ == old(self)@,
    {
        let changed = match received {
            Some(t) => match &self.spotify.refresh_token {
                Some(s) => !same_chars(&chars_of(t.as_str()), &chars_of(s.as_str())),
                None => true,
            },
            None => false,
        };
        if changed {
            self.spotify.refresh_token = copy_opt_string(received);
        }
        changed
    }

    /// Forgets a Music User Token Apple has stopped accepting.
    pub fn forget_user_token(&mut self)
        ensures
            final(self)@ == (ConfigView { music_user_token: None, ..old(self)@ }),
    {
        self.apple.music_user_token = None;
    }

    /// Keeps the Music User Token the sign-in page posted back.
    pub fn remember_user_token(&mut self, token: &str)
        ensures
            final(self)@ == (ConfigView { music_user_token: Some(token@), ..old(self)@ }),
    {
        self.apple.music_user_token = Some(token.to_owned());
    }

    /// Keeps the storefront Apple reported.
    pub fn remember_storefront(&mut self, storefront: &str)
        ensures
            final(self)@ == (ConfigView { storefront: Some(storefront@), ..old(self)@ }),
    {
        self.apple.storefront = Some(storefront.to_owned());
    }

    /// The directories to look in for a `.git` entry when checking whether
    /// the Apple key sits inside a git checkout: the key's own path, each
    /// directory above it, and where the path starts from.
    pub fn key_dirs(&self) -> (r: Vec<String>)
        ensures
            forall|d: Seq<char>| is_key_dir(self.apple.p8_path@, d) <==> crate::text::strs(r@).contains(d),
    {
        let ghost p = self.apple.p8_path@;
        let cs = chars_of(self.apple.p8_path.as_str());
        let mut out: Vec<String> = Vec::new();
        out.push(self.apple.p8_path.clone());
        let n = cs.len();
        let mut i: usize = n;
        while i > 1
            invariant
                cs@ == p,
                n == p.len(),
                1 <= i <= n || (i == n && n <= 1),
                out@.len() >= 1,
                out@[0]@ == p,
                forall|k: int| 0 <= k < out@.len() ==> (#[trigger] out@[k])@ == p || exists|j: int|
                    0 < j < p.len() && p[j] == '/' && out@[k]@ == #[trigger] p.take(j),
                forall|j: int| i <= j < n && p[j] == '/' && j > 0 ==> exists|k: int|
                    0 <= k < out@.len() && (#[trigger] out@[k])@ == p.take(j),
            decreases i,
        {
            i = i - 1;
            if cs[i] == '/' {
                let prefix = slice_chars(&cs, 0, i);
                let d = string_of(&prefix);
                assert(d@ == p.take(i as int));
                let ghost before = out@;
                out.push(d);
                assert(out@[out@.len() - 1]@ == p.take(i as int));
                assert forall|j: int| i <= j < n && p[j] == '/' && j > 0 implies exists|k: int|
                    0 <= k < out@.len() && (#[trigger] out@[k])@ == p.take(j) by {
                    if j == i {
                        assert(out@[out@.len() - 1]@ == p.take(j));
                    } else {
                        let k = choose|k: int| 0 <= k < before.len() && (#[trigger] before[k])@ == p.take(j);
                        assert(out@[k] == before[k]);
                    }
                }
            }
        }
        let base = if n > 0 && cs[0] == '/' {
            "/".to_owned()
        } else {
            "".to_owned()
        };
        proof {
            reveal_strlit("/");
            reveal_strlit("");
        }
        let ghost before_base = out@;
        out.push(base);
        let ghost sv = crate::text::strs(out@);
        assert forall|d: Seq<char>| is_key_dir(p, d) implies sv.contains(d) by {
            if d == p {
                assert(sv[0] == d);
            } else if d == base_dir(p) {
                assert(sv[out@.len() - 1] == d);
            } else {
                let j = choose|j: int| 0 < j < p.len() && p[j] == '/' && d == #[trigger] p.take(j);
                let k = choose|k: int| 0 <= k < before_base.len() && (#[trigger] before_base[k])@ == p.take(j);
                assert(out@[k] == before_base[k]);
                assert(sv[k] == d);
            }
        }
        assert forall|d: Seq<char>| sv.contains(d) implies is_key_dir(p, d) by {
            let k = choose|k: int| 0 <= k < sv.len() && sv[k] == d;
            if k < out@.len() - 1 {
                assert(out@[k]@ == d);
            }
        }
        out
    }
}

} // verus!
