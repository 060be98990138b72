//! The Spotify side: playlist links, the sign-in flow's decisions, the
//! playlist pages and the errors that come back.
use vstd::prelude::*;

use crate::text::push_str;

pub mod api_types;
pub mod auth;
pub mod client;
pub mod pkce;
pub mod url;

verus! {

/// What can go wrong talking to Spotify.
#[derive(Debug)]
pub enum SpotifyError {
    BadUrl(String),
    Http(String),
    RateLimited,
    Auth(String),
    RestrictedPlaylist,
    NotYourPlaylist,
}

/// The mathematical content of a [`SpotifyError`].
pub enum SpotifyErrorView {
    BadUrl(Seq<char>),
    Http(Seq<char>),
    RateLimited,
    Auth(Seq<char>),
    RestrictedPlaylist,
    NotYourPlaylist,
}

impl View for SpotifyError {
    type V = SpotifyErrorView;

    open spec fn view(&self) -> SpotifyErrorView {
        match self {
            SpotifyError::BadUrl(s) => SpotifyErrorView::BadUrl(s@),
            SpotifyError::Http(s) => SpotifyErrorView::Http(s@),
            SpotifyError::RateLimited => SpotifyErrorView::RateLimited,
            SpotifyError::Auth(s) => SpotifyErrorView::Auth(s@),
            SpotifyError::RestrictedPlaylist => SpotifyErrorView::RestrictedPlaylist,
            SpotifyError::NotYourPlaylist => SpotifyErrorView::NotYourPlaylist,
        }
    }
}

/// The sentence shown to the listener for an error.
pub open spec fn spotify_message(e: SpotifyErrorView) -> Seq<char> {
    match e {
        SpotifyErrorView::BadUrl(s) => s,
        SpotifyErrorView::Http(s) => "Spotify request failed: "@ + s
            + ". Check your connection and try again."@,
        SpotifyErrorView::RateLimited => "Spotify is asking rocola to slow down. Wait a minute, then run rocola again."@,
        SpotifyErrorView::Auth(s) => "Spotify sign-in problem: "@ + s,
        SpotifyErrorView::RestrictedPlaylist => "Spotify couldn't find that playlist. It may have been deleted, it may be private, or it may be one of Spotify's own playlists — Discover Weekly, Release Radar, an editorial mix — which Spotify blocks apps like rocola from reading. Check the link, or try a playlist a person made."@,
        SpotifyErrorView::NotYourPlaylist => "Spotify now only lets apps like rocola read playlists you own or collaborate on. Open the playlist in Spotify, use 'Add to other playlist' to copy it into one of yours, then run rocola on the copy."@,
    }
}

impl SpotifyError {
    /// The sentence shown to the listener.
    pub fn message(&self) -> (r: String)
        ensures
            r@ == spotify_message(self@),
    {
        let mut out: Vec<char> = Vec::new();
        match self {
            SpotifyError::BadUrl(s) => {
                push_str(&mut out, s.as_str());
            },
            SpotifyError::Http(s) => {
                push_str(&mut out, "Spotify request failed: ");
                push_str(&mut out, s.as_str());
                push_str(&mut out, ". Check your connection and try again.");
            },
            SpotifyError::RateLimited => {
                push_str(
                    &mut out,
                    "Spotify is asking rocola to slow down. Wait a minute, then run rocola again.",
                );
            },
            SpotifyError::Auth(s) => {
                push_str(&mut out, "Spotify sign-in problem: ");
                push_str(&mut out, s.as_str());
            },
            SpotifyError::RestrictedPlaylist => {
                push_str(
                    &mut out,
                    "Spotify couldn't find that playlist. It may have been deleted, it may be private, or it may be one of Spotify's own playlists — Discover Weekly, Release Radar, an editorial mix — which Spotify blocks apps like rocola from reading. Check the link, or try a playlist a person made.",
                );
            },
            SpotifyError::NotYourPlaylist => {
                push_str(
                    &mut out,
                    "Spotify now only lets apps like rocola read playlists you own or collaborate on. Open the playlist in Spotify, use 'Add to other playlist' to copy it into one of yours, then run rocola on the copy.",
                );
            },
        }
        crate::text::string_of(&out)
    }
}

} // verus!
