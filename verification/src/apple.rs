//! The Apple Music side: catalogue answers, request decisions, the
//! developer token and the sign-in page.
use vstd::prelude::*;

use crate::text::push_str;

pub mod api_types;
pub mod client;
pub mod dev_token;
pub mod user_token;

verus! {

/// What can go wrong talking to Apple Music.
#[derive(Debug)]
pub enum AppleError {
    BadKey(String),
    Http(String),
    RateLimited,
    Auth(String),
    NotInStorefront,
}

/// The mathematical content of an [`AppleError`].
pub enum AppleErrorView {
    BadKey(Seq<char>),
    Http(Seq<char>),
    RateLimited,
    Auth(Seq<char>),
    NotInStorefront,
}

impl View for AppleError {
    type V = AppleErrorView;

    open spec fn view(&self) -> AppleErrorView {
        match self {
            AppleError::BadKey(s) => AppleErrorView::BadKey(s@),
            AppleError::Http(s) => AppleErrorView::Http(s@),
            AppleError::RateLimited => AppleErrorView::RateLimited,
            AppleError::Auth(s) => AppleErrorView::Auth(s@),
            AppleError::NotInStorefront => AppleErrorView::NotInStorefront,
        }
    }
}

/// The sentence shown to the listener for an error.
pub open spec fn apple_message(e: AppleErrorView) -> Seq<char> {
    match e {
        AppleErrorView::BadKey(s) => s,
        AppleErrorView::Http(s) => "Apple Music request failed: "@ + s
            + ". Check your connection and try again."@,
        AppleErrorView::RateLimited => "Apple Music is asking rocola to slow down. Wait a minute, then run rocola again."@,
        AppleErrorView::Auth(s) => "Apple Music sign-in problem: "@ + s,
        AppleErrorView::NotInStorefront => "Apple Music didn't say which country's catalogue to search. Check your Apple Music subscription is active, then run rocola again."@,
    }
}

impl AppleError {
    /// The sentence shown to the listener.
    pub fn message(&self) -> (r: String)
        ensures
            r@ == apple_message(self@),
    {
        let mut out: Vec<char> = Vec::new();
        match self {
            AppleError::BadKey(s) => {
                push_str(&mut out, s.as_str());
            },
            AppleError::Http(s) => {
                push_str(&mut out, "Apple Music request failed: ");
                push_str(&mut out, s.as_str());
                push_str(&mut out, ". Check your connection and try again.");
            },
            AppleError::RateLimited => {
                push_str(
                    &mut out,
                    "Apple Music is asking rocola to slow down. Wait a minute, then run rocola again.",
                );
            },
            AppleError::Auth(s) => {
                push_str(&mut out, "Apple Music sign-in problem: ");
                push_str(&mut out, s.as_str());
            },
            AppleError::NotInStorefront => {
                push_str(
                    &mut out,
                    "Apple Music didn't say which country's catalogue to search. Check your Apple Music subscription is active, then run rocola again.",
                );
            },
        }
        crate::text::string_of(&out)
    }
}

} // verus!
