//! The decisions of reading a playlist from Spotify: which addresses to
//! read, what each answer's status means, and how the pages add up to one
//! playlist. The caller performs the requests.
use vstd::prelude::*;

use crate::spotify::api_types::{items_view, left_out_of, tracks_of, PlaylistPage};
use crate::spotify::{SpotifyError, SpotifyErrorView};
use crate::text::{chars_of, decimal, push_decimal, push_str, string_of, strs};
use crate::types::{opt_str, SourceTrack};

verus! {

/// One playlist, as read from Spotify.
#[derive(Debug)]
pub struct Playlist {
    pub name: String,
    pub tracks: Vec<SourceTrack>,
    /// One line per item rocola can't look up on Apple Music — local files,
    /// podcast episodes, and tracks Spotify has removed — in playlist order.
    /// Reported at the end of the run, never dropped.
    pub skipped: Vec<String>,
}

/// The address of a playlist's name.
pub open spec fn meta_url_of(id: Seq<char>) -> Seq<char> {
    "https://api.spotify.com/v1/playlists/"@ + id + "?fields=name"@
}

/// The address of a playlist's first page of items.
pub open spec fn items_url_of(id: Seq<char>) -> Seq<char> {
    "https://api.spotify.com/v1/playlists/"@ + id
        + "/items?limit=100&fields=next,items(is_local,item(name,duration_ms,is_local,type,album(name),artists(name),external_ids))"@
}

/// The address of a playlist's name.
pub fn meta_url(id: &str) -> (r: String)
    ensures
        r@ == meta_url_of(id@),
{
    let mut out: Vec<char> = Vec::new();
    push_str(&mut out, "https://api.spotify.com/v1/playlists/");
    push_str(&mut out, id);
    push_str(&mut out, "?fields=name");
    string_of(&out)
}

/// The address of a playlist's first page of items.
pub fn items_url(id: &str) -> (r: String)
    ensures
        r@ == items_url_of(id@),
{
    let mut out: Vec<char> = Vec::new();
    push_str(&mut out, "https://api.spotify.com/v1/playlists/");
    push_str(&mut out, id);
    push_str(
        &mut out,
        "/items?limit=100&fields=next,items(is_local,item(name,duration_ms,is_local,type,album(name),artists(name),external_ids))",
    );
    string_of(&out)
}

// ---------------------------------------------------------------------------
// Numbers in headers
// ---------------------------------------------------------------------------

/// ASCII digit.
pub open spec fn is_digit(c: char) -> bool {
    48 <= c as u32 && c as u32 <= 57
}

/// The value of a string of decimal digits.
pub open spec fn digits_value(ds: Seq<char>) -> nat
    decreases ds.len(),
{
    if ds.len() == 0 {
        0
    } else {
        digits_value(ds.drop_last()) * 10 + (ds.last() as u32 - 48) as nat
    }
}

/// `s` without a leading `+`.
pub open spec fn unsigned_part(s: Seq<char>) -> Seq<char> {
    if s.len() > 0 && s[0] == '+' {
        s.drop_first()
    } else {
        s
    }
}

/// Every character is an ASCII digit.
pub open spec fn all_digits(ds: Seq<char>) -> bool {
    forall|i: int| 0 <= i < ds.len() ==> is_digit(#[trigger] ds[i])
}

/// What std's `u64::from_str` accepts: an optional `+`, then one or more
/// ASCII digits whose value fits in a `u64`.
pub open spec fn u64_of(s: Seq<char>) -> Option<u64> {
    let ds = unsigned_part(s);
    if ds.len() > 0 && all_digits(ds) && digits_value(ds) <= u64::MAX {
        Some(digits_value(ds) as u64)
    } else {
        None
    }
}

proof fn lemma_digits_value_mono(ds: Seq<char>, i: int)
    requires
        0 <= i <= ds.len(),
        forall|k: int| 0 <= k < ds.len() ==> is_digit(#[trigger] ds[k]),
    ensures
        digits_value(ds.take(i)) <= digits_value(ds),
    decreases ds.len() - i,
{
    if i < ds.len() {
        lemma_digits_value_mono(ds, i + 1);
        assert(ds.take(i + 1).drop_last() =~= ds.take(i));
    } else {
        assert(ds.take(i) =~= ds);
    }
}

proof fn lemma_u64_of_none(s: Seq<char>, ds: Seq<char>)
    requires
        ds == unsigned_part(s),
        !(ds.len() > 0 && all_digits(ds) && digits_value(ds) <= u64::MAX),
    ensures
        u64_of(s) is None,
{
}

/// A decimal number, parsed as std's `u64::from_str` does.
pub fn parse_u64(s: &str) -> (r: Option<u64>)
    ensures
        r == u64_of(s@),
{
    let cs = chars_of(s);
    let mut i: usize = 0;
    if cs.len() > 0 && cs[0] == '+' {
        i = 1;
    }
    let ghost ds = unsigned_part(cs@);
    assert(ds =~= cs@.skip(i as int));
    if i >= cs.len() {
        return None;
    }
    let mut value: u64 = 0;
    let start = i;
    while i < cs.len()
        invariant
            start <= i <= cs@.len(),
            cs@ == s@,
            ds == unsigned_part(cs@),
            ds == cs@.skip(start as int),
            forall|k: int| start <= k < i ==> is_digit(#[trigger] cs@[k]),
            value == digits_value(ds.take(i - start)),
        decreases cs@.len() - i,
    {
        let c = cs[i];
        let u = c as u32;
        assert(ds[i - start] == c);
        if !(48 <= u && u <= 57) {
            assert(!is_digit(ds[i - start]));
            assert(cs@ == s@);
            assert(!(forall|k: int| 0 <= k < ds.len() ==> is_digit(#[trigger] ds[k])));
            proof {
                lemma_u64_of_none(s@, ds);
            }
            return None;
        }
        assert(ds.take(i - start + 1).drop_last() =~= ds.take(i - start));
        let d = (u - 48) as u64;
        if value > (u64::MAX - d) / 10 {
            proof {
                assert(forall|k: int| 0 <= k < i - start + 1 ==> is_digit(#[trigger] ds[k]));
                assert(digits_value(ds.take(i - start + 1)) == value * 10 + d);
                assert(value * 10 + d > u64::MAX) by (nonlinear_arith)
                    requires
                        value > (u64::MAX - d) / 10,
                        d <= 9,
                ;
                if forall|k: int| 0 <= k < ds.len() ==> is_digit(#[trigger] ds[k]) {
                    lemma_digits_value_mono(ds, i - start + 1);
                    assert(digits_value(ds) > u64::MAX);
                }
                assert(cs@ == s@);
                lemma_u64_of_none(s@, ds);
            }
            return None;
        }
        assert(value * 10 + d <= u64::MAX) by (nonlinear_arith)
            requires
                value <= (u64::MAX - d) / 10,
                d <= 9,
        ;
        value = value * 10 + d;
        i = i + 1;
    }
    assert(ds.take(i - start) =~= ds);
    Some(value)
}

// ---------------------------------------------------------------------------
// Statuses
// ---------------------------------------------------------------------------

/// What one answer from Spotify means for the read.
#[derive(Debug)]
pub enum SpotifyReply {
    /// Carry on with the response.
    Proceed,
    /// Stop with this error.
    Fail(SpotifyError),
    /// Wait this many seconds, then stop with [`SpotifyError::RateLimited`].
    WaitThenRateLimited(u64),
}

/// Seconds to wait when Spotify rate-limits without a usable `Retry-After`.
pub const DEFAULT_RETRY_AFTER_SECS: u64 = 3;

/// What the listener is told when the sign-in has expired.
pub open spec fn expired_text() -> Seq<char> {
    "your Spotify sign-in has expired. Run rocola again and it will sign you in."@
}

/// The wait that a `Retry-After` header asks for, or the default.
pub open spec fn retry_wait_of(retry_after: Option<Seq<char>>) -> u64 {
    match retry_after {
        Some(v) => match u64_of(v) {
            Some(n) => n,
            None => DEFAULT_RETRY_AFTER_SECS,
        },
        None => DEFAULT_RETRY_AFTER_SECS,
    }
}

/// The wait that a `Retry-After` header asks for, or the default.
pub fn retry_wait(retry_after: &Option<String>) -> (r: u64)
    ensures
        r == retry_wait_of(opt_str(*retry_after)),
{
    match retry_after {
        Some(v) => match parse_u64(v.as_str()) {
            Some(n) => n,
            None => DEFAULT_RETRY_AFTER_SECS,
        },
        None => DEFAULT_RETRY_AFTER_SECS,
    }
}

/// The mathematical content of a [`SpotifyReply`].
pub enum SpotifyReplyView {
    Proceed,
    Fail(SpotifyErrorView),
    WaitThenRateLimited(u64),
}

impl View for SpotifyReply {
    type V = SpotifyReplyView;

    open spec fn view(&self) -> SpotifyReplyView {
        match self {
            SpotifyReply::Proceed => SpotifyReplyView::Proceed,
            SpotifyReply::Fail(e) => SpotifyReplyView::Fail(e@),
            SpotifyReply::WaitThenRateLimited(n) => SpotifyReplyView::WaitThenRateLimited(*n),
        }
    }
}

/// The outcome an HTTP status decides: 200 goes on; 401 is an expired
/// sign-in; 403 is a playlist that isn't the listener's; 404 is a playlist
/// Spotify hides or that's gone; 429 waits as asked and gives up; anything
/// else is reported with its number.
pub open spec fn reply_of(status: u16, retry_after: Option<Seq<char>>) -> SpotifyReplyView {
    if status == 200 {
        SpotifyReplyView::Proceed
    } else if status == 401 {
        SpotifyReplyView::Fail(SpotifyErrorView::Auth(expired_text()))
    } else if status == 403 {
        SpotifyReplyView::Fail(SpotifyErrorView::NotYourPlaylist)
    } else if status == 404 {
        SpotifyReplyView::Fail(SpotifyErrorView::RestrictedPlaylist)
    } else if status == 429 {
        SpotifyReplyView::WaitThenRateLimited(retry_wait_of(retry_after))
    } else {
        SpotifyReplyView::Fail(SpotifyErrorView::Http("Spotify answered "@ + decimal(status as nat)))
    }
}

/// What an answer with this status (and `Retry-After` header) means.
pub fn reply_for_status(status: u16, retry_after: &Option<String>) -> (r: SpotifyReply)
    ensures
        r@ == reply_of(status, opt_str(*retry_after)),
{
    if status == 200 {
        SpotifyReply::Proceed
    } else if status == 401 {
        SpotifyReply::Fail(
            SpotifyError::Auth(
                "your Spotify sign-in has expired. Run rocola again and it will sign you in.".to_owned(),
            ),
        )
    } else if status == 403 {
        SpotifyReply::Fail(SpotifyError::NotYourPlaylist)
    } else if status == 404 {
        SpotifyReply::Fail(SpotifyError::RestrictedPlaylist)
    } else if status == 429 {
        SpotifyReply::WaitThenRateLimited(retry_wait(retry_after))
    } else {
        let mut out: Vec<char> = Vec::new();
        push_str(&mut out, "Spotify answered ");
        push_decimal(&mut out, status as u64);
        SpotifyReply::Fail(SpotifyError::Http(string_of(&out)))
    }
}

// ---------------------------------------------------------------------------
// Pages
// ---------------------------------------------------------------------------

impl Playlist {
    /// A playlist with its name and nothing read yet.
    pub fn new(name: String) -> (r: Playlist)
        ensures
            r.name@ == name@,
            r.tracks@.len() == 0,
            r.skipped@.len() == 0,
    {
        Playlist { name, tracks: Vec::new(), skipped: Vec::new() }
    }

    /// Adds one page's tracks and left-out items, in order, and returns the
    /// address of the next page, if there is one.
    pub fn absorb(&mut self, page: &PlaylistPage) -> (next: Option<String>)
        ensures
            final(self).name@ == old(self).name@,
            crate::pipeline::tracks_view(final(self).tracks@) == crate::pipeline::tracks_view(
                old(self).tracks@,
            ) + tracks_of(items_view(page.items@)),
            strs(final(self).skipped@) == strs(old(self).skipped@) + left_out_of(
                items_view(page.items@),
            ),
            opt_str(next) == opt_str(page.next),
    {
        let split = page.partition();
        let mut tracks = split.tracks;
        let mut skipped = split.skipped;
        let ghost t0 = self.tracks@;
        let ghost s0 = self.skipped@;
        let ghost tn = tracks@;
        let ghost sn = skipped@;
        self.tracks.append(&mut tracks);
        self.skipped.append(&mut skipped);
        assert(crate::pipeline::tracks_view(self.tracks@) =~= crate::pipeline::tracks_view(t0)
            + crate::pipeline::tracks_view(tn));
        assert(strs(self.skipped@) =~= strs(s0) + strs(sn));
        crate::types::copy_opt_string(&page.next)
    }
}

} // verus!
