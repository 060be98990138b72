//! Spotify playlist links.
use vstd::prelude::*;

use crate::normalize::is_ascii_alnum;
use crate::spotify::{SpotifyError, SpotifyErrorView};
use crate::text::{
    chars_of, find, find_exec, find_from, has_prefix, index_of, lemma_find_from_bounds,
    slice_chars, starts_with, string_of, trim, trim_chars,
};

verus! {

/// A bare Spotify playlist ID (base62).
#[derive(Debug, PartialEq, Eq)]
pub struct PlaylistRef(pub String);

impl Clone for PlaylistRef {
    fn clone(&self) -> (r: Self)
        ensures
            r.0@ == self.0@,
    {
        PlaylistRef(self.0.clone())
    }
}

/// The prefix of a playlist URI.
pub open spec fn uri_prefix() -> Seq<char> {
    "spotify:playlist:"@
}

/// The host part that precedes the path of a web link.
pub open spec fn web_host() -> Seq<char> {
    "open.spotify.com/"@
}

/// The prefix of a localised path segment.
pub open spec fn intl_prefix() -> Seq<char> {
    "intl-"@
}

/// The path segment of a playlist page.
pub open spec fn playlist_segment() -> Seq<char> {
    "playlist/"@
}

/// What the listener is told when a link isn't a playlist link.
pub open spec fn bad_url_text() -> Seq<char> {
    "That doesn't look like a Spotify playlist link. Paste a link like https://open.spotify.com/playlist/… (from Share → Copy link to playlist)."@
}

/// The piece of `s` between the first occurrence of `sep` and the next one
/// (or the end), when `sep` occurs.
pub open spec fn second_piece(s: Seq<char>, sep: Seq<char>) -> Option<Seq<char>> {
    match find(s, sep) {
        Some(p) => {
            let start = p + sep.len();
            match find_from(s, sep, start) {
                Some(q) => Some(s.subrange(start, q)),
                None => Some(s.subrange(start, s.len() as int)),
            }
        },
        None => None,
    }
}

/// A leading `intl-<locale>/` segment dropped, when the locale is non-empty.
pub open spec fn without_locale(s: Seq<char>) -> Seq<char> {
    if has_prefix(s, intl_prefix()) {
        let rest = s.skip(intl_prefix().len() as int);
        match index_of(rest, '/') {
            Some(k) => if k > 0 {
                rest.skip(k + 1)
            } else {
                s
            },
            None => s,
        }
    } else {
        s
    }
}

/// The first position of `?` or `/` in `s`, or its length.
pub open spec fn id_end(s: Seq<char>, i: int) -> int
    decreases s.len() - i,
{
    if i >= s.len() || i < 0 {
        s.len() as int
    } else if s[i] == '?' || s[i] == '/' {
        i
    } else {
        id_end(s, i + 1)
    }
}

/// The candidate ID in a link, before it is checked.
pub open spec fn raw_playlist_id(input: Seq<char>) -> Option<Seq<char>> {
    let s = trim(input);
    if has_prefix(s, uri_prefix()) {
        Some(s.skip(uri_prefix().len() as int))
    } else {
        match second_piece(s, web_host()) {
            Some(after_host) => {
                let after_locale = without_locale(after_host);
                if has_prefix(after_locale, playlist_segment()) {
                    let after = after_locale.skip(playlist_segment().len() as int);
                    Some(after.take(id_end(after, 0)))
                } else {
                    None
                }
            },
            None => None,
        }
    }
}

/// A well-formed ID: non-empty ASCII letters and digits.
pub open spec fn valid_id(id: Seq<char>) -> bool {
    id.len() > 0 && forall|i: int| 0 <= i < id.len() ==> is_ascii_alnum(#[trigger] id[i])
}

/// The playlist ID a link names, or `None` when it names none.
pub open spec fn playlist_id_of(input: Seq<char>) -> Option<Seq<char>> {
    match raw_playlist_id(input) {
        Some(id) => if valid_id(id) {
            Some(id)
        } else {
            None
        },
        None => None,
    }
}

proof fn lemma_id_end(s: Seq<char>, i: int)
    requires
        0 <= i <= s.len(),
    ensures
        i <= id_end(s, i) <= s.len(),
        forall|k: int| i <= k < id_end(s, i) ==> s[k] != '?' && s[k] != '/',
        id_end(s, i) < s.len() ==> s[id_end(s, i)] == '?' || s[id_end(s, i)] == '/',
    decreases s.len() - i,
{
    if i < s.len() && s[i] != '?' && s[i] != '/' {
        lemma_id_end(s, i + 1);
    }
}

fn id_end_exec(s: &Vec<char>) -> (r: usize)
    ensures
        r == id_end(s@, 0),
{
    let mut i: usize = 0;
    while i < s.len() && s[i] != '?' && s[i] != '/'
        invariant
            i <= s@.len(),
            id_end(s@, 0) == id_end(s@, i as int),
        decreases s@.len() - i,
    {
        i = i + 1;
    }
    i
}

fn all_alnum(s: &Vec<char>) -> (r: bool)
    ensures
        r == (forall|i: int| 0 <= i < s@.len() ==> is_ascii_alnum(#[trigger] s@[i])),
{
    let mut i: usize = 0;
    while i < s.len()
        invariant
            i <= s@.len(),
            forall|k: int| 0 <= k < i ==> is_ascii_alnum(#[trigger] s@[k]),
        decreases s@.len() - i,
    {
        let u = s[i] as u32;
        if !((48 <= u && u <= 57) || (65 <= u && u <= 90) || (97 <= u && u <= 122)) {
            assert(!is_ascii_alnum(s@[i as int]));
            return false;
        }
        i = i + 1;
    }
    true
}

fn raw_id(input: &str) -> (r: Option<Vec<char>>)
    ensures
        r matches Some(v) ==> raw_playlist_id(input@) == Some(v@),
        r is None ==> raw_playlist_id(input@) is None,
{
    let all = chars_of(input);
    let s = trim_chars(&all);
    let uri = chars_of("spotify:playlist:");
    if starts_with(&s, &uri) {
        return Some(slice_chars(&s, uri.len(), s.len()));
    }
    let host = chars_of("open.spotify.com/");
    let p = match find_exec(&s, &host, 0) {
        Some(p) => p,
        None => {
            return None;
        },
    };
    proof {
        lemma_find_from_bounds(s@, host@, 0);
    }
    assert(crate::text::occurs_at(s@, host@, p as int));
    assert(p + host@.len() <= s.len());
    let start = p + host.len();
    let end = match find_exec(&s, &host, start) {
        Some(q) => {
            proof {
                lemma_find_from_bounds(s@, host@, start as int);
            }
            q
        },
        None => s.len(),
    };
    let after_host = slice_chars(&s, start, end);
    assert(second_piece(s@, host@) == Some(after_host@));
    let intl = chars_of("intl-");
    let mut after_locale = copy_vec(&after_host);
    if starts_with(&after_host, &intl) {
        let rest = slice_chars(&after_host, intl.len(), after_host.len());
        assert(rest@ == after_host@.skip(intl@.len() as int));
        let mut slash: Vec<char> = Vec::new();
        slash.push('/');
        assert(slash@ =~= seq!['/']);
        match find_exec(&rest, &slash, 0) {
            Some(k) => {
                proof {
                    lemma_find_from_bounds(rest@, slash@, 0);
                }
                if k > 0 {
                    after_locale = slice_chars(&rest, k + 1, rest.len());
                }
            },
            None => {},
        }
    }
    assert(after_locale@ == without_locale(after_host@));
    let seg = chars_of("playlist/");
    if !starts_with(&after_locale, &seg) {
        return None;
    }
    let after = slice_chars(&after_locale, seg.len(), after_locale.len());
    let e = id_end_exec(&after);
    proof {
        lemma_id_end(after@, 0);
    }
    Some(slice_chars(&after, 0, e))
}

fn copy_vec(v: &Vec<char>) -> (r: Vec<char>)
    ensures
        r@ == v@,
{
    slice_chars(v, 0, v.len())
}

/// Accepts `https://open.spotify.com/playlist/<id>[?…]`, its localized form
/// `https://open.spotify.com/intl-<locale>/playlist/<id>[?…]` (e.g.
/// `intl-es`, `intl-pt-br`), and `spotify:playlist:<id>`.
///
/// # Errors
///
/// Returns [`SpotifyError::BadUrl`] when `input` isn't a recognisable Spotify
/// playlist link or URI.
pub fn parse_playlist_url(input: &str) -> (r: Result<PlaylistRef, SpotifyError>)
    ensures
        r matches Ok(p) ==> playlist_id_of(input@) == Some(p.0@),
        r matches Err(e) ==> playlist_id_of(input@) is None && e@ == SpotifyErrorView::BadUrl(
            bad_url_text(),
        ),
{
    match raw_id(input) {
        Some(id) => {
            if id.len() > 0 && all_alnum(&id) {
                return Ok(PlaylistRef(string_of(&id)));
            }
        },
        None => {},
    }
    Err(
        SpotifyError::BadUrl(
            "That doesn't look like a Spotify playlist link. Paste a link like https://open.spotify.com/playlist/… (from Share → Copy link to playlist).".to_owned(),
        ),
    )
}

/// A playlist URI always parses back to its ID, whatever whitespace
/// surrounds it: for every well-formed ID, `spotify:playlist:<id>` names
/// exactly that ID.
pub proof fn law_uri_round_trip(id: Seq<char>, before: Seq<char>, after: Seq<char>)
    requires
        valid_id(id),
        forall|i: int| 0 <= i < before.len() ==> crate::text::is_ws(#[trigger] before[i]),
        forall|i: int| 0 <= i < after.len() ==> crate::text::is_ws(#[trigger] after[i]),
    ensures
        playlist_id_of(before + uri_prefix() + id + after) == Some(id),
{
    reveal_strlit("spotify:playlist:");
    let s = uri_prefix() + id;
    let whole = before + s + after;
    assert(s[0] == 's');
    assert(!crate::text::is_ws(s[0]));
    assert(s.last() == id.last());
    assert(crate::normalize::is_ascii_alnum(id[id.len() - 1]));
    assert(!crate::text::is_ws(s.last()));
    assert(whole =~= before + uri_prefix() + id + after);
    assert forall|k: int| 0 <= k < before.len() implies crate::text::is_ws(#[trigger] whole[k]) by {
        assert(whole[k] == before[k]);
    }
    crate::text::lemma_trim_start_skip(whole, before.len() as int);
    let tail = s + after;
    assert(whole.skip(before.len() as int) =~= tail);
    assert(tail[0] == s[0]);
    assert(crate::text::trim_start(tail) == tail);
    assert forall|k: int| s.len() <= k < tail.len() implies crate::text::is_ws(#[trigger] tail[k]) by {
        assert(tail[k] == after[k - s.len()]);
    }
    crate::text::lemma_trim_end_take(tail, s.len() as int);
    assert(tail.take(s.len() as int) =~= s);
    assert(crate::text::trim_end(s) == s);
    assert(trim(whole) == s);
    assert(s.take(uri_prefix().len() as int) =~= uri_prefix());
    assert(s.skip(uri_prefix().len() as int) =~= id);
}

/// A parsed ID is always well formed.
pub proof fn law_parsed_id_well_formed(input: Seq<char>)
    ensures
        playlist_id_of(input) matches Some(id) ==> valid_id(id),
{
}

} // verus!
