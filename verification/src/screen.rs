//! What the review and confirm screens say: counts in words, durations,
//! which fields of a candidate differ from the source, and the keys.
use vstd::prelude::*;

use crate::matching::{artist_keys, duration_delta, DURATION_TIGHT_MS};
use crate::normalize::{artist_key, normalize_artist, normalize_title, title_key};
use crate::review::{Decision, Key, ReviewItem, rows_view, ReviewItemView};
use crate::text::{decimal, push_decimal, push_str, string_of, strs};
use crate::types::{Candidate, CandidateView, SourceTrack, SourceTrackView};

verus! {

/// `"1 song"` / `"4 songs"`.
pub open spec fn songs_of(n: nat) -> Seq<char> {
    if n == 1 {
        "1 song"@
    } else {
        decimal(n) + " songs"@
    }
}

/// `"1 song"` / `"4 songs"` — a count in a sentence has to read as English.
pub fn songs(n: usize) -> (r: String)
    ensures
        r@ == songs_of(n as nat),
{
    if n == 1 {
        "1 song".to_owned()
    } else {
        let mut out: Vec<char> = Vec::new();
        push_decimal(&mut out, n as u64);
        push_str(&mut out, " songs");
        string_of(&out)
    }
}

/// `n < 100` with at least two digits (`{:02}`).
pub open spec fn two_digits(n: nat) -> Seq<char> {
    if n < 10 {
        seq!['0'] + decimal(n)
    } else {
        decimal(n)
    }
}

/// `"m:ss"` for a duration in milliseconds, whole seconds only.
pub open spec fn minutes_seconds_of(ms: u32) -> Seq<char> {
    let seconds = ms as nat / 1000;
    decimal(seconds / 60) + ":"@ + two_digits(seconds % 60)
}

/// `"4:35"`.
pub fn minutes_seconds(duration_ms: u32) -> (r: String)
    ensures
        r@ == minutes_seconds_of(duration_ms),
{
    let seconds = duration_ms / 1000;
    let mut out: Vec<char> = Vec::new();
    push_decimal(&mut out, (seconds / 60) as u64);
    push_str(&mut out, ":");
    let rest = seconds % 60;
    if rest < 10 {
        out.push('0');
    }
    push_decimal(&mut out, rest as u64);
    proof {
        if rest < 10 {
            assert(out@ =~= decimal((seconds / 60) as nat) + ":"@ + (seq!['0'] + decimal(
                rest as nat,
            )));
        }
    }
    string_of(&out)
}

/// Which fields of a candidate disagree with the source, as the review
/// screen shows them.
#[derive(Debug, Clone, Copy, PartialEq, Eq, Structural)]
pub struct FieldDiffs {
    pub title: bool,
    pub artists: bool,
    pub album: bool,
    pub duration: bool,
}

/// Titles and albums differ when their comparison keys do; durations when
/// they are more than three seconds apart. Apple returns the whole billing
/// as one string ("A & B") where Spotify gives a list, so the artists differ
/// only when the candidate shares no artist at all with the source.
pub open spec fn diffs_of(s: SourceTrackView, c: CandidateView) -> FieldDiffs {
    FieldDiffs {
        title: title_key(s.title) != title_key(c.title),
        artists: !exists|i: int|
            0 <= i < c.artists.len() && artist_keys(s.artists).contains(
                artist_key(#[trigger] c.artists[i]),
            ),
        album: title_key(s.album) != title_key(c.album),
        duration: duration_delta(s.duration_ms, c.duration_ms) > DURATION_TIGHT_MS,
    }
}

/// Which fields of `candidate` disagree with `source`.
pub fn candidate_differences(source: &SourceTrack, candidate: &Candidate) -> (r: FieldDiffs)
    ensures
        r == diffs_of(source@, candidate@),
{
    let title = !(normalize_title(source.title.as_str()) == normalize_title(
        candidate.title.as_str(),
    ));
    let album = !(normalize_title(source.album.as_str()) == normalize_title(
        candidate.album.as_str(),
    ));
    let delta = if source.duration_ms >= candidate.duration_ms {
        source.duration_ms - candidate.duration_ms
    } else {
        candidate.duration_ms - source.duration_ms
    };
    let duration = delta > DURATION_TIGHT_MS;
    let mut source_keys: Vec<String> = Vec::new();
    let n = source.artists.len();
    let mut i: usize = 0;
    while i < n
        invariant
            n == source.artists@.len(),
            i <= n,
            source_keys@.len() == i,
            forall|k: int|
                0 <= k < i ==> (#[trigger] source_keys@[k])@ == artist_key(source.artists@[k]@),
        decreases n - i,
    {
        source_keys.push(normalize_artist(source.artists[i].as_str()));
        i = i + 1;
    }
    assert(strs(source_keys@) =~= artist_keys(strs(source.artists@)));
    let ghost keys = artist_keys(strs(source.artists@));
    let m = candidate.artists.len();
    let mut shared = false;
    let mut j: usize = 0;
    while j < m && !shared
        invariant
            m == candidate.artists@.len(),
            j <= m,
            keys == strs(source_keys@),
            shared ==> exists|i: int|
                0 <= i < m && keys.contains(artist_key(#[trigger] candidate.artists@[i]@)),
            !shared ==> forall|i: int|
                0 <= i < j ==> !keys.contains(artist_key(#[trigger] candidate.artists@[i]@)),
        decreases m - j,
    {
        let key = normalize_artist(candidate.artists[j].as_str());
        let mut k: usize = 0;
        let mut found = false;
        while k < source_keys.len() && !found
            invariant
                k <= source_keys@.len(),
                found ==> keys.contains(key@),
                !found ==> forall|x: int| 0 <= x < k ==> source_keys@[x]@ != key@,
                keys == strs(source_keys@),
            decreases source_keys@.len() - k,
        {
            if source_keys[k] == key {
                assert(keys[k as int] == key@);
                found = true;
            }
            k = k + 1;
        }
        proof {
            if !found {
                if keys.contains(key@) {
                    let x = choose|x: int| 0 <= x < keys.len() && keys[x] == key@;
                    assert(source_keys@[x]@ == key@);
                }
            }
        }
        shared = found;
        j = j + 1;
    }
    proof {
        let ca = strs(candidate.artists@);
        let sv = source@;
        assert(sv.artists == strs(source.artists@));
        if shared {
            let i = choose|i: int|
                0 <= i < m && keys.contains(artist_key(#[trigger] candidate.artists@[i]@));
            assert(ca[i] == candidate.artists@[i]@);
            assert(keys.contains(artist_key(ca[i])));
            assert(candidate@.artists == ca);
            assert(artist_keys(source@.artists) == keys);
            assert(0 <= i < candidate@.artists.len() && artist_keys(source@.artists).contains(
                artist_key(candidate@.artists[i]),
            ));
            assert(!diffs_of(source@, candidate@).artists);
        } else {
            assert forall|i: int| 0 <= i < ca.len() implies !keys.contains(
                artist_key(#[trigger] ca[i]),
            ) by {
                assert(ca[i] == candidate.artists@[i]@);
            }
        }
    }
    let r = FieldDiffs { title, artists: !shared, album, duration };
    assert(r.title == diffs_of(source@, candidate@).title);
    assert(r.album == diffs_of(source@, candidate@).album);
    assert(r.duration == diffs_of(source@, candidate@).duration);
    assert(r.artists == diffs_of(source@, candidate@).artists);
    r
}

/// The key a typed character stands for: `1`–`9` pick, `s` skips, `q`
/// aborts.
pub open spec fn key_for_char(c: char) -> Option<Key> {
    if '1' <= c && c <= '9' {
        Some(Key::Digit((c as u32 - 48) as u8))
    } else if c == 's' {
        Some(Key::Skip)
    } else if c == 'q' {
        Some(Key::Abort)
    } else {
        None
    }
}

/// The key a typed character stands for.
pub fn key_from_char(c: char) -> (r: Option<Key>)
    ensures
        r == key_for_char(c),
{
    if '1' <= c && c <= '9' {
        Some(Key::Digit((c as u32 - 48) as u8))
    } else if c == 's' {
        Some(Key::Skip)
    } else if c == 'q' {
        Some(Key::Abort)
    } else {
        None
    }
}

/// The question the confirm screen asks.
pub open spec fn confirm_text_of(name: Seq<char>, accepted: nat, skipped: nat, not_found: nat) -> Seq<
    char,
> {
    "Create Apple Music playlist \""@ + name + "\" with "@ + songs_of(accepted) + "?\n"@
        + decimal(skipped) + " skipped by you · "@ + decimal(not_found)
        + " not found on Apple Music (all listed after creation)\n\nenter create · q abort"@
}

/// The question the confirm screen asks.
pub fn confirm_text(name: &str, accepted: usize, skipped: usize, not_found: usize) -> (r: String)
    ensures
        r@ == confirm_text_of(name@, accepted as nat, skipped as nat, not_found as nat),
{
    let mut out: Vec<char> = Vec::new();
    push_str(&mut out, "Create Apple Music playlist \"");
    push_str(&mut out, name);
    push_str(&mut out, "\" with ");
    let n = songs(accepted);
    push_str(&mut out, n.as_str());
    push_str(&mut out, "?\n");
    push_decimal(&mut out, skipped as u64);
    push_str(&mut out, " skipped by you · ");
    push_decimal(&mut out, not_found as u64);
    push_str(&mut out, " not found on Apple Music (all listed after creation)\n\nenter create · q abort");
    string_of(&out)
}

/// How many rows have a decision.
pub open spec fn decided_count(items: Seq<ReviewItemView>) -> nat
    decreases items.len(),
{
    if items.len() == 0 {
        0
    } else {
        decided_count(items.drop_last()) + if items.last().decision != Decision::Pending {
            1nat
        } else {
            0nat
        }
    }
}

/// The review screen's footer: the keys, and how many rows are decided.
pub open spec fn footer_of(items: Seq<ReviewItemView>) -> Seq<char> {
    "↑/↓ move · 1-9 pick · s skip · enter confirm when done · q abort · "@ + decimal(
        decided_count(items),
    ) + "/"@ + decimal(items.len()) + " decided"@
}

/// The review screen's footer.
pub fn review_footer(items: &Vec<ReviewItem>) -> (r: String)
    ensures
        r@ == footer_of(rows_view(items@)),
{
    let ghost iv = rows_view(items@);
    let n = items.len();
    let mut decided: usize = 0;
    let mut i: usize = 0;
    while i < n
        invariant
            n == items@.len(),
            iv == rows_view(items@),
            i <= n,
            decided == decided_count(iv.take(i as int)),
            decided <= i,
        decreases n - i,
    {
        assert(iv.take(i + 1).drop_last() =~= iv.take(i as int));
        assert(iv[i as int] == items@[i as int]@);
        if items[i].decision != Decision::Pending {
            decided = decided + 1;
        }
        i = i + 1;
    }
    assert(iv.take(n as int) =~= iv);
    let mut out: Vec<char> = Vec::new();
    push_str(&mut out, "↑/↓ move · 1-9 pick · s skip · enter confirm when done · q abort · ");
    push_decimal(&mut out, decided as u64);
    push_str(&mut out, "/");
    push_decimal(&mut out, n as u64);
    push_str(&mut out, " decided");
    string_of(&out)
}

} // verus!
