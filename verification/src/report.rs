//! What a run says when it finishes, and the decisions around the write:
//! report lines, the name the new playlist gets, and progress counts.
use vstd::prelude::*;

use crate::text::{decimal, digit, join, join_strings, push_all, push_decimal, push_str, string_of, strs};
use crate::review::{count_skipped, rows_view, Decision, ReviewItem, ReviewItemView};
use crate::types::{matches_view, TrackMatch, TrackMatchView};

verus! {

/// `"Title — Artist, Artist"`, the same shape the Spotify side gives the
/// items it couldn't turn into tracks, so every report section reads alike.
pub open spec fn track_line_of(m: TrackMatchView) -> Seq<char> {
    m.source.title + " — "@ + join(m.source.artists, ", "@)
}

/// `"Title — Artist, Artist"` for a match's source track.
pub fn track_line(track: &TrackMatch) -> (r: String)
    ensures
        r@ == track_line_of(track@),
{
    let mut out: Vec<char> = Vec::new();
    push_str(&mut out, track.source.title.as_str());
    push_str(&mut out, " — ");
    let artists = join_strings(&track.source.artists, ", ");
    push_all(&mut out, &artists);
    string_of(&out)
}

/// What the listener is told when the playlist exists but the songs could
/// not be added.
pub open spec fn orphaned_of(name: Seq<char>, error: Seq<char>) -> Seq<char> {
    "Created \""@ + name + "\" but couldn't add the songs: "@ + error
        + ". Delete it in Music.app and run rocola again."@
}

/// The playlist exists but is empty. Say so, and say what to do about it —
/// silence here leaves an unexplained playlist and a baffling duplicate-run
/// prompt on the next run.
pub fn orphaned(name: &str, error: &str) -> (r: String)
    ensures
        r@ == orphaned_of(name@, error@),
{
    let mut out: Vec<char> = Vec::new();
    push_str(&mut out, "Created \"");
    push_str(&mut out, name);
    push_str(&mut out, "\" but couldn't add the songs: ");
    push_str(&mut out, error);
    push_str(&mut out, ". Delete it in Music.app and run rocola again.");
    string_of(&out)
}

/// One heading and one indented line per entry; nothing at all when there
/// are no entries.
pub open spec fn section_of(heading: Seq<char>, lines: Seq<Seq<char>>) -> Seq<Seq<char>> {
    if lines.len() == 0 {
        seq![]
    } else {
        seq![heading] + lines.map_values(|l: Seq<char>| "  "@ + l)
    }
}

/// The lines of one report section — the rule that nothing is ever dropped
/// silently. A heading with nothing under it prints nothing at all.
pub fn report_section(heading: &str, lines: &Vec<String>) -> (r: Vec<String>)
    ensures
        strs(r@) == section_of(heading@, strs(lines@)),
{
    let mut out: Vec<String> = Vec::new();
    if lines.len() == 0 {
        assert(strs(out@) =~= section_of(heading@, strs(lines@)));
        return out;
    }
    out.push(heading.to_owned());
    let n = lines.len();
    let mut i: usize = 0;
    while i < n
        invariant
            n == lines@.len(),
            i <= n,
            out@.len() == i + 1,
            out@[0]@ == heading@,
            forall|k: int| 1 <= k <= i ==> (#[trigger] out@[k])@ == "  "@ + lines@[k - 1]@,
        decreases n - i,
    {
        let mut l: Vec<char> = Vec::new();
        push_str(&mut l, "  ");
        push_str(&mut l, lines[i].as_str());
        out.push(string_of(&l));
        i = i + 1;
    }
    assert(strs(out@) =~= section_of(heading@, strs(lines@)));
    out
}

/// What the listener is told when Apple took some batches of the songs and
/// then refused one.
pub open spec fn partly_added_of(name: Seq<char>, added: nat, error: Seq<char>) -> Seq<char> {
    "Created \""@ + name + "\" and added "@ + crate::screen::songs_of(added)
        + ", then Apple Music stopped: "@ + error
        + ". The rest are not in the playlist. Delete it in Music.app and run rocola again."@
}

/// What the listener is told when adding songs failed after `added` of them
/// went in: nothing added reads as [`orphaned`], some added says how many.
pub fn add_failure_message(name: &str, added: usize, error: &str) -> (r: String)
    ensures
        added == 0 ==> r@ == orphaned_of(name@, error@),
        added > 0 ==> r@ == partly_added_of(name@, added as nat, error@),
{
    if added == 0 {
        return orphaned(name, error);
    }
    let mut out: Vec<char> = Vec::new();
    push_str(&mut out, "Created \"");
    push_str(&mut out, name);
    push_str(&mut out, "\" and added ");
    let count = crate::screen::songs(added);
    push_str(&mut out, count.as_str());
    push_str(&mut out, ", then Apple Music stopped: ");
    push_str(&mut out, error);
    push_str(
        &mut out,
        ". The rest are not in the playlist. Delete it in Music.app and run rocola again.",
    );
    string_of(&out)
}

/// The report lines of the rows the listener skipped, in order.
pub open spec fn skipped_lines_of(rows: Seq<ReviewItemView>) -> Seq<Seq<char>>
    decreases rows.len(),
{
    if rows.len() == 0 {
        seq![]
    } else if rows.last().decision == Decision::Skipped {
        skipped_lines_of(rows.drop_last()).push(track_line_of(rows.last().track))
    } else {
        skipped_lines_of(rows.drop_last())
    }
}

/// One report line per skipped row, in order.
pub fn skipped_lines(rows: &Vec<ReviewItem>) -> (r: Vec<String>)
    ensures
        strs(r@) == skipped_lines_of(rows_view(rows@)),
{
    let ghost rv = rows_view(rows@);
    let mut out: Vec<String> = Vec::new();
    let n = rows.len();
    let mut i: usize = 0;
    while i < n
        invariant
            n == rows@.len(),
            rv == rows_view(rows@),
            i <= n,
            strs(out@) == skipped_lines_of(rv.take(i as int)),
        decreases n - i,
    {
        assert(rv.take(i + 1).drop_last() =~= rv.take(i as int));
        assert(rv[i as int] == rows@[i as int]@);
        if rows[i].decision == Decision::Skipped {
            let line = track_line(&rows[i].track);
            out.push(line);
            assert(strs(out@) =~= strs(out@.drop_last()).push(line@));
        }
        i = i + 1;
    }
    assert(rv.take(n as int) =~= rv);
    out
}

/// Every skipped row gets exactly one line: nothing the listener skipped is
/// left out of the report.
pub proof fn law_every_skip_is_reported(rows: Seq<ReviewItemView>)
    ensures
        skipped_lines_of(rows).len() == count_skipped(rows),
    decreases rows.len(),
{
    if rows.len() > 0 {
        law_every_skip_is_reported(rows.drop_last());
    }
}

/// One report line per match, in order.
pub fn match_lines(matches: &Vec<TrackMatch>) -> (r: Vec<String>)
    ensures
        strs(r@) == matches_view(matches@).map_values(|m: TrackMatchView| track_line_of(m)),
{
    let mut out: Vec<String> = Vec::new();
    let n = matches.len();
    let mut i: usize = 0;
    while i < n
        invariant
            n == matches@.len(),
            i <= n,
            out@.len() == i,
            forall|k: int| 0 <= k < i ==> (#[trigger] out@[k])@ == track_line_of(matches@[k]@),
        decreases n - i,
    {
        out.push(track_line(&matches[i]));
        i = i + 1;
    }
    assert(strs(out@) =~= matches_view(matches@).map_values(|m: TrackMatchView| track_line_of(m)));
    out
}

/// What the listener is told about the items that can't be looked up.
pub open spec fn leaving_out_line_of(n: nat) -> Seq<char> {
    "Leaving out "@ + crate::screen::songs_of(n)
        + " — local files and tracks Spotify has removed aren't in Apple Music's catalogue. They're named at the end."@
}

/// The line that announces the items left out.
pub fn leaving_out_line(n: usize) -> (r: String)
    ensures
        r@ == leaving_out_line_of(n as nat),
{
    let mut out: Vec<char> = Vec::new();
    push_str(&mut out, "Leaving out ");
    let count = crate::screen::songs(n);
    push_str(&mut out, count.as_str());
    push_str(
        &mut out,
        " — local files and tracks Spotify has removed aren't in Apple Music's catalogue. They're named at the end.",
    );
    string_of(&out)
}

/// `"Created \"Name\" — 4 songs added."`
pub open spec fn created_line_of(name: Seq<char>, added: nat) -> Seq<char> {
    "Created \""@ + name + "\" — "@ + crate::screen::songs_of(added) + " added."@
}

/// The line that reports the playlist created.
pub fn created_line(name: &str, added: usize) -> (r: String)
    ensures
        r@ == created_line_of(name@, added as nat),
{
    let mut out: Vec<char> = Vec::new();
    push_str(&mut out, "Created \"");
    push_str(&mut out, name);
    push_str(&mut out, "\" — ");
    let s = crate::screen::songs(added);
    push_str(&mut out, s.as_str());
    push_str(&mut out, " added.");
    string_of(&out)
}

/// `"Read \"Name\" — 4 songs from Spotify."`
pub open spec fn read_line_of(name: Seq<char>, count: nat) -> Seq<char> {
    "Read \""@ + name + "\" — "@ + crate::screen::songs_of(count) + " from Spotify."@
}

/// The line that reports the playlist read, counting every item in it.
pub fn read_line(name: &str, count: usize) -> (r: String)
    ensures
        r@ == read_line_of(name@, count as nat),
{
    let mut out: Vec<char> = Vec::new();
    push_str(&mut out, "Read \"");
    push_str(&mut out, name);
    push_str(&mut out, "\" — ");
    let s = crate::screen::songs(count);
    push_str(&mut out, s.as_str());
    push_str(&mut out, " from Spotify.");
    string_of(&out)
}

// ---------------------------------------------------------------------------
// Progress
// ---------------------------------------------------------------------------

/// How many of `isrcs` came back in a lookup's `(isrc, candidate)` pairs.
pub open spec fn resolved_count_of(isrcs: Seq<Seq<char>>, found: Seq<Seq<char>>) -> nat
    decreases isrcs.len(),
{
    if isrcs.len() == 0 {
        0
    } else {
        resolved_count_of(isrcs.drop_last(), found) + if found.contains(isrcs.last()) {
            1nat
        } else {
            0nat
        }
    }
}

/// How many of `isrcs` the lookup found: a track counts as done when its
/// ISRC came back from the batch.
pub fn resolved_count(isrcs: &Vec<String>, pairs: &Vec<(String, crate::types::Candidate)>) -> (r: usize)
    ensures
        r == resolved_count_of(strs(isrcs@), pairs@.map_values(|p: (String, crate::types::Candidate)| p.0@)),
{
    let ghost found = pairs@.map_values(|p: (String, crate::types::Candidate)| p.0@);
    let ghost keys = strs(isrcs@);
    let n = isrcs.len();
    let mut count: usize = 0;
    let mut i: usize = 0;
    while i < n
        invariant
            n == isrcs@.len(),
            keys == strs(isrcs@),
            found == pairs@.map_values(|p: (String, crate::types::Candidate)| p.0@),
            i <= n,
            count == resolved_count_of(keys.take(i as int), found),
            count <= i,
        decreases n - i,
    {
        assert(keys.take(i + 1).drop_last() =~= keys.take(i as int));
        let mut hit = false;
        let m = pairs.len();
        let mut j: usize = 0;
        while j < m && !hit
            invariant
                m == pairs@.len(),
                found == pairs@.map_values(|p: (String, crate::types::Candidate)| p.0@),
                j <= m,
                hit ==> found.contains(isrcs@[i as int]@),
                !hit ==> forall|x: int| 0 <= x < j ==> found[x] != isrcs@[i as int]@,
                i < isrcs@.len(),
            decreases m - j,
        {
            if pairs[j].0 == isrcs[i] {
                assert(found[j as int] == isrcs@[i as int]@);
                hit = true;
            }
            j = j + 1;
        }
        assert(keys.take(i + 1).last() == isrcs@[i as int]@);
        if hit {
            count = count + 1;
        }
        i = i + 1;
    }
    assert(keys.take(n as int) =~= keys);
    count
}

// ---------------------------------------------------------------------------
// Home directory paths
// ---------------------------------------------------------------------------

/// How a typed path refers to the home directory.
#[derive(Debug, PartialEq, Eq)]
pub enum HomeRef {
    /// Exactly `~`: the home directory itself.
    Home,
    /// `~/rest`: `rest` under the home directory.
    Under(String),
    /// Anything else, taken as typed. `~` mid-path is a real directory name.
    Plain,
}

/// How `input` refers to the home directory. The shell only expands `~`
/// when it is typed as a bare word, not inside a prompt answer, so rocola
/// does it.
pub fn home_ref(input: &str) -> (r: HomeRef)
    ensures
        input@ == "~"@ ==> r == HomeRef::Home,
        input@ != "~"@ && crate::text::has_prefix(input@, "~/"@) ==> (r matches HomeRef::Under(
            rest,
        ) && rest@ == input@.skip(2)),
        input@ != "~"@ && !crate::text::has_prefix(input@, "~/"@) ==> r == HomeRef::Plain,
{
    let cs = crate::text::chars_of(input);
    let tilde = crate::text::chars_of("~");
    if crate::text::same_chars(&cs, &tilde) {
        return HomeRef::Home;
    }
    let prefix = crate::text::chars_of("~/");
    proof {
        reveal_strlit("~/");
    }
    if crate::text::starts_with(&cs, &prefix) {
        let rest = crate::text::slice_chars(&cs, 2, cs.len());
        HomeRef::Under(string_of(&rest))
    } else {
        HomeRef::Plain
    }
}

// ---------------------------------------------------------------------------
// The name of the new playlist
// ---------------------------------------------------------------------------

/// The `k`-th alternative name: `"<name> (rocola)"`, then
/// `"<name> (rocola 2)"`, `"<name> (rocola 3)"` and so on.
pub open spec fn rocola_name(wanted: Seq<char>, k: nat) -> Seq<char> {
    if k <= 1 {
        wanted + " (rocola)"@
    } else {
        wanted + " (rocola "@ + decimal(k) + ")"@
    }
}

/// Whether the new playlist can take the name asked for, or else the
/// first free alternative to offer.
#[derive(Debug, PartialEq, Eq)]
pub enum NameChoice {
    /// No playlist has that name yet.
    Free,
    /// A playlist has it; offer this name instead.
    Taken(String),
}

proof fn lemma_decimal_len(n: nat)
    ensures
        decimal(n).len() >= 1,
        (decimal(n).len() == 1) == (n < 10),
    decreases n,
{
    if n >= 10 {
        lemma_decimal_len(n / 10);
    }
}

proof fn lemma_digit_injective(a: nat, b: nat)
    requires
        a < 10,
        b < 10,
        digit(a) == digit(b),
    ensures
        a == b,
{
    assert((48 + a) as char as u32 == 48 + a);
    assert((48 + b) as char as u32 == 48 + b);
}

proof fn lemma_decimal_injective(a: nat, b: nat)
    requires
        decimal(a) == decimal(b),
    ensures
        a == b,
    decreases a,
{
    lemma_decimal_len(a);
    lemma_decimal_len(b);
    if a < 10 && b < 10 {
        assert(decimal(a)[0] == digit(a));
        assert(decimal(b)[0] == digit(b));
        lemma_digit_injective(a, b);
    } else if a >= 10 && b >= 10 {
        assert(decimal(a).last() == digit(a % 10));
        assert(decimal(b).last() == digit(b % 10));
        lemma_digit_injective(a % 10, b % 10);
        assert(decimal(a).drop_last() =~= decimal(a / 10));
        assert(decimal(b).drop_last() =~= decimal(b / 10));
        lemma_decimal_injective(a / 10, b / 10);
    }
}

proof fn lemma_rocola_names_distinct(wanted: Seq<char>, j: nat, k: nat)
    requires
        1 <= j < k,
    ensures
        rocola_name(wanted, j) != rocola_name(wanted, k),
{
    reveal_strlit(" (rocola)");
    reveal_strlit(" (rocola ");
    reveal_strlit(")");
    let w = wanted.len() as int;
    let b = rocola_name(wanted, k);
    lemma_decimal_len(k);
    assert(b[w + 8] == ' ');
    if j <= 1 {
        let a = rocola_name(wanted, j);
        assert(a[w + 8] == ')');
    } else {
        let a = rocola_name(wanted, j);
        if a == b {
            lemma_decimal_len(j);
            assert(a.len() == w + 10 + decimal(j).len());
            assert(b.len() == w + 10 + decimal(k).len());
            assert(decimal(j).len() == decimal(k).len());
            assert(a.subrange(w + 9, w + 9 + decimal(j).len()) =~= decimal(j));
            assert(b.subrange(w + 9, w + 9 + decimal(k).len()) =~= decimal(k));
            lemma_decimal_injective(j, k);
        }
    }
}

proof fn lemma_pigeonhole(wanted: Seq<char>, k: nat, existing: Seq<Seq<char>>)
    requires
        forall|j: nat| 1 <= j <= k ==> existing.contains(#[trigger] rocola_name(wanted, j)),
    ensures
        k <= existing.len(),
{
    let names = Seq::new(k, |i: int| rocola_name(wanted, (i + 1) as nat));
    assert(names.no_duplicates()) by {
        assert forall|x: int, y: int| 0 <= x < names.len() && 0 <= y < names.len() && x != y
            implies names[x] != names[y] by {
            if x < y {
                lemma_rocola_names_distinct(wanted, (x + 1) as nat, (y + 1) as nat);
            } else {
                lemma_rocola_names_distinct(wanted, (y + 1) as nat, (x + 1) as nat);
            }
        }
    }
    names.unique_seq_to_set();
    existing.lemma_cardinality_of_set();
    assert(names.to_set().subset_of(existing.to_set())) by {
        assert forall|x: Seq<char>| names.to_set().contains(x) implies existing.to_set().contains(x) by {
            let i = choose|i: int| 0 <= i < names.len() && names[i] == x;
            assert(existing.contains(rocola_name(wanted, (i + 1) as nat)));
        }
    }
    vstd::seq_lib::seq_to_set_is_finite(existing);
    vstd::set_lib::lemma_len_subset(names.to_set(), existing.to_set());
}

fn contains_name(existing: &Vec<String>, name: &Vec<char>) -> (r: bool)
    ensures
        r == strs(existing@).contains(name@),
{
    let n = existing.len();
    let mut i: usize = 0;
    while i < n
        invariant
            n == existing@.len(),
            i <= n,
            forall|k: int| 0 <= k < i ==> existing@[k]@ != name@,
        decreases n - i,
    {
        let cs = crate::text::chars_of(existing[i].as_str());
        if crate::text::same_chars(&cs, name) {
            assert(strs(existing@)[i as int] == name@);
            return true;
        }
        i = i + 1;
    }
    proof {
        if strs(existing@).contains(name@) {
            let k = choose|k: int| 0 <= k < strs(existing@).len() && strs(existing@)[k] == name@;
            assert(existing@[k]@ == name@);
        }
    }
    false
}

/// Whether a new playlist can be called `wanted`, given the names already in
/// the library, and if not, the first of `"<wanted> (rocola)"`,
/// `"<wanted> (rocola 2)"`, … that is free. The offered name is never one
/// that exists: rocola never adds to an existing playlist and never quietly
/// makes a duplicate.
pub fn choose_playlist_name(wanted: &str, existing: &Vec<String>) -> (r: NameChoice)
    requires
        existing@.len() < usize::MAX,
    ensures
        !strs(existing@).contains(wanted@) ==> r == NameChoice::Free,
        strs(existing@).contains(wanted@) ==> (r matches NameChoice::Taken(s) && exists|k: nat|
            k >= 1 && s@ == rocola_name(wanted@, k) && !strs(existing@).contains(s@) && forall|
                j: nat,
            | 1 <= j < k ==> strs(existing@).contains(#[trigger] rocola_name(wanted@, j))),
{
    let w = crate::text::chars_of(wanted);
    if !contains_name(existing, &w) {
        return NameChoice::Free;
    }
    let ghost names = strs(existing@);
    let mut k: usize = 1;
    loop
        invariant
            1 <= k <= existing@.len() + 1,
            names == strs(existing@),
            names.contains(wanted@),
            existing@.len() < usize::MAX,
            w@ == wanted@,
            forall|j: nat| 1 <= j < k ==> names.contains(#[trigger] rocola_name(wanted@, j)),
        decreases existing@.len() + 1 - k,
    {
        let mut cand: Vec<char> = Vec::new();
        push_str(&mut cand, wanted);
        if k == 1 {
            push_str(&mut cand, " (rocola)");
        } else {
            push_str(&mut cand, " (rocola ");
            push_decimal(&mut cand, k as u64);
            push_str(&mut cand, ")");
        }
        assert(cand@ =~= rocola_name(wanted@, k as nat));
        if !contains_name(existing, &cand) {
            return NameChoice::Taken(string_of(&cand));
        }
        proof {
            assert forall|j: nat| 1 <= j <= k implies names.contains(
                #[trigger] rocola_name(wanted@, j),
            ) by {}
            lemma_pigeonhole(wanted@, k as nat, names);
        }
        k = k + 1;
    }
}

/// The offered name is never taken, and it is the first free one of the
/// sequence, so a second run never quietly makes a duplicate.
pub proof fn law_offered_name_is_free(wanted: Seq<char>, existing: Seq<Seq<char>>, k: nat)
    requires
        k >= 1,
        !existing.contains(rocola_name(wanted, k)),
    ensures
        rocola_name(wanted, k) != wanted,
        forall|x: int| 0 <= x < existing.len() ==> existing[x] != rocola_name(wanted, k),
{
    reveal_strlit(" (rocola)");
    reveal_strlit(" (rocola ");
    assert(rocola_name(wanted, k).len() > wanted.len());
}

} // verus!
