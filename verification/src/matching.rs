//! Scoring a candidate against a source track, and ranking and classifying
//! all the candidates found for one track.
use vstd::prelude::*;

use crate::normalize::{artist_key, normalize_artist, normalize_title, title_key};
use crate::types::{
    cands, Candidate, CandidateView, Confidence, MatchedBy, SourceTrack, SourceTrackView,
    TrackMatch, TrackMatchView,
};

verus! {

/// Within this many milliseconds two recordings are the same length.
pub const DURATION_TIGHT_MS: u32 = 3000;

/// Within this many milliseconds two recordings are nearly the same length.
pub const DURATION_LOOSE_MS: u32 = 10000;

/// A best score at or above this is a confident match.
pub const HIGH_THRESHOLD: u32 = 85;

/// A best score at or above this goes to review.
pub const AMBIGUOUS_THRESHOLD: u32 = 50;

// ---------------------------------------------------------------------------
// Scoring
// ---------------------------------------------------------------------------

/// The absolute difference of two durations.
pub open spec fn duration_delta(a: u32, b: u32) -> int {
    if a >= b {
        a - b
    } else {
        b - a
    }
}

/// 20 points within 3 seconds, 10 within 10 seconds, else nothing.
pub open spec fn duration_points(a: u32, b: u32) -> nat {
    let d = duration_delta(a, b);
    if d <= DURATION_TIGHT_MS {
        20
    } else if d <= DURATION_LOOSE_MS {
        10
    } else {
        0
    }
}

/// The comparison keys of a list of artist names.
pub open spec fn artist_keys(xs: Seq<Seq<char>>) -> Seq<Seq<char>> {
    xs.map_values(|x: Seq<char>| artist_key(x))
}

/// How many entries of `a` (duplicates counted) also occur in `b`.
pub open spec fn shared_count(a: Seq<Seq<char>>, b: Seq<Seq<char>>) -> nat
    decreases a.len(),
{
    if a.len() == 0 {
        0
    } else {
        shared_count(a.drop_last(), b) + if b.contains(a.last()) {
            1nat
        } else {
            0nat
        }
    }
}

/// The larger of the two list lengths, and at least one.
pub open spec fn overlap_denominator(a: Seq<Seq<char>>, b: Seq<Seq<char>>) -> nat {
    if a.len() >= b.len() && a.len() >= 1 {
        a.len()
    } else if b.len() >= 1 {
        b.len()
    } else {
        1
    }
}

/// Up to 30 points, in proportion to the normalised artists the two lists
/// share.
pub open spec fn overlap_points(a: Seq<Seq<char>>, b: Seq<Seq<char>>) -> nat {
    let na = artist_keys(a);
    let nb = artist_keys(b);
    (30 * shared_count(na, nb)) / overlap_denominator(na, nb)
}

/// Points for matching title (40), artists (up to 30), duration (20 or 10)
/// and album (10).
pub open spec fn score_of(s: SourceTrackView, c: CandidateView) -> nat {
    (if title_key(s.title) == title_key(c.title) {
        40nat
    } else {
        0nat
    }) + overlap_points(s.artists, c.artists) + duration_points(s.duration_ms, c.duration_ms) + (
    if title_key(s.album) == title_key(c.album) {
        10nat
    } else {
        0nat
    })
}

proof fn lemma_shared_count_bound(a: Seq<Seq<char>>, b: Seq<Seq<char>>)
    ensures
        shared_count(a, b) <= a.len(),
    decreases a.len(),
{
    if a.len() > 0 {
        lemma_shared_count_bound(a.drop_last(), b);
    }
}

proof fn lemma_overlap_bound(a: Seq<Seq<char>>, b: Seq<Seq<char>>)
    ensures
        overlap_points(a, b) <= 30,
{
    let na = artist_keys(a);
    let nb = artist_keys(b);
    lemma_shared_count_bound(na, nb);
    let s = shared_count(na, nb);
    let d = overlap_denominator(na, nb);
    assert(s <= d);
    assert((30 * s) / d <= 30) by (nonlinear_arith)
        requires
            s <= d,
            d >= 1,
    ;
}

/// A score never exceeds 100.
pub proof fn law_score_at_most_100(s: SourceTrackView, c: CandidateView)
    ensures
        score_of(s, c) <= 100,
{
    lemma_overlap_bound(s.artists, c.artists);
}

/// Whether `needle` is among `hay`.
fn contains_string(hay: &Vec<String>, needle: &String) -> (r: bool)
    ensures
        r == crate::text::strs(hay@).contains(needle@),
{
    let n = hay.len();
    let mut i: usize = 0;
    while i < n
        invariant
            n == hay@.len(),
            i <= n,
            forall|k: int| 0 <= k < i ==> hay@[k]@ != needle@,
        decreases n - i,
    {
        if hay[i] == *needle {
            assert(crate::text::strs(hay@)[i as int] == needle@);
            return true;
        }
        i = i + 1;
    }
    proof {
        let hs = crate::text::strs(hay@);
        if hs.contains(needle@) {
            let k = choose|k: int| 0 <= k < hs.len() && hs[k] == needle@;
            assert(hay@[k]@ == needle@);
        }
    }
    false
}

/// The normalised forms of `xs`.
fn normalized_artists(xs: &Vec<String>) -> (r: Vec<String>)
    ensures
        crate::text::strs(r@) == artist_keys(crate::text::strs(xs@)),
{
    let mut out: Vec<String> = Vec::new();
    let n = xs.len();
    let mut i: usize = 0;
    while i < n
        invariant
            n == xs@.len(),
            i <= n,
            out@.len() == i,
            forall|k: int| 0 <= k < i ==> (#[trigger] out@[k])@ == artist_key(xs@[k]@),
        decreases n - i,
    {
        let a = normalize_artist(xs[i].as_str());
        out.push(a);
        i = i + 1;
    }
    assert(crate::text::strs(out@) =~= artist_keys(crate::text::strs(xs@)));
    out
}

/// Up to 30 points for the share of normalised artists that appear in both
/// lists.
fn artist_overlap(a: &Vec<String>, b: &Vec<String>) -> (r: u32)
    ensures
        r == overlap_points(crate::text::strs(a@), crate::text::strs(b@)),
{
    let na = normalized_artists(a);
    let nb = normalized_artists(b);
    let ghost ka = crate::text::strs(na@);
    let ghost kb = crate::text::strs(nb@);
    let n = na.len();
    let mut shared: usize = 0;
    let mut i: usize = 0;
    while i < n
        invariant
            n == na@.len(),
            i <= n,
            ka == crate::text::strs(na@),
            kb == crate::text::strs(nb@),
            shared == shared_count(ka.take(i as int), kb),
            shared <= i,
        decreases n - i,
    {
        assert(ka.take(i + 1).drop_last() =~= ka.take(i as int));
        if contains_string(&nb, &na[i]) {
            shared = shared + 1;
        }
        i = i + 1;
    }
    assert(ka.take(n as int) =~= ka);
    let la = na.len();
    let lb = nb.len();
    let denom: usize = if la >= lb && la >= 1 {
        la
    } else if lb >= 1 {
        lb
    } else {
        1
    };
    proof {
        lemma_overlap_bound(crate::text::strs(a@), crate::text::strs(b@));
    }
    let points = (30u128 * (shared as u128)) / (denom as u128);
    points as u32
}

/// 0–100. Weights: title 40, artists 30, duration 20 (tight) / 10 (loose), album 10.
pub fn score(source: &SourceTrack, candidate: &Candidate) -> (r: u32)
    ensures
        r == score_of(source@, candidate@),
        r <= 100,
{
    proof {
        law_score_at_most_100(source@, candidate@);
    }
    let mut total: u32 = 0;
    if normalize_title(source.title.as_str()) == normalize_title(candidate.title.as_str()) {
        total = total + 40;
    }
    total = total + artist_overlap(&source.artists, &candidate.artists);
    let delta = if source.duration_ms >= candidate.duration_ms {
        source.duration_ms - candidate.duration_ms
    } else {
        candidate.duration_ms - source.duration_ms
    };
    if delta <= DURATION_TIGHT_MS {
        total = total + 20;
    } else if delta <= DURATION_LOOSE_MS {
        total = total + 10;
    }
    if normalize_title(source.album.as_str()) == normalize_title(candidate.album.as_str()) {
        total = total + 10;
    }
    total
}

// ---------------------------------------------------------------------------
// Ranking and classification
// ---------------------------------------------------------------------------

/// The candidates of `cs` that score exactly `k` against `s`, in order.
pub open spec fn with_score(s: SourceTrackView, cs: Seq<CandidateView>, k: nat) -> Seq<
    CandidateView,
> {
    cs.filter(|c: CandidateView| score_of(s, c) == k)
}

/// `r` holds its candidates best score first.
pub open spec fn best_first(s: SourceTrackView, r: Seq<CandidateView>) -> bool {
    forall|i: int, j: int| 0 <= i < j < r.len() ==> score_of(s, #[trigger] r[i]) >= score_of(s, #[trigger] r[j])
}

/// `r` is `input` sorted best score first, candidates of equal score keeping
/// their input order (a stable sort on descending score).
pub open spec fn is_ranking(s: SourceTrackView, input: Seq<CandidateView>, r: Seq<CandidateView>) -> bool {
    &&& best_first(s, r)
    &&& forall|k: nat| #[trigger] with_score(s, r, k) == with_score(s, input, k)
    &&& r.to_multiset() == input.to_multiset()
}

/// An ISRC-found candidate within 3 seconds of the source: the same recording.
pub open spec fn isrc_exact(s: SourceTrackView, c: CandidateView) -> bool {
    c.matched_by == MatchedBy::Isrc && duration_delta(s.duration_ms, c.duration_ms)
        <= DURATION_TIGHT_MS
}

/// The first position at or after `i` holding an ISRC-exact candidate.
pub open spec fn first_exact_from(s: SourceTrackView, r: Seq<CandidateView>, i: int) -> Option<int>
    decreases r.len() - i,
{
    if i < 0 || i >= r.len() {
        None
    } else if isrc_exact(s, r[i]) {
        Some(i)
    } else {
        first_exact_from(s, r, i + 1)
    }
}

/// The confidence that the best-ranked candidate's score earns.
pub open spec fn confidence_of_best(s: SourceTrackView, r: Seq<CandidateView>) -> Confidence {
    if r.len() == 0 {
        Confidence::NotFound
    } else if score_of(s, r[0]) >= HIGH_THRESHOLD {
        Confidence::High
    } else if score_of(s, r[0]) >= AMBIGUOUS_THRESHOLD {
        Confidence::Ambiguous
    } else {
        Confidence::NotFound
    }
}

/// `r` with positions 0 and `p` exchanged.
pub open spec fn swap_front(r: Seq<CandidateView>, p: int) -> Seq<CandidateView> {
    r.update(0, r[p]).update(p, r[0])
}

/// The outcome built from a ranking: the first ISRC-exact candidate, if any,
/// is exchanged with the front and the track is `Exact`; otherwise the
/// ranking stands and the front candidate's score decides.
pub open spec fn outcome_of_ranking(s: SourceTrackView, r: Seq<CandidateView>) -> (
    Seq<CandidateView>,
    Confidence,
) {
    match first_exact_from(s, r, 0) {
        Some(p) => (swap_front(r, p), Confidence::Exact),
        None => (r, confidence_of_best(s, r)),
    }
}

/// `m` is the classification of `s` against `input`.
pub open spec fn is_classification(s: SourceTrackView, input: Seq<CandidateView>, m: TrackMatchView) -> bool {
    &&& m.source == s
    &&& exists|r: Seq<CandidateView>|
        is_ranking(s, input, r) && #[trigger] outcome_of_ranking(s, r) == (
            m.candidates,
            m.confidence,
        )
}

/// Sorts `v` best score first, keeping candidates of equal score in their
/// order (std's stable `slice::sort_by_key`, keyed on the reversed score).
/// The contract states what std documents of that sort: the result is a
/// permutation, ordered by descending key, with equal keys in input order.
#[verifier::external_body]
fn sort_by_score(source: &SourceTrack, v: &mut Vec<Candidate>)
    ensures
        is_ranking(source@, cands(old(v)@), cands(final(v)@)),
{
    v.sort_by_key(|c| std::cmp::Reverse(score(source, c)));
}

/// Exchanges positions 0 and `p` of `v`.
fn swap_to_front(v: &mut Vec<Candidate>, p: usize)
    requires
        p < old(v)@.len(),
    ensures
        cands(final(v)@) == swap_front(cands(old(v)@), p as int),
{
    let ghost before = cands(v@);
    if p > 0 {
        let x = v.remove(p);
        let y = v.remove(0);
        v.insert(0, x);
        v.insert(p, y);
        assert(cands(v@) =~= swap_front(before, p as int));
    } else {
        assert(before =~= swap_front(before, 0));
    }
}

/// Sort candidates best-first and classify.
///
/// An ISRC-found candidate whose duration is within 3s is trusted as the
/// same recording: `Exact`. Score alone can rank a well-scoring search decoy
/// above such a candidate, so the ISRC-exact one (the best-scoring among any
/// that qualify) is promoted to the front of the list before it is used for
/// auto-accept downstream.
pub fn classify(source: &SourceTrack, candidates: Vec<Candidate>) -> (m: TrackMatch)
    ensures
        is_classification(source@, cands(candidates@), m@),
{
    let mut candidates = candidates;
    let ghost input = cands(candidates@);
    sort_by_score(source, &mut candidates);
    let ghost ranked = cands(candidates@);
    let n = candidates.len();
    let mut pos: Option<usize> = None;
    let mut i: usize = 0;
    while i < n
        invariant
            n == candidates@.len(),
            ranked == cands(candidates@),
            i <= n,
            pos is None ==> first_exact_from(source@, ranked, 0) == first_exact_from(
                source@,
                ranked,
                i as int,
            ),
            pos matches Some(p) ==> first_exact_from(source@, ranked, 0) == Some(p as int) && p
                < n,
        decreases n - i,
    {
        if pos.is_none() {
            let c = &candidates[i];
            let delta = if source.duration_ms >= c.duration_ms {
                source.duration_ms - c.duration_ms
            } else {
                c.duration_ms - source.duration_ms
            };
            assert(ranked[i as int] == c@);
            if c.matched_by == MatchedBy::Isrc && delta <= DURATION_TIGHT_MS {
                pos = Some(i);
            }
        }
        i = i + 1;
    }
    let confidence = match pos {
        Some(p) => {
            swap_to_front(&mut candidates, p);
            Confidence::Exact
        },
        None => {
            if candidates.len() == 0 {
                Confidence::NotFound
            } else {
                let s = score(source, &candidates[0]);
                assert(ranked[0] == candidates@[0]@);
                if s >= HIGH_THRESHOLD {
                    Confidence::High
                } else if s >= AMBIGUOUS_THRESHOLD {
                    Confidence::Ambiguous
                } else {
                    Confidence::NotFound
                }
            }
        },
    };
    let m = TrackMatch { source: source.clone(), candidates, confidence };
    assert(outcome_of_ranking(source@, ranked) == (m@.candidates, m@.confidence));
    m
}

proof fn lemma_first_exact_from(s: SourceTrackView, r: Seq<CandidateView>, i: int)
    requires
        0 <= i,
    ensures
        first_exact_from(s, r, i) matches Some(p) ==> i <= p < r.len() && isrc_exact(s, r[p])
            && forall|k: int| i <= k < p ==> !isrc_exact(s, #[trigger] r[k]),
        first_exact_from(s, r, i) is None ==> forall|k: int|
            i <= k < r.len() ==> !isrc_exact(s, #[trigger] r[k]),
    decreases r.len() - i,
{
    if i < r.len() && !isrc_exact(s, r[i]) {
        lemma_first_exact_from(s, r, i + 1);
    }
}

/// Classifying never drops or invents a candidate. A track is `Exact` exactly
/// when some candidate is an ISRC hit within three seconds of the source, and
/// then the front candidate is such a hit, scoring at least as well as every
/// other one. Otherwise the candidates come best score first and the front
/// one's score decides the confidence.
pub proof fn law_classification(s: SourceTrackView, input: Seq<CandidateView>, m: TrackMatchView)
    requires
        is_classification(s, input, m),
    ensures
        m.candidates.to_multiset() == input.to_multiset(),
        (m.confidence == Confidence::Exact) <==> exists|i: int|
            0 <= i < input.len() && isrc_exact(s, #[trigger] input[i]),
        m.confidence == Confidence::Exact ==> {
            &&& isrc_exact(s, m.candidates[0])
            &&& forall|j: int|
                0 <= j < m.candidates.len() && isrc_exact(s, #[trigger] m.candidates[j])
                    ==> score_of(s, m.candidates[0]) >= score_of(s, m.candidates[j])
        },
        m.confidence != Confidence::Exact ==> best_first(s, m.candidates) && m.confidence
            == confidence_of_best(s, m.candidates),
{
    broadcast use vstd::seq_lib::group_to_multiset_ensures;
    broadcast use vstd::seq_lib::to_multiset_update;

    let r = choose|r: Seq<CandidateView>|
        is_ranking(s, input, r) && #[trigger] outcome_of_ranking(s, r) == (
            m.candidates,
            m.confidence,
        );
    lemma_first_exact_from(s, r, 0);
    match first_exact_from(s, r, 0) {
        Some(p) => {
            let sw = swap_front(r, p);
            assert(sw.to_multiset() =~= r.to_multiset());
            assert(input.to_multiset().count(r[p]) > 0);
            assert(input.contains(r[p]));
            assert forall|j: int|
                0 <= j < sw.len() && isrc_exact(s, #[trigger] sw[j]) implies score_of(s, sw[0])
                >= score_of(s, sw[j]) by {
                if j != 0 && j != p {
                    assert(sw[j] == r[j]);
                    assert(score_of(s, r[p]) >= score_of(s, r[j]));
                }
            }
        },
        None => {
            if exists|i: int| 0 <= i < input.len() && isrc_exact(s, #[trigger] input[i]) {
                let i = choose|i: int| 0 <= i < input.len() && isrc_exact(s, #[trigger] input[i]);
                assert(input.contains(input[i]));
                assert(r.to_multiset().count(input[i]) > 0);
                assert(r.contains(input[i]));
                let q = choose|q: int| 0 <= q < r.len() && r[q] == input[i];
                assert(!isrc_exact(s, r[q]));
            }
        },
    }
}

/// When no candidate is an ISRC hit within three seconds, the confidence
/// comes from the front candidate's score alone, whatever the number of
/// candidates: High from 85 points, Ambiguous from 50 up to 85, NotFound
/// below 50 or with no candidate at all; and the front candidate scores at
/// least as well as every other.
pub proof fn law_confidence_from_best_score(
    s: SourceTrackView,
    input: Seq<CandidateView>,
    m: TrackMatchView,
)
    requires
        is_classification(s, input, m),
        forall|i: int|
            0 <= i < input.len() ==> !((#[trigger] input[i]).matched_by == MatchedBy::Isrc && (
            if s.duration_ms >= input[i].duration_ms {
                s.duration_ms - input[i].duration_ms
            } else {
                input[i].duration_ms - s.duration_ms
            }) <= 3000),
    ensures
        m.candidates.len() == input.len(),
        (m.confidence == Confidence::High) <==> (m.candidates.len() > 0 && score_of(
            s,
            m.candidates[0],
        ) >= 85),
        (m.confidence == Confidence::Ambiguous) <==> (m.candidates.len() > 0 && 50 <= score_of(
            s,
            m.candidates[0],
        ) < 85),
        (m.confidence == Confidence::NotFound) <==> (m.candidates.len() == 0 || score_of(
            s,
            m.candidates[0],
        ) < 50),
        m.confidence != Confidence::Exact,
        forall|j: int|
            0 <= j < m.candidates.len() ==> score_of(s, #[trigger] m.candidates[j]) <= score_of(
                s,
                m.candidates[0],
            ),
{
    broadcast use vstd::seq_lib::group_to_multiset_ensures;

    law_classification(s, input, m);
    assert(m.candidates.to_multiset().len() == input.to_multiset().len());
    assert(m.candidates.len() == input.len());
    assert(m.confidence != Confidence::Exact) by {
        if m.confidence == Confidence::Exact {
            let i = choose|i: int| 0 <= i < input.len() && isrc_exact(s, #[trigger] input[i]);
            assert(isrc_exact(s, input[i]));
        }
    }
    assert forall|j: int| 0 <= j < m.candidates.len() implies score_of(s, #[trigger] m.candidates[j])
        <= score_of(s, m.candidates[0]) by {
        if j > 0 {
            assert(score_of(s, m.candidates[0]) >= score_of(s, m.candidates[j]));
        }
    }
}

/// The artist points of a candidate: 30 times the number of the source's
/// artists (after normalising) that the candidate also credits, divided,
/// rounding down, by the longer of the two artist lists (at least one). So
/// a candidate crediting more artists than the source never gets the full
/// 30, and crediting an extra artist the source lacks never gains points.
pub proof fn law_artist_points(s: SourceTrackView, c: CandidateView, extra: Seq<char>)
    ensures
        ({
            let a = s.artists.map_values(|x: Seq<char>| artist_key(x));
            let b = c.artists.map_values(|x: Seq<char>| artist_key(x));
            let shared = a.filter(|x: Seq<char>| b.contains(x)).len();
            let longer: int = if a.len() >= b.len() {
                a.len() as int
            } else {
                b.len() as int
            };
            let denominator: int = if longer >= 1 {
                longer
            } else {
                1
            };
            overlap_points(s.artists, c.artists) == (30 * (shared as int)) / denominator
        }),
        c.artists.len() > s.artists.len() ==> overlap_points(s.artists, c.artists) < 30,
        c.artists.len() > s.artists.len() ==> score_of(s, c) < 100,
        !s.artists.map_values(|x: Seq<char>| artist_key(x)).contains(artist_key(extra))
            ==> overlap_points(s.artists, c.artists.push(extra)) <= overlap_points(
            s.artists,
            c.artists,
        ),
{
    let a = artist_keys(s.artists);
    let b = artist_keys(c.artists);
    lemma_shared_is_filter(a, b);
    lemma_shared_count_bound(a, b);
    let sh = shared_count(a, b);
    let d = overlap_denominator(a, b);
    if c.artists.len() > s.artists.len() {
        assert(d == b.len());
        assert(sh < d);
        assert((30 * sh) / d < 30) by (nonlinear_arith)
            requires
                sh < d,
                d >= 1,
        ;
        assert(duration_points(s.duration_ms, c.duration_ms) <= 20);
    }
    let b2 = artist_keys(c.artists.push(extra));
    assert(b2 =~= b.push(artist_key(extra)));
    if !a.contains(artist_key(extra)) {
        lemma_shared_unchanged(a, b, artist_key(extra));
        let d2 = overlap_denominator(a, b2);
        assert(d2 >= d);
        assert((30 * sh) / d2 <= (30 * sh) / d) by (nonlinear_arith)
            requires
                d2 >= d,
                d >= 1,
        ;
    }
}

proof fn lemma_shared_is_filter(a: Seq<Seq<char>>, b: Seq<Seq<char>>)
    ensures
        shared_count(a, b) == a.filter(|x: Seq<char>| b.contains(x)).len(),
    decreases a.len(),
{
    reveal_with_fuel(Seq::filter, 2);
    if a.len() > 0 {
        lemma_shared_is_filter(a.drop_last(), b);
    }
}

proof fn lemma_shared_unchanged(a: Seq<Seq<char>>, b: Seq<Seq<char>>, k: Seq<char>)
    requires
        !a.contains(k),
    ensures
        shared_count(a, b.push(k)) == shared_count(a, b),
    decreases a.len(),
{
    if a.len() > 0 {
        assert(!a.drop_last().contains(k)) by {
            if a.drop_last().contains(k) {
                let i = choose|i: int| 0 <= i < a.drop_last().len() && a.drop_last()[i] == k;
                assert(a[i] == k);
            }
        }
        lemma_shared_unchanged(a.drop_last(), b, k);
        assert(a.last() != k) by {
            assert(a[a.len() - 1] == a.last());
        }
        assert(b.push(k).contains(a.last()) == b.contains(a.last())) by {
            if b.push(k).contains(a.last()) {
                let i = choose|i: int| 0 <= i < b.push(k).len() && b.push(k)[i] == a.last();
                if i < b.len() {
                    assert(b[i] == a.last());
                }
            }
            if b.contains(a.last()) {
                let i = choose|i: int| 0 <= i < b.len() && b[i] == a.last();
                assert(b.push(k)[i] == a.last());
            }
        }
    }
}

/// A score is the sum of its four parts: 40 when the titles' keys agree,
/// the artist points, 20 when the durations are at most three seconds apart
/// or else 10 when at most ten seconds apart, and 10 when the albums' keys
/// agree.
pub proof fn law_score_parts(s: SourceTrackView, c: CandidateView)
    ensures
        ({
            let delta: int = if s.duration_ms >= c.duration_ms {
                s.duration_ms - c.duration_ms
            } else {
                c.duration_ms - s.duration_ms
            };
            score_of(s, c) == (if title_key(s.title) == title_key(c.title) {
                40int
            } else {
                0int
            }) + overlap_points(s.artists, c.artists) + (if delta <= 3000 {
                20int
            } else if delta <= 10000 {
                10int
            } else {
                0int
            }) + (if title_key(s.album) == title_key(c.album) {
                10int
            } else {
                0int
            })
        }),
{
}

} // verus!
