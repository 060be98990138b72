//! Domain types: a track read from the source service, a candidate found on
//! the target service, and the classified outcome of matching one to the
//! other. Each has a view made of plain mathematical values.
use vstd::prelude::*;

use crate::text::{copy_strings, strs};

verus! {

/// A track as read from the source service (Spotify).
#[derive(Debug, PartialEq, Eq)]
pub struct SourceTrack {
    pub title: String,
    pub artists: Vec<String>,
    pub album: String,
    pub duration_ms: u32,
    /// International Standard Recording Code, when the source provides one.
    pub isrc: Option<String>,
}

/// How a candidate was found on the target service.
#[derive(Debug, Clone, Copy, PartialEq, Eq, Structural)]
pub enum MatchedBy {
    Isrc,
    Search,
}

/// A possible counterpart on the target service (Apple Music).
#[derive(Debug, PartialEq, Eq)]
pub struct Candidate {
    pub catalog_id: String,
    pub title: String,
    pub artists: Vec<String>,
    pub album: String,
    pub duration_ms: u32,
    pub matched_by: MatchedBy,
}

/// Outcome class for one source track. Exact and High are auto-accepted;
/// Ambiguous goes to the review queue; `NotFound` is reported, never dropped.
#[derive(Debug, Clone, Copy, PartialEq, Eq, Structural)]
pub enum Confidence {
    Exact,
    High,
    Ambiguous,
    NotFound,
}

/// One source track with its ranked candidates and classification.
#[derive(Debug, PartialEq, Eq)]
pub struct TrackMatch {
    pub source: SourceTrack,
    pub candidates: Vec<Candidate>,
    pub confidence: Confidence,
}

/// The mathematical content of a [`SourceTrack`].
pub struct SourceTrackView {
    pub title: Seq<char>,
    pub artists: Seq<Seq<char>>,
    pub album: Seq<char>,
    pub duration_ms: u32,
    pub isrc: Option<Seq<char>>,
}

/// The mathematical content of a [`Candidate`].
pub struct CandidateView {
    pub catalog_id: Seq<char>,
    pub title: Seq<char>,
    pub artists: Seq<Seq<char>>,
    pub album: Seq<char>,
    pub duration_ms: u32,
    pub matched_by: MatchedBy,
}

/// The mathematical content of a [`TrackMatch`].
pub struct TrackMatchView {
    pub source: SourceTrackView,
    pub candidates: Seq<CandidateView>,
    pub confidence: Confidence,
}

/// The view of an optional string.
pub open spec fn opt_str(o: Option<String>) -> Option<Seq<char>> {
    match o {
        Some(s) => Some(s@),
        None => None,
    }
}

impl View for SourceTrack {
    type V = SourceTrackView;

    open spec fn view(&self) -> SourceTrackView {
        SourceTrackView {
            title: self.title@,
            artists: strs(self.artists@),
            album: self.album@,
            duration_ms: self.duration_ms,
            isrc: opt_str(self.isrc),
        }
    }
}

impl View for Candidate {
    type V = CandidateView;

    open spec fn view(&self) -> CandidateView {
        CandidateView {
            catalog_id: self.catalog_id@,
            title: self.title@,
            artists: strs(self.artists@),
            album: self.album@,
            duration_ms: self.duration_ms,
            matched_by: self.matched_by,
        }
    }
}

/// The views of a sequence of candidates.
pub open spec fn cands(v: Seq<Candidate>) -> Seq<CandidateView> {
    v.map_values(|c: Candidate| c@)
}

impl View for TrackMatch {
    type V = TrackMatchView;

    open spec fn view(&self) -> TrackMatchView {
        TrackMatchView {
            source: self.source@,
            candidates: cands(self.candidates@),
            confidence: self.confidence,
        }
    }
}

/// The views of a sequence of matches.
pub open spec fn matches_view(v: Seq<TrackMatch>) -> Seq<TrackMatchView> {
    v.map_values(|m: TrackMatch| m@)
}

/// A copy of an optional string.
pub fn copy_opt_string(o: &Option<String>) -> (r: Option<String>)
    ensures
        opt_str(r) == opt_str(*o),
{
    match o {
        Some(s) => Some(s.clone()),
        None => None,
    }
}

impl Clone for SourceTrack {
    fn clone(&self) -> (r: Self)
        ensures
            r@ == self@,
    {
        SourceTrack {
            title: self.title.clone(),
            artists: copy_strings(&self.artists),
            album: self.album.clone(),
            duration_ms: self.duration_ms,
            isrc: copy_opt_string(&self.isrc),
        }
    }
}

impl Clone for Candidate {
    fn clone(&self) -> (r: Self)
        ensures
            r@ == self@,
    {
        Candidate {
            catalog_id: self.catalog_id.clone(),
            title: self.title.clone(),
            artists: copy_strings(&self.artists),
            album: self.album.clone(),
            duration_ms: self.duration_ms,
            matched_by: self.matched_by,
        }
    }
}

/// A copy of every candidate in `v`.
pub fn copy_candidates(v: &Vec<Candidate>) -> (r: Vec<Candidate>)
    ensures
        cands(r@) == cands(v@),
{
    let mut out: Vec<Candidate> = Vec::new();
    let n = v.len();
    let mut i: usize = 0;
    while i < n
        invariant
            n == v@.len(),
            i <= n,
            cands(out@) == cands(v@.take(i as int)),
        decreases n - i,
    {
        let c = v[i].clone();
        let ghost old_out = out@;
        out.push(c);
        assert(v@.take(i + 1) =~= v@.take(i as int).push(v@[i as int]));
        assert(cands(out@) =~= cands(old_out).push(c@));
        assert(cands(v@.take(i + 1)) =~= cands(v@.take(i as int)).push(v@[i as int]@));
        i = i + 1;
    }
    assert(v@.take(n as int) =~= v@);
    out
}

impl Clone for TrackMatch {
    fn clone(&self) -> (r: Self)
        ensures
            r@ == self@,
    {
        TrackMatch {
            source: self.source.clone(),
            candidates: copy_candidates(&self.candidates),
            confidence: self.confidence,
        }
    }
}

} // verus!
