//! The matching pipeline, as a state machine the caller drives.
//!
//! Tier 1 is one batched ISRC lookup for every track that has an ISRC; tier 2
//! is a per-track search for the tracks tier 1 found nothing for. The caller
//! performs the lookups against the target service and hands the answers in;
//! every decision about what to ask and how to classify lives here.
use vstd::prelude::*;

use crate::matching::{classify, is_classification};
use crate::text::strs;
use crate::types::{
    cands, matches_view, Candidate, CandidateView, SourceTrack, SourceTrackView, TrackMatch,
    TrackMatchView,
};

verus! {

/// The views of a sequence of tracks.
pub open spec fn tracks_view(v: Seq<SourceTrack>) -> Seq<SourceTrackView> {
    v.map_values(|t: SourceTrack| t@)
}

/// The views of the `(isrc, candidate)` pairs a lookup returned.
pub open spec fn pairs_view(v: Seq<(String, Candidate)>) -> Seq<(Seq<char>, CandidateView)> {
    v.map_values(|p: (String, Candidate)| (p.0@, p.1@))
}

/// The ISRCs of `tracks`, in track order, skipping tracks without one.
pub open spec fn isrcs_of(tracks: Seq<SourceTrackView>) -> Seq<Seq<char>>
    decreases tracks.len(),
{
    if tracks.len() == 0 {
        seq![]
    } else {
        match tracks.last().isrc {
            Some(k) => isrcs_of(tracks.drop_last()).push(k),
            None => isrcs_of(tracks.drop_last()),
        }
    }
}

/// The candidates paired with `key`, in the order the lookup returned them.
pub open spec fn isrc_hits(pairs: Seq<(Seq<char>, CandidateView)>, key: Seq<char>) -> Seq<
    CandidateView,
>
    decreases pairs.len(),
{
    if pairs.len() == 0 {
        seq![]
    } else if pairs.last().0 == key {
        isrc_hits(pairs.drop_last(), key).push(pairs.last().1)
    } else {
        isrc_hits(pairs.drop_last(), key)
    }
}

/// The ISRC hits for `t` (none when it has no ISRC).
pub open spec fn hits_for(pairs: Seq<(Seq<char>, CandidateView)>, t: SourceTrackView) -> Seq<
    CandidateView,
> {
    match t.isrc {
        Some(k) => isrc_hits(pairs, k),
        None => seq![],
    }
}

/// The candidates `t` is classified against: its ISRC hits, or, when there
/// are none, what the search for it returned.
pub open spec fn candidates_for(
    pairs: Seq<(Seq<char>, CandidateView)>,
    t: SourceTrackView,
    searched: Seq<CandidateView>,
) -> Seq<CandidateView> {
    if hits_for(pairs, t).len() > 0 {
        hits_for(pairs, t)
    } else {
        searched
    }
}

/// The ISRCs to look up in one batch: every track's, in track order.
pub fn isrcs_to_resolve(tracks: &Vec<SourceTrack>) -> (r: Vec<String>)
    ensures
        strs(r@) == isrcs_of(tracks_view(tracks@)),
{
    let mut out: Vec<String> = Vec::new();
    let n = tracks.len();
    let mut i: usize = 0;
    while i < n
        invariant
            n == tracks@.len(),
            i <= n,
            strs(out@) == isrcs_of(tracks_view(tracks@.take(i as int))),
        decreases n - i,
    {
        assert(tracks_view(tracks@.take(i + 1)).drop_last() =~= tracks_view(
            tracks@.take(i as int),
        ));
        assert(tracks_view(tracks@.take(i + 1)).last() == tracks@[i as int]@);
        match &tracks[i].isrc {
            Some(k) => {
                let ghost before = out@;
                out.push(k.clone());
                assert(strs(out@) =~= strs(before).push(k@));
            },
            None => {},
        }
        i = i + 1;
    }
    assert(tracks@.take(n as int) =~= tracks@);
    out
}

/// The candidates paired with `key`, in order.
fn lookup_hits(pairs: &Vec<(String, Candidate)>, key: &String) -> (r: Vec<Candidate>)
    ensures
        cands(r@) == isrc_hits(pairs_view(pairs@), key@),
{
    let mut out: Vec<Candidate> = Vec::new();
    let n = pairs.len();
    let mut i: usize = 0;
    while i < n
        invariant
            n == pairs@.len(),
            i <= n,
            cands(out@) == isrc_hits(pairs_view(pairs@.take(i as int)), key@),
        decreases n - i,
    {
        let ghost pv = pairs_view(pairs@.take(i + 1));
        assert(pv.drop_last() =~= pairs_view(pairs@.take(i as int)));
        assert(pv.last() == (pairs@[i as int].0@, pairs@[i as int].1@));
        if pairs[i].0 == *key {
            let c = pairs[i].1.clone();
            let ghost before = out@;
            out.push(c);
            assert(cands(out@) =~= cands(before).push(c@));
        }
        i = i + 1;
    }
    assert(pairs@.take(n as int) =~= pairs@);
    out
}

/// The positions among the first `n` tracks that have no ISRC hits, in
/// order: the tracks a run searches for.
pub open spec fn no_hit_indices(
    pairs: Seq<(Seq<char>, CandidateView)>,
    tracks: Seq<SourceTrackView>,
    n: int,
) -> Seq<int>
    decreases n,
{
    if n <= 0 {
        seq![]
    } else if hits_for(pairs, tracks[n - 1]).len() == 0 {
        no_hit_indices(pairs, tracks, n - 1).push(n - 1)
    } else {
        no_hit_indices(pairs, tracks, n - 1)
    }
}

/// One run of the pipeline over a playlist's tracks.
pub struct MatchRun {
    tracks: Vec<SourceTrack>,
    resolved: Vec<(String, Candidate)>,
    done: Vec<TrackMatch>,
    searched: Ghost<Seq<Seq<CandidateView>>>,
    asked: Ghost<Seq<int>>,
}

impl MatchRun {
    /// The tracks being matched.
    pub closed spec fn tracks_spec(&self) -> Seq<SourceTrackView> {
        tracks_view(self.tracks@)
    }

    /// What the batched ISRC lookup returned.
    pub closed spec fn resolved_spec(&self) -> Seq<(Seq<char>, CandidateView)> {
        pairs_view(self.resolved@)
    }

    /// The matches made so far, one per track from the first.
    pub closed spec fn done_spec(&self) -> Seq<TrackMatchView> {
        matches_view(self.done@)
    }

    /// What each search returned, by track position.
    pub closed spec fn searched_spec(&self) -> Seq<Seq<CandidateView>> {
        self.searched@
    }

    /// The positions of the tracks searched for so far, in the order the
    /// searches were handed in.
    pub closed spec fn asked_spec(&self) -> Seq<int> {
        self.asked@
    }

    /// Each match made so far classifies its track, in track order, and the
    /// searches so far are those for the tracks without ISRC hits.
    pub closed spec fn wf(&self) -> bool {
        &&& self.done@.len() <= self.tracks@.len()
        &&& self.asked@ == no_hit_indices(
            pairs_view(self.resolved@),
            tracks_view(self.tracks@),
            self.done@.len() as int,
        )
        &&& self.searched@.len() == self.tracks@.len()
        &&& forall|j: int|
            0 <= j < self.done@.len() ==> is_classification(
                self.tracks@[j]@,
                candidates_for(pairs_view(self.resolved@), self.tracks@[j]@, self.searched@[j]),
                #[trigger] self.done@[j]@,
            )
    }

    /// Starts a run over `tracks`, with what the ISRC lookup returned.
    pub fn new(tracks: Vec<SourceTrack>, resolved: Vec<(String, Candidate)>) -> (r: MatchRun)
        ensures
            r.wf(),
            r.tracks_spec() == tracks_view(tracks@),
            r.resolved_spec() == pairs_view(resolved@),
            r.done_spec().len() == 0,
            r.asked_spec().len() == 0,
    {
        let ghost searched = Seq::new(tracks@.len(), |i: int| Seq::<CandidateView>::empty());
        let ghost asked = Seq::<int>::empty();
        MatchRun { tracks, resolved, done: Vec::new(), searched: Ghost(searched), asked: Ghost(asked) }
    }

    /// The tracks being matched.
    pub fn tracks(&self) -> (r: &Vec<SourceTrack>)
        ensures
            tracks_view(r@) == self.tracks_spec(),
    {
        &self.tracks
    }

    /// Classifies every next track that has ISRC hits. Returns the position
    /// of the next track that needs a search, or `None` when every track is
    /// classified.
    pub fn next_search(&mut self) -> (r: Option<usize>)
        requires
            old(self).wf(),
        ensures
            final(self).wf(),
            final(self).tracks_spec() == old(self).tracks_spec(),
            final(self).resolved_spec() == old(self).resolved_spec(),
            final(self).done_spec().len() >= old(self).done_spec().len(),
            final(self).done_spec().take(old(self).done_spec().len() as int) == old(self).done_spec(),
            final(self).asked_spec() == old(self).asked_spec(),
            forall|j: int|
                old(self).done_spec().len() <= j < final(self).done_spec().len() ==> hits_for(
                    final(self).resolved_spec(),
                    final(self).tracks_spec()[j],
                ).len() > 0,
            r is None ==> final(self).done_spec().len() == final(self).tracks_spec().len(),
            r matches Some(i) ==> i == final(self).done_spec().len() && i < final(self).tracks_spec().len() && hits_for(
                final(self).resolved_spec(),
                final(self).tracks_spec()[i as int],
            ).len() == 0,
    {
        let ghost start = self.done@;
        loop
            invariant
                self.wf(),
                self.tracks@ == old(self).tracks@,
                self.resolved@ == old(self).resolved@,
                self.searched@ == old(self).searched@,
                self.asked@ == old(self).asked@,
                self.done@.len() >= start.len(),
                self.done@.take(start.len() as int) == start,
                start == old(self).done@,
                forall|j: int|
                    start.len() <= j < self.done@.len() ==> hits_for(
                        pairs_view(self.resolved@),
                        #[trigger] self.tracks@[j]@,
                    ).len() > 0,
            decreases self.tracks@.len() - self.done@.len(),
        {
            let i = self.done.len();
            if i >= self.tracks.len() {
                proof {
                    assert(matches_view(self.done@).take(start.len() as int) =~= matches_view(
                        start,
                    ));
                }
                return None;
            }
            let hits = match &self.tracks[i].isrc {
                Some(k) => lookup_hits(&self.resolved, k),
                None => Vec::new(),
            };
            assert(cands(hits@) == hits_for(pairs_view(self.resolved@), self.tracks@[i as int]@));
            if hits.len() == 0 {
                return Some(i);
            }
            let m = classify(&self.tracks[i], hits);
            let ghost before = self.done@;
            self.done.push(m);
            proof {
                assert(tracks_view(self.tracks@)[i as int] == self.tracks@[i as int]@);
                assert(self.done@[i as int] == m);
                assert forall|j: int| 0 <= j < self.done@.len() implies is_classification(
                    self.tracks@[j]@,
                    candidates_for(pairs_view(self.resolved@), self.tracks@[j]@, self.searched@[j]),
                    #[trigger] self.done@[j]@,
                ) by {
                    if j < i {
                        assert(self.done@[j] == before[j]);
                    }
                }
                assert(self.done@.take(start.len() as int) =~= before.take(start.len() as int));
            }
        }
    }

    /// Classifies the next track against what its search returned.
    pub fn supply_search(&mut self, found: Vec<Candidate>)
        requires
            old(self).wf(),
            old(self).done_spec().len() < old(self).tracks_spec().len(),
            hits_for(
                old(self).resolved_spec(),
                old(self).tracks_spec()[old(self).done_spec().len() as int],
            ).len() == 0,
        ensures
            final(self).wf(),
            final(self).tracks_spec() == old(self).tracks_spec(),
            final(self).resolved_spec() == old(self).resolved_spec(),
            final(self).done_spec().len() == old(self).done_spec().len() + 1,
            final(self).done_spec().drop_last() == old(self).done_spec(),
            final(self).asked_spec() == old(self).asked_spec().push(old(self).done_spec().len() as int),
            is_classification(
                old(self).tracks_spec()[old(self).done_spec().len() as int],
                cands(found@),
                final(self).done_spec().last(),
            ),
    {
        let i = self.done.len();
        proof {
            assert(self.tracks_spec()[i as int] == self.tracks@[i as int]@);
        }
        let ghost found_view = cands(found@);
        let m = classify(&self.tracks[i], found);
        let ghost before = self.done@;
        proof {
            self.searched@ = self.searched@.update(i as int, found_view);
            self.asked@ = self.asked@.push(i as int);
            assert(tracks_view(self.tracks@)[i as int] == self.tracks@[i as int]@);
        }
        self.done.push(m);
        proof {
            assert forall|j: int| 0 <= j < self.done@.len() implies is_classification(
                self.tracks@[j]@,
                candidates_for(pairs_view(self.resolved@), self.tracks@[j]@, self.searched@[j]),
                #[trigger] self.done@[j]@,
            ) by {
                if j < i {
                    assert(self.done@[j] == before[j]);
                } else {
                    assert(self.done@[j] == m);
                }
            }
            assert(matches_view(self.done@).drop_last() =~= matches_view(before));
        }
    }

    /// The matches, once every track is classified.
    pub fn finish(self) -> (r: Vec<TrackMatch>)
        requires
            self.wf(),
            self.done_spec().len() == self.tracks_spec().len(),
        ensures
            matches_view(r@) == self.done_spec(),
            r@.len() == self.tracks_spec().len(),
            forall|j: int|
                0 <= j < r@.len() ==> is_classification(
                    self.tracks_spec()[j],
                    candidates_for(self.resolved_spec(), self.tracks_spec()[j], self.searched_spec()[j]),
                    #[trigger] matches_view(r@)[j],
                ),
    {
        proof {
            assert forall|j: int| 0 <= j < self.done@.len() implies is_classification(
                self.tracks_spec()[j],
                candidates_for(self.resolved_spec(), self.tracks_spec()[j], self.searched_spec()[j]),
                #[trigger] matches_view(self.done@)[j],
            ) by {
                assert(self.tracks_spec()[j] == self.tracks@[j]@);
                assert(matches_view(self.done@)[j] == self.done@[j]@);
            }
        }
        self.done
    }
}

/// Every track of the playlist comes out of a finished run, classified, in
/// input order: the match at position `j` is for the track at position `j`,
/// against its ISRC hits, or against its search results when it had none.
pub proof fn law_every_track_classified_in_order(run: MatchRun)
    requires
        run.wf(),
        run.done_spec().len() == run.tracks_spec().len(),
    ensures
        forall|j: int|
            0 <= j < run.tracks_spec().len() ==> (#[trigger] run.done_spec()[j]).source
                == run.tracks_spec()[j],
{
    assert forall|j: int| 0 <= j < run.tracks_spec().len() implies (#[trigger] run.done_spec()[
        j]).source == run.tracks_spec()[j] by {
        reveal_done(run, j);
    }
}

proof fn reveal_done(run: MatchRun, j: int)
    requires
        run.wf(),
        0 <= j < run.done_spec().len(),
    ensures
        run.done_spec()[j].source == run.tracks_spec()[j],
{
    assert(run.done_spec()[j] == run.done@[j]@);
    assert(run.tracks_spec()[j] == run.tracks@[j]@);
}

proof fn lemma_no_hit_indices(
    pairs: Seq<(Seq<char>, CandidateView)>,
    tracks: Seq<SourceTrackView>,
    n: int,
)
    requires
        0 <= n <= tracks.len(),
    ensures
        forall|a: int, b: int|
            0 <= a < b < no_hit_indices(pairs, tracks, n).len() ==> #[trigger] no_hit_indices(
                pairs,
                tracks,
                n,
            )[a] < #[trigger] no_hit_indices(pairs, tracks, n)[b],
        forall|k: int|
            0 <= k < no_hit_indices(pairs, tracks, n).len() ==> 0 <= #[trigger] no_hit_indices(
                pairs,
                tracks,
                n,
            )[k] < n && hits_for(pairs, tracks[no_hit_indices(pairs, tracks, n)[k]]).len() == 0,
        forall|j: int|
            0 <= j < n && hits_for(pairs, #[trigger] tracks[j]).len() == 0 ==> no_hit_indices(
                pairs,
                tracks,
                n,
            ).contains(j),
    decreases n,
{
    if n > 0 {
        lemma_no_hit_indices(pairs, tracks, n - 1);
        let prev = no_hit_indices(pairs, tracks, n - 1);
        let cur = no_hit_indices(pairs, tracks, n);
        assert forall|j: int| 0 <= j < n && hits_for(pairs, #[trigger] tracks[j]).len() == 0 implies cur.contains(j) by {
            if j < n - 1 {
                let k = choose|k: int| 0 <= k < prev.len() && prev[k] == j;
                assert(cur[k] == j);
            } else {
                assert(cur[cur.len() - 1] == j);
            }
        }
    }
}

/// Matching asks the target in a fixed order: one batched ISRC lookup first
/// (see [`isrcs_to_resolve`]), then a search for exactly the tracks the
/// lookup found nothing for, one at a time, in track order.
pub proof fn law_searches_in_order(run: MatchRun)
    requires
        run.wf(),
        run.done_spec().len() == run.tracks_spec().len(),
    ensures
        ({
            let asked = run.asked_spec();
            let pairs = run.resolved_spec();
            let tracks = run.tracks_spec();
            &&& forall|a: int, b: int| 0 <= a < b < asked.len() ==> #[trigger] asked[a] < #[trigger] asked[b]
            &&& forall|k: int| 0 <= k < asked.len() ==> 0 <= #[trigger] asked[k] < tracks.len()
                && hits_for(pairs, tracks[asked[k]]).len() == 0
            &&& forall|j: int| 0 <= j < tracks.len() && hits_for(pairs, #[trigger] tracks[j]).len() == 0
                ==> asked.contains(j)
        }),
{
    assert(run.done@.len() == run.tracks@.len());
    lemma_no_hit_indices(run.resolved_spec(), run.tracks_spec(), run.tracks_spec().len() as int);
}

/// A track's ISRC hits are every candidate the lookup paired with its
/// ISRC, each one, in the order the lookup returned them: none is dropped,
/// repeated or taken from another ISRC.
pub proof fn law_isrc_hits_are_every_pair_for_the_isrc(
    pairs: Seq<(Seq<char>, CandidateView)>,
    key: Seq<char>,
)
    ensures
        isrc_hits(pairs, key) == pairs.filter(|p: (Seq<char>, CandidateView)| p.0 == key).map_values(
            |p: (Seq<char>, CandidateView)| p.1,
        ),
        isrc_hits(pairs, key).len() == pairs.filter(
            |p: (Seq<char>, CandidateView)| p.0 == key,
        ).len(),
    decreases pairs.len(),
{
    reveal(Seq::filter);
    let pred = |p: (Seq<char>, CandidateView)| p.0 == key;
    let second = |p: (Seq<char>, CandidateView)| p.1;
    if pairs.len() == 0 {
        assert(pairs.filter(pred) =~= Seq::<(Seq<char>, CandidateView)>::empty());
        assert(pairs.filter(pred).map_values(second) =~= Seq::<CandidateView>::empty());
    } else {
        law_isrc_hits_are_every_pair_for_the_isrc(pairs.drop_last(), key);
        let g = pairs.drop_last().filter(pred);
        if pairs.last().0 == key {
            assert(pairs.filter(pred) == g.push(pairs.last()));
            assert(g.push(pairs.last()).map_values(second) =~= g.map_values(second).push(
                pairs.last().1,
            ));
        } else {
            assert(pairs.filter(pred) == g);
        }
    }
}

} // verus!
