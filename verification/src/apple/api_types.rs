//! The Apple Music catalogue answers rocola reads, and their mapping onto
//! [`Candidate`].
use vstd::prelude::*;

use crate::text::strs;
use crate::types::{cands, opt_str, Candidate, CandidateView, MatchedBy};

verus! {

/// A list of catalogue songs.
#[derive(Debug)]
pub struct SongsResponse {
    pub data: Vec<Song>,
}

/// One catalogue song.
#[derive(Debug)]
pub struct Song {
    pub id: String,
    pub attributes: SongAttributes,
}

/// What Apple says about a song.
#[derive(Debug)]
pub struct SongAttributes {
    pub name: String,
    pub artist_name: String,
    pub album_name: String,
    pub duration_in_millis: u32,
    pub isrc: Option<String>,
}

/// The answer to a catalogue search.
#[derive(Debug)]
pub struct SearchResponse {
    pub results: SearchResults,
}

/// The song hits of a search, when there are any.
#[derive(Debug)]
pub struct SearchResults {
    pub songs: Option<SongsResponse>,
}

impl Default for SearchResults {
    fn default() -> (r: Self)
        ensures
            r.songs is None,
    {
        SearchResults { songs: None }
    }
}

/// The playlists in the listener's library.
#[derive(Debug)]
pub struct LibraryPlaylists {
    pub data: Vec<LibraryPlaylist>,
}

/// One library playlist.
#[derive(Debug)]
pub struct LibraryPlaylist {
    pub id: String,
    pub attributes: LibraryPlaylistAttributes,
}

/// What Apple says about a library playlist.
#[derive(Debug)]
pub struct LibraryPlaylistAttributes {
    pub name: String,
}

/// The mathematical content of a [`Song`].
pub struct SongView {
    pub id: Seq<char>,
    pub name: Seq<char>,
    pub artist_name: Seq<char>,
    pub album_name: Seq<char>,
    pub duration_in_millis: u32,
    pub isrc: Option<Seq<char>>,
}

impl View for Song {
    type V = SongView;

    open spec fn view(&self) -> SongView {
        SongView {
            id: self.id@,
            name: self.attributes.name@,
            artist_name: self.attributes.artist_name@,
            album_name: self.attributes.album_name@,
            duration_in_millis: self.attributes.duration_in_millis,
            isrc: opt_str(self.attributes.isrc),
        }
    }
}

/// The views of a list of songs.
pub open spec fn songs_view(v: Seq<Song>) -> Seq<SongView> {
    v.map_values(|s: Song| s@)
}

/// The candidate a song becomes. Apple returns one display string for the
/// artists ("A & B"); it is kept whole, and the scorer's overlap handles
/// multi-artist sources against it.
pub open spec fn candidate_of(s: SongView, by: MatchedBy) -> CandidateView {
    CandidateView {
        catalog_id: s.id,
        title: s.name,
        artists: seq![s.artist_name],
        album: s.album_name,
        duration_ms: s.duration_in_millis,
        matched_by: by,
    }
}

/// Every song that carries an ISRC, paired with its candidate, in order.
pub open spec fn isrc_pairs_of(songs: Seq<SongView>) -> Seq<(Seq<char>, CandidateView)>
    decreases songs.len(),
{
    if songs.len() == 0 {
        seq![]
    } else {
        match songs.last().isrc {
            Some(k) => isrc_pairs_of(songs.drop_last()).push(
                (k, candidate_of(songs.last(), MatchedBy::Isrc)),
            ),
            None => isrc_pairs_of(songs.drop_last()),
        }
    }
}

fn to_candidate(song: Song, matched_by: MatchedBy) -> (r: Candidate)
    ensures
        r@ == candidate_of(song@, matched_by),
{
    let mut artists: Vec<String> = Vec::new();
    let ghost name = song.attributes.artist_name@;
    artists.push(song.attributes.artist_name);
    assert(strs(artists@) =~= seq![name]);
    Candidate {
        catalog_id: song.id,
        title: song.attributes.name,
        artists,
        album: song.attributes.album_name,
        duration_ms: song.attributes.duration_in_millis,
        matched_by,
    }
}

impl SongsResponse {
    /// Pair every song that carries an ISRC with its candidate.
    ///
    /// Songs without an ISRC are dropped: the caller keys results by ISRC, so
    /// there is nothing to key them on.
    pub fn into_isrc_candidates(self) -> (r: Vec<(String, Candidate)>)
        ensures
            crate::pipeline::pairs_view(r@) == isrc_pairs_of(songs_view(self.data@)),
    {
        let ghost raw = self.data@;
        let ghost all = songs_view(raw);
        let mut rest = self.data;
        let mut out: Vec<(String, Candidate)> = Vec::new();
        let n = rest.len();
        let mut taken: usize = 0;
        while rest.len() > 0
            invariant
                all.len() == n,
                raw.len() == n,
                all == songs_view(raw),
                taken + rest@.len() == n,
                rest@ == raw.skip(taken as int),
                crate::pipeline::pairs_view(out@) == isrc_pairs_of(all.take(taken as int)),
            decreases rest@.len(),
        {
            let song = rest.remove(0);
            let ghost sv = song@;
            assert(song == raw[taken as int]);
            assert(rest@ =~= raw.skip(taken + 1));
            assert(all.take(taken + 1).drop_last() =~= all.take(taken as int));
            assert(all.take(taken + 1).last() == sv);
            match song.attributes.isrc {
                Some(ref k) => {
                    let key = k.clone();
                    let c = to_candidate(song, MatchedBy::Isrc);
                    let ghost before = out@;
                    out.push((key, c));
                    assert(crate::pipeline::pairs_view(out@) =~= crate::pipeline::pairs_view(
                        before,
                    ).push((sv.isrc->0, candidate_of(sv, MatchedBy::Isrc))));
                },
                None => {},
            }
            taken = taken + 1;
        }
        assert(all.take(n as int) =~= all);
        out
    }
}

/// The song hits of a search as candidates, in Apple's ranking order.
pub open spec fn search_candidates_of(r: Option<Seq<SongView>>) -> Seq<CandidateView> {
    match r {
        Some(songs) => songs.map_values(|s: SongView| candidate_of(s, MatchedBy::Search)),
        None => seq![],
    }
}

impl SearchResponse {
    /// The song hits from a search, in Apple's ranking order.
    pub fn into_candidates(self) -> (r: Vec<Candidate>)
        ensures
            cands(r@) == search_candidates_of(
                match self.results.songs {
                    Some(s) => Some(songs_view(s.data@)),
                    None => None,
                },
            ),
    {
        match self.results.songs {
            Some(s) => {
                let ghost raw = s.data@;
                let ghost all = songs_view(raw);
                let mut rest = s.data;
                let mut out: Vec<Candidate> = Vec::new();
                let n = rest.len();
                let mut taken: usize = 0;
                while rest.len() > 0
                    invariant
                        all.len() == n,
                        raw.len() == n,
                        all == songs_view(raw),
                        taken + rest@.len() == n,
                        rest@ == raw.skip(taken as int),
                        cands(out@) == all.take(taken as int).map_values(
                            |v: SongView| candidate_of(v, MatchedBy::Search),
                        ),
                    decreases rest@.len(),
                {
                    let song = rest.remove(0);
                    let ghost sv = song@;
                    assert(song == raw[taken as int]);
                    assert(rest@ =~= raw.skip(taken + 1));
                    let c = to_candidate(song, MatchedBy::Search);
                    let ghost before = out@;
                    out.push(c);
                    assert(cands(out@) =~= cands(before).push(c@));
                    assert(all.take(taken + 1) =~= all.take(taken as int).push(sv));
                    assert(cands(out@) =~= all.take(taken + 1).map_values(
                        |v: SongView| candidate_of(v, MatchedBy::Search),
                    ));
                    taken = taken + 1;
                }
                assert(all.take(n as int) =~= all);
                out
            },
            None => {
                let out: Vec<Candidate> = Vec::new();
                assert(cands(out@) =~= Seq::<CandidateView>::empty());
                out
            },
        }
    }
}

impl LibraryPlaylists {
    /// The names of the playlists, in order.
    pub fn names(&self) -> (r: Vec<String>)
        ensures
            strs(r@) == self.data@.map_values(|p: LibraryPlaylist| p.attributes.name@),
    {
        let mut out: Vec<String> = Vec::new();
        let n = self.data.len();
        let mut i: usize = 0;
        while i < n
            invariant
                n == self.data@.len(),
                i <= n,
                out@.len() == i,
                forall|k: int| 0 <= k < i ==> (#[trigger] out@[k])@ == self.data@[k].attributes.name@,
            decreases n - i,
        {
            out.push(self.data[i].attributes.name.clone());
            i = i + 1;
        }
        assert(strs(out@) =~= self.data@.map_values(|p: LibraryPlaylist| p.attributes.name@));
        out
    }
}

/// The ISRC lookup's answer keeps every song that carries an ISRC, in
/// Apple's order, each keyed by its own ISRC and marked as found by ISRC,
/// with its id, title, artist, album and duration; songs without an ISRC
/// are left out.
pub proof fn law_isrc_pairs_keep_every_keyed_song(songs: Seq<SongView>)
    ensures
        isrc_pairs_of(songs) == songs.filter(|s: SongView| s.isrc is Some).map_values(
            |s: SongView|
                (
                    s.isrc->0,
                    CandidateView {
                        catalog_id: s.id,
                        title: s.name,
                        artists: seq![s.artist_name],
                        album: s.album_name,
                        duration_ms: s.duration_in_millis,
                        matched_by: MatchedBy::Isrc,
                    },
                ),
        ),
    decreases songs.len(),
{
    reveal(Seq::filter);
    let keyed = |s: SongView| s.isrc is Some;
    let pair = |s: SongView|
        (
            s.isrc->0,
            CandidateView {
                catalog_id: s.id,
                title: s.name,
                artists: seq![s.artist_name],
                album: s.album_name,
                duration_ms: s.duration_in_millis,
                matched_by: MatchedBy::Isrc,
            },
        );
    if songs.len() == 0 {
        assert(songs.filter(keyed) =~= Seq::<SongView>::empty());
        assert(songs.filter(keyed).map_values(pair) =~= Seq::<(Seq<char>, CandidateView)>::empty());
    } else {
        law_isrc_pairs_keep_every_keyed_song(songs.drop_last());
        let g = songs.drop_last().filter(keyed);
        if keyed(songs.last()) {
            assert(songs.filter(keyed) == g.push(songs.last()));
            assert(g.push(songs.last()).map_values(pair) =~= g.map_values(pair).push(
                pair(songs.last()),
            ));
        } else {
            assert(songs.filter(keyed) == g);
        }
    }
}

} // verus!
