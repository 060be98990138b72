//! One page of a playlist's items as Spotify sends it, and the split into
//! tracks rocola can look up and items it can't.
use vstd::prelude::*;

use crate::normalize::{isrc_key, normalize_isrc};
use crate::text::{copy_strings, join, push_all, push_str, string_of, strs};
use crate::types::{opt_str, SourceTrack, SourceTrackView};

verus! {

/// One page of playlist items.
#[derive(Debug)]
pub struct PlaylistPage {
    pub next: Option<String>,
    pub items: Vec<PageItem>,
}

/// One playlist item; `None` for a track Spotify has removed.
#[derive(Debug)]
pub struct PageItem {
    pub item: Option<ApiTrack>,
}

/// A track or podcast episode in a playlist.
#[derive(Debug)]
pub struct ApiTrack {
    pub name: String,
    pub duration_ms: u32,
    pub album: ApiAlbum,
    pub artists: Vec<ApiArtist>,
    pub external_ids: ExternalIds,
    pub is_local: bool,
    /// `"track"` or `"episode"`.
    pub kind: String,
}

/// An album's name.
#[derive(Debug)]
pub struct ApiAlbum {
    pub name: String,
}

/// An artist's name.
#[derive(Debug)]
pub struct ApiArtist {
    pub name: String,
}

/// The external identifiers of a track.
#[derive(Debug)]
pub struct ExternalIds {
    pub isrc: Option<String>,
}

impl Default for ExternalIds {
    fn default() -> (r: Self)
        ensures
            r.isrc is None,
    {
        ExternalIds { isrc: None }
    }
}

/// One page's items, split into the tracks rocola can look up on Apple Music
/// and the ones it can't.
#[derive(Debug)]
pub struct PageTracks {
    pub tracks: Vec<SourceTrack>,
    /// One display line per left-out item, in playlist order.
    pub skipped: Vec<String>,
}

impl Default for PageTracks {
    fn default() -> (r: Self)
        ensures
            r.tracks@.len() == 0,
            r.skipped@.len() == 0,
    {
        PageTracks { tracks: Vec::new(), skipped: Vec::new() }
    }
}

/// The mathematical content of an [`ApiTrack`].
pub struct ApiTrackView {
    pub name: Seq<char>,
    pub duration_ms: u32,
    pub album: Seq<char>,
    pub artists: Seq<Seq<char>>,
    pub isrc: Option<Seq<char>>,
    pub is_local: bool,
    pub kind: Seq<char>,
}

/// The names of a list of artists.
pub open spec fn artist_names(v: Seq<ApiArtist>) -> Seq<Seq<char>> {
    v.map_values(|a: ApiArtist| a.name@)
}

impl View for ApiTrack {
    type V = ApiTrackView;

    open spec fn view(&self) -> ApiTrackView {
        ApiTrackView {
            name: self.name@,
            duration_ms: self.duration_ms,
            album: self.album.name@,
            artists: artist_names(self.artists@),
            isrc: opt_str(self.external_ids.isrc),
            is_local: self.is_local,
            kind: self.kind@,
        }
    }
}

/// The items of a page, `None` for a removed track.
pub open spec fn items_view(v: Seq<PageItem>) -> Seq<Option<ApiTrackView>> {
    v.map_values(
        |i: PageItem|
            match i.item {
                Some(t) => Some(t@),
                None => None,
            },
    )
}

/// How a removed track is named in the report: Spotify sends nothing else.
pub open spec fn removed_track_text() -> Seq<char> {
    "(removed track)"@
}

/// `"Title — Artist, Artist"`, or just the title when there are no artists.
pub open spec fn display_line_of(t: ApiTrackView) -> Seq<char> {
    if t.artists.len() == 0 {
        t.name
    } else {
        t.name + " — "@ + join(t.artists, ", "@)
    }
}

/// `"Title (podcast episode)"`.
pub open spec fn episode_line_of(t: ApiTrackView) -> Seq<char> {
    t.name + " (podcast episode)"@
}

/// Where an item goes: a track to look up, or a line for the report.
pub enum Sorted {
    Track(SourceTrackView),
    Left(Seq<char>),
}

/// The track a Spotify item becomes.
pub open spec fn source_of(t: ApiTrackView) -> SourceTrackView {
    SourceTrackView {
        title: t.name,
        artists: t.artists,
        album: t.album,
        duration_ms: t.duration_ms,
        isrc: match t.isrc {
            Some(raw) => isrc_key(raw),
            None => None,
        },
    }
}

/// Removed tracks, local files and podcast episodes are left out and named;
/// everything else becomes a track.
pub open spec fn sort_item(i: Option<ApiTrackView>) -> Sorted {
    match i {
        None => Sorted::Left(removed_track_text()),
        Some(t) => if t.is_local {
            Sorted::Left(display_line_of(t))
        } else if t.kind == "episode"@ {
            Sorted::Left(episode_line_of(t))
        } else {
            Sorted::Track(source_of(t))
        },
    }
}

/// The tracks of `items`, in order.
pub open spec fn tracks_of(items: Seq<Option<ApiTrackView>>) -> Seq<SourceTrackView>
    decreases items.len(),
{
    if items.len() == 0 {
        seq![]
    } else {
        match sort_item(items.last()) {
            Sorted::Track(t) => tracks_of(items.drop_last()).push(t),
            Sorted::Left(_) => tracks_of(items.drop_last()),
        }
    }
}

/// The report lines of the items left out, in order.
pub open spec fn left_out_of(items: Seq<Option<ApiTrackView>>) -> Seq<Seq<char>>
    decreases items.len(),
{
    if items.len() == 0 {
        seq![]
    } else {
        match sort_item(items.last()) {
            Sorted::Track(_) => left_out_of(items.drop_last()),
            Sorted::Left(l) => left_out_of(items.drop_last()).push(l),
        }
    }
}

fn artist_name_list(v: &Vec<ApiArtist>) -> (r: Vec<String>)
    ensures
        strs(r@) == artist_names(v@),
{
    let mut out: Vec<String> = Vec::new();
    let n = v.len();
    let mut i: usize = 0;
    while i < n
        invariant
            n == v@.len(),
            i <= n,
            out@.len() == i,
            forall|k: int| 0 <= k < i ==> (#[trigger] out@[k])@ == v@[k].name@,
        decreases n - i,
    {
        out.push(v[i].name.clone());
        i = i + 1;
    }
    assert(strs(out@) =~= artist_names(v@));
    out
}

/// `"Title — Artist, Artist"`, matching the report lines the matched tracks
/// get. A local file can carry no artists at all, so the dash is conditional.
fn display_line(track: &ApiTrack) -> (r: String)
    ensures
        r@ == display_line_of(track@),
{
    let names = artist_name_list(&track.artists);
    if names.len() == 0 {
        track.name.clone()
    } else {
        let mut out: Vec<char> = Vec::new();
        push_str(&mut out, track.name.as_str());
        push_str(&mut out, " — ");
        let joined = crate::text::join_strings(&names, ", ");
        push_all(&mut out, &joined);
        string_of(&out)
    }
}

impl PlaylistPage {
    /// Split the page into matchable tracks and un-matchable items.
    ///
    /// Local files, podcast episodes and removed (null) tracks have no
    /// counterpart in Apple Music's catalog. They are separated out here
    /// rather than dropped, so the caller can name every one of them in the
    /// final report: nothing ever disappears in silence.
    pub fn partition(&self) -> (r: PageTracks)
        ensures
            crate::pipeline::tracks_view(r.tracks@) == tracks_of(items_view(self.items@)),
            strs(r.skipped@) == left_out_of(items_view(self.items@)),
    {
        let mut out = PageTracks::default();
        let ghost iv = items_view(self.items@);
        let n = self.items.len();
        let mut i: usize = 0;
        while i < n
            invariant
                n == self.items@.len(),
                iv == items_view(self.items@),
                i <= n,
                crate::pipeline::tracks_view(out.tracks@) == tracks_of(iv.take(i as int)),
                strs(out.skipped@) == left_out_of(iv.take(i as int)),
            decreases n - i,
        {
            assert(iv.take(i + 1).drop_last() =~= iv.take(i as int));
            assert(iv.take(i + 1).last() == iv[i as int]);
            let ghost tracks_before = out.tracks@;
            let ghost skipped_before = out.skipped@;
            match &self.items[i].item {
                None => {
                    out.skipped.push("(removed track)".to_owned());
                    assert(strs(out.skipped@) =~= strs(skipped_before).push(removed_track_text()));
                },
                Some(track) => {
                    assert(iv[i as int] == Some(track@));
                    if track.is_local {
                        let line = display_line(track);
                        out.skipped.push(line);
                        assert(strs(out.skipped@) =~= strs(skipped_before).push(
                            display_line_of(track@),
                        ));
                    } else if track.kind == "episode".to_owned() {
                        let mut l: Vec<char> = Vec::new();
                        push_str(&mut l, track.name.as_str());
                        push_str(&mut l, " (podcast episode)");
                        out.skipped.push(string_of(&l));
                        assert(strs(out.skipped@) =~= strs(skipped_before).push(
                            episode_line_of(track@),
                        ));
                    } else {
                        let isrc = match &track.external_ids.isrc {
                            Some(raw) => normalize_isrc(raw.as_str()),
                            None => None,
                        };
                        let artists = artist_name_list(&track.artists);
                        let t = SourceTrack {
                            title: track.name.clone(),
                            artists,
                            album: track.album.name.clone(),
                            duration_ms: track.duration_ms,
                            isrc,
                        };
                        assert(t@ == source_of(track@));
                        out.tracks.push(t);
                        assert(crate::pipeline::tracks_view(out.tracks@) =~= crate::pipeline::tracks_view(
                            tracks_before,
                        ).push(t@));
                    }
                },
            }
            i = i + 1;
        }
        assert(iv.take(n as int) =~= iv);
        out
    }
}

proof fn lemma_split_counts(items: Seq<Option<ApiTrackView>>)
    ensures
        tracks_of(items).len() + left_out_of(items).len() == items.len(),
    decreases items.len(),
{
    if items.len() > 0 {
        lemma_split_counts(items.drop_last());
    }
}

/// Nothing on a page disappears: every item becomes either a track or a
/// named report line.
pub proof fn law_partition_accounts_for_every_item(items: Seq<Option<ApiTrackView>>)
    ensures
        tracks_of(items).len() + left_out_of(items).len() == items.len(),
{
    lemma_split_counts(items);
}

proof fn lemma_split_append(a: Seq<Option<ApiTrackView>>, b: Seq<Option<ApiTrackView>>)
    ensures
        tracks_of(a + b) == tracks_of(a) + tracks_of(b),
        left_out_of(a + b) == left_out_of(a) + left_out_of(b),
    decreases b.len(),
{
    if b.len() == 0 {
        assert(a + b =~= a);
        assert(tracks_of(a) + tracks_of(b) =~= tracks_of(a));
        assert(left_out_of(a) + left_out_of(b) =~= left_out_of(a));
    } else {
        lemma_split_append(a, b.drop_last());
        assert((a + b).drop_last() =~= a + b.drop_last());
        assert((a + b).last() == b.last());
        match sort_item(b.last()) {
            Sorted::Track(t) => {
                assert(tracks_of(a) + tracks_of(b.drop_last()).push(t) =~= (tracks_of(a)
                    + tracks_of(b.drop_last())).push(t));
            },
            Sorted::Left(l) => {
                assert(left_out_of(a) + left_out_of(b.drop_last()).push(l) =~= (left_out_of(a)
                    + left_out_of(b.drop_last())).push(l));
            },
        }
    }
}

/// The tracks of a playlist read page after page: each page's tracks, in
/// page order.
pub open spec fn tracks_of_pages(pages: Seq<Seq<Option<ApiTrackView>>>) -> Seq<SourceTrackView>
    decreases pages.len(),
{
    if pages.len() == 0 {
        seq![]
    } else {
        tracks_of_pages(pages.drop_last()) + tracks_of(pages.last())
    }
}

/// The report lines of a playlist read page after page, in page order.
pub open spec fn left_out_of_pages(pages: Seq<Seq<Option<ApiTrackView>>>) -> Seq<Seq<char>>
    decreases pages.len(),
{
    if pages.len() == 0 {
        seq![]
    } else {
        left_out_of_pages(pages.drop_last()) + left_out_of(pages.last())
    }
}

/// The items of a playlist's pages, one after another.
pub open spec fn all_items(pages: Seq<Seq<Option<ApiTrackView>>>) -> Seq<Option<ApiTrackView>>
    decreases pages.len(),
{
    if pages.len() == 0 {
        seq![]
    } else {
        all_items(pages.drop_last()) + pages.last()
    }
}

/// Reading a playlist page by page gives what reading all its items at once
/// would: however Spotify splits the items into pages, the tracks and the
/// report lines come out the same and in playlist order.
pub proof fn law_pages_read_as_one(pages: Seq<Seq<Option<ApiTrackView>>>)
    ensures
        tracks_of_pages(pages) == tracks_of(all_items(pages)),
        left_out_of_pages(pages) == left_out_of(all_items(pages)),
    decreases pages.len(),
{
    if pages.len() > 0 {
        law_pages_read_as_one(pages.drop_last());
        lemma_split_append(all_items(pages.drop_last()), pages.last());
    } else {
        assert(tracks_of(Seq::<Option<ApiTrackView>>::empty()) =~= Seq::<SourceTrackView>::empty());
    }
}

/// A page's tracks are exactly its items that are present, not local files
/// and not podcast episodes, each as [`source_of`] reads it, in page order;
/// its report lines are the other items, in page order: "(removed track)"
/// for a missing one, the title and artists for a local file, and the title
/// marked as a podcast episode for an episode.
pub proof fn law_partition_sorts_each_item(items: Seq<Option<ApiTrackView>>)
    ensures
        tracks_of(items) == items.filter(
            |i: Option<ApiTrackView>|
                match i {
                    Some(t) => !t.is_local && t.kind != "episode"@,
                    None => false,
                },
        ).map_values(
            |i: Option<ApiTrackView>|
                match i {
                    Some(t) => source_of(t),
                    None => arbitrary(),
                },
        ),
        left_out_of(items) == items.filter(
            |i: Option<ApiTrackView>|
                match i {
                    Some(t) => t.is_local || t.kind == "episode"@,
                    None => true,
                },
        ).map_values(
            |i: Option<ApiTrackView>|
                match i {
                    Some(t) => if t.is_local {
                        display_line_of(t)
                    } else {
                        t.name + " (podcast episode)"@
                    },
                    None => "(removed track)"@,
                },
        ),
    decreases items.len(),
{
    reveal(Seq::filter);
    let keep = |i: Option<ApiTrackView>|
        match i {
            Some(t) => !t.is_local && t.kind != "episode"@,
            None => false,
        };
    let as_track = |i: Option<ApiTrackView>|
        match i {
            Some(t) => source_of(t),
            None => arbitrary(),
        };
    let leave = |i: Option<ApiTrackView>|
        match i {
            Some(t) => t.is_local || t.kind == "episode"@,
            None => true,
        };
    let as_line = |i: Option<ApiTrackView>|
        match i {
            Some(t) => if t.is_local {
                display_line_of(t)
            } else {
                t.name + " (podcast episode)"@
            },
            None => "(removed track)"@,
        };
    if items.len() == 0 {
        assert(items.filter(keep) =~= Seq::<Option<ApiTrackView>>::empty());
        assert(items.filter(keep).map_values(as_track) =~= Seq::<SourceTrackView>::empty());
        assert(items.filter(leave) =~= Seq::<Option<ApiTrackView>>::empty());
        assert(items.filter(leave).map_values(as_line) =~= Seq::<Seq<char>>::empty());
    } else {
        law_partition_sorts_each_item(items.drop_last());
        let x = items.last();
        let gk = items.drop_last().filter(keep);
        let gl = items.drop_last().filter(leave);
        if keep(x) {
            assert(items.filter(keep) == gk.push(x));
            assert(items.filter(leave) == gl);
            assert(gk.push(x).map_values(as_track) =~= gk.map_values(as_track).push(as_track(x)));
        } else {
            assert(items.filter(keep) == gk);
            assert(items.filter(leave) == gl.push(x));
            assert(gl.push(x).map_values(as_line) =~= gl.map_values(as_line).push(as_line(x)));
        }
    }
}

} // verus!
