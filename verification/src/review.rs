//! The review screen's state machine: triage of the matches, one key at a
//! time, and the songs a confirmed run will write.
use vstd::prelude::*;

use crate::types::{matches_view, Confidence, TrackMatch, TrackMatchView};

verus! {

/// A key press the review and confirm screens understand.
#[derive(Debug, Clone, Copy, PartialEq, Eq, Structural)]
pub enum Key {
    Up,
    Down,
    Digit(u8),
    Skip,
    Confirm,
    Abort,
}

/// What the listener decided for one ambiguous track.
#[derive(Debug, Clone, Copy, PartialEq, Eq, Structural)]
pub enum Decision {
    Accepted(usize),
    Skipped,
    Pending,
}

/// One ambiguous track and the listener's decision on it.
#[derive(Debug)]
pub struct ReviewItem {
    pub track: TrackMatch,
    pub decision: Decision,
}

/// The screen being shown.
#[derive(Debug)]
pub enum Screen {
    Review { items: Vec<ReviewItem>, cursor: usize },
    Confirm { playlist_name: String, accepted: usize, skipped: usize, not_found: usize },
    Done,
    Aborted,
}

/// The whole review session.
#[derive(Debug)]
pub struct App {
    pub screen: Screen,
    pub playlist_name: String,
    pub auto_accepted: Vec<TrackMatch>,
    pub not_found: Vec<TrackMatch>,
    /// Review rows, kept after review completes so Confirm/Result can report
    /// every decision and `accepted_catalog_ids` can read the listener's choices.
    pub decided: Vec<ReviewItem>,
}

/// The mathematical content of a [`ReviewItem`].
pub struct ReviewItemView {
    pub track: TrackMatchView,
    pub decision: Decision,
}

/// The mathematical content of a [`Screen`].
pub enum ScreenView {
    Review { items: Seq<ReviewItemView>, cursor: usize },
    Confirm { playlist_name: Seq<char>, accepted: usize, skipped: usize, not_found: usize },
    Done,
    Aborted,
}

/// The mathematical content of an [`App`].
pub struct AppView {
    pub screen: ScreenView,
    pub playlist_name: Seq<char>,
    pub auto_accepted: Seq<TrackMatchView>,
    pub not_found: Seq<TrackMatchView>,
    pub decided: Seq<ReviewItemView>,
}

impl View for ReviewItem {
    type V = ReviewItemView;

    open spec fn view(&self) -> ReviewItemView {
        ReviewItemView { track: self.track@, decision: self.decision }
    }
}

/// The views of a sequence of review rows.
pub open spec fn rows_view(v: Seq<ReviewItem>) -> Seq<ReviewItemView> {
    v.map_values(|r: ReviewItem| r@)
}

impl View for Screen {
    type V = ScreenView;

    open spec fn view(&self) -> ScreenView {
        match self {
            Screen::Review { items, cursor } => ScreenView::Review {
                items: rows_view(items@),
                cursor: *cursor,
            },
            Screen::Confirm { playlist_name, accepted, skipped, not_found } => ScreenView::Confirm {
                playlist_name: playlist_name@,
                accepted: *accepted,
                skipped: *skipped,
                not_found: *not_found,
            },
            Screen::Done => ScreenView::Done,
            Screen::Aborted => ScreenView::Aborted,
        }
    }
}

impl View for App {
    type V = AppView;

    open spec fn view(&self) -> AppView {
        AppView {
            screen: self.screen@,
            playlist_name: self.playlist_name@,
            auto_accepted: matches_view(self.auto_accepted@),
            not_found: matches_view(self.not_found@),
            decided: rows_view(self.decided@),
        }
    }
}

// ---------------------------------------------------------------------------
// Specification
// ---------------------------------------------------------------------------

/// Exact and High matches are accepted without review.
pub open spec fn is_auto(m: TrackMatchView) -> bool {
    m.confidence == Confidence::Exact || m.confidence == Confidence::High
}

/// The auto-accepted matches of `ms`, in order.
pub open spec fn auto_of(ms: Seq<TrackMatchView>) -> Seq<TrackMatchView>
    decreases ms.len(),
{
    if ms.len() == 0 {
        seq![]
    } else if is_auto(ms.last()) {
        auto_of(ms.drop_last()).push(ms.last())
    } else {
        auto_of(ms.drop_last())
    }
}

/// The not-found matches of `ms`, in order.
pub open spec fn not_found_of(ms: Seq<TrackMatchView>) -> Seq<TrackMatchView>
    decreases ms.len(),
{
    if ms.len() == 0 {
        seq![]
    } else if ms.last().confidence == Confidence::NotFound {
        not_found_of(ms.drop_last()).push(ms.last())
    } else {
        not_found_of(ms.drop_last())
    }
}

/// A pending review row for each ambiguous match of `ms`, in order.
pub open spec fn review_of(ms: Seq<TrackMatchView>) -> Seq<ReviewItemView>
    decreases ms.len(),
{
    if ms.len() == 0 {
        seq![]
    } else if ms.last().confidence == Confidence::Ambiguous {
        review_of(ms.drop_last()).push(
            ReviewItemView { track: ms.last(), decision: Decision::Pending },
        )
    } else {
        review_of(ms.drop_last())
    }
}

/// Every row has a decision.
pub open spec fn all_decided(items: Seq<ReviewItemView>) -> bool {
    forall|i: int| 0 <= i < items.len() ==> (#[trigger] items[i]).decision != Decision::Pending
}

/// How many rows accept a candidate.
pub open spec fn count_accepted(items: Seq<ReviewItemView>) -> nat
    decreases items.len(),
{
    if items.len() == 0 {
        0
    } else {
        count_accepted(items.drop_last()) + if items.last().decision is Accepted {
            1nat
        } else {
            0nat
        }
    }
}

/// How many rows are skipped.
pub open spec fn count_skipped(items: Seq<ReviewItemView>) -> nat
    decreases items.len(),
{
    if items.len() == 0 {
        0
    } else {
        count_skipped(items.drop_last()) + if items.last().decision == Decision::Skipped {
            1nat
        } else {
            0nat
        }
    }
}

/// The lengths involved stay within what `usize` counts, and a cursor can
/// still move down.
pub open spec fn fits(a: AppView) -> bool {
    match a.screen {
        ScreenView::Review { items, cursor } => a.auto_accepted.len() + items.len()
            <= usize::MAX && a.not_found.len() <= usize::MAX && cursor < usize::MAX,
        _ => true,
    }
}

/// Review moves to Confirm once every row is decided; anything else is
/// unchanged.
pub open spec fn advanced(a: AppView) -> AppView {
    match a.screen {
        ScreenView::Review { items, cursor } => if all_decided(items) {
            AppView {
                screen: ScreenView::Confirm {
                    playlist_name: a.playlist_name,
                    accepted: (a.auto_accepted.len() + count_accepted(items)) as usize,
                    skipped: count_skipped(items) as usize,
                    not_found: a.not_found.len() as usize,
                },
                decided: items,
                ..a
            }
        } else {
            a
        },
        _ => a,
    }
}

/// The review screen's cursor after moving down one row.
pub open spec fn cursor_down(cursor: usize, len: nat) -> usize {
    let last = if len == 0 {
        0
    } else {
        (len - 1) as int
    };
    if cursor + 1 <= last {
        (cursor + 1) as usize
    } else {
        last as usize
    }
}

/// `a` with the review screen replaced.
pub open spec fn with_review(a: AppView, items: Seq<ReviewItemView>, cursor: usize) -> AppView {
    AppView { screen: ScreenView::Review { items, cursor }, ..a }
}

/// `items` with row `i` decided as `d`.
pub open spec fn decide(items: Seq<ReviewItemView>, i: int, d: Decision) -> Seq<ReviewItemView> {
    items.update(i, ReviewItemView { track: items[i].track, decision: d })
}

/// The session [`App::from_matches`] opens on `ms`.
pub open spec fn opening(ms: Seq<TrackMatchView>, name: Seq<char>) -> AppView {
    advanced(
        AppView {
            screen: ScreenView::Review { items: review_of(ms), cursor: 0 },
            playlist_name: name,
            auto_accepted: auto_of(ms),
            not_found: not_found_of(ms),
            decided: seq![],
        },
    )
}

/// The session after the keys in `keys`, pressed in order from `a`.
pub open spec fn keys_step(a: AppView, keys: Seq<Key>) -> AppView
    decreases keys.len(),
{
    if keys.len() == 0 {
        a
    } else {
        keys_step(key_step(a, keys[0]), keys.drop_first())
    }
}

/// What one key press does.
///
/// `Abort` aborts from any screen. On Review, arrows move the cursor, a
/// digit `n` accepts candidate `n` of the current row when it exists, `s`
/// skips the row, and `Confirm` moves on only once every row is decided. On
/// Confirm, `Confirm` finishes. Done and Aborted ignore everything else.
pub open spec fn key_step(a: AppView, k: Key) -> AppView {
    if k == Key::Abort {
        AppView { screen: ScreenView::Aborted, ..a }
    } else {
        match a.screen {
            ScreenView::Review { items, cursor } => match k {
                Key::Up => with_review(
                    a,
                    items,
                    if cursor == 0 {
                        0
                    } else {
                        (cursor - 1) as usize
                    },
                ),
                Key::Down => with_review(a, items, cursor_down(cursor, items.len())),
                Key::Digit(n) => if cursor < items.len() && 1 <= n && n - 1
                    < items[cursor as int].track.candidates.len() {
                    with_review(
                        a,
                        decide(items, cursor as int, Decision::Accepted((n - 1) as usize)),
                        cursor_down(cursor, items.len()),
                    )
                } else {
                    a
                },
                Key::Skip => if cursor < items.len() {
                    with_review(
                        a,
                        decide(items, cursor as int, Decision::Skipped),
                        cursor_down(cursor, items.len()),
                    )
                } else {
                    a
                },
                Key::Confirm => advanced(a),
                Key::Abort => a,
            },
            ScreenView::Confirm { .. } => if k == Key::Confirm {
                AppView { screen: ScreenView::Done, ..a }
            } else {
                a
            },
            _ => a,
        }
    }
}

/// The catalog ids of the best candidate of each match that has one.
pub open spec fn first_ids(ms: Seq<TrackMatchView>) -> Seq<Seq<char>>
    decreases ms.len(),
{
    if ms.len() == 0 {
        seq![]
    } else if ms.last().candidates.len() > 0 {
        first_ids(ms.drop_last()).push(ms.last().candidates[0].catalog_id)
    } else {
        first_ids(ms.drop_last())
    }
}

/// The catalog ids of the candidates the listener accepted.
pub open spec fn chosen_ids(rows: Seq<ReviewItemView>) -> Seq<Seq<char>>
    decreases rows.len(),
{
    if rows.len() == 0 {
        seq![]
    } else {
        match rows.last().decision {
            Decision::Accepted(i) => if i < rows.last().track.candidates.len() {
                chosen_ids(rows.drop_last()).push(rows.last().track.candidates[i as int].catalog_id)
            } else {
                chosen_ids(rows.drop_last())
            },
            _ => chosen_ids(rows.drop_last()),
        }
    }
}

/// The rows the listener works on: the live ones while reviewing, the kept
/// ones after.
pub open spec fn rows_of(a: AppView) -> Seq<ReviewItemView> {
    match a.screen {
        ScreenView::Review { items, .. } => items,
        _ => a.decided,
    }
}

/// Everything Confirm will write.
pub open spec fn accepted_ids(a: AppView) -> Seq<Seq<char>> {
    first_ids(a.auto_accepted) + chosen_ids(rows_of(a))
}

// ---------------------------------------------------------------------------
// Implementation
// ---------------------------------------------------------------------------

fn copy_rows(v: &Vec<ReviewItem>) -> (r: Vec<ReviewItem>)
    ensures
        rows_view(r@) == rows_view(v@),
{
    let mut out: Vec<ReviewItem> = Vec::new();
    let n = v.len();
    let mut i: usize = 0;
    while i < n
        invariant
            n == v@.len(),
            i <= n,
            rows_view(out@) == rows_view(v@.take(i as int)),
        decreases n - i,
    {
        let row = ReviewItem { track: v[i].track.clone(), decision: v[i].decision };
        let ghost before = out@;
        out.push(row);
        assert(v@.take(i + 1) =~= v@.take(i as int).push(v@[i as int]));
        assert(rows_view(out@) =~= rows_view(before).push(row@));
        assert(rows_view(v@.take(i + 1)) =~= rows_view(v@.take(i as int)).push(v@[i as int]@));
        i = i + 1;
    }
    assert(v@.take(n as int) =~= v@);
    out
}

fn move_down(cursor: usize, len: usize) -> (r: usize)
    requires
        cursor < usize::MAX,
    ensures
        r == cursor_down(cursor, len as nat),
{
    let last = if len == 0 {
        0
    } else {
        len - 1
    };
    if cursor + 1 <= last {
        cursor + 1
    } else {
        last
    }
}

impl App {
    /// Sorts the matches: Exact and High are accepted, NotFound is reported,
    /// Ambiguous goes to review. With nothing to review, it opens on Confirm.
    pub fn from_matches(playlist_name: String, matches: Vec<TrackMatch>) -> (app: App)
        ensures
            app@ == opening(matches_view(matches@), playlist_name@),
    {
        let ghost ms = matches_view(matches@);
        let mut auto_accepted: Vec<TrackMatch> = Vec::new();
        let mut not_found: Vec<TrackMatch> = Vec::new();
        let mut review: Vec<ReviewItem> = Vec::new();
        let n = matches.len();
        let mut rest = matches;
        let ghost all = rest@;
        let mut taken: usize = 0;
        while rest.len() > 0
            invariant
                all.len() == n,
                ms == matches_view(all),
                taken + rest@.len() == n,
                rest@ == all.skip(taken as int),
                matches_view(auto_accepted@) == auto_of(ms.take(taken as int)),
                matches_view(not_found@) == not_found_of(ms.take(taken as int)),
                rows_view(review@) == review_of(ms.take(taken as int)),
                auto_accepted@.len() + review@.len() <= taken,
            decreases rest@.len(),
        {
            let m = rest.remove(0);
            let ghost mv = m@;
            assert(ms.take(taken + 1).drop_last() =~= ms.take(taken as int));
            assert(ms.take(taken + 1).last() == mv) by {
                assert(all[taken as int] == m);
            }
            assert(rest@ =~= all.skip(taken + 1));
            match m.confidence {
                Confidence::Exact | Confidence::High => {
                    let ghost before = auto_accepted@;
                    auto_accepted.push(m);
                    assert(matches_view(auto_accepted@) =~= matches_view(before).push(mv));
                },
                Confidence::NotFound => {
                    let ghost before = not_found@;
                    not_found.push(m);
                    assert(matches_view(not_found@) =~= matches_view(before).push(mv));
                },
                Confidence::Ambiguous => {
                    let ghost before = review@;
                    let row = ReviewItem { track: m, decision: Decision::Pending };
                    review.push(row);
                    assert(rows_view(review@) =~= rows_view(before).push(
                        ReviewItemView { track: mv, decision: Decision::Pending },
                    ));
                },
            }
            taken = taken + 1;
        }
        assert(ms.take(n as int) =~= ms);
        let mut app = App {
            screen: Screen::Review { items: review, cursor: 0 },
            playlist_name,
            auto_accepted,
            not_found,
            decided: Vec::new(),
        };
        assert(rows_view(app.decided@) =~= Seq::<ReviewItemView>::empty());
        assert(app@.not_found.len() == app.not_found.len());
        assert(app@.auto_accepted.len() == app.auto_accepted.len());
        app.advance_if_review_done();
        app
    }

    /// Applies one key press.
    pub fn on_key(&mut self, key: Key)
        requires
            fits(old(self)@),
        ensures
            final(self)@ == key_step(old(self)@, key),
            fits(final(self)@),
    {
        if key == Key::Abort {
            self.screen = Screen::Aborted;
            return;
        }
        let mut screen = Screen::Done;
        std::mem::swap(&mut screen, &mut self.screen);
        match screen {
            Screen::Review { mut items, cursor } => {
                let ghost before = rows_view(items@);
                match key {
                    Key::Up => {
                        let c = if cursor == 0 {
                            0
                        } else {
                            cursor - 1
                        };
                        self.screen = Screen::Review { items, cursor: c };
                    },
                    Key::Down => {
                        let c = move_down(cursor, items.len());
                        self.screen = Screen::Review { items, cursor: c };
                    },
                    Key::Digit(n) => {
                        if cursor < items.len() && n >= 1 && ((n - 1) as usize)
                            < items[cursor].track.candidates.len() {
                            let idx = (n - 1) as usize;
                            let mut item = items.remove(cursor);
                            item.decision = Decision::Accepted(idx);
                            items.insert(cursor, item);
                            assert(rows_view(items@) =~= decide(
                                before,
                                cursor as int,
                                Decision::Accepted(idx),
                            ));
                            let c = move_down(cursor, items.len());
                            self.screen = Screen::Review { items, cursor: c };
                        } else {
                            self.screen = Screen::Review { items, cursor };
                        }
                    },
                    Key::Skip => {
                        if cursor < items.len() {
                            let mut item = items.remove(cursor);
                            item.decision = Decision::Skipped;
                            items.insert(cursor, item);
                            assert(rows_view(items@) =~= decide(
                                before,
                                cursor as int,
                                Decision::Skipped,
                            ));
                            let c = move_down(cursor, items.len());
                            self.screen = Screen::Review { items, cursor: c };
                        } else {
                            self.screen = Screen::Review { items, cursor };
                        }
                    },
                    Key::Confirm => {
                        self.screen = Screen::Review { items, cursor };
                        self.advance_if_review_done();
                    },
                    Key::Abort => {
                        self.screen = Screen::Aborted;
                    },
                }
            },
            Screen::Confirm { playlist_name, accepted, skipped, not_found } => {
                if key == Key::Confirm {
                    self.screen = Screen::Done;
                } else {
                    self.screen = Screen::Confirm { playlist_name, accepted, skipped, not_found };
                }
            },
            Screen::Done => {
                self.screen = Screen::Done;
            },
            Screen::Aborted => {
                self.screen = Screen::Aborted;
            },
        }
    }

    /// Everything Confirm will write: best candidate of each auto-accepted
    /// match, then each candidate the listener chose.
    pub fn accepted_catalog_ids(&self) -> (r: Vec<String>)
        ensures
            crate::text::strs(r@) == accepted_ids(self@),
    {
        let mut out: Vec<String> = Vec::new();
        let n = self.auto_accepted.len();
        let mut i: usize = 0;
        let ghost autos = matches_view(self.auto_accepted@);
        while i < n
            invariant
                n == self.auto_accepted@.len(),
                autos == matches_view(self.auto_accepted@),
                i <= n,
                crate::text::strs(out@) == first_ids(autos.take(i as int)),
            decreases n - i,
        {
            assert(autos.take(i + 1).drop_last() =~= autos.take(i as int));
            assert(autos.take(i + 1).last() == self.auto_accepted@[i as int]@);
            let m = &self.auto_accepted[i];
            if m.candidates.len() > 0 {
                let ghost before = out@;
                out.push(m.candidates[0].catalog_id.clone());
                assert(crate::text::strs(out@) =~= crate::text::strs(before).push(
                    m.candidates@[0].catalog_id@,
                ));
            }
            i = i + 1;
        }
        assert(autos.take(n as int) =~= autos);
        let rows: &Vec<ReviewItem> = match &self.screen {
            Screen::Review { items, .. } => items,
            _ => &self.decided,
        };
        let ghost rv = rows_view(rows@);
        assert(rv == rows_of(self@));
        let ghost head = out@;
        let k = rows.len();
        let mut j: usize = 0;
        while j < k
            invariant
                k == rows@.len(),
                rv == rows_view(rows@),
                j <= k,
                crate::text::strs(out@) == crate::text::strs(head) + chosen_ids(
                    rv.take(j as int),
                ),
            decreases k - j,
        {
            assert(rv.take(j + 1).drop_last() =~= rv.take(j as int));
            assert(rv.take(j + 1).last() == rows@[j as int]@);
            let row = &rows[j];
            match row.decision {
                Decision::Accepted(c) => {
                    if c < row.track.candidates.len() {
                        let ghost before = out@;
                        out.push(row.track.candidates[c].catalog_id.clone());
                        assert(crate::text::strs(out@) =~= crate::text::strs(before).push(
                            row.track.candidates@[c as int].catalog_id@,
                        ));
                    }
                },
                _ => {},
            }
            j = j + 1;
        }
        assert(rv.take(k as int) =~= rv);
        out
    }

    /// Moves from Review to Confirm once every row is decided, keeping the
    /// rows in `decided`; anything else is left as it is.
    pub fn advance_if_review_done(&mut self)
        requires
            fits(old(self)@),
        ensures
            final(self)@ == advanced(old(self)@),
    {
        let (accepted, skipped, decided) = match &self.screen {
            Screen::Review { items, .. } => {
                let ghost iv = rows_view(items@);
                assert(self@.screen is Review && self@.screen->items == iv);
                let n = items.len();
                let mut i: usize = 0;
                let mut accepted: usize = 0;
                let mut skipped: usize = 0;
                while i < n
                    invariant
                        n == items@.len(),
                        iv == rows_view(items@),
                        self@.screen is Review && self@.screen->items == iv,
                        self@ == old(self)@,
                        i <= n,
                        forall|k: int| 0 <= k < i ==> (#[trigger] iv[k]).decision != Decision::Pending,
                        accepted == count_accepted(iv.take(i as int)),
                        skipped == count_skipped(iv.take(i as int)),
                        accepted + skipped <= i,
                    decreases n - i,
                {
                    assert(iv.take(i + 1).drop_last() =~= iv.take(i as int));
                    assert(iv[i as int] == items@[i as int]@);
                    match items[i].decision {
                        Decision::Pending => {
                            assert(iv[i as int].decision == Decision::Pending);
                            assert(!all_decided(iv));
                            assert(self@.screen is Review && self@.screen->items == iv);
                            return;
                        },
                        Decision::Accepted(_) => {
                            accepted = accepted + 1;
                        },
                        Decision::Skipped => {
                            skipped = skipped + 1;
                        },
                    }
                    i = i + 1;
                }
                assert(iv.take(n as int) =~= iv);
                (accepted, skipped, copy_rows(items))
            },
            _ => {
                return;
            },
        };
        let total = self.auto_accepted.len() + accepted;
        self.decided = decided;
        self.screen = Screen::Confirm {
            playlist_name: self.playlist_name.clone(),
            accepted: total,
            skipped,
            not_found: self.not_found.len(),
        };
    }
}

// ---------------------------------------------------------------------------
// Laws
// ---------------------------------------------------------------------------

proof fn lemma_triage_lengths(ms: Seq<TrackMatchView>)
    ensures
        auto_of(ms).len() + not_found_of(ms).len() + review_of(ms).len() == ms.len(),
        forall|i: int| 0 <= i < auto_of(ms).len() ==> is_auto(#[trigger] auto_of(ms)[i]),
        forall|i: int|
            0 <= i < not_found_of(ms).len() ==> (#[trigger] not_found_of(ms)[i]).confidence
                == Confidence::NotFound,
        forall|i: int|
            0 <= i < review_of(ms).len() ==> (#[trigger] review_of(ms)[i]).decision
                == Decision::Pending && review_of(ms)[i].track.confidence == Confidence::Ambiguous,
    decreases ms.len(),
{
    if ms.len() > 0 {
        lemma_triage_lengths(ms.drop_last());
        let a = auto_of(ms.drop_last());
        let f = not_found_of(ms.drop_last());
        let r = review_of(ms.drop_last());
        assert forall|i: int| 0 <= i < auto_of(ms).len() implies is_auto(
            #[trigger] auto_of(ms)[i],
        ) by {
            if i < a.len() {
                assert(auto_of(ms)[i] == a[i]);
            }
        }
        assert forall|i: int| 0 <= i < not_found_of(ms).len() implies (#[trigger] not_found_of(
            ms,
        )[i]).confidence == Confidence::NotFound by {
            if i < f.len() {
                assert(not_found_of(ms)[i] == f[i]);
            }
        }
        assert forall|i: int| 0 <= i < review_of(ms).len() implies (#[trigger] review_of(
            ms,
        )[i]).decision == Decision::Pending && review_of(ms)[i].track.confidence
            == Confidence::Ambiguous by {
            if i < r.len() {
                assert(review_of(ms)[i] == r[i]);
            }
        }
    }
}

/// Triage sends every match to exactly one place: auto-accepted (Exact and
/// High), not found, or a pending review row (Ambiguous), so the three
/// together account for every match.
pub proof fn law_triage_accounts_for_every_match(ms: Seq<TrackMatchView>)
    ensures
        auto_of(ms).len() + not_found_of(ms).len() + review_of(ms).len() == ms.len(),
        forall|i: int| 0 <= i < auto_of(ms).len() ==> is_auto(#[trigger] auto_of(ms)[i]),
        forall|i: int|
            0 <= i < not_found_of(ms).len() ==> (#[trigger] not_found_of(ms)[i]).confidence
                == Confidence::NotFound,
        forall|i: int|
            0 <= i < review_of(ms).len() ==> (#[trigger] review_of(ms)[i]).decision
                == Decision::Pending && review_of(ms)[i].track.confidence == Confidence::Ambiguous,
{
    lemma_triage_lengths(ms);
}

/// Abort works from every screen.
pub proof fn law_abort_from_any_screen(a: AppView)
    ensures
        key_step(a, Key::Abort).screen == ScreenView::Aborted,
{
}

/// Confirm is refused while any review row is still pending.
pub proof fn law_confirm_refused_while_pending(a: AppView, i: int)
    requires
        a.screen is Review,
        0 <= i < a.screen->items.len(),
        a.screen->items[i].decision == Decision::Pending,
    ensures
        key_step(a, Key::Confirm) == a,
{
}

/// Nothing is written without confirmation: the session reaches Done only
/// by pressing Confirm on the Confirm screen (or was Done already).
pub proof fn law_done_only_from_confirm(a: AppView, k: Key)
    requires
        key_step(a, k).screen == ScreenView::Done,
    ensures
        (a.screen is Confirm && k == Key::Confirm) || a.screen == ScreenView::Done,
{
}

/// Every accepted row names a candidate that exists, and the cursor stays
/// on a row.
pub open spec fn rows_in_range(items: Seq<ReviewItemView>) -> bool {
    forall|i: int|
        0 <= i < items.len() ==> ((#[trigger] items[i]).decision matches Decision::Accepted(c)
            ==> c < items[i].track.candidates.len())
}

/// The review screen's shape: accepted rows name real candidates and the
/// cursor is on a row.
pub open spec fn well_formed(a: AppView) -> bool {
    &&& rows_in_range(a.decided)
    &&& match a.screen {
        ScreenView::Review { items, cursor } => rows_in_range(items) && (cursor < items.len()
            || (items.len() == 0 && cursor == 0)),
        _ => true,
    }
}

/// Every count on the way to the Confirm and Done screens adds up to `total`
/// matches: while reviewing, the three lists; on Confirm, accepted plus
/// skipped plus not found; on Done, the three lists again.
pub open spec fn tally(a: AppView, total: nat) -> bool {
    match a.screen {
        ScreenView::Review { items, .. } => a.auto_accepted.len() + a.not_found.len()
            + items.len() == total,
        ScreenView::Confirm { accepted, skipped, not_found, .. } => {
            &&& accepted + skipped + not_found == total
            &&& not_found == a.not_found.len()
            &&& a.auto_accepted.len() + a.not_found.len() + a.decided.len() == total
            &&& all_decided(a.decided)
        },
        ScreenView::Done => a.auto_accepted.len() + a.not_found.len() + a.decided.len() == total
            && all_decided(a.decided),
        ScreenView::Aborted => true,
    }
}

proof fn lemma_counts(items: Seq<ReviewItemView>)
    requires
        all_decided(items),
    ensures
        count_accepted(items) + count_skipped(items) == items.len(),
    decreases items.len(),
{
    if items.len() > 0 {
        assert(all_decided(items.drop_last())) by {
            assert forall|i: int| 0 <= i < items.drop_last().len() implies (
            #[trigger] items.drop_last()[i]).decision != Decision::Pending by {
                assert(items.drop_last()[i] == items[i]);
            }
        }
        lemma_counts(items.drop_last());
        assert(items[items.len() - 1] == items.last());
    }
}

proof fn lemma_advanced_keeps(a: AppView, total: nat)
    requires
        tally(a, total),
        well_formed(a),
        fits(a),
    ensures
        tally(advanced(a), total),
        well_formed(advanced(a)),
{
    if let ScreenView::Review { items, .. } = a.screen {
        if all_decided(items) {
            lemma_counts(items);
        }
    }
}

/// The session opens well formed and with every match accounted for.
pub proof fn law_opening_tally(ms: Seq<TrackMatchView>, name: Seq<char>)
    requires
        ms.len() <= usize::MAX,
    ensures
        ({
            let a = advanced(
                AppView {
                    screen: ScreenView::Review { items: review_of(ms), cursor: 0 },
                    playlist_name: name,
                    auto_accepted: auto_of(ms),
                    not_found: not_found_of(ms),
                    decided: seq![],
                },
            );
            tally(a, ms.len()) && well_formed(a) && fits(a)
        }),
{
    lemma_triage_lengths(ms);
    let a0 = AppView {
        screen: ScreenView::Review { items: review_of(ms), cursor: 0 },
        playlist_name: name,
        auto_accepted: auto_of(ms),
        not_found: not_found_of(ms),
        decided: seq![],
    };
    assert(rows_in_range(review_of(ms)));
    lemma_advanced_keeps(a0, ms.len());
}

/// Every key press keeps the session well formed and keeps every match
/// accounted for, so when Confirm is reached, accepted + skipped + not found
/// equals the number of matches triaged.
pub proof fn law_keys_keep_tally(a: AppView, k: Key, total: nat)
    requires
        tally(a, total),
        well_formed(a),
        fits(a),
    ensures
        tally(key_step(a, k), total),
        well_formed(key_step(a, k)),
{
    if k != Key::Abort {
        match a.screen {
            ScreenView::Review { items, cursor } => {
                match k {
                    Key::Digit(n) => {
                        if cursor < items.len() && 1 <= n && n - 1
                            < items[cursor as int].track.candidates.len() {
                            let d = decide(items, cursor as int, Decision::Accepted((n - 1) as usize));
                            assert(rows_in_range(d)) by {
                                assert forall|i: int| 0 <= i < d.len() implies ((
                                #[trigger] d[i]).decision matches Decision::Accepted(c) ==> c
                                    < d[i].track.candidates.len()) by {
                                    if i != cursor {
                                        assert(d[i] == items[i]);
                                    }
                                }
                            }
                        }
                    },
                    Key::Skip => {
                        if cursor < items.len() {
                            let d = decide(items, cursor as int, Decision::Skipped);
                            assert(rows_in_range(d)) by {
                                assert forall|i: int| 0 <= i < d.len() implies ((
                                #[trigger] d[i]).decision matches Decision::Accepted(c) ==> c
                                    < d[i].track.candidates.len()) by {
                                    if i != cursor {
                                        assert(d[i] == items[i]);
                                    }
                                }
                            }
                        }
                    },
                    Key::Confirm => {
                        lemma_advanced_keeps(a, total);
                    },
                    _ => {},
                }
            },
            _ => {},
        }
    }
}

proof fn lemma_keys_keep_fits(a: AppView, k: Key)
    requires
        fits(a),
    ensures
        fits(key_step(a, k)),
{
}

proof fn lemma_keys_keep(a: AppView, keys: Seq<Key>, total: nat)
    requires
        tally(a, total),
        well_formed(a),
        fits(a),
    ensures
        tally(keys_step(a, keys), total),
        well_formed(keys_step(a, keys)),
        fits(keys_step(a, keys)),
    decreases keys.len(),
{
    if keys.len() > 0 {
        law_keys_keep_tally(a, keys[0], total);
        lemma_keys_keep_fits(a, keys[0]);
        lemma_keys_keep(key_step(a, keys[0]), keys.drop_first(), total);
    }
}

/// Whatever keys are pressed, in whatever order, nothing is dropped: while
/// reviewing, auto-accepted + not found + review rows is the number of
/// matches, and on Confirm, accepted + skipped + not found is.
pub proof fn law_any_keys_keep_tally(ms: Seq<TrackMatchView>, name: Seq<char>, keys: Seq<Key>)
    requires
        ms.len() <= usize::MAX,
    ensures
        tally(keys_step(opening(ms, name), keys), ms.len()),
{
    law_opening_tally(ms, name);
    lemma_keys_keep(opening(ms, name), keys, ms.len());
}

/// Every pick the listener made is written: the listener's part of the
/// songs to write is, for each row decided "accept candidate `i`", in row
/// order, the catalog id of that row's candidate `i`, and nothing else. So
/// there is one id per accepted row, and Confirm's count of accepted rows is
/// the number of ids the listener adds.
pub proof fn law_every_pick_is_written(rows: Seq<ReviewItemView>)
    requires
        rows_in_range(rows),
    ensures
        chosen_ids(rows) == rows.filter(|r: ReviewItemView| r.decision is Accepted).map_values(
            |r: ReviewItemView|
                match r.decision {
                    Decision::Accepted(i) => r.track.candidates[i as int].catalog_id,
                    _ => seq![],
                },
        ),
        chosen_ids(rows).len() == count_accepted(rows),
    decreases rows.len(),
{
    reveal(Seq::filter);
    let pred = |r: ReviewItemView| r.decision is Accepted;
    let pick = |r: ReviewItemView|
        match r.decision {
            Decision::Accepted(i) => r.track.candidates[i as int].catalog_id,
            _ => seq![],
        };
    if rows.len() == 0 {
        assert(rows.filter(pred) =~= Seq::<ReviewItemView>::empty());
        assert(rows.filter(pred).map_values(pick) =~= Seq::<Seq<char>>::empty());
    } else {
        let pre = rows.drop_last();
        assert(rows_in_range(pre)) by {
            assert forall|i: int| 0 <= i < pre.len() implies ((#[trigger] pre[i]).decision matches Decision::Accepted(c)
                ==> c < pre[i].track.candidates.len()) by {
                assert(pre[i] == rows[i]);
            }
        }
        law_every_pick_is_written(pre);
        let g = pre.filter(pred);
        assert(rows.last() == rows[rows.len() - 1]);
        if rows.last().decision is Accepted {
            assert(rows.filter(pred) == g.push(rows.last()));
            assert(g.push(rows.last()).map_values(pick) =~= g.map_values(pick).push(
                pick(rows.last()),
            ));
        } else {
            assert(rows.filter(pred) == g);
        }
    }
}

/// Everything Confirm writes: the best candidate of each auto-accepted
/// match that has one, then one id per accepted review row.
pub proof fn law_written_ids_count(a: AppView)
    requires
        well_formed(a),
    ensures
        accepted_ids(a).len() == first_ids(a.auto_accepted).len() + count_accepted(rows_of(a)),
{
    law_every_pick_is_written(rows_of(a));
}

/// Triage keeps each match as it is and in playlist order: the accepted
/// matches are exactly the Exact and High ones, the not-found ones exactly
/// the NotFound ones, and the review rows, each pending, exactly the
/// Ambiguous ones.
pub proof fn law_triage_keeps_order(ms: Seq<TrackMatchView>)
    ensures
        auto_of(ms) == ms.filter(
            |m: TrackMatchView| m.confidence == Confidence::Exact || m.confidence == Confidence::High,
        ),
        not_found_of(ms) == ms.filter(|m: TrackMatchView| m.confidence == Confidence::NotFound),
        review_of(ms) == ms.filter(|m: TrackMatchView| m.confidence == Confidence::Ambiguous).map_values(
            |m: TrackMatchView| ReviewItemView { track: m, decision: Decision::Pending },
        ),
    decreases ms.len(),
{
    reveal(Seq::filter);
    let pa = |m: TrackMatchView| m.confidence == Confidence::Exact || m.confidence == Confidence::High;
    let pn = |m: TrackMatchView| m.confidence == Confidence::NotFound;
    let pr = |m: TrackMatchView| m.confidence == Confidence::Ambiguous;
    let row = |m: TrackMatchView| ReviewItemView { track: m, decision: Decision::Pending };
    if ms.len() == 0 {
        assert(ms.filter(pa) =~= Seq::<TrackMatchView>::empty());
        assert(ms.filter(pn) =~= Seq::<TrackMatchView>::empty());
        assert(ms.filter(pr) =~= Seq::<TrackMatchView>::empty());
        assert(ms.filter(pr).map_values(row) =~= Seq::<ReviewItemView>::empty());
    } else {
        law_triage_keeps_order(ms.drop_last());
        let last = ms.last();
        let g = ms.drop_last().filter(pr);
        if pr(last) {
            assert(ms.filter(pr) == g.push(last));
            assert(g.push(last).map_values(row) =~= g.map_values(row).push(row(last)));
        } else {
            assert(ms.filter(pr) == g);
        }
    }
}

/// The accepted matches' part of what Confirm writes: the front candidate's
/// catalog id of each one that has a candidate, in order.
pub proof fn law_auto_ids(ms: Seq<TrackMatchView>)
    ensures
        first_ids(ms) == ms.filter(|m: TrackMatchView| m.candidates.len() > 0).map_values(
            |m: TrackMatchView| m.candidates[0].catalog_id,
        ),
    decreases ms.len(),
{
    reveal(Seq::filter);
    let p = |m: TrackMatchView| m.candidates.len() > 0;
    let f = |m: TrackMatchView| m.candidates[0].catalog_id;
    if ms.len() == 0 {
        assert(ms.filter(p) =~= Seq::<TrackMatchView>::empty());
        assert(ms.filter(p).map_values(f) =~= Seq::<Seq<char>>::empty());
    } else {
        law_auto_ids(ms.drop_last());
        let g = ms.drop_last().filter(p);
        if p(ms.last()) {
            assert(ms.filter(p) == g.push(ms.last()));
            assert(g.push(ms.last()).map_values(f) =~= g.map_values(f).push(f(ms.last())));
        } else {
            assert(ms.filter(p) == g);
        }
    }
}

} // verus!
