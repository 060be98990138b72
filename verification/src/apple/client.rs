//! The decisions of talking to the Apple Music API: which addresses to call,
//! how requests are batched, what each answer's status means, and when to
//! retry. The caller performs the requests.
use vstd::prelude::*;

use crate::apple::{AppleError, AppleErrorView};
use crate::text::{chars_of, decimal, join, join_strings, push_all, push_decimal, push_str, string_of, strs};
use crate::types::{opt_str, SourceTrack, SourceTrackView};

verus! {

/// Where the Apple Music API lives.
pub const BASE: &'static str = "https://api.music.apple.com";

/// Apple accepts at most 25 comma-separated values in `filter[isrc]`.
pub const ISRC_BATCH: usize = 25;

/// Apple accepts at most 100 songs in one add-to-playlist request. A longer
/// playlist is added in several, in order.
pub const ADD_CHUNK: usize = 100;

/// Fallback wait when Apple rate-limits without a usable `Retry-After`.
pub const DEFAULT_RETRY_AFTER_SECS: u64 = 3;

/// A refused add, and how much of the playlist Apple already took.
///
/// The caller needs both: the count to tell the listener what is actually in
/// the playlist, the error to say why the rest isn't. Resuming from the count
/// is also the only way to retry without adding anything twice.
#[derive(Debug)]
pub struct AddFailure {
    /// Songs Apple accepted before the batch that failed.
    pub added: usize,
    pub error: AppleError,
}

// ---------------------------------------------------------------------------
// Batches
// ---------------------------------------------------------------------------

/// `s` cut into consecutive pieces of `n`, the last one possibly shorter;
/// no piece is empty.
pub open spec fn chunks<T>(s: Seq<T>, n: nat) -> Seq<Seq<T>>
    decreases s.len(),
{
    if s.len() == 0 || n == 0 {
        seq![]
    } else if s.len() <= n {
        seq![s]
    } else {
        seq![s.take(n as int)] + chunks(s.skip(n as int), n)
    }
}

/// The pieces put back together.
pub open spec fn flatten<T>(ps: Seq<Seq<T>>) -> Seq<T>
    decreases ps.len(),
{
    if ps.len() == 0 {
        seq![]
    } else {
        ps[0] + flatten(ps.drop_first())
    }
}

/// The views of a list of lists of strings.
pub open spec fn batches_view(v: Seq<Vec<String>>) -> Seq<Seq<Seq<char>>> {
    v.map_values(|b: Vec<String>| strs(b@))
}

/// `v` cut into consecutive batches of `n`.
pub fn chunk_strings(v: &Vec<String>, n: usize) -> (r: Vec<Vec<String>>)
    requires
        n > 0,
    ensures
        batches_view(r@) == chunks(strs(v@), n as nat),
{
    let mut out: Vec<Vec<String>> = Vec::new();
    let len = v.len();
    let mut start: usize = 0;
    let ghost all = strs(v@);
    assert(all.skip(0) =~= all);
    assert(batches_view(out@) + chunks(all.skip(0), n as nat) =~= chunks(all, n as nat));
    while start < len
        invariant
            len == v@.len(),
            all == strs(v@),
            n > 0,
            start <= len,
            chunks(all, n as nat) == batches_view(out@) + chunks(all.skip(start as int), n as nat),
        decreases len - start,
    {
        let end = if len - start <= n {
            len
        } else {
            start + n
        };
        let mut batch: Vec<String> = Vec::new();
        let mut k = start;
        while k < end
            invariant
                start <= k <= end <= len,
                len == v@.len(),
                batch@ == v@.subrange(start as int, k as int),
            decreases end - k,
        {
            batch.push(v[k].clone());
            assert(v@.subrange(start as int, k + 1) =~= v@.subrange(start as int, k as int).push(
                v@[k as int],
            ));
            k = k + 1;
        }
        let ghost rest = all.skip(start as int);
        let ghost before = out@;
        assert(strs(batch@) =~= if rest.len() <= n {
            rest
        } else {
            rest.take(n as int)
        });
        out.push(batch);
        assert(batches_view(out@) =~= batches_view(before).push(strs(batch@)));
        proof {
            if rest.len() <= n {
                assert(all.skip(end as int) =~= Seq::<Seq<char>>::empty());
                assert(chunks(rest, n as nat) == seq![rest]);
                assert(batches_view(before) + seq![rest] =~= batches_view(out@) + chunks(
                    all.skip(end as int),
                    n as nat,
                ));
            } else {
                assert(rest.skip(n as int) =~= all.skip(end as int));
                assert(batches_view(before) + (seq![rest.take(n as int)] + chunks(
                    rest.skip(n as int),
                    n as nat,
                )) =~= batches_view(out@) + chunks(all.skip(end as int), n as nat));
            }
        }
        start = end;
    }
    assert(all.skip(len as int) =~= Seq::<Seq<char>>::empty());
    assert(batches_view(out@) + Seq::<Seq<Seq<char>>>::empty() =~= batches_view(out@));
    out
}

/// The catalog ids to add, in batches Apple accepts, in order.
pub fn add_batches(catalog_ids: &Vec<String>) -> (r: Vec<Vec<String>>)
    ensures
        batches_view(r@) == chunks(strs(catalog_ids@), ADD_CHUNK as nat),
{
    chunk_strings(catalog_ids, ADD_CHUNK)
}

proof fn lemma_chunks<T>(s: Seq<T>, n: nat)
    requires
        n > 0,
    ensures
        flatten(chunks(s, n)) == s,
        forall|i: int|
            0 <= i < chunks(s, n).len() ==> (#[trigger] chunks(s, n)[i]).len() > 0
                && chunks(s, n)[i].len() <= n,
        forall|i: int| 0 <= i < chunks(s, n).len() - 1 ==> (#[trigger] chunks(s, n)[i]).len() == n,
        chunks(s, n).len() == (s.len() + n - 1) / (n as int),
    decreases s.len(),
{
    if s.len() == 0 {
        assert(s =~= Seq::<T>::empty());
        assert((s.len() + n - 1) / (n as int) == 0) by (nonlinear_arith)
            requires
                s.len() == 0,
                n > 0,
        ;
    } else if s.len() <= n {
        let c = chunks(s, n);
        assert(c.drop_first() =~= Seq::<Seq<T>>::empty());
        assert(flatten(c.drop_first()) == Seq::<T>::empty());
        assert(s + Seq::<T>::empty() =~= s);
        assert(flatten(c) == c[0] + flatten(c.drop_first()));
        assert((s.len() + n - 1) / (n as int) == 1) by (nonlinear_arith)
            requires
                0 < s.len() <= n,
        ;
    } else {
        let rest = s.skip(n as int);
        lemma_chunks(rest, n);
        let c = chunks(s, n);
        assert(c.drop_first() =~= chunks(rest, n));
        assert(s.take(n as int) + rest =~= s);
        assert(flatten(c) == c[0] + flatten(c.drop_first()));
        assert forall|i: int| 0 <= i < c.len() implies (#[trigger] c[i]).len() > 0 && c[i].len()
            <= n by {
            if i > 0 {
                assert(c[i] == chunks(rest, n)[i - 1]);
            }
        }
        assert forall|i: int| 0 <= i < c.len() - 1 implies (#[trigger] c[i]).len() == n by {
            if i > 0 {
                assert(c[i] == chunks(rest, n)[i - 1]);
            }
        }
        assert((s.len() + n - 1) / (n as int) == (rest.len() + n - 1) / (n as int) + 1)
            by (nonlinear_arith)
            requires
                rest.len() == s.len() - n,
                n > 0,
        ;
    }
}

/// Batching loses and reorders nothing: the batches put back together are
/// the list they were cut from; no batch is empty or larger than the limit, and only
/// the last may be short, so there are ⌈len / limit⌉ of them.
pub proof fn law_batches_cover_everything<T>(s: Seq<T>, n: nat)
    requires
        n > 0,
    ensures
        flatten(chunks(s, n)) == s,
        forall|i: int|
            0 <= i < chunks(s, n).len() ==> (#[trigger] chunks(s, n)[i]).len() > 0
                && chunks(s, n)[i].len() <= n,
        forall|i: int| 0 <= i < chunks(s, n).len() - 1 ==> (#[trigger] chunks(s, n)[i]).len() == n,
        chunks(s, n).len() == (s.len() + n - 1) / (n as int),
{
    lemma_chunks(s, n);
}

// ---------------------------------------------------------------------------
// Addresses
// ---------------------------------------------------------------------------

/// `BASE` followed by `path`.
pub fn api_url(path: &str) -> (r: String)
    ensures
        r@ == BASE@ + path@,
{
    let mut out: Vec<char> = Vec::new();
    push_str(&mut out, BASE);
    push_str(&mut out, path);
    string_of(&out)
}

/// The catalogue lookup for one batch of ISRCs.
pub open spec fn isrc_path_of(storefront: Seq<char>, batch: Seq<Seq<char>>) -> Seq<char> {
    "/v1/catalog/"@ + storefront + "/songs?filter[isrc]="@ + join(batch, ","@)
}

/// The catalogue lookups for `isrcs`, 25 per request, in order.
pub fn isrc_paths(storefront: &str, isrcs: &Vec<String>) -> (r: Vec<String>)
    ensures
        r@.len() == chunks(strs(isrcs@), ISRC_BATCH as nat).len(),
        forall|i: int|
            0 <= i < r@.len() ==> (#[trigger] r@[i])@ == isrc_path_of(
                storefront@,
                chunks(strs(isrcs@), ISRC_BATCH as nat)[i],
            ),
{
    let batches = chunk_strings(isrcs, ISRC_BATCH);
    let ghost bv = batches_view(batches@);
    let mut out: Vec<String> = Vec::new();
    let n = batches.len();
    let mut i: usize = 0;
    while i < n
        invariant
            n == batches@.len(),
            bv == batches_view(batches@),
            i <= n,
            out@.len() == i,
            forall|k: int| 0 <= k < i ==> (#[trigger] out@[k])@ == isrc_path_of(storefront@, bv[k]),
        decreases n - i,
    {
        let mut p: Vec<char> = Vec::new();
        push_str(&mut p, "/v1/catalog/");
        push_str(&mut p, storefront);
        push_str(&mut p, "/songs?filter[isrc]=");
        let joined = join_strings(&batches[i], ",");
        push_all(&mut p, &joined);
        assert(bv[i as int] == strs(batches@[i as int]@));
        out.push(string_of(&p));
        i = i + 1;
    }
    out
}

/// A byte that is sent as itself in a query value: ASCII letters, digits,
/// `-`, `_`, `.` and `~`.
pub open spec fn is_plain_byte(b: u8) -> bool {
    (65 <= b && b <= 90) || (97 <= b && b <= 122) || (48 <= b && b <= 57) || b == 45 || b == 95
        || b == 46 || b == 126
}

/// The uppercase hexadecimal digit for `d < 16`.
pub open spec fn hex_digit(d: nat) -> char {
    if d < 10 {
        (48 + d) as char
    } else {
        (55 + d) as char
    }
}

/// One byte as it appears in a query value.
pub open spec fn encode_byte(b: u8) -> Seq<char> {
    if is_plain_byte(b) {
        seq![b as char]
    } else {
        seq!['%', hex_digit((b / 16) as nat), hex_digit((b % 16) as nat)]
    }
}

/// Every byte of `bs` as it appears in a query value.
pub open spec fn percent_encode(bs: Seq<u8>) -> Seq<char>
    decreases bs.len(),
{
    if bs.len() == 0 {
        seq![]
    } else {
        percent_encode(bs.drop_last()) + encode_byte(bs.last())
    }
}

fn hex_char(d: u8) -> (c: char)
    requires
        d < 16,
    ensures
        c == hex_digit(d as nat),
{
    if d < 10 {
        (48 + d) as char
    } else {
        (55 + d) as char
    }
}

/// Minimal percent-encoding for a query value (space and reserved chars):
/// every UTF-8 byte of `s` that isn't a letter, digit, `-`, `_`, `.` or `~`
/// becomes `%XX`.
pub fn url_encode(s: &str) -> (r: String)
    ensures
        r@ == percent_encode(vstd::utf8::encode_utf8(s@)),
{
    let bytes = s.as_bytes();
    let ghost bs = bytes@;
    let mut out: Vec<char> = Vec::new();
    let n = bytes.len();
    let mut i: usize = 0;
    while i < n
        invariant
            n == bytes@.len(),
            bs == bytes@,
            i <= n,
            out@ == percent_encode(bs.take(i as int)),
        decreases n - i,
    {
        let b = bytes[i];
        assert(bs.take(i + 1).drop_last() =~= bs.take(i as int));
        if (65 <= b && b <= 90) || (97 <= b && b <= 122) || (48 <= b && b <= 57) || b == 45 || b
            == 95 || b == 46 || b == 126 {
            out.push(b as char);
        } else {
            out.push('%');
            out.push(hex_char(b / 16));
            out.push(hex_char(b % 16));
        }
        assert(out@ =~= percent_encode(bs.take(i + 1)));
        i = i + 1;
    }
    assert(bs.take(n as int) =~= bs);
    string_of(&out)
}

/// What a catalogue search asks for: the title, then the artists, spaced.
pub open spec fn search_term_of(t: SourceTrackView) -> Seq<char> {
    t.title + " "@ + join(t.artists, " "@)
}

/// The catalogue search for a track: at most five songs.
pub open spec fn search_path_of(storefront: Seq<char>, t: SourceTrackView) -> Seq<char> {
    "/v1/catalog/"@ + storefront + "/search?types=songs&limit=5&term="@ + percent_encode(
        vstd::utf8::encode_utf8(search_term_of(t)),
    )
}

/// The catalogue search for a track.
pub fn search_path(storefront: &str, track: &SourceTrack) -> (r: String)
    ensures
        r@ == search_path_of(storefront@, track@),
{
    let mut term: Vec<char> = Vec::new();
    push_str(&mut term, track.title.as_str());
    push_str(&mut term, " ");
    let artists = join_strings(&track.artists, " ");
    push_all(&mut term, &artists);
    let term_string = string_of(&term);
    let encoded = url_encode(term_string.as_str());
    let mut p: Vec<char> = Vec::new();
    push_str(&mut p, "/v1/catalog/");
    push_str(&mut p, storefront);
    push_str(&mut p, "/search?types=songs&limit=5&term=");
    push_str(&mut p, encoded.as_str());
    string_of(&p)
}

/// Where a library playlist's tracks are added.
pub fn add_tracks_path(playlist_id: &str) -> (r: String)
    ensures
        r@ == "/v1/me/library/playlists/"@ + playlist_id@ + "/tracks"@,
{
    let mut p: Vec<char> = Vec::new();
    push_str(&mut p, "/v1/me/library/playlists/");
    push_str(&mut p, playlist_id);
    push_str(&mut p, "/tracks");
    string_of(&p)
}

// ---------------------------------------------------------------------------
// Statuses and the single retry
// ---------------------------------------------------------------------------

/// What one HTTP attempt produced.
#[derive(Debug)]
pub enum Attempt {
    /// A usable response.
    Response,
    /// A rate-limit, with the seconds Apple asked us to wait.
    RateLimited(u64),
    /// A failure to report.
    Failed(AppleError),
}

/// The mathematical content of an [`Attempt`].
pub enum AttemptView {
    Response,
    RateLimited(u64),
    Failed(AppleErrorView),
}

impl View for Attempt {
    type V = AttemptView;

    open spec fn view(&self) -> AttemptView {
        match self {
            Attempt::Response => AttemptView::Response,
            Attempt::RateLimited(n) => AttemptView::RateLimited(*n),
            Attempt::Failed(e) => AttemptView::Failed(e@),
        }
    }
}

/// What the listener is told when Apple rejects the tokens. Apple answers
/// 401/403 both for a Music User Token it has stopped accepting and for a
/// developer token signed with the wrong team or key, so it covers both.
pub open spec fn rejected_text() -> Seq<char> {
    "Apple Music rejected the request. If this keeps happening after signing in again, check team_id and key_id in ~/.config/rocola/config.toml."@
}

/// The wait that a `Retry-After` header asks for, or the default.
pub open spec fn apple_wait_of(retry_after: Option<Seq<char>>) -> u64 {
    match retry_after {
        Some(v) => match crate::spotify::client::u64_of(v) {
            Some(n) => n,
            None => DEFAULT_RETRY_AFTER_SECS,
        },
        None => DEFAULT_RETRY_AFTER_SECS,
    }
}

/// What a status decides: 429 is a rate-limit, 401 and 403 a rejected
/// sign-in, any other 2xx a usable response, anything else a failure named
/// by its status.
pub open spec fn attempt_of(status: u16, retry_after: Option<Seq<char>>) -> AttemptView {
    if status == 429 {
        AttemptView::RateLimited(apple_wait_of(retry_after))
    } else if status == 401 || status == 403 {
        AttemptView::Failed(AppleErrorView::Auth(rejected_text()))
    } else if 200 <= status <= 299 {
        AttemptView::Response
    } else {
        AttemptView::Failed(
            AppleErrorView::Http("Apple Music answered "@ + decimal(status as nat)),
        )
    }
}

/// What one answer with this status (and `Retry-After` header) means.
pub fn attempt_outcome(status: u16, retry_after: &Option<String>) -> (r: Attempt)
    ensures
        r@ == attempt_of(status, opt_str(*retry_after)),
{
    if status == 429 {
        let wait = match retry_after {
            Some(v) => match crate::spotify::client::parse_u64(v.as_str()) {
                Some(n) => n,
                None => DEFAULT_RETRY_AFTER_SECS,
            },
            None => DEFAULT_RETRY_AFTER_SECS,
        };
        Attempt::RateLimited(wait)
    } else if status == 401 || status == 403 {
        Attempt::Failed(
            AppleError::Auth(
                "Apple Music rejected the request. If this keeps happening after signing in again, check team_id and key_id in ~/.config/rocola/config.toml.".to_owned(),
            ),
        )
    } else if 200 <= status && status <= 299 {
        Attempt::Response
    } else {
        let mut out: Vec<char> = Vec::new();
        push_str(&mut out, "Apple Music answered ");
        push_decimal(&mut out, status as u64);
        Attempt::Failed(AppleError::Http(string_of(&out)))
    }
}

/// What to do after an attempt.
#[derive(Debug)]
pub enum SendStep {
    /// Use the response.
    Deliver,
    /// Wait this many seconds and send the request once more.
    RetryAfter(u64),
    /// Stop with this error.
    Fail(AppleError),
}

/// The mathematical content of a [`SendStep`].
pub enum SendStepView {
    Deliver,
    RetryAfter(u64),
    Fail(AppleErrorView),
}

impl View for SendStep {
    type V = SendStepView;

    open spec fn view(&self) -> SendStepView {
        match self {
            SendStep::Deliver => SendStepView::Deliver,
            SendStep::RetryAfter(n) => SendStepView::RetryAfter(*n),
            SendStep::Fail(e) => SendStepView::Fail(e@),
        }
    }
}

/// A rate-limit on the first attempt is honoured once; on the retry it is
/// reported. Responses are used and failures reported either way.
pub open spec fn step_of(retried: bool, a: AttemptView) -> SendStepView {
    match a {
        AttemptView::Response => SendStepView::Deliver,
        AttemptView::RateLimited(n) => if retried {
            SendStepView::Fail(AppleErrorView::RateLimited)
        } else {
            SendStepView::RetryAfter(n)
        },
        AttemptView::Failed(e) => SendStepView::Fail(e),
    }
}

/// What to do after an attempt; `retried` says this was the second one.
pub fn send_step(retried: bool, attempt: Attempt) -> (r: SendStep)
    ensures
        r@ == step_of(retried, attempt@),
{
    match attempt {
        Attempt::Response => SendStep::Deliver,
        Attempt::RateLimited(n) => if retried {
            SendStep::Fail(AppleError::RateLimited)
        } else {
            SendStep::RetryAfter(n)
        },
        Attempt::Failed(e) => SendStep::Fail(e),
    }
}

/// A request is sent at most twice: the retry never asks for another.
pub proof fn law_at_most_one_retry(a: AttemptView)
    ensures
        !(step_of(true, a) is RetryAfter),
{
}

// ---------------------------------------------------------------------------
// Ids in answers
// ---------------------------------------------------------------------------

/// The storefront from the ids Apple answered with: the first, or
/// [`AppleError::NotInStorefront`] when there is none.
pub fn storefront_from(ids: Vec<String>) -> (r: Result<String, AppleError>)
    ensures
        ids@.len() > 0 ==> (r matches Ok(s) && s@ == ids@[0]@),
        ids@.len() == 0 ==> (r matches Err(e) && e@ == AppleErrorView::NotInStorefront),
{
    let mut ids = ids;
    if ids.len() > 0 {
        Ok(ids.remove(0))
    } else {
        Err(AppleError::NotInStorefront)
    }
}

/// The new playlist's id from the ids Apple answered with: the first, or an
/// error when Apple sent none.
pub fn created_playlist_id(ids: Vec<String>) -> (r: Result<String, AppleError>)
    ensures
        ids@.len() > 0 ==> (r matches Ok(s) && s@ == ids@[0]@),
        ids@.len() == 0 ==> (r matches Err(e) && e@ == AppleErrorView::Http(
            "Apple created the playlist but sent no id"@,
        )),
{
    let mut ids = ids;
    if ids.len() > 0 {
        Ok(ids.remove(0))
    } else {
        Err(AppleError::Http("Apple created the playlist but sent no id".to_owned()))
    }
}

// ---------------------------------------------------------------------------
// Adding songs, batch by batch
// ---------------------------------------------------------------------------

proof fn lemma_flatten_split<T>(ps: Seq<Seq<T>>, k: int)
    requires
        0 <= k <= ps.len(),
    ensures
        flatten(ps) == flatten(ps.take(k)) + flatten(ps.skip(k)),
    decreases k,
{
    if k == 0 {
        assert(ps.take(0) =~= Seq::<Seq<T>>::empty());
        assert(ps.skip(0) =~= ps);
        assert(flatten(ps.take(0)) + flatten(ps) =~= flatten(ps));
    } else {
        let rest = ps.drop_first();
        lemma_flatten_split(rest, k - 1);
        assert(rest.skip(k - 1) =~= ps.skip(k));
        assert(ps.take(k).drop_first() =~= rest.take(k - 1));
        assert(ps.take(k)[0] == ps[0]);
        assert(flatten(ps.take(k)) == ps[0] + flatten(rest.take(k - 1)));
        assert(ps[0] + (flatten(rest.take(k - 1)) + flatten(rest.skip(k - 1))) =~= (ps[0]
            + flatten(rest.take(k - 1))) + flatten(rest.skip(k - 1)));
    }
}

proof fn lemma_flatten_one_more<T>(ps: Seq<Seq<T>>, k: int)
    requires
        0 <= k < ps.len(),
    ensures
        flatten(ps.take(k + 1)) == flatten(ps.take(k)) + ps[k],
{
    let t = ps.take(k + 1);
    lemma_flatten_split(t, k);
    assert(t.take(k) =~= ps.take(k));
    assert(t.skip(k) =~= seq![ps[k]]);
    let one = seq![ps[k]];
    assert(one[0] == ps[k]);
    assert(one.drop_first() =~= Seq::<Seq<T>>::empty());
    assert(flatten(one.drop_first()) =~= Seq::<T>::empty());
    assert(ps[k] + Seq::<T>::empty() =~= ps[k]);
    assert(flatten(one) =~= ps[k]);
}

/// Adding a playlist's songs batch by batch, counting what Apple took.
pub struct AddRun {
    batches: Vec<Vec<String>>,
    next: usize,
    added: usize,
    ids: Ghost<Seq<Seq<char>>>,
}

impl AddRun {
    /// The catalog ids being added.
    pub closed spec fn ids_spec(&self) -> Seq<Seq<char>> {
        self.ids@
    }

    /// The batches, in the order they are sent.
    pub closed spec fn batches_spec(&self) -> Seq<Seq<Seq<char>>> {
        batches_view(self.batches@)
    }

    /// How many batches Apple has taken.
    pub closed spec fn taken_spec(&self) -> nat {
        self.next as nat
    }

    /// How many songs Apple has taken.
    pub closed spec fn added_spec(&self) -> nat {
        self.added as nat
    }

    /// The batches are the ids cut at the add limit, and the count is the
    /// number of songs in the batches taken.
    pub closed spec fn wf(&self) -> bool {
        &&& self.ids@.len() <= usize::MAX
        &&& batches_view(self.batches@) == chunks(self.ids@, ADD_CHUNK as nat)
        &&& self.next <= self.batches@.len()
        &&& self.added == flatten(batches_view(self.batches@).take(self.next as int)).len()
    }

    /// Starts adding `catalog_ids`: nothing taken yet.
    pub fn new(catalog_ids: &Vec<String>) -> (r: AddRun)
        ensures
            r.wf(),
            r.ids_spec() == strs(catalog_ids@),
            r.taken_spec() == 0,
            r.added_spec() == 0,
    {
        let batches = add_batches(catalog_ids);
        let ghost ids = strs(catalog_ids@);
        assert(batches_view(batches@).take(0) =~= Seq::<Seq<Seq<char>>>::empty());
        assert(flatten(Seq::<Seq<Seq<char>>>::empty()).len() == 0);
        let total = catalog_ids.len();
        assert(ids.len() == total);
        AddRun { batches, next: 0, added: 0, ids: Ghost(ids) }
    }

    /// The next batch to send, or `None` once every batch is taken.
    pub fn next_batch(&self) -> (r: Option<&Vec<String>>)
        requires
            self.wf(),
        ensures
            r is None <==> self.taken_spec() == self.batches_spec().len(),
            r matches Some(b) ==> strs(b@) == self.batches_spec()[self.taken_spec() as int],
    {
        if self.next < self.batches.len() {
            Some(&self.batches[self.next])
        } else {
            None
        }
    }

    /// Apple took the next batch.
    pub fn accepted(&mut self)
        requires
            old(self).wf(),
            old(self).taken_spec() < old(self).batches_spec().len(),
        ensures
            final(self).wf(),
            final(self).ids_spec() == old(self).ids_spec(),
            final(self).batches_spec() == old(self).batches_spec(),
            final(self).taken_spec() == old(self).taken_spec() + 1,
            final(self).added_spec() == old(self).added_spec() + old(self).batches_spec()[old(
                self,
            ).taken_spec() as int].len(),
    {
        let ghost bv = batches_view(self.batches@);
        proof {
            law_batches_cover_everything(self.ids@, ADD_CHUNK as nat);
            lemma_flatten_one_more(bv, self.next as int);
            lemma_flatten_split(bv, self.next + 1);
            assert(bv[self.next as int] == strs(self.batches@[self.next as int]@));
        }
        let n = self.batches[self.next].len();
        self.added = self.added + n;
        self.next = self.next + 1;
    }

    /// The failure to report when Apple refuses the next batch: the error,
    /// and how many songs it had taken before.
    pub fn failure(&self, error: AppleError) -> (r: AddFailure)
        ensures
            r.added == self.added_spec(),
            r.error@ == error@,
    {
        AddFailure { added: self.added, error }
    }
}

/// The count a refused add reports names exactly the songs in the
/// playlist: the first `added` of the catalog ids, all of them once every
/// batch is taken. So a retry resumes right after them, adding nothing twice
/// and leaving nothing out.
pub proof fn law_added_songs_are_a_prefix(run: AddRun)
    requires
        run.wf(),
    ensures
        run.added_spec() <= run.ids_spec().len(),
        flatten(run.batches_spec().take(run.taken_spec() as int)) == run.ids_spec().take(
            run.added_spec() as int,
        ),
        run.taken_spec() == run.batches_spec().len() ==> run.added_spec() == run.ids_spec().len(),
{
    let bv = run.batches_spec();
    let k = run.taken_spec() as int;
    law_batches_cover_everything(run.ids_spec(), ADD_CHUNK as nat);
    lemma_flatten_split(bv, k);
    assert(run.ids_spec().take(run.added_spec() as int) =~= flatten(bv.take(k)));
    if k == bv.len() {
        assert(bv.take(k) =~= bv);
    }
}

// ---------------------------------------------------------------------------
// Signing in again
// ---------------------------------------------------------------------------

/// The one re-sign-in a phase of a run may spend when Apple stops accepting
/// the stored Music User Token: Apple rejects it the same way it rejects a
/// key from the wrong team, so signing in again is worth exactly one try.
#[derive(Debug)]
pub struct SignInRetry {
    available: bool,
}

impl SignInRetry {
    /// Whether the re-sign-in is still unspent.
    pub closed spec fn unspent(&self) -> bool {
        self.available
    }

    /// A phase's allowance: one re-sign-in when `available`, none otherwise.
    pub fn new(available: bool) -> (r: SignInRetry)
        ensures
            r.unspent() == available,
    {
        SignInRetry { available }
    }

    /// Whether this failure calls for signing in again and trying once more:
    /// a rejected sign-in while the re-sign-in is unspent. Saying yes spends
    /// it.
    pub fn spend_on(&mut self, error: &AppleError) -> (r: bool)
        ensures
            r == (old(self).unspent() && error@ is Auth),
            final(self).unspent() == (old(self).unspent() && !r),
    {
        let r = self.available && match error {
            AppleError::Auth(_) => true,
            _ => false,
        };
        if r {
            self.available = false;
        }
        r
    }
}

/// How many of a phase's failures, in order, are answered with a
/// re-sign-in, starting from an allowance that is `unspent` or not; each
/// failure is given by whether it was a rejected sign-in.
pub open spec fn retries_granted(unspent: bool, rejected: Seq<bool>) -> nat
    decreases rejected.len(),
{
    if rejected.len() == 0 {
        0
    } else {
        let granted = unspent && rejected[0];
        (if granted {
            1nat
        } else {
            0nat
        }) + retries_granted(unspent && !granted, rejected.drop_first())
    }
}

/// A phase signs in again at most once, whatever failures come and in
/// whatever order, and only when one of them is a rejected sign-in.
pub proof fn law_one_sign_in_retry(unspent: bool, rejected: Seq<bool>)
    ensures
        retries_granted(unspent, rejected) <= 1,
        retries_granted(unspent, rejected) == 1 <==> (unspent && exists|i: int|
            0 <= i < rejected.len() && #[trigger] rejected[i]),
        !unspent ==> retries_granted(unspent, rejected) == 0,
    decreases rejected.len(),
{
    if rejected.len() > 0 {
        let granted = unspent && rejected[0];
        law_one_sign_in_retry(unspent && !granted, rejected.drop_first());
        if unspent && !rejected[0] {
            assert forall|i: int| 0 <= i < rejected.len() && #[trigger] rejected[i] implies (
            exists|j: int| 0 <= j < rejected.drop_first().len() && #[trigger] rejected.drop_first()[j]) by {
                assert(rejected.drop_first()[i - 1] == rejected[i]);
            }
            if exists|j: int| 0 <= j < rejected.drop_first().len() && #[trigger] rejected.drop_first()[j] {
                let j = choose|j: int| 0 <= j < rejected.drop_first().len() && #[trigger] rejected.drop_first()[j];
                assert(rejected[j + 1]);
            }
        }
        if granted {
            assert(rejected[0]);
        }
    }
}

} // verus!
