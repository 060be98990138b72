//! The decisions of the Spotify sign-in: which loopback request is the
//! callback, and what its query string says.
use vstd::prelude::*;

use crate::spotify::{SpotifyError, SpotifyErrorView};
use crate::text::{
    chars_of, find, find_exec, has_prefix, index_of, is_whitespace, is_ws,
    lemma_find_from_bounds, push_all, push_str, same_chars, slice_chars, starts_with, string_of,
    trim_start,
};

verus! {

/// The tokens Spotify's token endpoint returns.
#[derive(Debug)]
pub struct TokenSet {
    pub access_token: String,
    pub refresh_token: Option<String>,
    pub expires_in: u64,
}

impl Clone for TokenSet {
    fn clone(&self) -> (r: Self)
        ensures
            r.access_token@ == self.access_token@,
            crate::types::opt_str(r.refresh_token) == crate::types::opt_str(self.refresh_token),
            r.expires_in == self.expires_in,
    {
        TokenSet {
            access_token: self.access_token.clone(),
            refresh_token: crate::types::copy_opt_string(&self.refresh_token),
            expires_in: self.expires_in,
        }
    }
}

// ---------------------------------------------------------------------------
// The callback request
// ---------------------------------------------------------------------------

/// The first line of `s` (std's `str::lines().next()`): up to the first line
/// feed, without a carriage return just before it; `None` for an empty `s`.
pub open spec fn first_line(s: Seq<char>) -> Option<Seq<char>> {
    if s.len() == 0 {
        None
    } else {
        match index_of(s, '\n') {
            Some(k) => if k > 0 && s[k - 1] == '\r' {
                Some(s.take(k - 1))
            } else {
                Some(s.take(k))
            },
            None => Some(s),
        }
    }
}

/// The position of the first whitespace in `s` at or after `i`, or its length.
pub open spec fn word_end(s: Seq<char>, i: int) -> int
    decreases s.len() - i,
{
    if i < 0 || i >= s.len() {
        s.len() as int
    } else if is_ws(s[i]) {
        i
    } else {
        word_end(s, i + 1)
    }
}

/// The first word of `s` and what follows it, when `s` has a word.
pub open spec fn next_word(s: Seq<char>) -> Option<(Seq<char>, Seq<char>)> {
    let t = trim_start(s);
    if t.len() == 0 {
        None
    } else {
        Some((t.take(word_end(t, 0)), t.skip(word_end(t, 0))))
    }
}

/// The query of the sign-in callback: the request's first line must be a
/// `GET` of a path starting `/callback` that carries a non-empty query.
pub open spec fn callback_query_of(request: Seq<char>) -> Option<Seq<char>> {
    match first_line(request) {
        Some(line) => match next_word(line) {
            Some((method, rest)) => if method != "GET"@ {
                None
            } else {
                match next_word(rest) {
                    Some((target, _)) => match index_of(target, '?') {
                        Some(k) => {
                            let path = target.take(k);
                            let query = target.skip(k + 1);
                            if has_prefix(path, "/callback"@) && query.len() > 0 {
                                Some(query)
                            } else {
                                None
                            }
                        },
                        None => None,
                    },
                    None => None,
                }
            },
            None => None,
        },
        None => None,
    }
}

proof fn lemma_trim_start_is_skip(s: Seq<char>)
    ensures
        exists|i: int|
            0 <= i <= s.len() && trim_start(s) == s.skip(i) && forall|k: int|
                0 <= k < i ==> is_ws(#[trigger] s[k]),
    decreases s.len(),
{
    if s.len() > 0 && is_ws(s[0]) {
        lemma_trim_start_is_skip(s.drop_first());
        let i = choose|i: int|
            0 <= i <= s.drop_first().len() && trim_start(s.drop_first()) == s.drop_first().skip(i)
                && forall|k: int| 0 <= k < i ==> is_ws(#[trigger] s.drop_first()[k]);
        assert(s.drop_first().skip(i) =~= s.skip(i + 1));
        assert forall|k: int| 0 <= k < i + 1 implies is_ws(#[trigger] s[k]) by {
            if k > 0 {
                assert(s[k] == s.drop_first()[k - 1]);
            }
        }
    } else {
        assert(s.skip(0) =~= s);
    }
}

/// The first word of `s` and what follows it.
fn next_word_exec(s: &Vec<char>) -> (r: Option<(Vec<char>, Vec<char>)>)
    ensures
        r matches Some((w, rest)) ==> next_word(s@) == Some((w@, rest@)),
        r is None ==> next_word(s@) is None,
{
    let n = s.len();
    let mut i: usize = 0;
    assert(s@.skip(0) =~= s@);
    while i < n && is_whitespace(s[i])
        invariant
            n == s@.len(),
            i <= n,
            trim_start(s@) == trim_start(s@.skip(i as int)),
        decreases n - i,
    {
        assert(s@.skip(i as int).drop_first() =~= s@.skip(i + 1));
        i = i + 1;
    }
    let t = slice_chars(s, i, n);
    assert(t@ =~= s@.skip(i as int));
    assert(trim_start(t@) == t@);
    if t.len() == 0 {
        return None;
    }
    let mut j: usize = 0;
    while j < t.len() && !is_whitespace(t[j])
        invariant
            j <= t@.len(),
            word_end(t@, 0) == word_end(t@, j as int),
        decreases t@.len() - j,
    {
        j = j + 1;
    }
    let w = slice_chars(&t, 0, j);
    let rest = slice_chars(&t, j, t.len());
    assert(w@ =~= t@.take(j as int));
    assert(rest@ =~= t@.skip(j as int));
    Some((w, rest))
}

/// Pick the callback query out of a raw HTTP request, but only when this is
/// the request we're waiting for: a `GET` of `/callback` carrying a query.
///
/// Browsers open speculative connections and probe for `/favicon.ico`, so the
/// loopback listener sees traffic that isn't the sign-in reply.
pub fn callback_query(request: &str) -> (r: Option<String>)
    ensures
        r matches Some(q) ==> callback_query_of(request@) == Some(q@),
        r is None ==> callback_query_of(request@) is None,
{
    let s = chars_of(request);
    if s.len() == 0 {
        return None;
    }
    let mut lf: Vec<char> = Vec::new();
    lf.push('\n');
    assert(lf@ =~= seq!['\n']);
    let line = match find_exec(&s, &lf, 0) {
        Some(k) => {
            proof {
                lemma_find_from_bounds(s@, lf@, 0);
            }
            if k > 0 && s[k - 1] == '\r' {
                slice_chars(&s, 0, k - 1)
            } else {
                slice_chars(&s, 0, k)
            }
        },
        None => slice_chars(&s, 0, s.len()),
    };
    assert(first_line(s@) == Some(line@)) by {
        assert(s@.subrange(0, s@.len() as int) =~= s@);
    }
    let (method, rest) = match next_word_exec(&line) {
        Some(p) => p,
        None => {
            return None;
        },
    };
    let get = chars_of("GET");
    if !same_chars(&method, &get) {
        return None;
    }
    let (target, _) = match next_word_exec(&rest) {
        Some(p) => p,
        None => {
            return None;
        },
    };
    let mut qm: Vec<char> = Vec::new();
    qm.push('?');
    assert(qm@ =~= seq!['?']);
    let k = match find_exec(&target, &qm, 0) {
        Some(k) => k,
        None => {
            return None;
        },
    };
    proof {
        lemma_find_from_bounds(target@, qm@, 0);
    }
    assert(crate::text::occurs_at(target@, qm@, k as int));
    assert(k + 1 <= target.len());
    let path = slice_chars(&target, 0, k);
    let query = slice_chars(&target, k + 1, target.len());
    assert(path@ =~= target@.take(k as int));
    assert(query@ =~= target@.skip(k + 1));
    let cb = chars_of("/callback");
    if !starts_with(&path, &cb) || query.len() == 0 {
        return None;
    }
    Some(string_of(&query))
}

// ---------------------------------------------------------------------------
// The callback query
// ---------------------------------------------------------------------------

/// The pieces of `s` between occurrences of `c` (std's `str::split` on a
/// character): always at least one piece.
pub open spec fn pieces(s: Seq<char>, c: char) -> Seq<Seq<char>>
    decreases s.len(),
{
    match index_of(s, c) {
        Some(k) => if 0 <= k < s.len() {
            seq![s.take(k)] + pieces(s.skip(k + 1), c)
        } else {
            seq![s]
        },
        None => seq![s],
    }
}

/// The value the last `key=value` piece with this key assigns, if any.
pub open spec fn last_value(ps: Seq<Seq<char>>, key: Seq<char>) -> Option<Seq<char>>
    decreases ps.len(),
{
    if ps.len() == 0 {
        None
    } else {
        let p = ps.last();
        match index_of(p, '=') {
            Some(k) => if p.take(k) == key {
                Some(p.skip(k + 1))
            } else {
                last_value(ps.drop_last(), key)
            },
            None => last_value(ps.drop_last(), key),
        }
    }
}

/// What the listener is told when Spotify reports an error.
pub open spec fn denied_text(e: Seq<char>) -> Seq<char> {
    "the sign-in didn't finish ("@ + e + "). Run rocola again to retry."@
}

/// What the listener is told when the state doesn't match.
pub open spec fn state_mismatch_text() -> Seq<char> {
    "the sign-in reply didn't come from the request rocola made. Run rocola again to retry."@
}

/// What the listener is told when no code came back.
pub open spec fn no_code_text() -> Seq<char> {
    "Spotify sent no code. Run rocola again to retry."@
}

/// The outcome the callback query decides: Spotify's error, a state that
/// isn't ours, a missing code, or the code.
pub open spec fn callback_outcome(query: Seq<char>, expected_state: Seq<char>) -> Result<
    Seq<char>,
    Seq<char>,
> {
    let ps = pieces(query, '&');
    match last_value(ps, "error"@) {
        Some(e) => Err(denied_text(e)),
        None => if last_value(ps, "state"@) != Some(expected_state) {
            Err(state_mismatch_text())
        } else {
            match last_value(ps, "code"@) {
                Some(c) => Ok(c),
                None => Err(no_code_text()),
            }
        },
    }
}

/// The value of `key` in the piece `p`, when `p` is `key=value`.
fn value_for(p: &Vec<char>, key: &Vec<char>) -> (r: Option<Vec<char>>)
    ensures
        r matches Some(v) ==> index_of(p@, '=') matches Some(k) && p@.take(k) == key@ && v@
            == p@.skip(k + 1),
        r is None ==> !(index_of(p@, '=') matches Some(k) && p@.take(k) == key@),
{
    let mut eq: Vec<char> = Vec::new();
    eq.push('=');
    assert(eq@ =~= seq!['=']);
    match find_exec(p, &eq, 0) {
        Some(k) => {
            proof {
                lemma_find_from_bounds(p@, eq@, 0);
            }
            assert(crate::text::occurs_at(p@, eq@, k as int));
            assert(k + 1 <= p.len());
            let name = slice_chars(p, 0, k);
            assert(name@ =~= p@.take(k as int));
            if same_chars(&name, key) {
                let v = slice_chars(p, k + 1, p.len());
                assert(v@ =~= p@.skip(k + 1));
                Some(v)
            } else {
                None
            }
        },
        None => None,
    }
}

/// Parse the query string Spotify sends to the loopback redirect.
///
/// # Errors
///
/// Returns [`SpotifyError::Auth`] when Spotify reported an error, when the
/// `state` doesn't match the one rocola sent, or when no code came back.
pub fn parse_callback_query(query: &str, expected_state: &str) -> (r: Result<String, SpotifyError>)
    ensures
        r matches Ok(c) ==> callback_outcome(query@, expected_state@) == Ok::<Seq<char>, Seq<char>>(c@),
        r matches Err(e) ==> callback_outcome(query@, expected_state@) matches Err(t) && e@
            == SpotifyErrorView::Auth(t),
{
    let s = chars_of(query);
    let code_key = chars_of("code");
    let state_key = chars_of("state");
    let error_key = chars_of("error");
    let mut code: Option<Vec<char>> = None;
    let mut state: Option<Vec<char>> = None;
    let mut error: Option<Vec<char>> = None;
    let mut amp: Vec<char> = Vec::new();
    amp.push('&');
    assert(amp@ =~= seq!['&']);
    let ghost done: Seq<Seq<char>> = seq![];
    let mut start: usize = 0;
    let mut finished = false;
    assert(s@.skip(0) =~= s@);
    assert(done + pieces(s@, '&') =~= pieces(s@, '&'));
    while !finished
        invariant
            start <= s@.len(),
            !finished ==> pieces(s@, '&') == done + pieces(s@.skip(start as int), '&'),
            finished ==> pieces(s@, '&') == done,
            code_key@ == "code"@,
            state_key@ == "state"@,
            error_key@ == "error"@,
            amp@ == seq!['&'],
            code matches Some(v) ==> last_value(done, "code"@) == Some(v@),
            code is None ==> last_value(done, "code"@) is None,
            state matches Some(v) ==> last_value(done, "state"@) == Some(v@),
            state is None ==> last_value(done, "state"@) is None,
            error matches Some(v) ==> last_value(done, "error"@) == Some(v@),
            error is None ==> last_value(done, "error"@) is None,
        decreases s@.len() - start + if finished {
            0int
        } else {
            1int
        },
    {
        let ghost rest = s@.skip(start as int);
        let (piece, next) = match find_exec(&s, &amp, start) {
            Some(k) => {
                proof {
                    lemma_find_from_bounds(s@, amp@, start as int);
                    assert(crate::text::occurs_at(s@, amp@, k as int));
                    assert(k + 1 <= s.len());
                    assert(index_of(rest, '&') == Some(k - start)) by {
                        lemma_find_skip(s@, amp@, start as int);
                    }
                    assert(rest.take(k - start) =~= s@.subrange(start as int, k as int));
                    assert(rest.skip(k - start + 1) =~= s@.skip(k + 1));
                }
                (slice_chars(&s, start, k), Some(k + 1))
            },
            None => {
                proof {
                    lemma_find_from_bounds(s@, amp@, start as int);
                    lemma_find_skip(s@, amp@, start as int);
                    assert(rest =~= s@.subrange(start as int, s@.len() as int));
                }
                (slice_chars(&s, start, s.len()), None)
            },
        };
        let ghost old_done = done;
        proof {
            done = done.push(piece@);
            assert(done.drop_last() == old_done);
        }
        match value_for(&piece, &code_key) {
            Some(v) => {
                code = Some(v);
            },
            None => {},
        }
        match value_for(&piece, &state_key) {
            Some(v) => {
                state = Some(v);
            },
            None => {},
        }
        match value_for(&piece, &error_key) {
            Some(v) => {
                error = Some(v);
            },
            None => {},
        }
        match next {
            Some(n) => {
                start = n;
                proof {
                    assert(pieces(s@, '&') =~= done + pieces(s@.skip(start as int), '&'));
                }
            },
            None => {
                finished = true;
                proof {
                    assert(pieces(s@, '&') =~= done);
                }
            },
        }
    }
    match error {
        Some(e) => {
            let mut msg: Vec<char> = Vec::new();
            push_str(&mut msg, "the sign-in didn't finish (");
            push_all(&mut msg, &e);
            push_str(&mut msg, "). Run rocola again to retry.");
            return Err(SpotifyError::Auth(string_of(&msg)));
        },
        None => {},
    }
    let expected = chars_of(expected_state);
    let state_ok = match &state {
        Some(v) => same_chars(v, &expected),
        None => false,
    };
    if !state_ok {
        return Err(
            SpotifyError::Auth(
                "the sign-in reply didn't come from the request rocola made. Run rocola again to retry.".to_owned(),
            ),
        );
    }
    match code {
        Some(c) => Ok(string_of(&c)),
        None => Err(
            SpotifyError::Auth("Spotify sent no code. Run rocola again to retry.".to_owned()),
        ),
    }
}

proof fn lemma_find_skip(s: Seq<char>, p: Seq<char>, start: int)
    requires
        0 <= start <= s.len(),
    ensures
        crate::text::find_from(s, p, start) matches Some(k) ==> find(s.skip(start), p) == Some(
            k - start,
        ),
        crate::text::find_from(s, p, start) is None ==> find(s.skip(start), p) is None,
    decreases s.len() - start,
{
    lemma_find_shift(s, p, start, 0);
}

proof fn lemma_find_shift(s: Seq<char>, p: Seq<char>, start: int, i: int)
    requires
        0 <= start <= s.len(),
        0 <= i,
    ensures
        crate::text::find_from(s, p, start + i) matches Some(k) ==> crate::text::find_from(
            s.skip(start),
            p,
            i,
        ) == Some(k - start),
        crate::text::find_from(s, p, start + i) is None ==> crate::text::find_from(
            s.skip(start),
            p,
            i,
        ) is None,
    decreases s.len() - start - i,
{
    let t = s.skip(start);
    if start + i + p.len() > s.len() {
    } else {
        assert(crate::text::occurs_at(s, p, start + i) == crate::text::occurs_at(t, p, i)) by {
            assert(s.subrange(start + i, start + i + p.len()) =~= t.subrange(i, i + p.len()));
        }
        if !crate::text::occurs_at(s, p, start + i) && start + i < s.len() {
            lemma_find_shift(s, p, start, i + 1);
        }
    }
}

// ---------------------------------------------------------------------------
// The rest of the sign-in
// ---------------------------------------------------------------------------

/// The `state` value that draws below 26 spell: each draw picks a
/// lowercase letter.
pub open spec fn state_of_draws(draws: Seq<usize>) -> Seq<char> {
    draws.map_values(|d: usize| (97 + d) as char)
}

/// The `state` value spelled by `draws`, each below 26.
pub fn state_from_draws(draws: &Vec<usize>) -> (r: String)
    requires
        forall|k: int| 0 <= k < draws@.len() ==> #[trigger] draws@[k] < 26,
    ensures
        r@ == state_of_draws(draws@),
{
    let mut v: Vec<char> = Vec::new();
    let n = draws.len();
    let mut k: usize = 0;
    while k < n
        invariant
            n == draws@.len(),
            k <= n,
            forall|j: int| 0 <= j < draws@.len() ==> #[trigger] draws@[j] < 26,
            v@ == state_of_draws(draws@.take(k as int)),
        decreases n - k,
    {
        let c = (97 + draws[k] as u8) as char;
        v.push(c);
        assert(state_of_draws(draws@.take(k + 1)) =~= state_of_draws(draws@.take(k as int)).push(
            (97 + draws@[k as int]) as char,
        ));
        k = k + 1;
    }
    assert(draws@.take(n as int) =~= draws@);
    string_of(&v)
}

/// A fresh `state` value for the sign-in request: sixteen random lowercase
/// letters, spelled by [`state_from_draws`] from sixteen draws below 26.
pub fn new_state() -> (r: String)
    ensures
        r@.len() == 16,
        forall|i: int| 0 <= i < 16 ==> 'a' <= #[trigger] r@[i] <= 'z',
{
    let mut draws: Vec<usize> = Vec::new();
    let mut k: usize = 0;
    while k < 16
        invariant
            k <= 16,
            draws@.len() == k,
            forall|j: int| 0 <= j < k ==> #[trigger] draws@[j] < 26,
        decreases 16 - k,
    {
        draws.push(crate::spotify::pkce::random_below(26));
        k = k + 1;
    }
    let r = state_from_draws(&draws);
    assert forall|i: int| 0 <= i < 16 implies 'a' <= #[trigger] r@[i] <= 'z' by {
        assert(r@[i] == (97 + draws@[i]) as char);
    }
    r
}

/// What the browser is shown once the callback has been read.
pub open spec fn callback_page_of(ok: bool) -> Seq<char> {
    if ok {
        "Signed in. You can close this tab and return to the terminal."@
    } else {
        "Something went wrong. Return to the terminal for what to do next."@
    }
}

/// The whole HTTP reply to the callback request, with the page's length in
/// the header. The pages are ASCII, so characters and bytes count alike.
pub open spec fn callback_reply_of(ok: bool) -> Seq<char> {
    "HTTP/1.1 200 OK\r\nContent-Type: text/plain; charset=utf-8\r\nContent-Length: "@
        + crate::text::decimal(callback_page_of(ok).len()) + "\r\nConnection: close\r\n\r\n"@
        + callback_page_of(ok)
}

/// The reply to the callback request; `ok` says whether the sign-in went
/// through.
pub fn callback_reply(ok: bool) -> (r: String)
    ensures
        r@ == callback_reply_of(ok),
{
    let page = if ok {
        "Signed in. You can close this tab and return to the terminal."
    } else {
        "Something went wrong. Return to the terminal for what to do next."
    };
    let body = chars_of(page);
    let mut out: Vec<char> = Vec::new();
    push_str(
        &mut out,
        "HTTP/1.1 200 OK\r\nContent-Type: text/plain; charset=utf-8\r\nContent-Length: ",
    );
    crate::text::push_decimal(&mut out, body.len() as u64);
    push_str(&mut out, "\r\nConnection: close\r\n\r\n");
    push_all(&mut out, &body);
    string_of(&out)
}

/// The reply to any other request on the loopback port.
pub open spec fn not_found_reply_of() -> Seq<char> {
    "HTTP/1.1 404 Not Found\r\nContent-Length: 0\r\nConnection: close\r\n\r\n"@
}

/// The reply to a request that isn't the callback.
pub fn not_found_reply() -> (r: String)
    ensures
        r@ == not_found_reply_of(),
{
    "HTTP/1.1 404 Not Found\r\nContent-Length: 0\r\nConnection: close\r\n\r\n".to_owned()
}

/// What the loopback listener does with one request: the reply to send,
/// and, when the request is the callback, the sign-in's outcome (the code,
/// or the text of what went wrong).
pub open spec fn answer_of(request: Seq<char>, expected_state: Seq<char>) -> (
    Seq<char>,
    Option<Result<Seq<char>, Seq<char>>>,
) {
    match callback_query_of(request) {
        Some(q) => {
            let outcome = callback_outcome(q, expected_state);
            (callback_reply_of(outcome is Ok), Some(outcome))
        },
        None => (not_found_reply_of(), None),
    }
}

/// The reply to one request on the loopback port, and the sign-in's outcome
/// when the request is the callback.
pub fn answer_request(request: &str, expected_state: &str) -> (r: (
    String,
    Option<Result<String, SpotifyError>>,
))
    ensures
        r.0@ == answer_of(request@, expected_state@).0,
        r.1 is None <==> answer_of(request@, expected_state@).1 is None,
        r.1 matches Some(Ok(c)) ==> answer_of(request@, expected_state@).1 == Some(
            Ok::<Seq<char>, Seq<char>>(c@),
        ),
        r.1 matches Some(Err(e)) ==> answer_of(request@, expected_state@).1 matches Some(Err(t))
            && e@ == SpotifyErrorView::Auth(t),
{
    match callback_query(request) {
        Some(q) => {
            let outcome = parse_callback_query(q.as_str(), expected_state);
            let reply = callback_reply(outcome.is_ok());
            (reply, Some(outcome))
        },
        None => (not_found_reply(), None),
    }
}

/// What the listener does with requests `reqs`, answered in order until the
/// callback arrives: the replies sent, and the outcome, once it came.
pub open spec fn serve(reqs: Seq<Seq<char>>, expected_state: Seq<char>) -> (
    Seq<Seq<char>>,
    Option<Result<Seq<char>, Seq<char>>>,
)
    decreases reqs.len(),
{
    if reqs.len() == 0 {
        (seq![], None)
    } else {
        let (reply, outcome) = answer_of(reqs[0], expected_state);
        if outcome is Some {
            (seq![reply], outcome)
        } else {
            let (rest, last) = serve(reqs.drop_first(), expected_state);
            (seq![reply] + rest, last)
        }
    }
}

/// The sign-in waits for the callback and nothing else: when the `k`-th
/// request is the first callback, every request before it is answered
/// "not found", the callback gets the page saying whether the sign-in went
/// through, nothing after it is read, and the outcome is what the callback's
/// query says.
pub proof fn law_only_the_callback_counts(reqs: Seq<Seq<char>>, expected_state: Seq<char>, k: int)
    requires
        0 <= k < reqs.len(),
        callback_query_of(reqs[k]) is Some,
        forall|i: int| 0 <= i < k ==> callback_query_of(#[trigger] reqs[i]) is None,
    ensures
        ({
            let (replies, outcome) = serve(reqs, expected_state);
            let q = callback_query_of(reqs[k])->0;
            &&& replies.len() == k + 1
            &&& forall|i: int| 0 <= i < k ==> #[trigger] replies[i] == not_found_reply_of()
            &&& outcome == Some(callback_outcome(q, expected_state))
            &&& replies[k] == callback_reply_of(callback_outcome(q, expected_state) is Ok)
        }),
    decreases k,
{
    if k > 0 {
        let rest = reqs.drop_first();
        assert forall|i: int| 0 <= i < k - 1 implies callback_query_of(#[trigger] rest[i]) is None by {
            assert(rest[i] == reqs[i + 1]);
        }
        assert(rest[k - 1] == reqs[k]);
        law_only_the_callback_counts(rest, expected_state, k - 1);
        assert(callback_query_of(reqs[0]) is None);
        let (replies, outcome) = serve(reqs, expected_state);
        let (tail, last) = serve(rest, expected_state);
        assert(replies == seq![not_found_reply_of()] + tail);
        assert forall|i: int| 0 <= i < k implies #[trigger] replies[i] == not_found_reply_of() by {
            if i > 0 {
                assert(replies[i] == tail[i - 1]);
            }
        }
    }
}

} // verus!
