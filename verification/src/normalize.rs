//! Normalisation of the fields that matching compares: ISRCs, titles and
//! artist names.
use vstd::prelude::*;

use crate::text::{
    chars_of, find, find_exec, is_whitespace, is_ws, lemma_find_from_bounds, push_all, slice_chars,
    string_of, trim, trim_chars,
};
use crate::types::opt_str;

verus! {

// ---------------------------------------------------------------------------
// Unicode lowercase mapping (std)
// ---------------------------------------------------------------------------

/// What std's `char::to_lowercase` yields for `c`: the Unicode lowercase
/// mapping of `c`, one or more characters.
pub uninterp spec fn lowercase_of_char(c: char) -> Seq<char>;

/// What std's `str::to_lowercase` returns for a string: the Unicode
/// lowercase mapping of the whole string (which, unlike the per-character
/// mapping, also handles a word-final capital sigma).
pub uninterp spec fn lowercase_of_str(s: Seq<char>) -> Seq<char>;

/// Calls std's `char::to_lowercase` and collects what it yields. The
/// contract claims only that the result is a function of `c`, named
/// [`lowercase_of_char`]; the Unicode tables behind it are not restated.
#[verifier::external_body]
fn char_lowercase(c: char) -> (r: Vec<char>)
    ensures
        r@ == lowercase_of_char(c),
{
    c.to_lowercase().collect()
}

/// Calls std's `str::to_lowercase`. The contract claims only that the result
/// is a function of the characters of `s`, named [`lowercase_of_str`].
#[verifier::external_body]
fn str_lowercase(s: &str) -> (r: String)
    ensures
        r@ == lowercase_of_str(s@),
{
    s.to_lowercase()
}

// ---------------------------------------------------------------------------
// ISRC
// ---------------------------------------------------------------------------

/// ASCII letter or digit.
pub open spec fn is_ascii_alnum(c: char) -> bool {
    let u = c as u32;
    (48 <= u && u <= 57) || (65 <= u && u <= 90) || (97 <= u && u <= 122)
}

/// ASCII digit or uppercase ASCII letter.
pub open spec fn is_isrc_char(c: char) -> bool {
    let u = c as u32;
    (48 <= u && u <= 57) || (65 <= u && u <= 90)
}

/// The ASCII uppercase of `c` (other characters unchanged).
pub open spec fn ascii_upper(c: char) -> char {
    let u = c as u32;
    if 97 <= u && u <= 122 {
        (u - 32) as char
    } else {
        c
    }
}

/// The ASCII letters and digits of `s`, uppercased, in order.
pub open spec fn isrc_chars(s: Seq<char>) -> Seq<char>
    decreases s.len(),
{
    if s.len() == 0 {
        seq![]
    } else if is_ascii_alnum(s.last()) {
        isrc_chars(s.drop_last()).push(ascii_upper(s.last()))
    } else {
        isrc_chars(s.drop_last())
    }
}

/// The canonical ISRC of `raw`: its letters and digits, uppercased, when
/// there are exactly twelve of them.
pub open spec fn isrc_key(raw: Seq<char>) -> Option<Seq<char>> {
    if isrc_chars(raw).len() == 12 {
        Some(isrc_chars(raw))
    } else {
        None
    }
}

/// Canonical ISRC: 12 uppercase alphanumerics. Spotify data is inconsistently
/// cased and occasionally hyphenated, so normalise before any comparison.
pub fn normalize_isrc(raw: &str) -> (r: Option<String>)
    ensures
        opt_str(r) == isrc_key(raw@),
{
    let cs = chars_of(raw);
    let mut out: Vec<char> = Vec::new();
    let n = cs.len();
    let mut i: usize = 0;
    while i < n
        invariant
            n == cs@.len(),
            i <= n,
            out@ == isrc_chars(cs@.take(i as int)),
        decreases n - i,
    {
        let c = cs[i];
        assert(cs@.take(i + 1).drop_last() =~= cs@.take(i as int));
        let u = c as u32;
        if (48 <= u && u <= 57) || (65 <= u && u <= 90) || (97 <= u && u <= 122) {
            let up = if 97 <= u && u <= 122 {
                ((u - 32) as u8) as char
            } else {
                c
            };
            assert(up == ascii_upper(c));
            out.push(up);
        }
        i = i + 1;
    }
    assert(cs@.take(n as int) =~= cs@);
    if out.len() == 12 {
        Some(string_of(&out))
    } else {
        None
    }
}

proof fn lemma_isrc_chars_canonical(s: Seq<char>)
    requires
        forall|k: int| 0 <= k < s.len() ==> is_isrc_char(#[trigger] s[k]),
    ensures
        isrc_chars(s) == s,
    decreases s.len(),
{
    if s.len() > 0 {
        lemma_isrc_chars_canonical(s.drop_last());
        assert(s.drop_last().push(s.last()) =~= s);
    }
}

proof fn lemma_isrc_chars_shape(s: Seq<char>)
    ensures
        forall|k: int| 0 <= k < isrc_chars(s).len() ==> is_isrc_char(#[trigger] isrc_chars(s)[k]),
    decreases s.len(),
{
    if s.len() > 0 {
        lemma_isrc_chars_shape(s.drop_last());
        let prev = isrc_chars(s.drop_last());
        assert forall|k: int| 0 <= k < isrc_chars(s).len() implies is_isrc_char(
            #[trigger] isrc_chars(s)[k],
        ) by {
            if k < prev.len() {
                assert(isrc_chars(s)[k] == prev[k]);
            } else {
                let u = s.last() as u32;
                if 97 <= u && u <= 122 {
                    assert(((u - 32) as char) as u32 == u - 32);
                }
            }
        }
    }
}

/// A normalised ISRC is twelve ASCII digits and uppercase letters, and
/// normalising it again gives it back unchanged.
pub proof fn law_isrc_canonical(raw: Seq<char>)
    ensures
        isrc_key(raw) matches Some(k) ==> {
            &&& k.len() == 12
            &&& forall|i: int| 0 <= i < 12 ==> is_isrc_char(#[trigger] k[i])
            &&& isrc_key(k) == Some(k)
        },
{
    lemma_isrc_chars_shape(raw);
    if let Some(k) = isrc_key(raw) {
        lemma_isrc_chars_canonical(k);
    }
}

/// The canonical ISRC keeps exactly the ASCII letters and digits of what
/// Spotify sent, in order, uppercased, and is given only when there are
/// twelve of them.
pub proof fn law_isrc_is_the_letters_and_digits(raw: Seq<char>)
    ensures
        ({
            let kept = raw.filter(|c: char| is_ascii_alnum(c)).map_values(|c: char| ascii_upper(c));
            &&& isrc_key(raw) is Some <==> kept.len() == 12
            &&& isrc_key(raw) matches Some(k) ==> k == kept
        }),
{
    lemma_isrc_chars_filter(raw);
}

proof fn lemma_isrc_chars_filter(raw: Seq<char>)
    ensures
        isrc_chars(raw) == raw.filter(|c: char| is_ascii_alnum(c)).map_values(|c: char| ascii_upper(c)),
    decreases raw.len(),
{
    reveal(Seq::filter);
    let pred = |c: char| is_ascii_alnum(c);
    let up = |c: char| ascii_upper(c);
    if raw.len() == 0 {
        assert(raw.filter(pred) =~= Seq::<char>::empty());
        assert(raw.filter(pred).map_values(up) =~= Seq::<char>::empty());
    } else {
        lemma_isrc_chars_filter(raw.drop_last());
        let g = raw.drop_last().filter(pred);
        if is_ascii_alnum(raw.last()) {
            assert(raw.filter(pred) == g.push(raw.last()));
            assert(g.push(raw.last()).map_values(up) =~= g.map_values(up).push(ascii_upper(raw.last())));
        } else {
            assert(raw.filter(pred) == g);
        }
    }
}

// ---------------------------------------------------------------------------
// Titles
// ---------------------------------------------------------------------------

/// The separator Spotify puts before a version suffix ("- Remastered").
pub open spec fn dash_sep() -> Seq<char> {
    seq![' ', '-', ' ']
}

/// Everything before the first " - " (all of `s` when there is none).
pub open spec fn before_dash(s: Seq<char>) -> Seq<char> {
    match find(s, dash_sep()) {
        Some(i) => s.take(i),
        None => s,
    }
}

/// The characters outside brackets, each replaced by its lowercase mapping:
/// `lows[i]` is the mapping of `s[i]`. `(` and `[` open a bracket, `)` and
/// `]` close one (a stray closer is ignored); `depth` is the nesting depth at
/// the start of `s`.
pub open spec fn unbracketed(s: Seq<char>, lows: Seq<Seq<char>>, depth: nat) -> Seq<char>
    decreases s.len(),
{
    if s.len() == 0 {
        seq![]
    } else {
        let c = s[0];
        let rest = s.drop_first();
        let more = lows.drop_first();
        if c == '(' || c == '[' {
            unbracketed(rest, more, depth + 1)
        } else if c == ')' || c == ']' {
            unbracketed(
                rest,
                more,
                if depth == 0 {
                    0
                } else {
                    (depth - 1) as nat
                },
            )
        } else if depth == 0 {
            lows[0] + unbracketed(rest, more, 0)
        } else {
            unbracketed(rest, more, depth)
        }
    }
}

/// The lowercase mapping of each character of `s`.
pub open spec fn lowercase_map(s: Seq<char>) -> Seq<Seq<char>> {
    s.map_values(|c: char| lowercase_of_char(c))
}

/// The views of a list of character lists.
pub open spec fn char_lists(v: Seq<Vec<char>>) -> Seq<Seq<char>> {
    v.map_values(|l: Vec<char>| l@)
}

/// Collapses every run of whitespace to one space and drops leading and
/// trailing whitespace. `started` says a word has been emitted; `pending`
/// says whitespace followed it.
pub open spec fn squash(s: Seq<char>, started: bool, pending: bool) -> Seq<char>
    decreases s.len(),
{
    if s.len() == 0 {
        seq![]
    } else if is_ws(s[0]) {
        squash(s.drop_first(), started, started)
    } else {
        (if pending {
            seq![' ', s[0]]
        } else {
            seq![s[0]]
        }) + squash(s.drop_first(), true, false)
    }
}

/// The words of `s` (split at whitespace) joined by single spaces.
pub open spec fn collapse_ws(s: Seq<char>) -> Seq<char> {
    squash(s, false, false)
}

/// The comparison key of a title whose characters lowercase to `lows`:
/// everything after " - " dropped, bracketed and parenthesised segments
/// dropped, the rest lowercased, whitespace collapsed.
pub open spec fn title_key_with(raw: Seq<char>, lows: Seq<Seq<char>>) -> Seq<char> {
    collapse_ws(unbracketed(before_dash(raw), lows, 0))
}

/// The comparison key of a title, with std's lowercase mapping.
pub open spec fn title_key(raw: Seq<char>) -> Seq<char> {
    title_key_with(raw, lowercase_map(raw))
}

/// Lowercase, drop bracketed/parenthesised segments, drop everything after
/// " - " (Spotify's suffix convention: "- Remastered", "- Live", …),
/// collapse whitespace.
pub fn normalize_title(raw: &str) -> (r: String)
    ensures
        r@ == title_key(raw@),
{
    let cs = chars_of(raw);
    let mut lows: Vec<Vec<char>> = Vec::new();
    let n = cs.len();
    let mut i: usize = 0;
    while i < n
        invariant
            n == cs@.len(),
            cs@ == raw@,
            i <= n,
            lows@.len() == i,
            char_lists(lows@) == lowercase_map(raw@).take(i as int),
        decreases n - i,
    {
        let low = char_lowercase(cs[i]);
        let ghost before = lows@;
        lows.push(low);
        assert(lows@[i as int]@ == lowercase_of_char(raw@[i as int]));
        assert forall|k: int| 0 <= k < i implies #[trigger] lows@[k] == before[k] by {}
        assert(char_lists(lows@) =~= lowercase_map(raw@).take(i + 1)) by {
            assert forall|k: int| 0 <= k < i + 1 implies char_lists(lows@)[k] == lowercase_map(
                raw@,
            ).take(i + 1)[k] by {
                if k < i {
                    assert(char_lists(before)[k] == lowercase_map(raw@).take(i as int)[k]);
                }
            }
        }
        i = i + 1;
    }
    assert(lowercase_map(raw@).take(n as int) =~= lowercase_map(raw@));
    title_key_from(raw, &lows)
}

/// The comparison key of the title `raw` given the lowercase mapping of
/// each of its characters (`lows[i]` for the `i`-th): everything after
/// " - " dropped, bracketed segments dropped, the rest mapped, whitespace
/// collapsed.
pub fn title_key_from(raw: &str, lows: &Vec<Vec<char>>) -> (r: String)
    requires
        lows@.len() == raw@.len(),
    ensures
        r@ == title_key_with(raw@, char_lists(lows@)),
{
    let cs = chars_of(raw);
    let mut dash: Vec<char> = Vec::new();
    dash.push(' ');
    dash.push('-');
    dash.push(' ');
    assert(dash@ =~= dash_sep());
    let cut = match find_exec(&cs, &dash, 0) {
        Some(i) => {
            proof {
                lemma_find_from_bounds(cs@, dash@, 0);
            }
            i
        },
        None => cs.len(),
    };
    let head = slice_chars(&cs, 0, cut);
    assert(head@ =~= before_dash(cs@));
    let lowered = drop_brackets(&head, lows);
    let squashed = collapse_whitespace(&lowered);
    string_of(&squashed)
}

/// The characters of `s` outside brackets, each replaced by its entry in
/// `lows`.
fn drop_brackets(s: &Vec<char>, lows: &Vec<Vec<char>>) -> (r: Vec<char>)
    requires
        lows@.len() >= s@.len(),
    ensures
        r@ == unbracketed(s@, char_lists(lows@), 0),
{
    let ghost lv = char_lists(lows@);
    let mut out: Vec<char> = Vec::new();
    let mut depth: usize = 0;
    let n = s.len();
    let mut i: usize = 0;
    assert(s@.skip(0) =~= s@);
    assert(lv.skip(0) =~= lv);
    assert(out@ + unbracketed(s@, lv, 0) =~= unbracketed(s@, lv, 0));
    while i < n
        invariant
            n == s@.len(),
            n <= lows@.len(),
            lv == char_lists(lows@),
            i <= n,
            depth <= i,
            unbracketed(s@, lv, 0) == out@ + unbracketed(s@.skip(i as int), lv.skip(i as int), depth as nat),
        decreases n - i,
    {
        let c = s[i];
        let ghost rest = s@.skip(i as int);
        assert(rest[0] == c);
        assert(rest.drop_first() =~= s@.skip(i + 1));
        assert(lv.skip(i as int).drop_first() =~= lv.skip(i + 1));
        assert(lv.skip(i as int)[0] == lows@[i as int]@);
        if c == '(' || c == '[' {
            depth = depth + 1;
        } else if c == ')' || c == ']' {
            depth = if depth == 0 {
                0
            } else {
                depth - 1
            };
        } else if depth == 0 {
            let ghost before = out@;
            push_all(&mut out, &lows[i]);
            assert(before + (lows@[i as int]@ + unbracketed(s@.skip(i + 1), lv.skip(i + 1), 0))
                =~= out@ + unbracketed(s@.skip(i + 1), lv.skip(i + 1), 0));
        }
        i = i + 1;
    }
    assert(s@.skip(n as int) =~= Seq::<char>::empty());
    assert(out@ + Seq::<char>::empty() =~= out@);
    out
}

/// The words of `s` joined by single spaces.
fn collapse_whitespace(s: &Vec<char>) -> (r: Vec<char>)
    ensures
        r@ == collapse_ws(s@),
{
    let mut out: Vec<char> = Vec::new();
    let mut started = false;
    let mut pending = false;
    let n = s.len();
    let mut i: usize = 0;
    assert(s@.skip(0) =~= s@);
    assert(out@ + collapse_ws(s@) =~= collapse_ws(s@));
    while i < n
        invariant
            n == s@.len(),
            i <= n,
            collapse_ws(s@) == out@ + squash(s@.skip(i as int), started, pending),
        decreases n - i,
    {
        let c = s[i];
        let ghost rest = s@.skip(i as int);
        assert(rest[0] == c);
        assert(rest.drop_first() =~= s@.skip(i + 1));
        if is_whitespace(c) {
            pending = started;
        } else {
            let ghost before = out@;
            let ghost was_pending = pending;
            if pending {
                out.push(' ');
            }
            out.push(c);
            proof {
                let head = if was_pending {
                    seq![' ', c]
                } else {
                    seq![c]
                };
                assert(before + head =~= out@);
                assert(before + (head + squash(s@.skip(i + 1), true, false)) =~= out@ + squash(
                    s@.skip(i + 1),
                    true,
                    false,
                ));
            }
            started = true;
            pending = false;
        }
        i = i + 1;
    }
    assert(s@.skip(n as int) =~= Seq::<char>::empty());
    assert(out@ + Seq::<char>::empty() =~= out@);
    out
}

proof fn lemma_squash_shape(s: Seq<char>, started: bool, pending: bool)
    requires
        pending ==> started,
    ensures
        ({
            let r = squash(s, started, pending);
            &&& forall|i: int|
                0 <= i < r.len() && is_ws(#[trigger] r[i]) ==> r[i] == ' ' && i + 1 < r.len()
                    && !is_ws(r[i + 1]) && (i > 0 ==> !is_ws(r[i - 1]))
            &&& r.len() > 0 ==> !is_ws(r.last())
            &&& (r.len() > 0 && !started) ==> !is_ws(r[0])
        }),
    decreases s.len(),
{
    if s.len() == 0 {
    } else if is_ws(s[0]) {
        lemma_squash_shape(s.drop_first(), started, started);
    } else {
        let tail = squash(s.drop_first(), true, false);
        lemma_squash_shape(s.drop_first(), true, false);
        let head = if pending {
            seq![' ', s[0]]
        } else {
            seq![s[0]]
        };
        let r = head + tail;
        assert(r == squash(s, started, pending));
        assert(is_ws(' '));
        assert forall|i: int| 0 <= i < r.len() && is_ws(#[trigger] r[i]) implies r[i] == ' '
            && i + 1 < r.len() && !is_ws(r[i + 1]) && (i > 0 ==> !is_ws(r[i - 1])) by {
            if i >= head.len() {
                let j = i - head.len();
                assert(r[i] == tail[j]);
                assert(r[i - 1] == if j == 0 { s[0] } else { tail[j - 1] });
                if j + 1 < tail.len() {
                    assert(r[i + 1] == tail[j + 1]);
                }
            } else if pending && i == 0 {
                assert(r[1] == s[0]);
            }
        }
        if tail.len() > 0 {
            assert(r.last() == tail.last());
        }
    }
}

/// A normalised title never starts or ends with whitespace, and its only
/// whitespace is single spaces between words.
pub proof fn law_title_key_spacing(raw: Seq<char>)
    ensures
        ({
            let t = title_key(raw);
            &&& t.len() > 0 ==> !is_ws(t[0]) && !is_ws(t.last())
            &&& forall|i: int|
                0 <= i < t.len() && is_ws(#[trigger] t[i]) ==> t[i] == ' ' && 0 < i && i + 1
                    < t.len() && !is_ws(t[i - 1]) && !is_ws(t[i + 1])
        }),
{
    lemma_squash_shape(unbracketed(before_dash(raw), lowercase_map(raw), 0), false, false);
}

/// `(`, `)`, `[` or `]`.
pub open spec fn is_bracket(c: char) -> bool {
    c == '(' || c == ')' || c == '[' || c == ']'
}

proof fn lemma_unbracketed_free(s: Seq<char>, lows: Seq<Seq<char>>, depth: nat)
    requires
        lows.len() >= s.len(),
        forall|i: int, j: int|
            0 <= i < lows.len() && 0 <= j < lows[i].len() ==> !is_bracket(#[trigger] lows[i][j]),
    ensures
        forall|k: int|
            0 <= k < unbracketed(s, lows, depth).len() ==> !is_bracket(
                #[trigger] unbracketed(s, lows, depth)[k],
            ),
    decreases s.len(),
{
    if s.len() > 0 {
        let c = s[0];
        let more = lows.drop_first();
        assert forall|i: int, j: int| 0 <= i < more.len() && 0 <= j < more[i].len() implies !is_bracket(
            #[trigger] more[i][j]) by {
            assert(more[i] == lows[i + 1]);
        }
        if c == '(' || c == '[' {
            lemma_unbracketed_free(s.drop_first(), more, depth + 1);
            assert(unbracketed(s, lows, depth) == unbracketed(s.drop_first(), more, depth + 1));
        } else if c == ')' || c == ']' {
            let d: nat = if depth == 0 {
                0
            } else {
                (depth - 1) as nat
            };
            lemma_unbracketed_free(s.drop_first(), more, d);
            assert(unbracketed(s, lows, depth) == unbracketed(s.drop_first(), more, d));
        } else if depth == 0 {
            lemma_unbracketed_free(s.drop_first(), more, 0);
            let out = unbracketed(s, lows, depth);
            let tail = unbracketed(s.drop_first(), more, 0);
            assert(out == lows[0] + tail);
            assert forall|k: int| 0 <= k < out.len() implies !is_bracket(#[trigger] out[k]) by {
                if k < lows[0].len() {
                    assert(out[k] == lows[0][k]);
                } else {
                    assert(out[k] == tail[k - lows[0].len()]);
                }
            }
        } else {
            lemma_unbracketed_free(s.drop_first(), more, depth);
            assert(unbracketed(s, lows, depth) == unbracketed(s.drop_first(), more, depth));
        }
    }
}

proof fn lemma_squash_from(s: Seq<char>, started: bool, pending: bool)
    ensures
        forall|k: int|
            0 <= k < squash(s, started, pending).len() ==> #[trigger] squash(s, started, pending)[k]
                == ' ' || s.contains(squash(s, started, pending)[k]),
    decreases s.len(),
{
    if s.len() > 0 {
        let rest = s.drop_first();
        let out = squash(s, started, pending);
        if is_ws(s[0]) {
            lemma_squash_from(rest, started, started);
            assert(out == squash(rest, started, started));
            assert forall|k: int| 0 <= k < out.len() implies #[trigger] out[k] == ' ' || s.contains(out[k]) by {
                if out[k] != ' ' {
                    assert(squash(rest, started, started)[k] == out[k]);
                    let j = choose|j: int| 0 <= j < rest.len() && rest[j] == out[k];
                    assert(s[j + 1] == out[k]);
                }
            }
        } else {
            lemma_squash_from(rest, true, false);
            let tail = squash(rest, true, false);
            let head: Seq<char> = if pending {
                seq![' ', s[0]]
            } else {
                seq![s[0]]
            };
            assert(out == head + tail);
            assert forall|k: int| 0 <= k < out.len() implies #[trigger] out[k] == ' ' || s.contains(out[k]) by {
                if k < head.len() {
                    if out[k] != ' ' {
                        assert(out[k] == s[0]);
                    }
                } else {
                    assert(out[k] == tail[k - head.len()]);
                    if out[k] != ' ' {
                        let j = choose|j: int| 0 <= j < rest.len() && rest[j] == out[k];
                        assert(s[j + 1] == out[k]);
                    }
                }
            }
        }
    }
}

/// No bracket survives in a title key: bracketed segments are dropped along
/// with their brackets, and stray closers are dropped too (given a
/// lowercase mapping that makes no brackets).
pub proof fn law_title_key_has_no_brackets(raw: Seq<char>, lows: Seq<Seq<char>>)
    requires
        lows.len() == raw.len(),
        forall|i: int, j: int|
            0 <= i < lows.len() && 0 <= j < lows[i].len() ==> !is_bracket(#[trigger] lows[i][j]),
    ensures
        forall|k: int|
            0 <= k < title_key_with(raw, lows).len() ==> !is_bracket(
                #[trigger] title_key_with(raw, lows)[k],
            ),
{
    let head = before_dash(raw);
    crate::text::lemma_find_from_bounds(raw, dash_sep(), 0);
    assert(head.len() <= raw.len());
    lemma_unbracketed_free(head, lows, 0);
    let u = unbracketed(head, lows, 0);
    lemma_squash_from(u, false, false);
    let t = title_key_with(raw, lows);
    assert forall|k: int| 0 <= k < t.len() implies !is_bracket(#[trigger] t[k]) by {
        if t[k] != ' ' {
            let j = choose|j: int| 0 <= j < u.len() && u[j] == t[k];
            assert(!is_bracket(u[j]));
        }
    }
}

proof fn lemma_unbracketed_plain(s: Seq<char>, lows: Seq<Seq<char>>)
    requires
        lows.len() >= s.len(),
        forall|i: int| 0 <= i < s.len() ==> !is_bracket(#[trigger] s[i]),
    ensures
        unbracketed(s, lows, 0) == lows.take(s.len() as int).flatten(),
    decreases s.len(),
{
    if s.len() == 0 {
        assert(lows.take(0) =~= Seq::<Seq<char>>::empty());
    } else {
        let rest = s.drop_first();
        let more = lows.drop_first();
        assert forall|i: int| 0 <= i < rest.len() implies !is_bracket(#[trigger] rest[i]) by {
            assert(rest[i] == s[i + 1]);
        }
        assert(!is_bracket(s[0]));
        lemma_unbracketed_plain(rest, more);
        let t = lows.take(s.len() as int);
        assert(t.first() == lows[0]);
        assert(t.drop_first() =~= more.take(rest.len() as int));
    }
}

/// Every character of a title survives into its key as its lowercase
/// mapping when nothing is cut: for a title with no brackets and no " - ",
/// the key is the mappings of all its characters, one after another, with
/// whitespace collapsed. Digits, punctuation and letters alike are kept.
pub proof fn law_plain_title_keeps_every_character(raw: Seq<char>, lows: Seq<Seq<char>>)
    requires
        lows.len() == raw.len(),
        forall|i: int| 0 <= i < raw.len() ==> !is_bracket(#[trigger] raw[i]),
        forall|i: int|
            0 <= i <= raw.len() - 3 ==> !(#[trigger] raw[i] == ' ' && raw[i + 1] == '-' && raw[i + 2] == ' '),
    ensures
        title_key_with(raw, lows) == collapse_ws(lows.flatten()),
{
    crate::text::lemma_find_from_bounds(raw, dash_sep(), 0);
    if let Some(i) = find(raw, dash_sep()) {
        assert(raw.subrange(i, i + 3) == dash_sep());
        assert(raw.subrange(i, i + 3)[0] == raw[i]);
        assert(raw.subrange(i, i + 3)[1] == raw[i + 1]);
        assert(raw.subrange(i, i + 3)[2] == raw[i + 2]);
    }
    assert(before_dash(raw) == raw);
    lemma_unbracketed_plain(raw, lows);
    assert(lows.take(raw.len() as int) =~= lows);
}

// ---------------------------------------------------------------------------
// Artists
// ---------------------------------------------------------------------------

/// The comparison key of an artist name: trimmed, then lowercased.
pub open spec fn artist_key(raw: Seq<char>) -> Seq<char> {
    lowercase_of_str(trim(raw))
}

/// Trim surrounding whitespace and lowercase.
pub fn normalize_artist(raw: &str) -> (r: String)
    ensures
        r@ == artist_key(raw@),
{
    let cs = chars_of(raw);
    let trimmed = string_of(&trim_chars(&cs));
    str_lowercase(trimmed.as_str())
}

} // verus!
