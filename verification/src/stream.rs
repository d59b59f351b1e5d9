//! Cutting a growing answer into reader-friendly fragments.
//!
//! The rules are stated over character sequences and character indices; the
//! public functions take and return byte positions, which they convert with
//! `byte_offset` and `char_index`.
use crate::chars::{
    texts, all_space, char_index_before, contains, lemma_boundary_index, lemma_byte_offset_ends, lemma_byte_offset_monotonic,
    lemma_char_index_of_offset, lemma_chars_within, lemma_find_contains, lemma_space_run_end,
    lemma_trim_end_len_take, byte_len, byte_offset, byte_offset_of, char_index, char_index_at_byte,
    chars_to_string, find_last, is_blank, is_boundary, is_space, is_whitespace,
    lemma_last_match_below, lemma_trim_end_len, rfind, skip_spaces, space_run_end, str_byte_len,
    str_chars, trim_end, trim_end_at, trim_end_len,
};
use vstd::prelude::*;

verus! {

/// Most characters that one fragment is cut from.
pub const WINDOW_CHARS: usize = 900;

/// Fewest characters of a fragment while the answer is still growing.
pub const MIN_CHUNK_CHARS: usize = 80;

/// Window length from which a fragment is due even without sentence ends.
pub const READY_CHARS: usize = 260;

/// `.`, `!`, `?` and the ellipsis.
pub open spec fn is_terminator(c: char) -> bool {
    c == '.' || c == '!' || c == '?' || c == '\u{2026}'
}

/// Punctuation after which a fragment may end.
pub open spec fn is_closing_punct(c: char) -> bool {
    is_terminator(c) || c == ':' || c == ';' || c == ')' || c == ']' || c == '}' || c == ','
}

/// The character at `i` is a terminator followed by whitespace or by nothing.
pub open spec fn sentence_end_at(s: Seq<char>, i: int) -> bool {
    0 <= i < s.len() && is_terminator(s[i]) && (i + 1 == s.len() || is_space(s[i + 1]))
}

/// Number of sentence ends among the first `n` characters of `s`.
pub open spec fn sentence_ends_below(s: Seq<char>, n: int) -> nat
    decreases n,
{
    if n <= 0 {
        0
    } else {
        sentence_ends_below(s, n - 1) + if sentence_end_at(s, n - 1) {
            1nat
        } else {
            0nat
        }
    }
}

/// Number of sentence ends in `s`.
pub open spec fn sentence_endings(s: Seq<char>) -> nat {
    sentence_ends_below(s, s.len() as int)
}

/// A cut before character `k` separates tokens: when forcing any position
/// after the first character does; otherwise the text to the left must hold
/// more than whitespace and end in whitespace or closing punctuation.
pub open spec fn safe_boundary(rem: Seq<char>, k: int, force: bool) -> bool {
    0 < k <= rem.len() && (force || (!all_space(rem.take(k)) && (is_space(rem[k - 1])
        || is_closing_punct(rem[k - 1]))))
}

/// Smallest cut that leaves `min_chars` characters to the left, capped by the
/// window and by the text.
pub open spec fn min_cut(rem: Seq<char>, min_chars: int) -> int {
    let capped = if min_chars < WINDOW_CHARS as int {
        min_chars
    } else {
        WINDOW_CHARS as int
    };
    if capped < rem.len() {
        capped
    } else {
        rem.len() as int
    }
}

/// A cut before character `k` leaves enough to the left and is a safe boundary.
pub open spec fn acceptable_cut(rem: Seq<char>, k: int, min_k: int, force: bool) -> bool {
    k >= min_k && safe_boundary(rem, k, force)
}

/// A blank line: two line feeds in a row.
pub open spec fn paragraph_break() -> Seq<char> {
    seq!['\n', '\n']
}

/// Cut after the last blank line of the window.
pub open spec fn paragraph_cut(rem: Seq<char>, w: int, min_k: int, force: bool) -> Option<int> {
    match find_last(rem.take(w), paragraph_break()) {
        Some(i) => if acceptable_cut(rem, i + 2, min_k, force) {
            Some(i + 2)
        } else {
            None
        },
        None => None,
    }
}

/// The line starts that open a list item: `- `, a bullet, `* `, and `1. ` to `4. `.
pub open spec fn list_markers() -> Seq<Seq<char>> {
    seq![
        seq!['\n', '-', ' '],
        seq!['\n', '\u{2022}', ' '],
        seq!['\n', '*', ' '],
        seq!['\n', '1', '.', ' '],
        seq!['\n', '2', '.', ' '],
        seq!['\n', '3', '.', ' '],
        seq!['\n', '4', '.', ' '],
    ]
}

/// Cut just after the line break of the last occurrence of `marker`.
pub open spec fn marker_cut(
    rem: Seq<char>,
    w: int,
    min_k: int,
    force: bool,
    marker: Seq<char>,
) -> Option<int> {
    match find_last(rem.take(w), marker) {
        Some(i) => if acceptable_cut(rem, i + 1, min_k, force) {
            Some(i + 1)
        } else {
            None
        },
        None => None,
    }
}

/// Latest of the cuts that the first `n` list markers give.
pub open spec fn list_cut_among(rem: Seq<char>, w: int, min_k: int, force: bool, n: int) -> Option<
    int,
>
    decreases n,
{
    if n <= 0 || n > list_markers().len() {
        None
    } else {
        let earlier = list_cut_among(rem, w, min_k, force, n - 1);
        match marker_cut(rem, w, min_k, force, list_markers()[n - 1]) {
            Some(c) => match earlier {
                Some(b) => Some(if b > c {
                    b
                } else {
                    c
                }),
                None => Some(c),
            },
            None => earlier,
        }
    }
}

/// Latest of the cuts that the list markers give.
pub open spec fn list_cut(rem: Seq<char>, w: int, min_k: int, force: bool) -> Option<int> {
    list_cut_among(rem, w, min_k, force, list_markers().len() as int)
}

/// The sentence end at `i` is the `desired`-th of `window` counted from its
/// last: it and the sentence ends after it are `desired` in number.
pub open spec fn ranked_end(window: Seq<char>, desired: int, i: int) -> bool {
    sentence_end_at(window, i) && sentence_endings(window) - sentence_ends_below(window, i)
        == desired
}

/// Index of the first sentence end of `window` from `k` on that is the
/// `desired`-th from its last.
pub open spec fn ranked_end_from(window: Seq<char>, desired: int, k: int) -> Option<int>
    decreases window.len() - k,
{
    if k < 0 || k >= window.len() {
        None
    } else if ranked_end(window, desired, k) {
        Some(k)
    } else {
        ranked_end_from(window, desired, k + 1)
    }
}

/// Cut after the sentence end that is the `desired`-th from the last of
/// the window: the second-to-last for two, the last for one.
pub open spec fn sentence_cut(rem: Seq<char>, w: int, min_k: int, desired: int, force: bool)
    -> Option<int> {
    match ranked_end_from(rem.take(w), desired, 0) {
        Some(i) => if acceptable_cut(rem, i + 1, min_k, force) {
            Some(i + 1)
        } else {
            None
        },
        None => None,
    }
}

/// Index of the last whitespace below `n` that is not below `min_k`.
pub open spec fn last_space_below(rem: Seq<char>, min_k: int, n: int) -> Option<int>
    decreases n,
{
    if n <= 0 || n > rem.len() {
        None
    } else if is_space(rem[n - 1]) && n - 1 >= min_k {
        Some(n - 1)
    } else {
        last_space_below(rem, min_k, n - 1)
    }
}

/// Cut before the last whitespace of the window.
pub open spec fn space_cut(rem: Seq<char>, w: int, min_k: int, force: bool) -> Option<int> {
    match last_space_below(rem, min_k, w) {
        Some(i) => if i > 0 && safe_boundary(rem, i, force) {
            Some(i)
        } else {
            None
        },
        None => None,
    }
}

/// Cut at the window's edge, taken only when forcing.
pub open spec fn edge_cut(rem: Seq<char>, w: int, min_k: int, force: bool) -> Option<int> {
    if force && w >= min_k && safe_boundary(rem, w, true) {
        Some(w)
    } else {
        None
    }
}

/// Where to cut `rem`, looking at its first `w` characters: after the last
/// blank line; else before the last list item; else after the sentence end
/// that is the `desired`-th from the last; else before the last whitespace;
/// else, when forcing, at the window's edge.
pub open spec fn stream_cut(rem: Seq<char>, w: int, min_chars: int, desired: int, force: bool)
    -> Option<int> {
    let min_k = min_cut(rem, min_chars);
    if paragraph_cut(rem, w, min_k, force).is_some() {
        paragraph_cut(rem, w, min_k, force)
    } else if list_cut(rem, w, min_k, force).is_some() {
        list_cut(rem, w, min_k, force)
    } else if sentence_cut(rem, w, min_k, desired, force).is_some() {
        sentence_cut(rem, w, min_k, desired, force)
    } else if space_cut(rem, w, min_k, force).is_some() {
        space_cut(rem, w, min_k, force)
    } else {
        edge_cut(rem, w, min_k, force)
    }
}

/// Every cut that `stream_cut` gives lies in the window, after the first
/// character, and is a safe boundary.
pub proof fn lemma_stream_cut_bounds(
    rem: Seq<char>,
    w: int,
    min_chars: int,
    desired: int,
    force: bool,
)
    requires
        0 <= w <= rem.len(),
    ensures
        stream_cut(rem, w, min_chars, desired, force) matches Some(k) ==> 0 < k <= w
            && safe_boundary(rem, k, force) && k >= min_cut(rem, min_chars),
{
    let min_k = min_cut(rem, min_chars);
    let window = rem.take(w);
    lemma_last_match_below(window, paragraph_break(), window.len() - 2 + 1);
    lemma_list_cut_bounds(rem, w, min_k, force, list_markers().len() as int);
    lemma_ranked_end_from(window, desired, 0);
    lemma_last_space_bounds(rem, min_k, w);
}

proof fn lemma_list_cut_bounds(rem: Seq<char>, w: int, min_k: int, force: bool, n: int)
    requires
        0 <= w <= rem.len(),
    ensures
        list_cut_among(rem, w, min_k, force, n) matches Some(k) ==> 0 < k <= w && acceptable_cut(
            rem,
            k,
            min_k,
            force,
        ),
    decreases n,
{
    if 0 < n <= list_markers().len() {
        lemma_list_cut_bounds(rem, w, min_k, force, n - 1);
        let m = list_markers()[n - 1];
        let window = rem.take(w);
        lemma_last_match_below(window, m, window.len() - m.len() + 1);
        assert(m.len() >= 3);
    }
}

proof fn lemma_ranked_end_from(window: Seq<char>, desired: int, k: int)
    requires
        0 <= k,
    ensures
        ranked_end_from(window, desired, k) matches Some(i) ==> k <= i < window.len()
            && ranked_end(window, desired, i),
    decreases window.len() - k,
{
    if k < window.len() && !ranked_end(window, desired, k) {
        lemma_ranked_end_from(window, desired, k + 1);
    }
}

proof fn lemma_last_space_bounds(rem: Seq<char>, min_k: int, n: int)
    requires
        0 <= n <= rem.len(),
    ensures
        last_space_below(rem, min_k, n) matches Some(i) ==> 0 <= i < n && i >= min_k && is_space(
            rem[i],
        ),
    decreases n,
{
    if n > 0 && !(is_space(rem[n - 1]) && n - 1 >= min_k) {
        lemma_last_space_bounds(rem, min_k, n - 1);
    }
}

fn is_sentence_terminator(c: char) -> (r: bool)
    ensures
        r == is_terminator(c),
{
    c == '.' || c == '!' || c == '?' || c == '\u{2026}'
}

fn is_closing(c: char) -> (r: bool)
    ensures
        r == is_closing_punct(c),
{
    is_sentence_terminator(c) || c == ':' || c == ';' || c == ')' || c == ']' || c == '}' || c
        == ','
}

/// Whether character `i` of `v[..w]` ends a sentence.
fn ends_sentence(v: &Vec<char>, w: usize, i: usize) -> (r: bool)
    requires
        i < w <= v.len(),
    ensures
        r == sentence_end_at(v@.take(w as int), i as int),
{
    is_sentence_terminator(v[i]) && (i + 1 == w || is_whitespace(v[i + 1]))
}

/// Number of sentence ends in `v[..w]`.
pub fn count_endings(v: &Vec<char>, w: usize) -> (n: usize)
    requires
        w <= v.len(),
    ensures
        n == sentence_endings(v@.take(w as int)),
        n <= w,
{
    let mut n: usize = 0;
    let mut i: usize = 0;
    while i < w
        invariant
            i <= w <= v.len(),
            n <= i,
            n == sentence_ends_below(v@.take(w as int), i as int),
        decreases w - i,
    {
        if ends_sentence(v, w, i) {
            n += 1;
        }
        i += 1;
    }
    n
}

/// Whether a cut before character `k` of `v` is a safe boundary.
pub fn safe_at(v: &Vec<char>, k: usize, force: bool) -> (r: bool)
    ensures
        r == safe_boundary(v@, k as int, force),
{
    if k == 0 || k > v.len() {
        return false;
    }
    if force {
        return true;
    }
    let c = v[k - 1];
    if is_whitespace(c) {
        let t = trim_end_at(v, k);
        proof {
            lemma_trim_end_len(v@, k as int);
            let left = v@.take(k as int);
            if t > 0 {
                assert(!is_space(left[t - 1]));
            } else {
                assert forall|i: int| 0 <= i < left.len() implies is_space(#[trigger] left[i]) by {
                    assert(is_space(v@[i]));
                }
            }
        }
        t > 0
    } else {
        proof {
            assert(!is_space(v@.take(k as int)[k - 1]));
        }
        is_closing(c)
    }
}

/// The list marker with index `n`.
fn list_marker(n: usize) -> (m: Vec<char>)
    requires
        n < 7,
    ensures
        m@ == list_markers()[n as int],
{
    let m = if n == 0 {
        vec!['\n', '-', ' ']
    } else if n == 1 {
        vec!['\n', '\u{2022}', ' ']
    } else if n == 2 {
        vec!['\n', '*', ' ']
    } else if n == 3 {
        vec!['\n', '1', '.', ' ']
    } else if n == 4 {
        vec!['\n', '2', '.', ' ']
    } else if n == 5 {
        vec!['\n', '3', '.', ' ']
    } else {
        vec!['\n', '4', '.', ' ']
    };
    assert(m@ =~= list_markers()[n as int]);
    m
}

fn smaller(a: usize, b: usize) -> (r: usize)
    ensures
        r == if a < b {
            a
        } else {
            b
        },
{
    if a < b {
        a
    } else {
        b
    }
}

/// Where to cut `v`, looking at its first `w` characters.
pub fn find_cut(v: &Vec<char>, w: usize, min_chars: usize, desired: usize, force: bool) -> (r:
    Option<usize>)
    requires
        w <= v.len(),
    ensures
        r.is_some() == stream_cut(v@, w as int, min_chars as int, desired as int, force).is_some(),
        r matches Some(k) ==> stream_cut(v@, w as int, min_chars as int, desired as int, force)
            == Some(k as int) && 0 < k <= w,
{
    let min_k = smaller(smaller(min_chars, WINDOW_CHARS), v.len());
    let ghost rem = v@;
    let ghost mk = min_cut(rem, min_chars as int);
    assert(min_k == mk);
    proof {
        lemma_stream_cut_bounds(rem, w as int, min_chars as int, desired as int, force);
    }

    let para: Vec<char> = vec!['\n', '\n'];
    assert(para@ =~= paragraph_break());
    match rfind(v, w, &para) {
        Some(i) => {
            let cut = i + 2;
            if cut >= min_k && safe_at(v, cut, force) {
                return Some(cut);
            }
        },
        None => {},
    }
    assert(paragraph_cut(rem, w as int, mk, force).is_none());

    let mut best: Option<usize> = None;
    let mut n: usize = 0;
    while n < 7
        invariant
            n <= 7,
            w <= v.len(),
            rem == v@,
            min_k == mk,
            best.is_some() == list_cut_among(rem, w as int, mk, force, n as int).is_some(),
            best matches Some(b) ==> list_cut_among(rem, w as int, mk, force, n as int) == Some(
                b as int,
            ),
        decreases 7 - n,
    {
        let m = list_marker(n);
        match rfind(v, w, &m) {
            Some(i) => {
                let cut = i + 1;
                if cut >= min_k && safe_at(v, cut, force) {
                    best = match best {
                        Some(b) => Some(if b > cut {
                            b
                        } else {
                            cut
                        }),
                        None => Some(cut),
                    };
                }
            },
            None => {},
        }
        n += 1;
    }
    if best.is_some() {
        return best;
    }
    assert(list_cut(rem, w as int, mk, force).is_none());

    let total = count_endings(v, w);
    let ghost window = rem.take(w as int);
    let mut found: Option<usize> = None;
    let mut ends: usize = 0;
    let mut i: usize = 0;
    while i < w
        invariant_except_break
            found.is_none(),
            ranked_end_from(window, desired as int, 0) == ranked_end_from(
                window,
                desired as int,
                i as int,
            ),
        invariant
            i <= w <= v.len(),
            rem == v@,
            window == rem.take(w as int),
            total == sentence_endings(window),
            ends <= i,
            ends == sentence_ends_below(window, i as int),
        ensures
            found.is_some() == ranked_end_from(window, desired as int, 0).is_some(),
            found matches Some(f) ==> f < w && ranked_end_from(window, desired as int, 0) == Some(
                f as int,
            ),
        decreases w - i,
    {
        if ends_sentence(v, w, i) {
            if desired <= total && total - desired == ends {
                found = Some(i);
                break;
            }
            ends += 1;
        }
        i += 1;
    }
    match found {
        Some(f) => {
            if f + 1 >= min_k && safe_at(v, f + 1, force) {
                return Some(f + 1);
            }
        },
        None => {},
    }
    assert(sentence_cut(rem, w as int, mk, desired as int, force).is_none());

    let mut t: usize = w;
    let mut space: Option<usize> = None;
    while t > 0
        invariant_except_break
            space.is_none(),
            last_space_below(rem, mk, w as int) == last_space_below(rem, mk, t as int),
        invariant
            t <= w <= v.len(),
            rem == v@,
            min_k == mk,
        ensures
            space.is_some() == last_space_below(rem, mk, w as int).is_some(),
            space matches Some(s) ==> last_space_below(rem, mk, w as int) == Some(s as int),
        decreases t,
    {
        if is_whitespace(v[t - 1]) && t - 1 >= min_k {
            space = Some(t - 1);
            break;
        }
        t -= 1;
    }
    match space {
        Some(s) => {
            if s > 0 && safe_at(v, s, force) {
                return Some(s);
            }
        },
        None => {},
    }
    assert(space_cut(rem, w as int, mk, force).is_none());

    if force && w >= min_k && safe_at(v, w, true) {
        return Some(w);
    }
    None
}

/// The smaller of `n` and the length of `s`.
pub open spec fn capped_len(s: Seq<char>, n: int) -> int {
    if n < s.len() {
        n
    } else {
        s.len() as int
    }
}

/// `s` holds a character and neither begins nor ends with whitespace.
pub open spec fn trimmed(s: Seq<char>) -> bool {
    s.len() > 0 && !is_space(s[0]) && !is_space(s.last())
}

/// Where the next fragment begins: at the first character from `start` on
/// that is no whitespace.
pub open spec fn chunk_start(full: Seq<char>, start: int) -> int {
    space_run_end(full, start)
}

/// The next fragment of `full` from character `start` on, and the index at
/// which the text after it resumes: the text from `chunk_start` up to the cut
/// that `stream_cut` picks in a window of `max_chars`, without trailing
/// whitespace; the text resumes at the first character after the cut that is
/// no whitespace. `None` where nothing is left, where only whitespace is
/// left, where no cut is found, and where the fragment would be shorter than
/// `min_chars`.
pub open spec fn stream_chunk(full: Seq<char>, start: int, max_chars: int, min_chars: int)
    -> Option<(int, Seq<char>)> {
    let begin = chunk_start(full, start);
    if start < 0 || begin >= full.len() {
        None
    } else {
        let rem = full.subrange(begin, full.len() as int);
        let force = min_chars <= 1;
        let desired: int = if force {
            1
        } else {
            2
        };
        match stream_cut(rem, capped_len(rem, max_chars), min_chars, desired, force) {
            None => None,
            Some(cut) => {
                let chunk = trim_end(rem.take(cut));
                if chunk.len() < min_chars {
                    None
                } else {
                    Some((space_run_end(full, begin + cut), chunk))
                }
            },
        }
    }
}

/// Enough text has arrived to cut a fragment while the answer still grows:
/// the window holds a blank line, two sentence ends, or `READY_CHARS`
/// characters.
pub open spec fn ready_to_emit(rem: Seq<char>) -> bool {
    let w = capped_len(rem, WINDOW_CHARS as int);
    let window = rem.take(w);
    contains(window, paragraph_break()) || sentence_endings(window) >= 2 || w >= READY_CHARS
}

/// Fewest characters of a fragment: one when forcing.
pub open spec fn min_chunk_chars(force: bool) -> int {
    if force {
        1
    } else {
        MIN_CHUNK_CHARS as int
    }
}

/// The fragments that are cut from `full` from character `sent` on, in order,
/// and the index up to which the text is then sent. While the answer grows,
/// fragments are cut as long as enough text is there; when forcing, all that
/// is left is cut into fragments, and whitespace that is left counts as
/// sent.
pub open spec fn flush_chunks(full: Seq<char>, sent: int, force: bool) -> (Seq<Seq<char>>, int)
    decreases full.len() - sent,
{
    if sent < 0 || sent >= full.len() {
        (Seq::empty(), sent)
    } else {
        let rem = full.subrange(sent, full.len() as int);
        if all_space(rem) {
            (
                Seq::empty(),
                if force {
                    full.len() as int
                } else {
                    sent
                },
            )
        } else if !force && !ready_to_emit(rem) {
            (Seq::empty(), sent)
        } else {
            match stream_chunk(full, sent, WINDOW_CHARS as int, min_chunk_chars(force)) {
                Some((next, chunk)) => if sent < next <= full.len() {
                    let rest = flush_chunks(full, next, force);
                    (seq![chunk] + rest.0, rest.1)
                } else {
                    (Seq::empty(), sent)
                },
                None => (Seq::empty(), sent),
            }
        }
    }
}

/// `s` with its whitespace removed.
pub open spec fn without_space(s: Seq<char>) -> Seq<char> {
    s.filter(|c: char| !is_space(c))
}

/// What a fragment is: a slice of the text that starts at `chunk_start`, at
/// least `min_chars` long, that holds a character and neither begins nor ends
/// with whitespace; only whitespace lies before it and between its end and
/// the index where the text resumes, and the text does not resume on
/// whitespace.
pub proof fn lemma_stream_chunk_shape(full: Seq<char>, start: int, max_chars: int, min_chars: int)
    requires
        0 <= max_chars,
    ensures
        stream_chunk(full, start, max_chars, min_chars) matches Some((next, chunk)) ==> {
            let begin = chunk_start(full, start);
            &&& 0 <= start <= begin < next <= full.len()
            &&& all_space(full.subrange(start, begin))
            &&& begin + chunk.len() <= next
            &&& chunk == full.subrange(begin, begin + chunk.len())
            &&& chunk.len() >= min_chars
            &&& trimmed(chunk)
            &&& all_space(full.subrange(begin + chunk.len(), next))
            &&& next < full.len() ==> !is_space(full[next])
        },
{
    if let Some((next, chunk)) = stream_chunk(full, start, max_chars, min_chars) {
        let begin = chunk_start(full, start);
        lemma_space_run_end(full, start);
        let rem = full.subrange(begin, full.len() as int);
        let force = min_chars <= 1;
        let desired: int = if force {
            1
        } else {
            2
        };
        let w = capped_len(rem, max_chars);
        lemma_stream_cut_bounds(rem, w, min_chars, desired, force);
        let cut = stream_cut(rem, w, min_chars, desired, force).unwrap();
        let left = rem.take(cut);
        let t = trim_end_len(left, cut);
        lemma_trim_end_len(left, cut);
        lemma_space_run_end(full, begin + cut);
        assert(chunk =~= full.subrange(begin, begin + t));
        let lead = full.subrange(start, begin);
        assert forall|i: int| 0 <= i < lead.len() implies is_space(#[trigger] lead[i]) by {
            assert(is_space(full[start + i]));
        }
        let gap = full.subrange(begin + t, next);
        assert forall|i: int| 0 <= i < gap.len() implies is_space(#[trigger] gap[i]) by {
            if begin + t + i < begin + cut {
                assert(is_space(left[t + i]));
            } else {
                assert(is_space(full[begin + t + i]));
            }
        }
        assert(!is_space(full[begin]));
        assert(left[0] == full[begin]);
        if t == 0 {
            assert(is_space(left[0]));
        }
    }
}

/// When forcing, a fragment is cut from any text that holds more than
/// whitespace.
pub proof fn lemma_forced_chunk_exists(full: Seq<char>, start: int, max_chars: int)
    requires
        0 <= start < full.len(),
        1 <= max_chars,
        !all_space(full.subrange(start, full.len() as int)),
    ensures
        stream_chunk(full, start, max_chars, 1).is_some(),
{
    lemma_space_run_end(full, start);
    let begin = space_run_end(full, start);
    let tail = full.subrange(start, full.len() as int);
    if begin >= full.len() {
        assert forall|i: int| 0 <= i < tail.len() implies is_space(#[trigger] tail[i]) by {
            assert(is_space(full[start + i]));
        }
    }
    let rem = full.subrange(begin, full.len() as int);
    assert(!is_space(rem[0]));
    let w = capped_len(rem, max_chars);
    let min_k = min_cut(rem, 1);
    lemma_stream_cut_bounds(rem, w, 1, 1, true);
    assert(edge_cut(rem, w, min_k, true).is_some());
    let cut = stream_cut(rem, w, 1, 1, true).unwrap();
    let left = rem.take(cut);
    lemma_trim_end_len(left, cut);
    assert(!is_space(left[0]));
}

/// Nothing is left of a blank text once its whitespace is removed.
pub proof fn lemma_without_space_of_blank(s: Seq<char>)
    requires
        all_space(s),
    ensures
        without_space(s) == Seq::<char>::empty(),
    decreases s.len(),
{
    reveal(Seq::filter);
    if s.len() > 0 {
        assert(is_space(s.last()));
        assert(all_space(s.drop_last())) by {
            assert forall|i: int| 0 <= i < s.drop_last().len() implies is_space(
                #[trigger] s.drop_last()[i],
            ) by {
                assert(is_space(s[i]));
            }
        }
        lemma_without_space_of_blank(s.drop_last());
    }
}

/// Whitespace before and after a fragment leaves no trace once whitespace is
/// removed.
proof fn lemma_without_space_around(
    lead: Seq<char>,
    chunk: Seq<char>,
    gap: Seq<char>,
    tail: Seq<char>,
)
    requires
        all_space(lead),
        all_space(gap),
    ensures
        without_space(lead + (chunk + (gap + tail))) == without_space(chunk) + without_space(tail),
{
    let keep = |c: char| !is_space(c);
    lemma_without_space_of_blank(lead);
    lemma_without_space_of_blank(gap);
    Seq::filter_distributes_over_add(lead, chunk + (gap + tail), keep);
    Seq::filter_distributes_over_add(chunk, gap + tail, keep);
    Seq::filter_distributes_over_add(gap, tail, keep);
    assert(gap.filter(keep) + tail.filter(keep) =~= tail.filter(keep));
    assert(lead.filter(keep) + (chunk + (gap + tail)).filter(keep) =~= (chunk + (gap
        + tail)).filter(keep));
}

/// The index up to which `flush_chunks` sends lies between `sent` and the end.
pub proof fn lemma_flush_bounds(full: Seq<char>, sent: int, force: bool)
    requires
        0 <= sent <= full.len(),
    ensures
        sent <= flush_chunks(full, sent, force).1 <= full.len(),
    decreases full.len() - sent,
{
    if sent < full.len() {
        let rem = full.subrange(sent, full.len() as int);
        if !all_space(rem) && !(!force && !ready_to_emit(rem)) {
            lemma_stream_chunk_shape(full, sent, WINDOW_CHARS as int, min_chunk_chars(force));
            if let Some((next, chunk)) = stream_chunk(
                full,
                sent,
                WINDOW_CHARS as int,
                min_chunk_chars(force),
            ) {
                lemma_flush_bounds(full, next, force);
            }
        }
    }
}

/// Where `flush_chunks` gives no fragment, the sent position stays, or only
/// whitespace lies between it and the new one.
proof fn lemma_flush_of_nothing(full: Seq<char>, sent: int, force: bool)
    requires
        0 <= sent <= full.len(),
        flush_chunks(full, sent, force).0.len() == 0,
    ensures
        ({
            let end = flush_chunks(full, sent, force).1;
            end == sent || (sent <= end <= full.len() && all_space(full.subrange(sent, end)))
        }),
{
    lemma_stream_chunk_shape(full, sent, WINDOW_CHARS as int, min_chunk_chars(force));
}

/// Where `flush_chunks` gives a fragment, the first is a slice of the text
/// with only whitespace before it and between it and the index where the
/// text resumes, and the others are cut from there. Gives the index where
/// the fragment begins, the index where the text resumes, and the fragment.
proof fn lemma_flush_step(full: Seq<char>, sent: int, force: bool) -> (r: (int, int, Seq<char>))
    requires
        0 <= sent <= full.len(),
        flush_chunks(full, sent, force).0.len() > 0,
    ensures
        ({
            let (begin, next, chunk) = r;
            let rest = flush_chunks(full, next, force);
            &&& sent <= begin <= begin + chunk.len() <= next <= rest.1 <= full.len()
            &&& sent < next
            &&& flush_chunks(full, sent, force) == (seq![chunk] + rest.0, rest.1)
            &&& all_space(full.subrange(sent, begin))
            &&& chunk == full.subrange(begin, begin + chunk.len())
            &&& all_space(full.subrange(begin + chunk.len(), next))
        }),
{
    lemma_stream_chunk_shape(full, sent, WINDOW_CHARS as int, min_chunk_chars(force));
    let (next, chunk) = stream_chunk(
        full,
        sent,
        WINDOW_CHARS as int,
        min_chunk_chars(force),
    ).unwrap();
    lemma_flush_bounds(full, next, force);
    (chunk_start(full, sent), next, chunk)
}

/// Fragments come out in the order of the text and leave nothing out but
/// whitespace: joined, and whitespace aside, they are the text between the
/// old and the new sent position.
pub proof fn law_flush_preserves_order(full: Seq<char>, sent: int, force: bool)
    requires
        0 <= sent <= full.len(),
    ensures
        ({
            let (chunks, end) = flush_chunks(full, sent, force);
            sent <= end <= full.len() && without_space(chunks.flatten()) == without_space(
                full.subrange(sent, end),
            )
        }),
    decreases full.len() - sent,
{
    let (chunks, end) = flush_chunks(full, sent, force);
    lemma_flush_bounds(full, sent, force);
    if chunks.len() == 0 {
        lemma_flush_of_nothing(full, sent, force);
        assert(chunks =~= Seq::<Seq<char>>::empty());
        assert(chunks.flatten() =~= Seq::<char>::empty());
        if end == sent {
            assert(full.subrange(sent, end) =~= Seq::<char>::empty());
        } else {
            lemma_without_space_of_blank(full.subrange(sent, end));
        }
    } else {
        let (begin, next, chunk) = lemma_flush_step(full, sent, force);
        let rest = flush_chunks(full, next, force);
        law_flush_preserves_order(full, next, force);
        vstd::seq_lib::lemma_flatten_concat(seq![chunk], rest.0);
        seq![chunk].lemma_flatten_one_element();
        let lead = full.subrange(sent, begin);
        let gap = full.subrange(begin + chunk.len(), next);
        let tail = full.subrange(next, end);
        assert(full.subrange(sent, end) =~= lead + (chunk + (gap + tail)));
        lemma_without_space_around(lead, chunk, gap, tail);
        Seq::filter_distributes_over_add(chunk, rest.0.flatten(), |c: char| !is_space(c));
    }
}

/// Every fragment holds a character and neither begins nor ends with
/// whitespace.
pub proof fn law_chunks_are_trimmed(full: Seq<char>, sent: int, force: bool, i: int)
    requires
        0 <= sent <= full.len(),
        0 <= i < flush_chunks(full, sent, force).0.len(),
    ensures
        trimmed(flush_chunks(full, sent, force).0[i]),
    decreases i,
{
    lemma_stream_chunk_shape(full, sent, WINDOW_CHARS as int, min_chunk_chars(force));
    let (next, chunk) = stream_chunk(
        full,
        sent,
        WINDOW_CHARS as int,
        min_chunk_chars(force),
    ).unwrap();
    let rest = flush_chunks(full, next, force);
    if i > 0 {
        assert(flush_chunks(full, sent, force).0[i] == rest.0[i - 1]);
        law_chunks_are_trimmed(full, next, force, i - 1);
    }
}

/// A forced flush sends all that is left: afterwards the whole text counts
/// as sent.
pub proof fn law_forced_flush_is_complete(full: Seq<char>, sent: int)
    requires
        0 <= sent <= full.len(),
    ensures
        flush_chunks(full, sent, true).1 == full.len(),
    decreases full.len() - sent,
{
    if sent < full.len() {
        let rem = full.subrange(sent, full.len() as int);
        if !all_space(rem) {
            lemma_forced_chunk_exists(full, sent, WINDOW_CHARS as int);
            lemma_stream_chunk_shape(full, sent, WINDOW_CHARS as int, 1);
            let (next, chunk) = stream_chunk(full, sent, WINDOW_CHARS as int, 1).unwrap();
            law_forced_flush_is_complete(full, next);
        }
    }
}

/// A forced flush of text that holds more than whitespace sends at least one
/// fragment.
pub proof fn law_forced_flush_sends_something(full: Seq<char>, sent: int)
    requires
        0 <= sent < full.len(),
        !all_space(full.subrange(sent, full.len() as int)),
    ensures
        flush_chunks(full, sent, true).0.len() >= 1,
{
    lemma_forced_chunk_exists(full, sent, WINDOW_CHARS as int);
    lemma_stream_chunk_shape(full, sent, WINDOW_CHARS as int, 1);
}

/// The characters of `v` from index `from` on.
fn tail_of(v: &Vec<char>, from: usize) -> (r: Vec<char>)
    requires
        from <= v.len(),
    ensures
        r@ == v@.subrange(from as int, v.len() as int),
{
    let mut r: Vec<char> = Vec::new();
    let mut i: usize = from;
    while i < v.len()
        invariant
            from <= i <= v.len(),
            r@ == v@.subrange(from as int, i as int),
        decreases v.len() - i,
    {
        r.push(v[i]);
        assert(v@.subrange(from as int, i + 1) =~= v@.subrange(from as int, i as int).push(
            v@[i as int],
        ));
        i += 1;
    }
    r
}

/// The next fragment of `full` from character `start` on, and the character
/// index at which the text after it resumes.
pub fn take_chunk(full: &Vec<char>, start: usize, max_chars: usize, min_chars: usize) -> (r:
    Option<(usize, String)>)
    ensures
        r.is_some() == stream_chunk(
            full@,
            start as int,
            max_chars as int,
            min_chars as int,
        ).is_some(),
        r matches Some((next, text)) ==> stream_chunk(
            full@,
            start as int,
            max_chars as int,
            min_chars as int,
        ) == Some((next as int, text@)) && start < next <= full.len(),
{
    if start >= full.len() {
        return None;
    }
    let force = min_chars <= 1;
    assert(full@.take(full.len() as int) =~= full@);
    let begin = skip_spaces(full, start, full.len());
    if begin >= full.len() {
        return None;
    }
    let rem = tail_of(full, begin);
    let w = smaller(max_chars, rem.len());
    let desired: usize = if force {
        1
    } else {
        2
    };
    let cut = match find_cut(&rem, w, min_chars, desired, force) {
        Some(cut) => cut,
        None => {
            return None;
        },
    };
    let kept = trim_end_at(&rem, cut);
    proof {
        lemma_trim_end_len_take(rem@, cut as int, cut as int);
        assert(rem@.take(cut as int).take(kept as int) =~= rem@.subrange(0, kept as int));
        assert(full@.take(full.len() as int) =~= full@);
        lemma_stream_chunk_shape(full@, start as int, max_chars as int, min_chars as int);
    }
    if kept < min_chars {
        return None;
    }
    let text = chars_to_string(&rem, 0, kept);
    let next = skip_spaces(full, begin + cut, full.len());
    Some((next, text))
}

/// Whether enough of `rem` has arrived to cut a fragment from it.
fn is_ready(rem: &Vec<char>) -> (r: bool)
    ensures
        r == ready_to_emit(rem@),
{
    let w = smaller(WINDOW_CHARS, rem.len());
    let para: Vec<char> = vec!['\n', '\n'];
    assert(para@ =~= paragraph_break());
    proof {
        lemma_find_contains(rem@.take(w as int), paragraph_break());
    }
    rfind(rem, w, &para).is_some() || count_endings(rem, w) >= 2 || w >= READY_CHARS
}

/// The fragments that are cut from `full` from character `start` on, and the
/// character index up to which the text is then sent.
pub fn flush_chars(full: &Vec<char>, start: usize, force: bool) -> (r: (Vec<String>, usize))
    requires
        start <= full.len(),
    ensures
        texts(r.0@) == flush_chunks(full@, start as int, force).0,
        r.1 == flush_chunks(full@, start as int, force).1,
        start <= r.1 <= full.len(),
{
    let mut out: Vec<String> = Vec::new();
    let mut sent: usize = start;
    let min_chars: usize = if force {
        1
    } else {
        MIN_CHUNK_CHARS
    };
    assert(texts(out@) =~= Seq::<Seq<char>>::empty());
    loop
        invariant
            start <= sent <= full.len(),
            min_chars == min_chunk_chars(force),
            flush_chunks(full@, start as int, force).0 == texts(out@) + flush_chunks(
                full@,
                sent as int,
                force,
            ).0,
            flush_chunks(full@, start as int, force).1 == flush_chunks(full@, sent as int, force).1,
        ensures
            start <= sent <= full.len(),
            flush_chunks(full@, start as int, force).0 == texts(out@),
            flush_chunks(full@, start as int, force).1 == sent,
        decreases full.len() - sent,
    {
        if sent >= full.len() {
            break;
        }
        if is_blank(full, sent, full.len()) {
            if force {
                sent = full.len();
            }
            break;
        }
        if !force {
            let rem = tail_of(full, sent);
            if !is_ready(&rem) {
                break;
            }
        }
        match take_chunk(full, sent, WINDOW_CHARS, min_chars) {
            Some((next, text)) => {
                let ghost before = texts(out@);
                let ghost rest = flush_chunks(full@, next as int, force).0;
                out.push(text);
                assert(texts(out@) =~= before + seq![text@]);
                assert(before + (seq![text@] + rest) =~= (before + seq![text@]) + rest);
                sent = next;
            },
            None => {
                break;
            },
        }
    }
    (out, sent)
}

/// Byte position at which the character with index `max_chars` starts, or the
/// byte length of `s` where it has no such character.
pub fn byte_index_at_char(s: &str, max_chars: usize) -> (b: usize)
    ensures
        b == byte_offset(s@, capped_len(s@, max_chars as int)),
        is_boundary(s@, b as int),
{
    let n = str_byte_len(s);
    let v = str_chars(s);
    let k = smaller(max_chars, v.len());
    byte_offset_of(&v, k)
}

/// Number of sentence ends in `s`: terminators followed by whitespace or by
/// the end of the text.
pub fn count_sentence_endings(s: &str) -> (n: usize)
    ensures
        n == sentence_endings(s@),
{
    let v = str_chars(s);
    assert(v@.take(v.len() as int) =~= v@);
    count_endings(&v, v.len())
}

/// Whether a cut at byte `cut` of `rem` falls on a character boundary that
/// separates tokens.
pub fn is_safe_chunk_boundary(rem: &str, cut: usize, force: bool) -> (r: bool)
    ensures
        r == (is_boundary(rem@, cut as int) && safe_boundary(
            rem@,
            char_index(rem@, cut as int),
            force,
        )),
{
    let n = str_byte_len(rem);
    let v = str_chars(rem);
    match char_index_at_byte(&v, cut) {
        Some(k) => safe_at(&v, k, force),
        None => false,
    }
}

/// Where to cut `rem`, looking at its first `window_end` bytes; the result is
/// a byte position.
pub fn find_stream_cut(
    rem: &str,
    window_end: usize,
    min_chars: usize,
    desired_sentences: usize,
    force: bool,
) -> (r: Option<usize>)
    requires
        is_boundary(rem@, window_end as int),
    ensures
        match stream_cut(
            rem@,
            char_index(rem@, window_end as int),
            min_chars as int,
            desired_sentences as int,
            force,
        ) {
            Some(k) => r == Some(byte_offset(rem@, k) as usize),
            None => r.is_none(),
        },
{
    let n = str_byte_len(rem);
    let v = str_chars(rem);
    match char_index_at_byte(&v, window_end) {
        Some(w) => match find_cut(&v, w, min_chars, desired_sentences, force) {
            Some(k) => Some(byte_offset_of(&v, k)),
            None => None,
        },
        None => None,
    }
}

/// The next fragment of `full` from byte `start_byte` on, and the byte
/// position at which the text after it resumes.
pub fn take_stream_chunk(full: &str, start_byte: usize, max_chars: usize, min_chars: usize) -> (r:
    Option<(usize, String)>)
    requires
        start_byte == 0 || start_byte >= byte_len(full@) || is_boundary(full@, start_byte as int),
    ensures
        match stream_chunk(
            full@,
            char_index(full@, start_byte as int),
            max_chars as int,
            min_chars as int,
        ) {
            Some((next, chunk)) => r matches Some((b, text)) && b == byte_offset(full@, next)
                && text@ == chunk,
            None => r.is_none(),
        },
        r matches Some((_, text)) ==> trimmed(text@),
{
    let n = str_byte_len(full);
    let v = str_chars(full);
    proof {
        lemma_stream_chunk_shape(
            full@,
            char_index(full@, start_byte as int),
            max_chars as int,
            min_chars as int,
        );
        lemma_byte_offset_ends(v@);
        lemma_chars_within(v@, start_byte as int, 0);
        assert(start_byte == 0 ==> is_boundary(v@, start_byte as int));
    }
    if start_byte >= n {
        proof {
            let k = char_index(v@, start_byte as int);
            if k < v@.len() {
                lemma_byte_offset_monotonic(v@, k + 1, v@.len() as int);
            }
        }
        return None;
    }
    match char_index_at_byte(&v, start_byte) {
        Some(k) => match take_chunk(&v, k, max_chars, min_chars) {
            Some((next, text)) => Some((byte_offset_of(&v, next), text)),
            None => None,
        },
        None => None,
    }
}

/// A turn that is in flight: the answer received so far and how much of it
/// has been handed on.
#[derive(Debug, Clone, PartialEq)]
pub struct PendingTurn {
    pub turn_id: String,
    pub chat_id: i64,
    pub full_text: String,
    pub sent_byte: usize,
}

/// The mathematical value of a `PendingTurn`.
pub struct TurnView {
    pub turn_id: Seq<char>,
    pub chat_id: i64,
    pub full_text: Seq<char>,
    pub sent_byte: int,
}

impl TurnView {
    /// The sent position lies on a character boundary of the answer.
    pub open spec fn wf(self) -> bool {
        is_boundary(self.full_text, self.sent_byte)
    }

    /// The fragments that are due, and the turn once they are handed on.
    pub open spec fn flushed(self, force: bool) -> (Seq<Seq<char>>, TurnView) {
        let (chunks, end) = flush_chunks(
            self.full_text,
            char_index(self.full_text, self.sent_byte),
            force,
        );
        (chunks, TurnView { sent_byte: byte_offset(self.full_text, end) as int, ..self })
    }

    /// The turn with `delta` added to its answer.
    pub open spec fn grown(self, delta: Seq<char>) -> TurnView {
        TurnView { full_text: self.full_text + delta, ..self }
    }

    /// The turn with its answer replaced by `text`, where `text` is at least
    /// as long in bytes; else the turn as it is. The sent position stays
    /// where it lies on a character boundary of `text`, and else moves back
    /// to the nearest one before it.
    pub open spec fn replaced(self, text: Seq<char>) -> TurnView {
        if byte_len(text) >= byte_len(self.full_text) {
            TurnView {
                full_text: text,
                sent_byte: byte_offset(text, char_index(text, self.sent_byte)) as int,
                ..self
            }
        } else {
            self
        }
    }
}

/// The sent position of a turn stays on a boundary while its answer grows.
pub proof fn lemma_grown_wf(t: TurnView, delta: Seq<char>)
    requires
        t.wf(),
    ensures
        t.grown(delta).wf(),
{
    let k = choose|k: int| 0 <= k <= t.full_text.len() && #[trigger] byte_offset(t.full_text, k)
        == t.sent_byte;
    assert((t.full_text + delta).take(k) =~= t.full_text.take(k));
    assert(byte_offset(t.full_text + delta, k) == t.sent_byte);
}

/// Replacing the answer keeps the sent position on a boundary, at or before
/// where it was; where it was on a boundary of the new text, it stays.
pub proof fn lemma_replaced_wf(t: TurnView, text: Seq<char>)
    requires
        t.wf(),
    ensures
        t.replaced(text).wf(),
        t.replaced(text).sent_byte <= t.sent_byte,
        is_boundary(text, t.sent_byte) ==> t.replaced(text).sent_byte == t.sent_byte,
{
    if byte_len(text) >= byte_len(t.full_text) {
        lemma_byte_offset_ends(text);
        lemma_chars_within(text, t.sent_byte, 0);
        lemma_char_index_of_offset(text, char_index(text, t.sent_byte));
        if is_boundary(text, t.sent_byte) {
            lemma_boundary_index(text, t.sent_byte);
        }
    }
}

/// Handing on fragments keeps the sent position on a boundary.
pub proof fn lemma_flushed_wf(t: TurnView, force: bool)
    requires
        t.wf(),
    ensures
        t.flushed(force).1.wf(),
{
    lemma_boundary_index(t.full_text, t.sent_byte);
    let k = char_index(t.full_text, t.sent_byte);
    lemma_flush_bounds(t.full_text, k, force);
    lemma_char_index_of_offset(t.full_text, flush_chunks(t.full_text, k, force).1);
}

/// What was handed on of a turn so far is, whitespace aside, the part of
/// its answer before the sent position.
pub open spec fn covered(t: TurnView, emitted: Seq<char>) -> bool {
    t.wf() && without_space(emitted) == without_space(
        t.full_text.take(char_index(t.full_text, t.sent_byte)),
    )
}

/// Order preservation, while the answer grows: text that is added at the
/// end changes nothing of what was handed on.
pub proof fn law_growth_keeps_order(t: TurnView, delta: Seq<char>, emitted: Seq<char>)
    requires
        covered(t, emitted),
    ensures
        covered(t.grown(delta), emitted),
{
    lemma_grown_wf(t, delta);
    lemma_boundary_index(t.full_text, t.sent_byte);
    let k = char_index(t.full_text, t.sent_byte);
    let grown = t.full_text + delta;
    assert(grown.take(k) =~= t.full_text.take(k));
    lemma_char_index_of_offset(grown, k);
}

/// Order preservation, when fragments are cut: the fragments of a turn,
/// joined in the order in which they are handed on, are, whitespace aside,
/// the part of its answer before the sent position.
pub proof fn law_flush_keeps_order(t: TurnView, force: bool, emitted: Seq<char>)
    requires
        covered(t, emitted),
    ensures
        covered(t.flushed(force).1, emitted + t.flushed(force).0.flatten()),
{
    lemma_flushed_wf(t, force);
    lemma_boundary_index(t.full_text, t.sent_byte);
    let full = t.full_text;
    let k = char_index(full, t.sent_byte);
    let (chunks, end) = flush_chunks(full, k, force);
    law_flush_preserves_order(full, k, force);
    lemma_char_index_of_offset(full, end);
    let keep = |c: char| !is_space(c);
    assert(full.take(end) =~= full.take(k) + full.subrange(k, end));
    Seq::filter_distributes_over_add(full.take(k), full.subrange(k, end), keep);
    Seq::filter_distributes_over_add(emitted, chunks.flatten(), keep);
}

/// No fragment that a turn hands on is empty, and none begins or ends with
/// whitespace.
pub proof fn law_fragments_are_trimmed(t: TurnView, force: bool)
    requires
        t.wf(),
    ensures
        forall|i: int| 0 <= i < t.flushed(force).0.len() ==> trimmed(#[trigger] t.flushed(force).0[i]),
{
    lemma_boundary_index(t.full_text, t.sent_byte);
    let k = char_index(t.full_text, t.sent_byte);
    assert forall|i: int| 0 <= i < t.flushed(force).0.len() implies trimmed(
        #[trigger] t.flushed(force).0[i],
    ) by {
        law_chunks_are_trimmed(t.full_text, k, force, i);
    }
}

/// Order preservation, at the end of a turn: when the rest is cut by force,
/// all of the answer has been handed on.
pub proof fn law_forced_flush_sends_all(t: TurnView)
    requires
        t.wf(),
    ensures
        t.flushed(true).1.sent_byte == byte_len(t.full_text),
{
    lemma_boundary_index(t.full_text, t.sent_byte);
    law_forced_flush_is_complete(t.full_text, char_index(t.full_text, t.sent_byte));
    lemma_byte_offset_ends(t.full_text);
}

/// Order preservation, over a whole turn: where what was handed on so far
/// is the part of the answer before the sent position, the fragments of the
/// forced flush complete it to the whole answer, whitespace aside.
pub proof fn law_turn_end_completes_the_answer(t: TurnView, emitted: Seq<char>)
    requires
        covered(t, emitted),
    ensures
        without_space(emitted + t.flushed(true).0.flatten()) == without_space(t.full_text),
{
    law_flush_keeps_order(t, true, emitted);
    law_forced_flush_sends_all(t);
    lemma_byte_offset_ends(t.full_text);
    lemma_char_index_of_offset(t.full_text, t.full_text.len() as int);
    assert(t.full_text.take(t.full_text.len() as int) =~= t.full_text);
}

/// The part of the answer of a turn that has not been handed on yet.
pub open spec fn unsent(t: TurnView) -> Seq<char> {
    t.full_text.subrange(char_index(t.full_text, t.sent_byte), t.full_text.len() as int)
}

/// At the end of a turn at least one fragment is handed on where the unsent
/// part of the answer holds more than whitespace.
pub proof fn law_turn_end_hands_on_fragments(t: TurnView)
    requires
        t.wf(),
        !all_space(unsent(t)),
    ensures
        t.flushed(true).0.len() >= 1,
{
    lemma_boundary_index(t.full_text, t.sent_byte);
    law_forced_flush_sends_something(t.full_text, char_index(t.full_text, t.sent_byte));
}

impl PendingTurn {
    /// The mathematical value.
    pub open spec fn view(&self) -> TurnView {
        TurnView {
            turn_id: self.turn_id@,
            chat_id: self.chat_id,
            full_text: self.full_text@,
            sent_byte: self.sent_byte as int,
        }
    }

    /// The sent position lies on a character boundary of the answer.
    pub open spec fn wf(&self) -> bool {
        self@.wf()
    }

    /// Adds `delta` to the answer.
    pub fn push_text(&mut self, delta: &str)
        requires
            old(self).wf(),
        ensures
            final(self).wf(),
            final(self)@ == old(self)@.grown(delta@),
    {
        proof {
            lemma_grown_wf(self@, delta@);
        }
        self.full_text.append(delta);
    }

    /// Replaces the answer by `text`, where `text` is at least as long in
    /// bytes. The sent position moves back to a character boundary of
    /// `text` where it does not lie on one.
    pub fn replace_text(&mut self, text: &str)
        requires
            old(self).wf(),
        ensures
            final(self).wf(),
            final(self)@ == old(self)@.replaced(text@),
    {
        let new_len = str_byte_len(text);
        let old_len = str_byte_len(self.full_text.as_str());
        proof {
            lemma_replaced_wf(self@, text@);
        }
        if new_len >= old_len {
            let v = str_chars(text);
            let k = char_index_before(&v, self.sent_byte);
            self.sent_byte = byte_offset_of(&v, k);
            self.full_text = text.to_owned();
        }
    }

    /// A turn with an empty answer.
    pub fn new(turn_id: String, chat_id: i64) -> (p: PendingTurn)
        ensures
            p.wf(),
            p.turn_id == turn_id,
            p.chat_id == chat_id,
            p.full_text@ == Seq::<char>::empty(),
            p.sent_byte == 0,
    {
        let p = PendingTurn { turn_id, chat_id, full_text: String::new(), sent_byte: 0 };
        proof {
            lemma_byte_offset_ends(p.full_text@);
        }
        p
    }
}

/// Cuts the fragments that are due from the unsent part of the answer and
/// advances the sent position past them.
pub fn flush_turn_chunks(p: &mut PendingTurn, force: bool) -> (chunks: Vec<String>)
    requires
        old(p).wf(),
    ensures
        final(p).wf(),
        final(p).turn_id == old(p).turn_id,
        final(p).chat_id == old(p).chat_id,
        final(p).full_text == old(p).full_text,
        texts(chunks@) == old(p)@.flushed(force).0,
        final(p)@ == old(p)@.flushed(force).1,
        force ==> final(p).sent_byte == byte_len(old(p).full_text@),
        forall|i: int| 0 <= i < chunks.len() ==> trimmed(#[trigger] chunks[i]@),
{
    proof {
        law_forced_flush_sends_all(p@);
        law_fragments_are_trimmed(p@, force);
    }
    let n = str_byte_len(p.full_text.as_str());
    let v = str_chars(p.full_text.as_str());
    match char_index_at_byte(&v, p.sent_byte) {
        Some(k) => {
            let (chunks, sent) = flush_chars(&v, k, force);
            p.sent_byte = byte_offset_of(&v, sent);
            proof {
                lemma_char_index_of_offset(v@, sent as int);
                assert forall|i: int| 0 <= i < chunks.len() implies trimmed(
                    #[trigger] chunks[i]@,
                ) by {
                    assert(trimmed(old(p)@.flushed(force).0[i]));
                }
            }
            chunks
        },
        None => Vec::new(),
    }
}

} // verus!
