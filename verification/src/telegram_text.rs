//! Shaping text for chat messages: hiding the token, thinning blank lines,
//! dropping file paths, and making a list of skills readable.
use crate::chars::{
    texts, all_space, append_chars, char_from, contains, find_char, find_first, find_from, first_token,
    first_token_from, lemma_all_space_trim, lemma_find_contains, last_char_below, line_bounds,
    lines, matches_here, replace_chars, replaced, rfind_char, starts_with, str_chars,
    string_of, sub_chars, trim, trim_chars, trim_end, trim_end_chars,
};
use crate::codex_types::opt_text;
use vstd::prelude::*;

verus! {

/// What stands in place of the token.
pub open spec fn redaction() -> Seq<char> {
    "[REDACTED]"@
}

/// `s` with every occurrence of `token` hidden; a blank token hides nothing.
pub open spec fn redacted(s: Seq<char>, token: Seq<char>) -> Seq<char> {
    if all_space(token) {
        s
    } else {
        replaced(s, token, redaction())
    }
}

/// Hides every occurrence of `token` in `s`.
pub fn redact_token(s: &str, token: &str) -> (r: String)
    ensures
        r@ == redacted(s@, token@),
{
    let t = str_chars(token);
    proof {
        lemma_all_space_trim(t@);
    }
    if trim_chars(&t).len() == 0 {
        return s.to_owned();
    }
    let v = str_chars(s);
    let with = str_chars("[REDACTED]");
    let out = replace_chars(&v, &t, &with);
    string_of(&out)
}

/// Number of line feeds in a row that end just before index `i`.
pub open spec fn newline_run(s: Seq<char>, i: int) -> nat
    decreases i,
{
    if i <= 0 || i > s.len() || s[i - 1] != '\n' {
        0
    } else {
        newline_run(s, i - 1) + 1
    }
}

/// The first `n` characters of `s` without the line feeds that come after
/// `max_run` line feeds in a row.
pub open spec fn kept_below(s: Seq<char>, max_run: int, n: int) -> Seq<char>
    decreases n,
{
    if n <= 0 || n > s.len() {
        Seq::empty()
    } else if s[n - 1] == '\n' && newline_run(s, n) > max_run {
        kept_below(s, max_run, n - 1)
    } else {
        kept_below(s, max_run, n - 1).push(s[n - 1])
    }
}

/// `s` with at most `max_run` line feeds in a row, and without whitespace
/// around it.
pub open spec fn collapsed(s: Seq<char>, max_run: int) -> Seq<char> {
    trim(kept_below(s, max_run, s.len() as int))
}

fn collapse_chars(v: &Vec<char>, max_run: usize) -> (r: Vec<char>)
    ensures
        r@ == collapsed(v@, max_run as int),
{
    let mut out: Vec<char> = Vec::new();
    let mut run: usize = 0;
    let mut i: usize = 0;
    while i < v.len()
        invariant
            i <= v.len(),
            run == newline_run(v@, i as int),
            run <= i,
            out@ == kept_below(v@, max_run as int, i as int),
        decreases v.len() - i,
    {
        if v[i] == '\n' {
            run += 1;
            if run <= max_run {
                out.push(v[i]);
            }
        } else {
            run = 0;
            out.push(v[i]);
        }
        i += 1;
    }
    trim_chars(&out)
}

/// Thins runs of line feeds in `s` to at most `max_run`, and drops the
/// whitespace around the text.
pub fn collapse_blank_lines(s: &str, max_run: usize) -> (r: String)
    ensures
        r@ == collapsed(s@, max_run as int),
{
    let v = str_chars(s);
    string_of(&collapse_chars(&v, max_run))
}

/// The word that opens a file path in a listing.
pub open spec fn file_label() -> Seq<char> {
    "Файл:"@
}

/// A line without its file path: what stands before the file label, without
/// trailing whitespace, and with the prefix of home directories shortened.
pub open spec fn stripped_line(line: Seq<char>) -> Seq<char> {
    let cut = match find_first(line, file_label()) {
        Some(i) => trim_end(line.take(i)),
        None => line,
    };
    replaced(cut, "/Users/"@, "~/"@)
}

/// The first `n` of `ls`, each without its file path, joined by line feeds.
pub open spec fn stripped_join(ls: Seq<Seq<char>>, n: int) -> Seq<char>
    decreases n,
{
    if n <= 0 || n > ls.len() {
        Seq::empty()
    } else if n == 1 {
        stripped_line(ls[0])
    } else {
        stripped_join(ls, n - 1) + seq!['\n'] + stripped_line(ls[n - 1])
    }
}

/// `s` without file paths, line by line, and without whitespace around it.
pub open spec fn strip_paths(s: Seq<char>) -> Seq<char> {
    trim(stripped_join(lines(s), lines(s).len() as int))
}

/// `v` up to the first occurrence of `pat`, if it occurs.
fn cut_before(v: &Vec<char>, pat: &Vec<char>) -> (r: Option<Vec<char>>)
    ensures
        match r {
            Some(head) => find_first(v@, pat@).is_some() && head@ == v@.take(
                find_first(v@, pat@).unwrap(),
            ),
            None => find_first(v@, pat@).is_none(),
        },
{
    assert(v@.take(v.len() as int) =~= v@);
    match find_from(v, v.len(), pat, 0) {
        Some(i) => Some(sub_chars(v, 0, i)),
        None => None,
    }
}

fn strip_line(line: &Vec<char>) -> (r: Vec<char>)
    ensures
        r@ == stripped_line(line@),
{
    let label = str_chars("Файл:");
    let users = str_chars("/Users/");
    let home = str_chars("~/");
    proof {
        reveal_strlit("/Users/");
    }
    match cut_before(line, &label) {
        Some(head) => replace_chars(&trim_end_chars(&head), &users, &home),
        None => replace_chars(line, &users, &home),
    }
}

fn strip_paths_chars(v: &Vec<char>) -> (r: Vec<char>)
    ensures
        r@ == strip_paths(v@),
{
    let bounds = line_bounds(v);
    let mut out: Vec<char> = Vec::new();
    let mut i: usize = 0;
    while i < bounds.len()
        invariant
            i <= bounds.len(),
            bounds@.len() == lines(v@).len(),
            forall|k: int|
                0 <= k < bounds@.len() ==> (#[trigger] bounds@[k]).0 <= bounds@[k].1 <= v.len()
                    && lines(v@)[k] == v@.subrange(bounds@[k].0 as int, bounds@[k].1 as int),
            out@ == stripped_join(lines(v@), i as int),
        decreases bounds.len() - i,
    {
        let line = sub_chars(v, bounds[i].0, bounds[i].1);
        let stripped = strip_line(&line);
        if i > 0 {
            out.push('\n');
        }
        append_chars(&mut out, &stripped);
        proof {
            if i == 0 {
                assert(out@ =~= stripped@);
            }
        }
        i += 1;
    }
    trim_chars(&out)
}

/// Drops the file paths from `s`, line by line.
pub fn strip_file_paths(s: &str) -> (r: String)
    ensures
        r@ == strip_paths(s@),
{
    let v = str_chars(s);
    string_of(&strip_paths_chars(&v))
}

/// A description made fit for a message: without whitespace around it, with
/// double spaces made single, and without a trailing file note.
pub open spec fn cleaned_desc(desc: Seq<char>) -> Seq<char> {
    let d = replaced(trim(desc), "  "@, " "@);
    match find_first(d, "(file:"@) {
        Some(i) => trim(d.take(i)),
        None => d,
    }
}

fn clean_desc(desc: &Vec<char>) -> (r: Vec<char>)
    ensures
        r@ == cleaned_desc(desc@),
{
    let two = str_chars("  ");
    let one = str_chars(" ");
    let note = str_chars("(file:");
    proof {
        reveal_strlit("  ");
    }
    let d = replace_chars(&trim_chars(desc), &two, &one);
    match cut_before(&d, &note) {
        Some(head) => trim_chars(&head),
        None => d,
    }
}

/// Makes a description fit for a message.
pub fn name_desc_cleanup(desc: &str) -> (r: String)
    ensures
        r@ == cleaned_desc(desc@),
{
    let v = str_chars(desc);
    string_of(&clean_desc(&v))
}

/// The heading of a list of skills.
pub open spec fn skills_heading() -> Seq<char> {
    "Доступні скіли"@
}

/// First index at or after `k` that holds no hyphen, or the length.
pub open spec fn dash_run_end(s: Seq<char>, k: int) -> int
    decreases s.len() - k,
{
    if 0 <= k < s.len() && s[k] == '-' {
        dash_run_end(s, k + 1)
    } else {
        k
    }
}

/// The line as far as it names a skill: trimmed, without the hyphens of a
/// list item, and without a file path.
pub open spec fn skill_text(line: Seq<char>) -> Seq<char> {
    let l0 = trim(line);
    let l1 = if l0.len() > 0 && l0[0] == '-' {
        trim(l0.skip(dash_run_end(l0, 0)))
    } else {
        l0
    };
    match find_first(l1, file_label()) {
        Some(i) => trim(l1.take(i)),
        None => l1,
    }
}

/// The name and the description, both without whitespace around them, if
/// neither is empty.
pub open spec fn named(name: Seq<char>, desc: Seq<char>) -> Option<(Seq<char>, Seq<char>)> {
    if name.len() > 0 && desc.len() > 0 {
        Some((name, desc))
    } else {
        None
    }
}

/// The skill that a line names: `name — description`, or
/// `name (description): path` where the path is that of a skill file.
pub open spec fn skill_of_line(line: Seq<char>) -> Option<(Seq<char>, Seq<char>)> {
    let l0 = trim(line);
    if l0.len() == 0 || starts_with(l0, skills_heading()) {
        None
    } else {
        let l = skill_text(line);
        let dash = char_from(l, '\u{2014}', 0);
        if dash < l.len() {
            named(trim(l.take(dash)), cleaned_desc(l.skip(dash + 1)))
        } else if contains(l, "SKILL.md"@) {
            let left = trim(l.take(char_from(l, ':', 0)));
            let open = char_from(left, '(', 0);
            match last_char_below(left, ')', left.len() as int) {
                Some(close) => if open < left.len() && close > open {
                    named(trim(left.take(open)), trim(left.subrange(open + 1, close)))
                } else {
                    None
                },
                None => None,
            }
        } else {
            None
        }
    }
}

/// The skills that the first `n` of `ls` name, in order.
pub open spec fn skills_found(ls: Seq<Seq<char>>, n: int) -> Seq<(Seq<char>, Seq<char>)>
    decreases n,
{
    if n <= 0 || n > ls.len() {
        Seq::empty()
    } else {
        match skill_of_line(ls[n - 1]) {
            Some(item) => skills_found(ls, n - 1).push(item),
            None => skills_found(ls, n - 1),
        }
    }
}

/// Most characters of a description in the list.
pub const DESC_CHARS: usize = 160;

/// A description of at most `DESC_CHARS` characters: a longer one is cut
/// short and ends in an ellipsis.
pub open spec fn shortened(desc: Seq<char>) -> Seq<char> {
    if desc.len() > DESC_CHARS {
        desc.take(DESC_CHARS - 3).push('\u{2026}')
    } else {
        desc
    }
}

/// The list entry of a skill.
pub open spec fn skill_entry(item: (Seq<char>, Seq<char>)) -> Seq<char> {
    "\u{2022} "@ + item.0 + " \u{2014} "@ + shortened(item.1) + "\n"@
}

/// The entries of the first `n` of `items`, one after another.
pub open spec fn skill_entries(items: Seq<(Seq<char>, Seq<char>)>, n: int) -> Seq<char>
    decreases n,
{
    if n <= 0 || n > items.len() {
        Seq::empty()
    } else {
        skill_entries(items, n - 1) + skill_entry(items[n - 1])
    }
}

/// `raw` with Windows line ends made plain and without backticks.
pub open spec fn plain(raw: Seq<char>) -> Seq<char> {
    replaced(replaced(raw, "\r\n"@, "\n"@), "`"@, Seq::empty())
}

/// The skills that `raw` names, as a list under a heading; `None` where it
/// names none.
pub open spec fn compact_skills(raw: Seq<char>) -> Option<Seq<char>> {
    let ls = lines(plain(raw));
    let items = skills_found(ls, ls.len() as int);
    if items.len() == 0 {
        None
    } else {
        Some(trim("Доступні скіли:\n"@ + skill_entries(items, items.len() as int)))
    }
}

fn named_pair(name: Vec<char>, desc: Vec<char>) -> (r: Option<(Vec<char>, Vec<char>)>)
    ensures
        match r {
            Some(p) => named(name@, desc@) == Some((p.0@, p.1@)),
            None => named(name@, desc@).is_none(),
        },
{
    if name.len() > 0 && desc.len() > 0 {
        Some((name, desc))
    } else {
        None
    }
}

fn skill_text_of(line: &Vec<char>) -> (r: Vec<char>)
    ensures
        r@ == skill_text(line@),
{
    let l0 = trim_chars(line);
    let l1 = if l0.len() > 0 && l0[0] == '-' {
        let mut k: usize = 0;
        while k < l0.len() && l0[k] == '-'
            invariant
                k <= l0.len(),
                dash_run_end(l0@, 0) == dash_run_end(l0@, k as int),
            decreases l0.len() - k,
        {
            k += 1;
        }
        let rest = sub_chars(&l0, k, l0.len());
        trim_chars(&rest)
    } else {
        l0
    };
    let label = str_chars("Файл:");
    match cut_before(&l1, &label) {
        Some(head) => trim_chars(&head),
        None => l1,
    }
}

fn skill_in_line(line: &Vec<char>) -> (r: Option<(Vec<char>, Vec<char>)>)
    ensures
        match r {
            Some(p) => skill_of_line(line@) == Some((p.0@, p.1@)),
            None => skill_of_line(line@).is_none(),
        },
{
    let l0 = trim_chars(line);
    let heading = str_chars("Доступні скіли");
    assert(l0@.take(l0.len() as int) =~= l0@);
    if l0.len() == 0 || matches_here(&l0, l0.len(), &heading, 0) {
        return None;
    }
    let l = skill_text_of(line);
    assert(l@.take(l.len() as int) =~= l@);
    let dash = find_char(&l, '\u{2014}', 0, l.len());
    if dash < l.len() {
        let name = trim_chars(&sub_chars(&l, 0, dash));
        let desc = clean_desc(&sub_chars(&l, dash + 1, l.len()));
        return named_pair(name, desc);
    }
    let skill_file = str_chars("SKILL.md");
    proof {
        lemma_find_contains(l@, skill_file@);
    }
    if find_from(&l, l.len(), &skill_file, 0).is_none() {
        return None;
    }
    let colon = find_char(&l, ':', 0, l.len());
    let left = trim_chars(&sub_chars(&l, 0, colon));
    assert(left@.take(left.len() as int) =~= left@);
    let open = find_char(&left, '(', 0, left.len());
    match rfind_char(&left, ')') {
        Some(close) => {
            if open < left.len() && close > open {
                let name = trim_chars(&sub_chars(&left, 0, open));
                let desc = trim_chars(&sub_chars(&left, open + 1, close));
                named_pair(name, desc)
            } else {
                None
            }
        },
        None => None,
    }
}

fn push_entry(out: &mut Vec<char>, name: &Vec<char>, desc: &Vec<char>)
    ensures
        final(out)@ == old(out)@ + skill_entry((name@, desc@)),
{
    let bullet = str_chars("\u{2022} ");
    let dash = str_chars(" \u{2014} ");
    let feed = str_chars("\n");
    append_chars(out, &bullet);
    append_chars(out, name);
    append_chars(out, &dash);
    let ghost opened = out@;
    assert(opened =~= old(out)@ + ("\u{2022} "@ + name@ + " \u{2014} "@));
    if desc.len() > DESC_CHARS {
        let short = sub_chars(desc, 0, DESC_CHARS - 3);
        append_chars(out, &short);
        out.push('\u{2026}');
        assert(out@ =~= opened + shortened(desc@));
    } else {
        append_chars(out, desc);
    }
    append_chars(out, &feed);
    assert(final(out)@ =~= old(out)@ + skill_entry((name@, desc@)));
}

fn plain_chars(v: &Vec<char>) -> (r: Vec<char>)
    ensures
        r@ == plain(v@),
{
    let crlf = str_chars("\r\n");
    let lf = str_chars("\n");
    let tick = str_chars("`");
    let none: Vec<char> = Vec::new();
    proof {
        reveal_strlit("\r\n");
        reveal_strlit("`");
    }
    replace_chars(&replace_chars(v, &crlf, &lf), &tick, &none)
}

fn compact_skills_chars(raw: &Vec<char>) -> (r: Option<Vec<char>>)
    ensures
        match r {
            Some(t) => compact_skills(raw@) == Some(t@),
            None => compact_skills(raw@).is_none(),
        },
{
    let text = plain_chars(raw);
    let bounds = line_bounds(&text);
    let ghost ls = lines(text@);
    let mut out = str_chars("Доступні скіли:\n");
    let ghost head = out@;
    let mut found: usize = 0;
    let mut i: usize = 0;
    assert(out@ =~= head + skill_entries(skills_found(ls, 0), 0));
    while i < bounds.len()
        invariant
            i <= bounds.len(),
            ls == lines(text@),
            bounds@.len() == ls.len(),
            forall|k: int|
                0 <= k < bounds@.len() ==> (#[trigger] bounds@[k]).0 <= bounds@[k].1
                    <= text.len() && ls[k] == text@.subrange(
                    bounds@[k].0 as int,
                    bounds@[k].1 as int,
                ),
            found == skills_found(ls, i as int).len(),
            found <= i,
            out@ == head + skill_entries(skills_found(ls, i as int), found as int),
        decreases bounds.len() - i,
    {
        let line = sub_chars(&text, bounds[i].0, bounds[i].1);
        match skill_in_line(&line) {
            Some(pair) => {
                let ghost items = skills_found(ls, i as int);
                let ghost more = skills_found(ls, i + 1);
                push_entry(&mut out, &pair.0, &pair.1);
                proof {
                    assert(more =~= items.push((pair.0@, pair.1@)));
                    lemma_entries_prefix(more, found as int);
                    assert(more.take(found as int) =~= items);
                    assert((head + skill_entries(items, found as int)) + skill_entry(
                        (pair.0@, pair.1@),
                    ) =~= head + skill_entries(more, found + 1));
                }
                found += 1;
            },
            None => {},
        }
        i += 1;
    }
    if found == 0 {
        None
    } else {
        Some(trim_chars(&out))
    }
}

/// The entries of the first `n` items depend on those items only.
proof fn lemma_entries_prefix(items: Seq<(Seq<char>, Seq<char>)>, n: int)
    requires
        0 <= n <= items.len(),
    ensures
        skill_entries(items, n) == skill_entries(items.take(n), n),
    decreases n,
{
    if n > 0 {
        lemma_entries_prefix(items, n - 1);
        lemma_entries_prefix(items.take(n), n - 1);
        assert(items.take(n).take(n - 1) =~= items.take(n - 1));
        assert(items.take(n)[n - 1] == items[n - 1]);
    }
}

/// Makes a list of skills readable: each skill with its name and a short
/// description, under a heading. `None` where no skill is named.
pub fn compact_skills_list(raw: &str) -> (r: Option<String>)
    ensures
        opt_text(r) == compact_skills(raw@),
{
    let v = str_chars(raw);
    match compact_skills_chars(&v) {
        Some(t) => Some(string_of(&t)),
        None => None,
    }
}

/// Whether `s` looks like a list of skills with file paths.
pub open spec fn is_skills_dump(s: Seq<char>) -> bool {
    contains(s, skills_heading()) && (contains(s, "SKILL.md"@) || contains(s, file_label()))
}

/// `input` as it is sent: with plain line ends; a list of skills made
/// readable; without backticks and file paths; with at most two line feeds
/// in a row.
pub open spec fn formatted(input: Seq<char>) -> Seq<char> {
    let unix = replaced(input, "\r\n"@, "\n"@);
    let listed = if is_skills_dump(unix) {
        match compact_skills(unix) {
            Some(c) => c,
            None => unix,
        }
    } else {
        unix
    };
    collapsed(strip_paths(replaced(listed, "`"@, Seq::empty())), 2)
}

fn has(v: &Vec<char>, pat: &str) -> (r: bool)
    ensures
        r == contains(v@, pat@),
{
    let p = str_chars(pat);
    assert(v@.take(v.len() as int) =~= v@);
    proof {
        lemma_find_contains(v@, p@);
    }
    find_from(v, v.len(), &p, 0).is_some()
}

/// Shapes `input` for a chat message.
pub fn format_for_telegram(input: &str) -> (r: String)
    ensures
        r@ == formatted(input@),
{
    let crlf = str_chars("\r\n");
    let lf = str_chars("\n");
    let tick = str_chars("`");
    let none: Vec<char> = Vec::new();
    proof {
        reveal_strlit("\r\n");
        reveal_strlit("`");
    }
    let unix = replace_chars(&str_chars(input), &crlf, &lf);
    let listed = if has(&unix, "Доступні скіли") && (has(&unix, "SKILL.md") || has(&unix, "Файл:")) {
        match compact_skills_chars(&unix) {
            Some(c) => c,
            None => unix,
        }
    } else {
        unix
    };
    let bare = replace_chars(&listed, &tick, &none);
    string_of(&collapse_chars(&strip_paths_chars(&bare), 2))
}

/// The parts that `text` is sent in: the text with plain line ends and
/// without whitespace around it, as one part; none where it is blank.
pub open spec fn message_parts(text: Seq<char>) -> Seq<Seq<char>> {
    let s = replaced(text, "\r\n"@, "\n"@);
    if all_space(s) {
        Seq::empty()
    } else {
        seq![trim(s)]
    }
}

/// The parts that `text` is sent in. The limit `max_chars` does not bear on
/// the result: the text is sent as one part.
pub fn split_for_telegram(text: &str, max_chars: usize) -> (r: Vec<String>)
    ensures
        texts(r@) == message_parts(text@),
{
    let crlf = str_chars("\r\n");
    let lf = str_chars("\n");
    proof {
        reveal_strlit("\r\n");
    }
    let s = replace_chars(&str_chars(text), &crlf, &lf);
    let t = trim_chars(&s);
    proof {
        lemma_all_space_trim(s@);
    }
    let mut out: Vec<String> = Vec::new();
    if t.len() > 0 {
        out.push(string_of(&t));
        assert(texts(out@) =~= seq![trim(s@)]);
    } else {
        assert(texts(out@) =~= Seq::<Seq<char>>::empty());
    }
    out
}

/// Most characters of one message.
pub const MESSAGE_CHARS: usize = 4096;

/// `s` from index `from` on, in pieces of `n` characters; the last may be
/// shorter.
pub open spec fn pieces_from(s: Seq<char>, n: int, from: int) -> Seq<Seq<char>>
    decreases s.len() - from,
{
    if from < 0 || from >= s.len() || n <= 0 {
        Seq::empty()
    } else if from + n >= s.len() {
        seq![s.subrange(from, s.len() as int)]
    } else {
        seq![s.subrange(from, from + n)] + pieces_from(s, n, from + n)
    }
}

/// The messages that `text` is sent as: shaped for a chat message, and cut
/// into pieces of at most `MESSAGE_CHARS` characters.
pub fn message_pieces(text: &str) -> (r: Vec<String>)
    ensures
        texts(r@) == pieces_from(formatted(text@), MESSAGE_CHARS as int, 0),
{
    let shaped = format_for_telegram(text);
    let v = str_chars(shaped.as_str());
    let mut out: Vec<String> = Vec::new();
    let mut from: usize = 0;
    let ghost all = pieces_from(v@, MESSAGE_CHARS as int, 0);
    assert(texts(out@) + pieces_from(v@, MESSAGE_CHARS as int, 0) =~= all);
    while from < v.len()
        invariant
            from <= v.len(),
            texts(out@) + pieces_from(v@, MESSAGE_CHARS as int, from as int) == all,
        decreases v.len() - from,
    {
        let to = if v.len() - from <= MESSAGE_CHARS {
            v.len()
        } else {
            from + MESSAGE_CHARS
        };
        let ghost before = texts(out@);
        let piece = crate::chars::chars_to_string(&v, from, to);
        out.push(piece);
        proof {
            assert(texts(out@) =~= before.push(piece@));
            assert(pieces_from(v@, MESSAGE_CHARS as int, v.len() as int) =~= Seq::<
                Seq<char>,
            >::empty());
            assert(before.push(piece@) + pieces_from(v@, MESSAGE_CHARS as int, to as int)
                =~= before + (seq![piece@] + pieces_from(v@, MESSAGE_CHARS as int, to as int)));
        }
        from = to;
    }
    assert(texts(out@) + Seq::<Seq<char>>::empty() =~= texts(out@));
    out
}

/// The command that a message opens with, and what follows it: the
/// command is the first word where it begins with a slash, without the bot
/// name after an `@`; what follows is given without whitespace around it,
/// where it is not empty and the message begins with the command.
pub open spec fn command_of(text: Seq<char>) -> (Option<Seq<char>>, Option<Seq<char>>) {
    let first = first_token(text);
    if first.len() == 0 || first[0] != '/' {
        (None, None)
    } else {
        let rest = if starts_with(text, first) && trim(text.skip(first.len() as int)).len() > 0 {
            Some(trim(text.skip(first.len() as int)))
        } else {
            None
        };
        (Some(first.take(char_from(first, '@', 0))), rest)
    }
}

/// The command that the message `text` opens with, and what follows it.
pub fn parse_command(text: &str) -> (r: (Option<String>, Option<String>))
    ensures
        (opt_text(r.0), opt_text(r.1)) == command_of(text@),
{
    let v = str_chars(text);
    assert(v@.subrange(0, v.len() as int) =~= v@);
    assert(v@.take(v.len() as int) =~= v@);
    let first = str_chars(first_token_from(&v, 0).as_str());
    if first.len() == 0 || first[0] != '/' {
        return (None, None);
    }
    assert(first@.take(first.len() as int) =~= first@);
    let at = find_char(&first, '@', 0, first.len());
    let cmd = crate::chars::chars_to_string(&first, 0, at);
    let rest = if matches_here(&v, v.len(), &first, 0) {
        let tail = trim_chars(&sub_chars(&v, first.len(), v.len()));
        if tail.len() > 0 {
            Some(string_of(&tail))
        } else {
            None
        }
    } else {
        None
    };
    (Some(cmd), rest)
}

} // verus!
