//! Characters, their UTF-8 widths, and searching and trimming of character
//! sequences. Text is modelled as `Seq<char>`; byte positions are derived
//! from the encoded width of each character.
use vstd::prelude::*;
use vstd::utf8::*;

verus! {

/// The characters with the Unicode `White_Space` property.
pub open spec fn is_space(c: char) -> bool {
    let u = c as u32;
    ||| 0x09 <= u <= 0x0D
    ||| u == 0x20
    ||| u == 0x85
    ||| u == 0xA0
    ||| u == 0x1680
    ||| 0x2000 <= u <= 0x200A
    ||| u == 0x2028
    ||| u == 0x2029
    ||| u == 0x202F
    ||| u == 0x205F
    ||| u == 0x3000
}

/// Whether `c` has the Unicode `White_Space` property.
pub fn is_whitespace(c: char) -> (b: bool)
    ensures
        b == is_space(c),
{
    let u: u32 = c as u32;
    (0x09 <= u && u <= 0x0D) || u == 0x20 || u == 0x85 || u == 0xA0 || u == 0x1680 || (0x2000 <= u
        && u <= 0x200A) || u == 0x2028 || u == 0x2029 || u == 0x202F || u == 0x205F || u == 0x3000
}

/// Number of bytes that `c` takes in UTF-8.
pub open spec fn char_width(c: char) -> nat {
    let u = c as u32;
    if u < 0x80 {
        1
    } else if u < 0x800 {
        2
    } else if u < 0x10000 {
        3
    } else {
        4
    }
}

/// Number of bytes that `c` takes in UTF-8.
pub fn utf8_width(c: char) -> (w: usize)
    ensures
        w == char_width(c),
{
    let u: u32 = c as u32;
    if u < 0x80 {
        1
    } else if u < 0x800 {
        2
    } else if u < 0x10000 {
        3
    } else {
        4
    }
}

/// Number of bytes that `s` takes in UTF-8.
pub open spec fn byte_len(s: Seq<char>) -> nat
    decreases s.len(),
{
    if s.len() == 0 {
        0
    } else {
        byte_len(s.drop_last()) + char_width(s.last())
    }
}

/// Byte position at which the character with index `k` starts; for
/// `k == s.len()` the byte length of `s`.
pub open spec fn byte_offset(s: Seq<char>, k: int) -> nat {
    byte_len(s.take(k))
}

/// `b` is the byte position of the start of some character of `s`, or its end.
pub open spec fn is_boundary(s: Seq<char>, b: int) -> bool {
    exists|k: int| 0 <= k <= s.len() && #[trigger] byte_offset(s, k) == b
}

/// Number of whole characters of `s` that end at or before byte `b`, counted
/// from index `k` on.
pub open spec fn chars_within(s: Seq<char>, b: int, k: int) -> int
    decreases s.len() - k,
{
    if 0 <= k < s.len() && byte_offset(s, k + 1) <= b {
        chars_within(s, b, k + 1)
    } else {
        k
    }
}

/// Index of the character that starts at byte `b`, where `b` is a boundary.
pub open spec fn char_index(s: Seq<char>, b: int) -> int {
    chars_within(s, b, 0)
}

/// The byte length of two texts in a row is the sum of their byte lengths.
pub proof fn lemma_byte_len_concat(a: Seq<char>, b: Seq<char>)
    ensures
        byte_len(a + b) == byte_len(a) + byte_len(b),
    decreases b.len(),
{
    if b.len() == 0 {
        assert(a + b =~= a);
    } else {
        assert((a + b).drop_last() =~= a + b.drop_last());
        lemma_byte_len_concat(a, b.drop_last());
    }
}

/// Each character starts as many bytes after the one before as that one is wide.
pub proof fn lemma_byte_offset_step(s: Seq<char>, k: int)
    requires
        0 <= k < s.len(),
    ensures
        byte_offset(s, k + 1) == byte_offset(s, k) + char_width(s[k]),
        byte_offset(s, k + 1) > byte_offset(s, k),
{
    assert(s.take(k + 1).drop_last() =~= s.take(k));
}

/// The first character starts at byte zero, and the text ends at its byte length.
pub proof fn lemma_byte_offset_ends(s: Seq<char>)
    ensures
        byte_offset(s, 0) == 0,
        byte_offset(s, s.len() as int) == byte_len(s),
{
    assert(s.take(s.len() as int) =~= s);
}

/// Byte positions grow with character indices, and at least as fast.
pub proof fn lemma_byte_offset_monotonic(s: Seq<char>, i: int, j: int)
    requires
        0 <= i <= j <= s.len(),
    ensures
        byte_offset(s, j) - byte_offset(s, i) >= j - i,
        byte_offset(s, j) - byte_offset(s, i) <= 4 * (j - i),
    decreases j - i,
{
    if i < j {
        lemma_byte_offset_monotonic(s, i, j - 1);
        lemma_byte_offset_step(s, j - 1);
    }
}

/// `chars_within` stops at the last character that starts at or before byte `b`.
pub proof fn lemma_chars_within(s: Seq<char>, b: int, k: int)
    requires
        0 <= k <= s.len(),
        byte_offset(s, k) <= b,
    ensures
        k <= chars_within(s, b, k) <= s.len(),
        byte_offset(s, chars_within(s, b, k)) <= b,
        chars_within(s, b, k) < s.len() ==> byte_offset(s, chars_within(s, b, k) + 1) > b,
    decreases s.len() - k,
{
    if k < s.len() && byte_offset(s, k + 1) <= b {
        lemma_chars_within(s, b, k + 1);
    }
}

/// `char_index` inverts `byte_offset`.
pub proof fn lemma_char_index_of_offset(s: Seq<char>, k: int)
    requires
        0 <= k <= s.len(),
    ensures
        char_index(s, byte_offset(s, k) as int) == k,
        is_boundary(s, byte_offset(s, k) as int),
{
    let b = byte_offset(s, k) as int;
    lemma_byte_offset_ends(s);
    lemma_chars_within(s, b, 0);
    let r = char_index(s, b);
    if r < k {
        lemma_byte_offset_monotonic(s, r + 1, k);
    } else if r > k {
        lemma_byte_offset_monotonic(s, k, r);
    }
}

/// At a boundary, `char_index` names the character that starts there.
pub proof fn lemma_boundary_index(s: Seq<char>, b: int)
    requires
        is_boundary(s, b),
    ensures
        0 <= char_index(s, b) <= s.len(),
        byte_offset(s, char_index(s, b)) == b,
{
    let k = choose|k: int| 0 <= k <= s.len() && #[trigger] byte_offset(s, k) == b;
    lemma_char_index_of_offset(s, k);
}

proof fn lemma_encode_concat(a: Seq<char>, b: Seq<char>)
    ensures
        encode_utf8(a + b) == encode_utf8(a) + encode_utf8(b),
    decreases a.len(),
{
    if a.len() == 0 {
        assert(a + b =~= b);
        assert(encode_utf8(a) + encode_utf8(b) =~= encode_utf8(b));
    } else {
        assert((a + b).drop_first() =~= a.drop_first() + b);
        lemma_encode_concat(a.drop_first(), b);
        assert(encode_utf8(a + b) =~= encode_utf8(a) + encode_utf8(b));
    }
}

proof fn lemma_encode_single(c: char)
    ensures
        encode_utf8(seq![c]).len() == char_width(c),
{
    reveal_with_fuel(encode_utf8, 2);
    char_is_scalar(c);
    assert(seq![c].drop_first() =~= Seq::<char>::empty());
    let u = c as u32;
    assert(encode_utf8(seq![c]) =~= encode_scalar(u));
}

/// `byte_len` is the length of the UTF-8 encoding.
pub proof fn lemma_byte_len_is_encoded_len(s: Seq<char>)
    ensures
        byte_len(s) == encode_utf8(s).len(),
    decreases s.len(),
{
    if s.len() > 0 {
        let front = s.drop_last();
        assert(s =~= front + seq![s.last()]);
        lemma_encode_concat(front, seq![s.last()]);
        lemma_encode_single(s.last());
        lemma_byte_len_is_encoded_len(front);
    }
}

/// Length of `s` in bytes.
pub fn str_byte_len(s: &str) -> (n: usize)
    ensures
        n == byte_len(s@),
        is_boundary(s@, n as int),
        is_boundary(s@, 0),
{
    proof {
        lemma_byte_len_is_encoded_len(s@);
        lemma_byte_offset_ends(s@);
    }
    s.as_bytes().len()
}

/// The characters of `s`, in order.
pub fn str_chars(s: &str) -> (v: Vec<char>)
    ensures
        v@ == s@,
{
    let mut v: Vec<char> = Vec::new();
    for c in it: s.chars()
        invariant
            it.seq() == s@,
            v@ == it.seq().take(it.index() as int),
    {
        v.push(c);
        assert(it.seq().take(it.index() + 1) =~= it.seq().take(it.index() as int).push(c));
    }
    assert(v@ =~= s@);
    v
}

/// The text made of the characters `v[from..to]`, built with
/// `String::from_iter`, which collects the characters in order.
#[verifier::external_body]
fn string_from_range(v: &Vec<char>, from: usize, to: usize) -> (s: String)
    requires
        from <= to <= v.len(),
    ensures
        s@ == v@.subrange(from as int, to as int),
{
    String::from_iter(v[from..to].iter())
}

/// The text made of the characters `v[from..to]`.
pub fn chars_to_string(v: &Vec<char>, from: usize, to: usize) -> (s: String)
    requires
        from <= to <= v.len(),
    ensures
        s@ == v@.subrange(from as int, to as int),
{
    string_from_range(v, from, to)
}

/// Whether two texts hold the same characters.
pub fn str_same(a: &str, b: &str) -> (r: bool)
    ensures
        r == (a@ == b@),
{
    let x = a.as_bytes();
    let y = b.as_bytes();
    proof {
        encode_utf8_decode_utf8(a@);
        encode_utf8_decode_utf8(b@);
    }
    if x.len() != y.len() {
        return false;
    }
    let mut i: usize = 0;
    while i < x.len()
        invariant
            i <= x.len(),
            x.len() == y.len(),
            x@ == encode_utf8(a@),
            y@ == encode_utf8(b@),
            decode_utf8(encode_utf8(a@)) == a@,
            decode_utf8(encode_utf8(b@)) == b@,
            forall|j: int| 0 <= j < i ==> x@[j] == y@[j],
        decreases x.len() - i,
    {
        if x[i] != y[i] {
            return false;
        }
        i += 1;
    }
    assert(x@ =~= y@);
    true
}

/// Byte position at which the character with index `k` starts.
pub fn byte_offset_of(v: &Vec<char>, k: usize) -> (b: usize)
    requires
        k <= v.len(),
        byte_len(v@) <= usize::MAX,
    ensures
        b == byte_offset(v@, k as int),
{
    let mut b: usize = 0;
    let mut i: usize = 0;
    proof {
        lemma_byte_offset_ends(v@);
    }
    while i < k
        invariant
            i <= k <= v.len(),
            b == byte_offset(v@, i as int),
            byte_len(v@) <= usize::MAX,
        decreases k - i,
    {
        proof {
            lemma_byte_offset_step(v@, i as int);
            lemma_byte_offset_monotonic(v@, i + 1, v@.len() as int);
            lemma_byte_offset_ends(v@);
        }
        b = b + utf8_width(v[i]);
        i += 1;
    }
    b
}

/// The character that starts at byte `b`, if one starts there.
pub fn char_index_at_byte(v: &Vec<char>, b: usize) -> (r: Option<usize>)
    requires
        byte_len(v@) <= usize::MAX,
    ensures
        r.is_some() == is_boundary(v@, b as int),
        r matches Some(k) ==> k <= v.len() && k == char_index(v@, b as int) && byte_offset(
            v@,
            k as int,
        ) == b,
{
    let mut at: usize = 0;
    let mut i: usize = 0;
    proof {
        lemma_byte_offset_ends(v@);
    }
    while i < v.len() && at < b
        invariant
            i <= v.len(),
            at == byte_offset(v@, i as int),
            byte_len(v@) <= usize::MAX,
            forall|j: int| 0 <= j < i ==> byte_offset(v@, j) < b,
        decreases v.len() - i,
    {
        proof {
            lemma_byte_offset_step(v@, i as int);
            lemma_byte_offset_monotonic(v@, i + 1, v@.len() as int);
            lemma_byte_offset_ends(v@);
        }
        at = at + utf8_width(v[i]);
        i += 1;
    }
    if at == b {
        proof {
            lemma_char_index_of_offset(v@, i as int);
        }
        Some(i)
    } else {
        proof {
            if is_boundary(v@, b as int) {
                let k = choose|k: int| 0 <= k <= v@.len() && #[trigger] byte_offset(v@, k) == b;
                if k < i {
                } else {
                    lemma_byte_offset_monotonic(v@, i as int, k);
                }
            }
        }
        None
    }
}

/// Index of the last character that starts at or before byte `b`, or the
/// length where `b` lies at or past the end.
pub fn char_index_before(v: &Vec<char>, b: usize) -> (k: usize)
    requires
        byte_len(v@) <= usize::MAX,
    ensures
        k == char_index(v@, b as int),
        k <= v.len(),
        byte_offset(v@, k as int) <= b,
{
    let mut at: usize = 0;
    let mut i: usize = 0;
    proof {
        lemma_byte_offset_ends(v@);
    }
    loop
        invariant
            i <= v.len(),
            at == byte_offset(v@, i as int),
            at <= b,
            byte_len(v@) <= usize::MAX,
            char_index(v@, b as int) == chars_within(v@, b as int, i as int),
        ensures
            i <= v.len(),
            i == char_index(v@, b as int),
            byte_offset(v@, i as int) <= b,
        decreases v.len() - i,
    {
        if i >= v.len() {
            break;
        }
        proof {
            lemma_byte_offset_step(v@, i as int);
            lemma_byte_offset_monotonic(v@, i + 1, v@.len() as int);
            lemma_byte_offset_ends(v@);
        }
        let next = at + utf8_width(v[i]);
        if next > b {
            break;
        }
        at = next;
        i += 1;
    }
    i
}

/// Every character of `s` is whitespace.
pub open spec fn all_space(s: Seq<char>) -> bool {
    forall|i: int| 0 <= i < s.len() ==> is_space(#[trigger] s[i])
}

/// First index at or after `k` that holds no whitespace, or the length.
pub open spec fn space_run_end(s: Seq<char>, k: int) -> int
    decreases s.len() - k,
{
    if 0 <= k < s.len() && is_space(s[k]) {
        space_run_end(s, k + 1)
    } else {
        k
    }
}

/// Length of `s.take(n)` once its trailing whitespace is dropped.
pub open spec fn trim_end_len(s: Seq<char>, n: int) -> int
    decreases n,
{
    if 0 < n <= s.len() && is_space(s[n - 1]) {
        trim_end_len(s, n - 1)
    } else {
        n
    }
}

/// `s` without trailing whitespace.
pub open spec fn trim_end(s: Seq<char>) -> Seq<char> {
    s.take(trim_end_len(s, s.len() as int))
}

/// `s` without leading and trailing whitespace.
pub open spec fn trim(s: Seq<char>) -> Seq<char> {
    let a = space_run_end(s, 0);
    let b = trim_end_len(s, s.len() as int);
    if a < b {
        s.subrange(a, b)
    } else {
        Seq::empty()
    }
}

/// `space_run_end` passes over whitespace only, and stops at the first other character.
pub proof fn lemma_space_run_end(s: Seq<char>, k: int)
    requires
        0 <= k <= s.len(),
    ensures
        k <= space_run_end(s, k) <= s.len(),
        forall|i: int| k <= i < space_run_end(s, k) ==> is_space(#[trigger] s[i]),
        space_run_end(s, k) < s.len() ==> !is_space(s[space_run_end(s, k)]),
    decreases s.len() - k,
{
    if k < s.len() && is_space(s[k]) {
        lemma_space_run_end(s, k + 1);
    }
}

/// `trim_end_len` drops whitespace only, and stops after the last other character.
pub proof fn lemma_trim_end_len(s: Seq<char>, n: int)
    requires
        0 <= n <= s.len(),
    ensures
        0 <= trim_end_len(s, n) <= n,
        forall|i: int| trim_end_len(s, n) <= i < n ==> is_space(#[trigger] s[i]),
        trim_end_len(s, n) > 0 ==> !is_space(s[trim_end_len(s, n) - 1]),
    decreases n,
{
    if 0 < n && is_space(s[n - 1]) {
        lemma_trim_end_len(s, n - 1);
    }
}

/// A text is blank exactly when trimming leaves nothing.
pub proof fn lemma_all_space_trim(s: Seq<char>)
    ensures
        all_space(s) <==> trim(s).len() == 0,
        all_space(s) <==> trim_end(s).len() == 0,
        all_space(s) <==> space_run_end(s, 0) == s.len(),
{
    lemma_space_run_end(s, 0);
    lemma_trim_end_len(s, s.len() as int);
    let a = space_run_end(s, 0);
    let b = trim_end_len(s, s.len() as int);
    if all_space(s) {
        if b > 0 {
            assert(is_space(s[b - 1]));
        }
        if a < s.len() {
            assert(is_space(s[a]));
        }
    } else {
        let i = choose|i: int| 0 <= i < s.len() && !is_space(#[trigger] s[i]);
        assert(a <= i);
        assert(b > i);
    }
}

/// First index at or after `k`, below `end`, that holds no whitespace, or `end`.
pub fn skip_spaces(v: &Vec<char>, k: usize, end: usize) -> (r: usize)
    requires
        k <= end <= v.len(),
    ensures
        r == space_run_end(v@.take(end as int), k as int),
        k <= r <= end,
{
    let mut i: usize = k;
    let ghost s = v@.take(end as int);
    while i < end && is_whitespace(v[i])
        invariant
            k <= i <= end <= v.len(),
            s == v@.take(end as int),
            space_run_end(s, k as int) == space_run_end(s, i as int),
        decreases end - i,
    {
        i += 1;
    }
    i
}

/// Length of `v[..n]` once its trailing whitespace is dropped.
pub fn trim_end_at(v: &Vec<char>, n: usize) -> (r: usize)
    requires
        n <= v.len(),
    ensures
        r == trim_end_len(v@, n as int),
        r <= n,
{
    let mut i: usize = n;
    while i > 0 && is_whitespace(v[i - 1])
        invariant
            i <= n <= v.len(),
            trim_end_len(v@, n as int) == trim_end_len(v@, i as int),
        decreases i,
    {
        i -= 1;
    }
    i
}

/// `trim_end_len` looks only at the characters below `n`.
pub proof fn lemma_trim_end_len_take(s: Seq<char>, n: int, m: int)
    requires
        0 <= n <= m <= s.len(),
    ensures
        trim_end_len(s.take(m), n) == trim_end_len(s, n),
    decreases n,
{
    if 0 < n && is_space(s[n - 1]) {
        lemma_trim_end_len_take(s, n - 1, m);
    }
}

/// Whether `v[from..to]` holds only whitespace.
pub fn is_blank(v: &Vec<char>, from: usize, to: usize) -> (r: bool)
    requires
        from <= to <= v.len(),
    ensures
        r == all_space(v@.subrange(from as int, to as int)),
{
    let mut i: usize = from;
    let ghost s = v@.subrange(from as int, to as int);
    while i < to
        invariant
            from <= i <= to <= v.len(),
            s == v@.subrange(from as int, to as int),
            forall|j: int| 0 <= j < i - from ==> is_space(#[trigger] s[j]),
        decreases to - i,
    {
        if !is_whitespace(v[i]) {
            assert(!is_space(s[i - from]));
            return false;
        }
        i += 1;
    }
    true
}

/// `pat` occurs in `s` at index `i`.
pub open spec fn matches_at(s: Seq<char>, pat: Seq<char>, i: int) -> bool {
    0 <= i && i + pat.len() <= s.len() && s.subrange(i, i + pat.len()) == pat
}

/// Largest index below `n` at which `pat` occurs in `s`.
pub open spec fn last_match_below(s: Seq<char>, pat: Seq<char>, n: int) -> Option<int>
    decreases n,
{
    if n <= 0 {
        None
    } else if matches_at(s, pat, n - 1) {
        Some(n - 1)
    } else {
        last_match_below(s, pat, n - 1)
    }
}

/// Index of the last occurrence of `pat` in `s`.
pub open spec fn find_last(s: Seq<char>, pat: Seq<char>) -> Option<int> {
    last_match_below(s, pat, s.len() - pat.len() + 1)
}

/// Smallest index at or after `from` at which `pat` occurs in `s`.
pub open spec fn first_match_from(s: Seq<char>, pat: Seq<char>, from: int) -> Option<int>
    decreases s.len() + 1 - from,
{
    if from < 0 || from + pat.len() > s.len() {
        None
    } else if matches_at(s, pat, from) {
        Some(from)
    } else {
        first_match_from(s, pat, from + 1)
    }
}

/// Index of the first occurrence of `pat` in `s`.
pub open spec fn find_first(s: Seq<char>, pat: Seq<char>) -> Option<int> {
    first_match_from(s, pat, 0)
}

/// `pat` occurs somewhere in `s`.
pub open spec fn contains(s: Seq<char>, pat: Seq<char>) -> bool {
    exists|i: int| matches_at(s, pat, i)
}

/// `last_match_below` gives the last index below `n` at which `pat` occurs, if there is one.
pub proof fn lemma_last_match_below(s: Seq<char>, pat: Seq<char>, n: int)
    ensures
        match last_match_below(s, pat, n) {
            Some(i) => 0 <= i < n && matches_at(s, pat, i) && forall|j: int|
                i < j < n ==> !matches_at(s, pat, j),
            None => forall|j: int| 0 <= j < n ==> !matches_at(s, pat, j),
        },
    decreases n,
{
    if n > 0 && !matches_at(s, pat, n - 1) {
        lemma_last_match_below(s, pat, n - 1);
    }
}

/// `first_match_from` gives the first index from `from` on at which `pat` occurs, if there is one.
pub proof fn lemma_first_match_from(s: Seq<char>, pat: Seq<char>, from: int)
    requires
        0 <= from,
    ensures
        match first_match_from(s, pat, from) {
            Some(i) => from <= i && matches_at(s, pat, i) && forall|j: int|
                from <= j < i ==> !matches_at(s, pat, j),
            None => forall|j: int| from <= j ==> !matches_at(s, pat, j),
        },
    decreases s.len() + 1 - from,
{
    if from + pat.len() <= s.len() && !matches_at(s, pat, from) {
        lemma_first_match_from(s, pat, from + 1);
    }
}

/// `find_first` and `find_last` succeed exactly when the pattern occurs.
pub proof fn lemma_find_contains(s: Seq<char>, pat: Seq<char>)
    ensures
        find_first(s, pat).is_some() == contains(s, pat),
        find_last(s, pat).is_some() == contains(s, pat),
{
    lemma_first_match_from(s, pat, 0);
    lemma_last_match_below(s, pat, s.len() - pat.len() + 1);
    if contains(s, pat) {
        let i = choose|i: int| matches_at(s, pat, i);
        assert(matches_at(s, pat, i));
    }
}

/// Whether `pat` occurs in `v[..end]` at index `i`.
pub fn matches_here(v: &Vec<char>, end: usize, pat: &Vec<char>, i: usize) -> (r: bool)
    requires
        end <= v.len(),
    ensures
        r == matches_at(v@.take(end as int), pat@, i as int),
{
    if pat.len() > end || i > end - pat.len() {
        return false;
    }
    let ghost s = v@.take(end as int);
    let mut j: usize = 0;
    while j < pat.len()
        invariant
            j <= pat.len(),
            i + pat.len() <= end <= v.len(),
            s == v@.take(end as int),
            forall|t: int| 0 <= t < j ==> s[i + t] == pat@[t],
        decreases pat.len() - j,
    {
        if v[i + j] != pat[j] {
            assert(s.subrange(i as int, i + pat.len())[j as int] != pat@[j as int]);
            return false;
        }
        j += 1;
    }
    assert(s.subrange(i as int, i + pat.len()) =~= pat@);
    true
}

/// Index of the last occurrence of `pat` in `v[..end]`.
pub fn rfind(v: &Vec<char>, end: usize, pat: &Vec<char>) -> (r: Option<usize>)
    requires
        end <= v.len(),
    ensures
        r.is_some() == find_last(v@.take(end as int), pat@).is_some(),
        r matches Some(i) ==> find_last(v@.take(end as int), pat@) == Some(i as int) && i
            + pat.len() <= end,
{
    if pat.len() > end {
        return None;
    }
    let ghost s = v@.take(end as int);
    let mut n: usize = end - pat.len();
    loop
        invariant
            pat.len() <= end <= v.len(),
            n <= end - pat.len(),
            s == v@.take(end as int),
            find_last(s, pat@) == last_match_below(s, pat@, n + 1),
        decreases n,
    {
        if matches_here(v, end, pat, n) {
            return Some(n);
        }
        if n == 0 {
            assert(last_match_below(s, pat@, 0).is_none());
            return None;
        }
        n -= 1;
    }
}

/// Index of the first occurrence of `pat` in `v[..end]` at or after `from`.
pub fn find_from(v: &Vec<char>, end: usize, pat: &Vec<char>, from: usize) -> (r: Option<usize>)
    requires
        end <= v.len(),
    ensures
        r.is_some() == first_match_from(v@.take(end as int), pat@, from as int).is_some(),
        r matches Some(i) ==> first_match_from(v@.take(end as int), pat@, from as int) == Some(
            i as int,
        ) && from <= i && i + pat.len() <= end,
{
    if pat.len() > end || from > end - pat.len() {
        return None;
    }
    let ghost s = v@.take(end as int);
    let limit: usize = end - pat.len();
    let mut i: usize = from;
    while i < limit
        invariant
            pat.len() <= end <= v.len(),
            limit == end - pat.len(),
            from <= i <= limit,
            s == v@.take(end as int),
            first_match_from(s, pat@, from as int) == first_match_from(s, pat@, i as int),
        decreases limit - i,
    {
        if matches_here(v, end, pat, i) {
            return Some(i);
        }
        i += 1;
    }
    if matches_here(v, end, pat, limit) {
        Some(limit)
    } else {
        assert(first_match_from(s, pat@, limit + 1).is_none());
        None
    }
}

/// `s` begins with `p`.
pub open spec fn starts_with(s: Seq<char>, p: Seq<char>) -> bool {
    matches_at(s, p, 0)
}

/// `s` ends with `p`.
pub open spec fn ends_with(s: Seq<char>, p: Seq<char>) -> bool {
    matches_at(s, p, s.len() - p.len())
}

/// Whether `s` begins with `p`.
pub fn str_starts_with(s: &str, p: &str) -> (r: bool)
    ensures
        r == starts_with(s@, p@),
{
    let v = str_chars(s);
    let pat = str_chars(p);
    assert(v@.take(v.len() as int) =~= v@);
    matches_here(&v, v.len(), &pat, 0)
}

/// Whether `s` ends with `p`.
pub fn str_ends_with(s: &str, p: &str) -> (r: bool)
    ensures
        r == ends_with(s@, p@),
{
    let v = str_chars(s);
    let pat = str_chars(p);
    assert(v@.take(v.len() as int) =~= v@);
    if pat.len() > v.len() {
        return false;
    }
    matches_here(&v, v.len(), &pat, v.len() - pat.len())
}

/// Whether `pat` occurs in `s`.
pub fn str_contains(s: &str, pat: &str) -> (r: bool)
    ensures
        r == contains(s@, pat@),
{
    let v = str_chars(s);
    let p = str_chars(pat);
    assert(v@.take(v.len() as int) =~= v@);
    proof {
        lemma_find_contains(v@, p@);
    }
    find_from(&v, v.len(), &p, 0).is_some()
}

/// First index at or after `k` that holds whitespace, or the length.
pub open spec fn token_end(s: Seq<char>, k: int) -> int
    decreases s.len() - k,
{
    if 0 <= k < s.len() && !is_space(s[k]) {
        token_end(s, k + 1)
    } else {
        k
    }
}

/// The first run of characters of `s` that holds no whitespace; empty where
/// `s` is blank.
pub open spec fn first_token(s: Seq<char>) -> Seq<char> {
    let a = space_run_end(s, 0);
    s.subrange(a, token_end(s, a))
}

/// First index at or after `k` that holds whitespace, or the length.
pub fn skip_token(v: &Vec<char>, k: usize) -> (r: usize)
    requires
        k <= v.len(),
    ensures
        r == token_end(v@, k as int),
        k <= r <= v.len(),
{
    let mut i: usize = k;
    while i < v.len() && !is_whitespace(v[i])
        invariant
            k <= i <= v.len(),
            token_end(v@, k as int) == token_end(v@, i as int),
        decreases v.len() - i,
    {
        i += 1;
    }
    i
}

/// The first run of characters of `v[from..]` that holds no whitespace.
pub fn first_token_from(v: &Vec<char>, from: usize) -> (r: String)
    requires
        from <= v.len(),
    ensures
        r@ == first_token(v@.subrange(from as int, v.len() as int)),
{
    let a = skip_spaces(v, from, v.len());
    let b = skip_token(v, a);
    proof {
        let rest = v@.subrange(from as int, v.len() as int);
        assert(v@.take(v.len() as int) =~= v@);
        lemma_space_run_shift(v@, from as int, from as int);
        lemma_token_end_shift(v@, from as int, a as int);
        assert(rest.subrange(a - from, b - from) =~= v@.subrange(a as int, b as int));
    }
    chars_to_string(v, a, b)
}

proof fn lemma_space_run_shift(s: Seq<char>, from: int, k: int)
    requires
        0 <= from <= k <= s.len(),
    ensures
        space_run_end(s.subrange(from, s.len() as int), k - from) == space_run_end(s, k) - from,
    decreases s.len() - k,
{
    let rest = s.subrange(from, s.len() as int);
    if k < s.len() {
        assert(rest[k - from] == s[k]);
        if is_space(s[k]) {
            lemma_space_run_shift(s, from, k + 1);
        }
    }
}

proof fn lemma_token_end_shift(s: Seq<char>, from: int, k: int)
    requires
        0 <= from <= k <= s.len(),
    ensures
        token_end(s.subrange(from, s.len() as int), k - from) == token_end(s, k) - from,
    decreases s.len() - k,
{
    let rest = s.subrange(from, s.len() as int);
    if k < s.len() {
        assert(rest[k - from] == s[k]);
        if !is_space(s[k]) {
            lemma_token_end_shift(s, from, k + 1);
        }
    }
}

/// `s` without leading and trailing whitespace.
pub fn trim_str(s: &str) -> (r: String)
    ensures
        r@ == trim(s@),
{
    let v = str_chars(s);
    let a = skip_spaces(&v, 0, v.len());
    let b = trim_end_at(&v, v.len());
    proof {
        assert(v@.take(v.len() as int) =~= v@);
    }
    if a < b {
        chars_to_string(&v, a, b)
    } else {
        String::new()
    }
}

/// The first `n` characters of `s`, or all of it where it has fewer.
pub open spec fn prefix(s: Seq<char>, n: int) -> Seq<char> {
    if n < s.len() {
        s.take(n)
    } else {
        s
    }
}

/// The first `n` characters of `s`.
pub fn str_prefix(s: &str, n: usize) -> (r: String)
    ensures
        r@ == prefix(s@, n as int),
{
    let v = str_chars(s);
    if n < v.len() {
        chars_to_string(&v, 0, n)
    } else {
        assert(v@.subrange(0, v.len() as int) =~= v@);
        chars_to_string(&v, 0, v.len())
    }
}

/// `a` followed by `b`.
pub fn join2(a: &str, b: &str) -> (r: String)
    ensures
        r@ == a@ + b@,
{
    let mut r = a.to_owned();
    r.append(b);
    r
}

/// `s` from index `from` on, with every occurrence of `pat` replaced by
/// `with`; occurrences are taken from the left and do not overlap.
pub open spec fn replaced_from(s: Seq<char>, pat: Seq<char>, with: Seq<char>, from: int) -> Seq<
    char,
>
    decreases s.len() - from,
{
    if from < 0 || from >= s.len() {
        Seq::empty()
    } else if pat.len() > 0 && matches_at(s, pat, from) {
        with + replaced_from(s, pat, with, from + pat.len())
    } else {
        seq![s[from]] + replaced_from(s, pat, with, from + 1)
    }
}

/// `s` with every occurrence of `pat` replaced by `with`.
pub open spec fn replaced(s: Seq<char>, pat: Seq<char>, with: Seq<char>) -> Seq<char> {
    replaced_from(s, pat, with, 0)
}

/// `v` with every occurrence of `pat` replaced by `with`.
pub fn replace_chars(v: &Vec<char>, pat: &Vec<char>, with: &Vec<char>) -> (r: Vec<char>)
    requires
        pat.len() > 0,
    ensures
        r@ == replaced(v@, pat@, with@),
{
    let mut out: Vec<char> = Vec::new();
    let mut i: usize = 0;
    assert(v@.take(v.len() as int) =~= v@);
    assert(out@ + replaced_from(v@, pat@, with@, 0) =~= replaced(v@, pat@, with@));
    while i < v.len()
        invariant
            i <= v.len(),
            pat.len() > 0,
            v@.take(v.len() as int) == v@,
            out@ + replaced_from(v@, pat@, with@, i as int) == replaced(v@, pat@, with@),
        decreases v.len() - i,
    {
        let ghost before = out@;
        if matches_here(v, v.len(), pat, i) {
            let mut k: usize = 0;
            while k < with.len()
                invariant
                    k <= with.len(),
                    out@ == before + with@.take(k as int),
                decreases with.len() - k,
            {
                out.push(with[k]);
                assert(with@.take(k + 1) =~= with@.take(k as int).push(with@[k as int]));
                k += 1;
            }
            assert(with@.take(with.len() as int) =~= with@);
            assert((before + with@) + replaced_from(v@, pat@, with@, i + pat.len()) =~= before + (
            with@ + replaced_from(v@, pat@, with@, i + pat.len())));
            i += pat.len();
        } else {
            out.push(v[i]);
            assert((before + seq![v@[i as int]]) + replaced_from(v@, pat@, with@, i + 1)
                =~= before + (seq![v@[i as int]] + replaced_from(v@, pat@, with@, i + 1)));
            assert(out@ =~= before + seq![v@[i as int]]);
            i += 1;
        }
    }
    assert(out@ + Seq::<char>::empty() =~= out@);
    out
}

/// `s` with every occurrence of `pat` replaced by `with`.
pub fn str_replace(s: &str, pat: &str, with: &str) -> (r: String)
    requires
        pat@.len() > 0,
    ensures
        r@ == replaced(s@, pat@, with@),
{
    let v = str_chars(s);
    let p = str_chars(pat);
    let w = str_chars(with);
    let out = replace_chars(&v, &p, &w);
    assert(out@.subrange(0, out.len() as int) =~= out@);
    chars_to_string(&out, 0, out.len())
}

/// Index of the first `c` in `s` at or after `from`, or the length.
pub open spec fn char_from(s: Seq<char>, c: char, from: int) -> int
    decreases s.len() - from,
{
    if 0 <= from < s.len() && s[from] != c {
        char_from(s, c, from + 1)
    } else {
        from
    }
}

/// Index of the first `c` in `v[..end]` at or after `from`, or `end`.
pub fn find_char(v: &Vec<char>, c: char, from: usize, end: usize) -> (r: usize)
    requires
        from <= end <= v.len(),
    ensures
        r == char_from(v@.take(end as int), c, from as int),
        from <= r <= end,
{
    let mut i: usize = from;
    let ghost s = v@.take(end as int);
    while i < end && v[i] != c
        invariant
            from <= i <= end <= v.len(),
            s == v@.take(end as int),
            char_from(s, c, from as int) == char_from(s, c, i as int),
        decreases end - i,
    {
        i += 1;
    }
    i
}

/// The lines of `s` from index `from` on: the runs between line feeds,
/// each without a carriage return at its end where a line feed follows it;
/// a line feed at the very end opens no further line.
pub open spec fn lines_from(s: Seq<char>, from: int) -> Seq<Seq<char>>
    decreases s.len() - from,
{
    if from < 0 || from >= s.len() {
        Seq::empty()
    } else {
        let nl = char_from(s, '\n', from);
        if nl >= s.len() {
            seq![s.subrange(from, s.len() as int)]
        } else if nl < from {
            Seq::empty()
        } else {
            let end = if nl > from && s[nl - 1] == '\r' {
                nl - 1
            } else {
                nl
            };
            seq![s.subrange(from, end)] + lines_from(s, nl + 1)
        }
    }
}

/// The lines of `s`.
pub open spec fn lines(s: Seq<char>) -> Seq<Seq<char>> {
    lines_from(s, 0)
}

/// The bounds of the lines of `v`, each as the index of its first character
/// and the index after its last.
pub fn line_bounds(v: &Vec<char>) -> (r: Vec<(usize, usize)>)
    ensures
        r@.len() == lines(v@).len(),
        forall|i: int|
            0 <= i < r@.len() ==> (#[trigger] r@[i]).0 <= r@[i].1 <= v.len() && lines(v@)[i]
                == v@.subrange(r@[i].0 as int, r@[i].1 as int),
{
    let mut out: Vec<(usize, usize)> = Vec::new();
    let mut from: usize = 0;
    let ghost s = v@;
    let ghost mut done: Seq<Seq<char>> = Seq::empty();
    assert(v@.take(v.len() as int) =~= v@);
    assert(done + lines_from(s, 0) =~= lines(s));
    while from < v.len()
        invariant
            from <= v.len(),
            s == v@,
            v@.take(v.len() as int) == v@,
            done + lines_from(s, from as int) == lines(s),
            out@.len() == done.len(),
            forall|i: int|
                0 <= i < out@.len() ==> (#[trigger] out@[i]).0 <= out@[i].1 <= v.len() && done[i]
                    == s.subrange(out@[i].0 as int, out@[i].1 as int),
        decreases v.len() - from,
    {
        let nl = find_char(v, '\n', from, v.len());
        let ghost rest = lines_from(s, from as int);
        if nl >= v.len() {
            out.push((from, v.len()));
            proof {
                let line = s.subrange(from as int, s.len() as int);
                assert(rest =~= seq![line]);
                assert(lines_from(s, s.len() as int) =~= Seq::<Seq<char>>::empty());
                assert((done + seq![line]) + lines_from(s, s.len() as int) =~= done + rest);
                done = done.push(line);
            }
            from = v.len();
        } else {
            let end = if nl > from && v[nl - 1] == '\r' {
                nl - 1
            } else {
                nl
            };
            out.push((from, end));
            proof {
                let line = s.subrange(from as int, end as int);
                assert((done + seq![line]) + lines_from(s, nl + 1) =~= done + (seq![line]
                    + lines_from(s, nl + 1)));
                done = done.push(line);
            }
            from = nl + 1;
        }
    }
    proof {
        assert(done + Seq::<Seq<char>>::empty() =~= done);
    }
    out
}

/// The characters `v[from..to]`.
pub fn sub_chars(v: &Vec<char>, from: usize, to: usize) -> (r: Vec<char>)
    requires
        from <= to <= v.len(),
    ensures
        r@ == v@.subrange(from as int, to as int),
{
    let mut r: Vec<char> = Vec::new();
    let mut i: usize = from;
    while i < to
        invariant
            from <= i <= to <= v.len(),
            r@ == v@.subrange(from as int, i as int),
        decreases to - i,
    {
        r.push(v[i]);
        assert(v@.subrange(from as int, i + 1) =~= v@.subrange(from as int, i as int).push(
            v@[i as int],
        ));
        i += 1;
    }
    r
}

/// `v` without leading and trailing whitespace.
pub fn trim_chars(v: &Vec<char>) -> (r: Vec<char>)
    ensures
        r@ == trim(v@),
{
    let a = skip_spaces(v, 0, v.len());
    let b = trim_end_at(v, v.len());
    assert(v@.take(v.len() as int) =~= v@);
    if a < b {
        sub_chars(v, a, b)
    } else {
        Vec::new()
    }
}

/// `v` without trailing whitespace.
pub fn trim_end_chars(v: &Vec<char>) -> (r: Vec<char>)
    ensures
        r@ == trim_end(v@),
{
    let b = trim_end_at(v, v.len());
    sub_chars(v, 0, b)
}

/// Adds the characters of `v` to `out`.
pub fn append_chars(out: &mut Vec<char>, v: &Vec<char>)
    ensures
        final(out)@ == old(out)@ + v@,
{
    let mut i: usize = 0;
    assert(out@ =~= old(out)@ + v@.take(0));
    while i < v.len()
        invariant
            i <= v.len(),
            out@ == old(out)@ + v@.take(i as int),
        decreases v.len() - i,
    {
        out.push(v[i]);
        assert(old(out)@ + v@.take(i + 1) =~= (old(out)@ + v@.take(i as int)).push(v@[i as int]));
        i += 1;
    }
    assert(v@.take(v.len() as int) =~= v@);
}

/// The text that `v` holds.
pub fn string_of(v: &Vec<char>) -> (r: String)
    ensures
        r@ == v@,
{
    assert(v@.subrange(0, v.len() as int) =~= v@);
    chars_to_string(v, 0, v.len())
}

/// Index of the last `c` among the first `n` characters of `s`.
pub open spec fn last_char_below(s: Seq<char>, c: char, n: int) -> Option<int>
    decreases n,
{
    if n <= 0 || n > s.len() {
        None
    } else if s[n - 1] == c {
        Some(n - 1)
    } else {
        last_char_below(s, c, n - 1)
    }
}

/// Index of the last `c` in `v`.
pub fn rfind_char(v: &Vec<char>, c: char) -> (r: Option<usize>)
    ensures
        match r {
            Some(i) => last_char_below(v@, c, v.len() as int) == Some(i as int) && i < v.len(),
            None => last_char_below(v@, c, v.len() as int).is_none(),
        },
{
    let mut n: usize = v.len();
    while n > 0
        invariant
            n <= v.len(),
            last_char_below(v@, c, v.len() as int) == last_char_below(v@, c, n as int),
        decreases n,
    {
        if v[n - 1] == c {
            return Some(n - 1);
        }
        n -= 1;
    }
    None
}

/// The first `n` of `parts`, with `sep` between each two.
pub open spec fn joined(parts: Seq<Seq<char>>, sep: Seq<char>, n: int) -> Seq<char>
    decreases n,
{
    if n <= 0 || n > parts.len() {
        Seq::empty()
    } else if n == 1 {
        parts[0]
    } else {
        joined(parts, sep, n - 1) + sep + parts[n - 1]
    }
}

/// The texts that `v` holds.
pub open spec fn texts(v: Seq<String>) -> Seq<Seq<char>> {
    Seq::new(v.len(), |i: int| v[i]@)
}

/// The texts of `parts`, with `sep` between each two.
pub fn join_strings(parts: &Vec<String>, sep: &str) -> (r: String)
    ensures
        r@ == joined(texts(parts@), sep@, parts@.len() as int),
{
    let mut out = String::new();
    let mut i: usize = 0;
    while i < parts.len()
        invariant
            i <= parts.len(),
            out@ == joined(texts(parts@), sep@, i as int),
        decreases parts.len() - i,
    {
        if i > 0 {
            out.append(sep);
        }
        out.append(parts[i].as_str());
        proof {
            if i == 0 {
                assert(out@ =~= texts(parts@)[0]);
            }
        }
        i += 1;
    }
    out
}

} // verus!
