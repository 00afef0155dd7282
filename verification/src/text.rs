//! Character-level scanning: white space, lines, tokens, separators and
//! decimal numbers, each with a mathematical definition over `Seq<char>`
//! and an executable counterpart over `&[char]`.

use vstd::prelude::*;

verus! {

/// Whether `c` has the Unicode `White_Space` property.
pub open spec fn is_whitespace(c: char) -> bool {
    let n = c as u32;
    ||| 0x09 <= n <= 0x0D
    ||| n == 0x20
    ||| n == 0x85
    ||| n == 0xA0
    ||| n == 0x1680
    ||| 0x2000 <= n <= 0x200A
    ||| n == 0x2028
    ||| n == 0x2029
    ||| n == 0x202F
    ||| n == 0x205F
    ||| n == 0x3000
}

/// The first index at or after `from` that holds `c`, or `s.len()` if there is none.
pub open spec fn find_char(s: Seq<char>, c: char, from: int) -> int
    decreases s.len() - from,
{
    if from < 0 || from >= s.len() {
        s.len() as int
    } else if s[from] == c {
        from
    } else {
        find_char(s, c, from + 1)
    }
}

/// The first index at or after `from` that holds no white space, or `s.len()`.
pub open spec fn skip_whitespace(s: Seq<char>, from: int) -> int
    decreases s.len() - from,
{
    if from < 0 || from >= s.len() {
        s.len() as int
    } else if !is_whitespace(s[from]) {
        from
    } else {
        skip_whitespace(s, from + 1)
    }
}

/// The first index at or after `from` that holds white space, or `s.len()`.
pub open spec fn token_end(s: Seq<char>, from: int) -> int
    decreases s.len() - from,
{
    if from < 0 || from >= s.len() {
        s.len() as int
    } else if is_whitespace(s[from]) {
        from
    } else {
        token_end(s, from + 1)
    }
}

/// Whether `pat` occurs in `s` at index `at`.
pub open spec fn occurs_at(s: Seq<char>, pat: Seq<char>, at: int) -> bool {
    &&& 0 <= at
    &&& at + pat.len() <= s.len()
    &&& s.subrange(at, at + pat.len()) == pat
}

/// The first index at or after `from` at which `pat` occurs in `s`, or
/// `s.len()` if it occurs nowhere from there on.
pub open spec fn find_seq(s: Seq<char>, pat: Seq<char>, from: int) -> int
    decreases s.len() - from,
{
    if from < 0 || from >= s.len() || from + pat.len() > s.len() {
        s.len() as int
    } else if occurs_at(s, pat, from) {
        from
    } else {
        find_seq(s, pat, from + 1)
    }
}

/// Whether `pat`, which is not empty, occurs somewhere in `s`.
pub open spec fn contains_seq(s: Seq<char>, pat: Seq<char>) -> bool {
    find_seq(s, pat, 0) < s.len()
}

/// One past the last index that holds no white space, or 0 if all is white space.
pub open spec fn trim_end(s: Seq<char>) -> int
    decreases s.len(),
{
    if s.len() == 0 {
        0
    } else if !is_whitespace(s.last()) {
        s.len() as int
    } else {
        trim_end(s.drop_last())
    }
}

/// `s` without its leading and trailing white space.
pub open spec fn trim(s: Seq<char>) -> Seq<char> {
    let a = skip_whitespace(s, 0);
    let b = trim_end(s);
    if a < b {
        s.subrange(a, b)
    } else {
        Seq::empty()
    }
}

pub proof fn lemma_find_char(s: Seq<char>, c: char, from: int)
    requires
        0 <= from <= s.len(),
    ensures
        from <= find_char(s, c, from) <= s.len(),
        find_char(s, c, from) < s.len() ==> s[find_char(s, c, from)] == c,
        forall|k: int| from <= k < find_char(s, c, from) ==> s[k] != c,
    decreases s.len() - from,
{
    if from < s.len() && s[from] != c {
        lemma_find_char(s, c, from + 1);
    }
}

pub proof fn lemma_skip_whitespace(s: Seq<char>, from: int)
    requires
        0 <= from <= s.len(),
    ensures
        from <= skip_whitespace(s, from) <= s.len(),
        skip_whitespace(s, from) < s.len() ==> !is_whitespace(s[skip_whitespace(s, from)]),
        forall|k: int| from <= k < skip_whitespace(s, from) ==> is_whitespace(s[k]),
    decreases s.len() - from,
{
    if from < s.len() && is_whitespace(s[from]) {
        lemma_skip_whitespace(s, from + 1);
    }
}

pub proof fn lemma_token_end(s: Seq<char>, from: int)
    requires
        0 <= from <= s.len(),
    ensures
        from <= token_end(s, from) <= s.len(),
        token_end(s, from) < s.len() ==> is_whitespace(s[token_end(s, from)]),
        forall|k: int| from <= k < token_end(s, from) ==> !is_whitespace(s[k]),
        from < s.len() && !is_whitespace(s[from]) ==> from < token_end(s, from),
    decreases s.len() - from,
{
    if from < s.len() && !is_whitespace(s[from]) {
        lemma_token_end(s, from + 1);
    }
}

pub proof fn lemma_find_seq(s: Seq<char>, pat: Seq<char>, from: int)
    requires
        0 <= from <= s.len(),
    ensures
        from <= find_seq(s, pat, from) <= s.len(),
        find_seq(s, pat, from) < s.len() ==> occurs_at(s, pat, find_seq(s, pat, from)),
        forall|k: int| from <= k < find_seq(s, pat, from) ==> !occurs_at(s, pat, k),
    decreases s.len() - from,
{
    if from < s.len() && from + pat.len() <= s.len() && !occurs_at(s, pat, from) {
        lemma_find_seq(s, pat, from + 1);
    }
}

/// Whether `c` has the Unicode `White_Space` property.
pub fn is_whitespace_char(c: char) -> (b: bool)
    ensures
        b == is_whitespace(c),
{
    let n: u32 = c as u32;
    (0x09 <= n && n <= 0x0D) || n == 0x20 || n == 0x85 || n == 0xA0 || n == 0x1680 || (0x2000 <= n
        && n <= 0x200A) || n == 0x2028 || n == 0x2029 || n == 0x202F || n == 0x205F || n == 0x3000
}

/// The characters of `s`, in order.
pub fn chars_of(s: &str) -> (v: Vec<char>)
    ensures
        v@ == s@,
{
    broadcast use vstd::string::group_string_axioms;

    let mut v: Vec<char> = Vec::new();
    let chars = s.chars();
    for c in it: chars
        invariant
            it.seq() == s@,
            v@ == it.seq().take(it.index()),
    {
        v.push(c);
    }
    v
}

/// Finds the first `c` at or after `from`.
pub fn index_of_char(s: &[char], c: char, from: usize) -> (at: usize)
    requires
        from <= s.len(),
    ensures
        at == find_char(s@, c, from as int),
        from <= at <= s.len(),
{
    let mut i: usize = from;
    while i < s.len() && s[i] != c
        invariant
            from <= i <= s.len(),
            find_char(s@, c, from as int) == find_char(s@, c, i as int),
        decreases s.len() - i,
    {
        i += 1;
    }
    i
}

/// Finds the first character at or after `from` that is no white space.
pub fn index_of_text(s: &[char], from: usize) -> (at: usize)
    requires
        from <= s.len(),
    ensures
        at == skip_whitespace(s@, from as int),
        from <= at <= s.len(),
{
    let mut i: usize = from;
    while i < s.len() && is_whitespace_char(s[i])
        invariant
            from <= i <= s.len(),
            skip_whitespace(s@, from as int) == skip_whitespace(s@, i as int),
        decreases s.len() - i,
    {
        i += 1;
    }
    i
}

/// Finds the first white space at or after `from`.
pub fn index_of_space(s: &[char], from: usize) -> (at: usize)
    requires
        from <= s.len(),
    ensures
        at == token_end(s@, from as int),
        from <= at <= s.len(),
{
    let mut i: usize = from;
    while i < s.len() && !is_whitespace_char(s[i])
        invariant
            from <= i <= s.len(),
            token_end(s@, from as int) == token_end(s@, i as int),
        decreases s.len() - i,
    {
        i += 1;
    }
    i
}

/// Whether `pat` occurs in `s` at index `at`.
pub fn matches_at(s: &[char], pat: &[char], at: usize) -> (b: bool)
    requires
        at <= s.len(),
    ensures
        b == occurs_at(s@, pat@, at as int),
{
    if pat.len() > s.len() - at {
        return false;
    }
    let mut k: usize = 0;
    while k < pat.len()
        invariant
            at + pat.len() <= s.len(),
            k <= pat.len(),
            forall|j: int| 0 <= j < k ==> s@[at + j] == pat@[j],
        decreases pat.len() - k,
    {
        if s[at + k] != pat[k] {
            proof {
                let sub = s@.subrange(at as int, at + pat.len());
                assert(sub[k as int] == s@[at + k]);
            }
            return false;
        }
        k += 1;
    }
    assert(s@.subrange(at as int, at + pat.len()) =~= pat@);
    true
}

/// Finds the first occurrence of `pat` at or after `from`.
pub fn index_of_seq(s: &[char], pat: &[char], from: usize) -> (at: usize)
    requires
        from <= s.len(),
    ensures
        at == find_seq(s@, pat@, from as int),
        from <= at <= s.len(),
{
    let mut i: usize = from;
    while i < s.len() && pat.len() <= s.len() - i
        invariant
            from <= i <= s.len(),
            find_seq(s@, pat@, from as int) == find_seq(s@, pat@, i as int),
        decreases s.len() - i,
    {
        if matches_at(s, pat, i) {
            return i;
        }
        i += 1;
    }
    assert(find_seq(s@, pat@, i as int) == s.len());
    s.len()
}

/// One past the last character that is no white space.
pub fn index_of_trim_end(s: &[char], from: usize) -> (at: usize)
    requires
        from <= s.len(),
    ensures
        at as int == from + trim_end(s@.subrange(from as int, s.len() as int)),
        from <= at <= s.len(),
{
    let mut i: usize = s.len();
    while i > from && is_whitespace_char(s[i - 1])
        invariant
            from <= i <= s.len(),
            trim_end(s@.subrange(from as int, s.len() as int)) == trim_end(
                s@.subrange(from as int, i as int),
            ),
        decreases i,
    {
        proof {
            let t = s@.subrange(from as int, i as int);
            assert(t.last() == s@[i - 1]);
            assert(t.drop_last() =~= s@.subrange(from as int, i - 1));
        }
        i -= 1;
    }
    proof {
        let t = s@.subrange(from as int, i as int);
        if i > from {
            assert(t.last() == s@[i - 1]);
        }
    }
    i
}

} // verus!

verus! {

/// Whether two texts hold the same characters.
pub fn same_text(a: &str, b: &str) -> (r: bool)
    ensures
        r == (a@ == b@),
{
    let x = a.as_bytes();
    let y = b.as_bytes();
    proof {
        vstd::utf8::encode_utf8_decode_utf8(a@);
        vstd::utf8::encode_utf8_decode_utf8(b@);
    }
    if x.len() != y.len() {
        return false;
    }
    let mut i: usize = 0;
    while i < x.len()
        invariant
            i <= x.len(),
            x.len() == y.len(),
            x@ == vstd::utf8::encode_utf8(a@),
            y@ == vstd::utf8::encode_utf8(b@),
            forall|j: int| 0 <= j < i ==> x@[j] == y@[j],
        decreases x.len() - i,
    {
        if x[i] != y[i] {
            return false;
        }
        i += 1;
    }
    assert(x@ =~= y@);
    true
}

} // verus!

verus! {

/// The lower-case form of a text by the Unicode case mapping.
pub uninterp spec fn lowercase(text: Seq<char>) -> Seq<char>;

/// Calls `str::to_lowercase`, which maps every character by the Unicode
/// lower-case mapping, whatever the locale. The contract gives the result its
/// name and claims nothing else of it.
#[verifier::external_body]
pub(crate) fn to_lowercase(text: &str) -> (lower: String)
    ensures
        lower@ == lowercase(text@),
{
    text.to_lowercase()
}

/// The pieces of `s` from `from` on that lie between occurrences of `sep`:
/// one more than there are separators, an empty piece where two separators
/// meet or one stands at an end.
pub open spec fn pieces_from(s: Seq<char>, sep: char, from: int) -> Seq<Seq<char>>
    decreases s.len() - from,
    via pieces_from_decreases
{
    let end = find_char(s, sep, from);
    if from < 0 || end >= s.len() {
        seq![s.subrange(from, s.len() as int)]
    } else {
        seq![s.subrange(from, end)] + pieces_from(s, sep, end + 1)
    }
}

#[via_fn]
proof fn pieces_from_decreases(s: Seq<char>, sep: char, from: int) {
    if 0 <= from <= s.len() {
        lemma_find_char(s, sep, from);
    }
}

/// The pieces of `s` that lie between occurrences of `sep`.
pub open spec fn pieces(s: Seq<char>, sep: char) -> Seq<Seq<char>> {
    pieces_from(s, sep, 0)
}

/// The maximal runs of characters other than white space in `s` from `from` on.
pub open spec fn tokens_from(s: Seq<char>, from: int) -> Seq<Seq<char>>
    decreases s.len() - from,
    via tokens_from_decreases
{
    let start = skip_whitespace(s, from);
    if from < 0 || start >= s.len() {
        Seq::empty()
    } else {
        seq![s.subrange(start, token_end(s, start))] + tokens_from(s, token_end(s, start))
    }
}

#[via_fn]
proof fn tokens_from_decreases(s: Seq<char>, from: int) {
    if 0 <= from <= s.len() {
        lemma_skip_whitespace(s, from);
        lemma_token_end(s, skip_whitespace(s, from));
    }
}

/// The maximal runs of characters other than white space in `s`.
pub open spec fn tokens(s: Seq<char>) -> Seq<Seq<char>> {
    tokens_from(s, 0)
}

/// The texts that index pairs cut out of `s`.
pub open spec fn cut(s: Seq<char>, ranges: Seq<(usize, usize)>) -> Seq<Seq<char>> {
    Seq::new(ranges.len(), |k: int| s.subrange(ranges[k].0 as int, ranges[k].1 as int))
}

/// Whether every index pair lies within a text of length `len`.
pub open spec fn within(ranges: Seq<(usize, usize)>, len: nat) -> bool {
    forall|k: int| 0 <= k < ranges.len() ==> (#[trigger] ranges[k]).0 <= ranges[k].1 <= len
}

/// Splits `s` at every `sep`; each pair holds the start and the end of one piece.
pub fn split_at_char(s: &[char], sep: char) -> (ranges: Vec<(usize, usize)>)
    ensures
        cut(s@, ranges@) == pieces(s@, sep),
        within(ranges@, s@.len()),
        ranges@.len() >= 1,
{
    let mut ranges: Vec<(usize, usize)> = Vec::new();
    let mut from: usize = 0;
    assert(cut(s@, ranges@) + pieces_from(s@, sep, 0) =~= pieces(s@, sep));
    loop
        invariant_except_break
            cut(s@, ranges@) + pieces_from(s@, sep, from as int) == pieces(s@, sep),
        invariant
            from <= s.len(),
            within(ranges@, s@.len()),
        ensures
            cut(s@, ranges@) == pieces(s@, sep),
            within(ranges@, s@.len()),
            ranges@.len() >= 1,
        decreases s.len() - from,
    {
        let end = index_of_char(s, sep, from);
        let ghost before = ranges@;
        ranges.push((from, end));
        assert(cut(s@, ranges@) =~= cut(s@, before) + seq![s@.subrange(from as int, end as int)]);
        if end >= s.len() {
            assert(cut(s@, ranges@) =~= cut(s@, before) + pieces_from(s@, sep, from as int));
            break;
        }
        assert(cut(s@, ranges@) + pieces_from(s@, sep, end + 1) =~= cut(s@, before) + pieces_from(
            s@,
            sep,
            from as int,
        ));
        from = end + 1;
    }
    ranges
}

/// Splits `s` at white space; each pair holds the start and the end of one token.
pub fn split_at_whitespace(s: &[char]) -> (ranges: Vec<(usize, usize)>)
    ensures
        cut(s@, ranges@) == tokens(s@),
        within(ranges@, s@.len()),
{
    let mut ranges: Vec<(usize, usize)> = Vec::new();
    let mut from: usize = 0;
    assert(cut(s@, ranges@) + tokens_from(s@, 0) =~= tokens(s@));
    loop
        invariant_except_break
            cut(s@, ranges@) + tokens_from(s@, from as int) == tokens(s@),
        invariant
            from <= s.len(),
            within(ranges@, s@.len()),
        ensures
            cut(s@, ranges@) == tokens(s@),
            within(ranges@, s@.len()),
        decreases s.len() - from,
    {
        let start = index_of_text(s, from);
        if start >= s.len() {
            assert(cut(s@, ranges@) + tokens_from(s@, from as int) =~= cut(s@, ranges@));
            break;
        }
        let end = index_of_space(s, start);
        proof {
            lemma_token_end(s@, start as int);
        }
        let ghost before = ranges@;
        ranges.push((start, end));
        assert(cut(s@, ranges@) =~= cut(s@, before) + seq![s@.subrange(start as int, end as int)]);
        assert(cut(s@, ranges@) + tokens_from(s@, end as int) =~= cut(s@, before) + tokens_from(
            s@,
            from as int,
        ));
        from = end;
    }
    ranges
}

} // verus!

verus! {

/// Whether `s` holds nothing but white space.
pub open spec fn is_blank(s: Seq<char>) -> bool {
    skip_whitespace(s, 0) >= s.len()
}

/// Where `s[from..]` starts and ends once its leading and trailing white
/// space is left out.
pub fn trim_bounds(s: &[char], from: usize) -> (bounds: (usize, usize))
    requires
        from <= s.len(),
    ensures
        from <= bounds.0 <= bounds.1 <= s.len(),
        s@.subrange(bounds.0 as int, bounds.1 as int) == trim(
            s@.subrange(from as int, s.len() as int),
        ),
{
    let rest = vstd::slice::slice_subrange(s, from, s.len());
    let start = index_of_text(rest, 0);
    let end = index_of_trim_end(rest, 0);
    assert(rest@.subrange(0, rest@.len() as int) =~= rest@);
    if start < end {
        assert(s@.subrange(from + start, from + end) =~= rest@.subrange(start as int, end as int));
        (from + start, from + end)
    } else {
        assert(s@.subrange(from as int, from as int) =~= Seq::<char>::empty());
        (from, from)
    }
}

} // verus!

verus! {

/// Whether `s` is a token: not empty, and free of white space.
pub open spec fn is_token(s: Seq<char>) -> bool {
    &&& s.len() > 0
    &&& forall|i: int| 0 <= i < s.len() ==> !is_whitespace(#[trigger] s[i])
}

/// Where `c` first stands at `at` from `from` on, the search finds it there.
pub proof fn lemma_find_char_is(s: Seq<char>, c: char, from: int, at: int)
    requires
        0 <= from <= at <= s.len(),
        at < s.len() ==> s[at] == c,
        forall|k: int| from <= k < at ==> s[k] != c,
    ensures
        find_char(s, c, from) == at,
    decreases at - from,
{
    if from < at {
        lemma_find_char_is(s, c, from + 1, at);
    }
}

/// Where the white space from `from` on ends at `at`, the search finds that.
pub proof fn lemma_skip_whitespace_is(s: Seq<char>, from: int, at: int)
    requires
        0 <= from <= at <= s.len(),
        at < s.len() ==> !is_whitespace(s[at]),
        forall|k: int| from <= k < at ==> is_whitespace(s[k]),
    ensures
        skip_whitespace(s, from) == at,
    decreases at - from,
{
    if from < at {
        lemma_skip_whitespace_is(s, from + 1, at);
    }
}

/// Where the token that starts at `from` ends at `at`, the search finds that.
pub proof fn lemma_token_end_is(s: Seq<char>, from: int, at: int)
    requires
        0 <= from <= at <= s.len(),
        at < s.len() ==> is_whitespace(s[at]),
        forall|k: int| from <= k < at ==> !is_whitespace(s[k]),
    ensures
        token_end(s, from) == at,
    decreases at - from,
{
    if from < at {
        lemma_token_end_is(s, from + 1, at);
    }
}

/// A token that stands in `s` from `start` to `end`, with nothing but white
/// space between `from` and `start`, is the first token from `from` on.
pub proof fn lemma_tokens_first(s: Seq<char>, from: int, start: int, end: int)
    requires
        0 <= from <= start < end <= s.len(),
        forall|k: int| from <= k < start ==> is_whitespace(s[k]),
        forall|k: int| start <= k < end ==> !is_whitespace(s[k]),
        end < s.len() ==> is_whitespace(s[end]),
    ensures
        tokens_from(s, from) == seq![s.subrange(start, end)] + tokens_from(s, end),
{
    lemma_skip_whitespace_is(s, from, start);
    lemma_token_end_is(s, start, end);
}

/// Three tokens with one white-space character between each two part into
/// just these three.
pub proof fn lemma_tokens_of_three(
    a: Seq<char>,
    b: Seq<char>,
    c: Seq<char>,
    gap1: char,
    gap2: char,
)
    requires
        is_token(a),
        is_token(b),
        is_token(c),
        is_whitespace(gap1),
        is_whitespace(gap2),
    ensures
        tokens(a + seq![gap1] + b + seq![gap2] + c) == seq![a, b, c],
{
    let s = a + seq![gap1] + b + seq![gap2] + c;
    let a1 = a.len() as int;
    let b0 = a1 + 1;
    let b1 = b0 + b.len();
    let c0 = b1 + 1;
    let c1 = c0 + c.len();
    assert(s.len() == c1);
    assert forall|k: int| 0 <= k < a1 implies !is_whitespace(s[k]) by {
        assert(s[k] == a[k]);
    }
    assert(s[a1] == gap1);
    assert forall|k: int| b0 <= k < b1 implies !is_whitespace(s[k]) by {
        assert(s[k] == b[k - b0]);
    }
    assert(s[b1] == gap2);
    assert forall|k: int| c0 <= k < c1 implies !is_whitespace(s[k]) by {
        assert(s[k] == c[k - c0]);
    }
    lemma_tokens_first(s, 0, 0, a1);
    lemma_tokens_first(s, a1, b0, b1);
    lemma_tokens_first(s, b1, c0, c1);
    assert(tokens_from(s, c1) =~= Seq::<Seq<char>>::empty());
    assert(s.subrange(0, a1) =~= a);
    assert(s.subrange(b0, b1) =~= b);
    assert(s.subrange(c0, c1) =~= c);
    assert(tokens(s) =~= seq![a, b, c]);
}

/// Whether `c` occurs nowhere in `s`.
pub open spec fn free_of(s: Seq<char>, c: char) -> bool {
    forall|i: int| 0 <= i < s.len() ==> #[trigger] s[i] != c
}

/// A text that holds no separator is one piece.
pub proof fn lemma_pieces_of_one(s: Seq<char>, sep: char, from: int)
    requires
        0 <= from <= s.len(),
        forall|k: int| from <= k < s.len() ==> s[k] != sep,
    ensures
        pieces_from(s, sep, from) == seq![s.subrange(from, s.len() as int)],
{
    lemma_find_char_is(s, sep, from, s.len() as int);
}

/// A piece that stands in `s` from `from` up to a separator at `end` is the
/// first piece from `from` on.
pub proof fn lemma_pieces_first(s: Seq<char>, sep: char, from: int, end: int)
    requires
        0 <= from <= end < s.len(),
        s[end] == sep,
        forall|k: int| from <= k < end ==> s[k] != sep,
    ensures
        pieces_from(s, sep, from) == seq![s.subrange(from, end)] + pieces_from(s, sep, end + 1),
{
    lemma_find_char_is(s, sep, from, end);
}

} // verus!
