//! Character-sequence primitives shared by the whole library.
//!
//! Text is modelled as `Seq<char>`; the executable functions work on
//! `&[char]` / `Vec<char>` and are proved equal to the spec functions here.
use vstd::prelude::*;

verus! {

// ---------------------------------------------------------------------------
// Conversions between `str`/`String` and character vectors
// ---------------------------------------------------------------------------

/// The characters of a string slice, in order.
pub fn chars_of(s: &str) -> (v: Vec<char>)
    ensures
        v@ == s@,
{
    let mut v: Vec<char> = Vec::new();
    for c in it: s.chars()
        invariant
            v@ == it.seq().take(it.index() as int),
            it.seq() == s@,
    {
        v.push(c);
    }
    v
}

/// Appends one character to a `String` (`String::push`).
#[verifier::external_body]
fn push_char(s: &mut String, c: char)
    ensures
        final(s)@ == old(s)@.push(c),
{
    s.push(c);
}

/// Builds a `String` holding exactly the given characters.
pub fn string_of(v: &[char]) -> (s: String)
    ensures
        s@ == v@,
{
    let mut s = String::new();
    let mut i: usize = 0;
    while i < v.len()
        invariant
            i <= v.len(),
            s@ == v@.take(i as int),
        decreases v.len() - i,
    {
        push_char(&mut s, v[i]);
        assert(v@.take(i + 1) =~= v@.take(i as int).push(v@[i as int]));
        i += 1;
    }
    assert(v@.take(v.len() as int) =~= v@);
    s
}

/// Appends a character sequence to a character vector.
pub fn extend_chars(dst: &mut Vec<char>, src: &[char])
    ensures
        final(dst)@ == old(dst)@ + src@,
{
    let mut i: usize = 0;
    while i < src.len()
        invariant
            i <= src.len(),
            dst@ == old(dst)@ + src@.take(i as int),
        decreases src.len() - i,
    {
        dst.push(src[i]);
        assert(src@.take(i + 1) =~= src@.take(i as int).push(src@[i as int]));
        i += 1;
    }
    assert(src@.take(src.len() as int) =~= src@);
}

/// Copies `s[a..b]` into a fresh vector.
pub fn slice_chars(s: &[char], a: usize, b: usize) -> (v: Vec<char>)
    requires
        a <= b <= s.len(),
    ensures
        v@ == s@.subrange(a as int, b as int),
{
    let mut v: Vec<char> = Vec::new();
    let mut i: usize = a;
    while i < b
        invariant
            a <= i <= b <= s.len(),
            v@ == s@.subrange(a as int, i as int),
        decreases b - i,
    {
        v.push(s[i]);
        assert(s@.subrange(a as int, i + 1) =~= s@.subrange(a as int, i as int).push(s@[i as int]));
        i += 1;
    }
    v
}

// ---------------------------------------------------------------------------
// Whitespace and trimming
// ---------------------------------------------------------------------------

/// Unicode `White_Space`, the property that `char::is_whitespace` reports.
pub open spec fn is_ws(c: char) -> bool {
    ||| c == '\t'
    ||| c == '\n'
    ||| c == '\u{0B}'
    ||| c == '\u{0C}'
    ||| c == '\r'
    ||| c == ' '
    ||| c == '\u{85}'
    ||| c == '\u{A0}'
    ||| c == '\u{1680}'
    ||| ('\u{2000}' <= c && c <= '\u{200A}')
    ||| c == '\u{2028}'
    ||| c == '\u{2029}'
    ||| c == '\u{202F}'
    ||| c == '\u{205F}'
    ||| c == '\u{3000}'
}

pub fn is_whitespace(c: char) -> (b: bool)
    ensures
        b == is_ws(c),
{
    c == '\t' || c == '\n' || c == '\u{0B}' || c == '\u{0C}' || c == '\r' || c == ' '
        || c == '\u{85}' || c == '\u{A0}' || c == '\u{1680}' || ('\u{2000}' <= c && c
        <= '\u{200A}') || c == '\u{2028}' || c == '\u{2029}' || c == '\u{202F}' || c
        == '\u{205F}' || c == '\u{3000}'
}

/// Number of whitespace characters at the front of `s`.
pub open spec fn ws_prefix(s: Seq<char>) -> nat
    decreases s.len(),
{
    if s.len() > 0 && is_ws(s[0]) {
        1 + ws_prefix(s.drop_first())
    } else {
        0
    }
}

/// Number of whitespace characters at the end of `s`.
pub open spec fn ws_suffix(s: Seq<char>) -> nat
    decreases s.len(),
{
    if s.len() > 0 && is_ws(s.last()) {
        1 + ws_suffix(s.drop_last())
    } else {
        0
    }
}

/// `str::trim_start`.
pub open spec fn trim_start(s: Seq<char>) -> Seq<char> {
    s.skip(ws_prefix(s) as int)
}

/// `str::trim_end`.
pub open spec fn trim_end(s: Seq<char>) -> Seq<char> {
    s.take(s.len() - ws_suffix(s))
}

/// `str::trim`.
pub open spec fn trim(s: Seq<char>) -> Seq<char> {
    trim_end(trim_start(s))
}

pub proof fn lemma_ws_prefix_bound(s: Seq<char>)
    ensures
        ws_prefix(s) <= s.len(),
        forall|k: int| 0 <= k < ws_prefix(s) ==> is_ws(#[trigger] s[k]),
        ws_prefix(s) < s.len() ==> !is_ws(s[ws_prefix(s) as int]),
    decreases s.len(),
{
    if s.len() > 0 && is_ws(s[0]) {
        lemma_ws_prefix_bound(s.drop_first());
        assert forall|k: int| 0 <= k < ws_prefix(s) implies is_ws(#[trigger] s[k]) by {
            if k > 0 {
                assert(s[k] == s.drop_first()[k - 1]);
            }
        }
    }
}

pub proof fn lemma_ws_suffix_bound(s: Seq<char>)
    ensures
        ws_suffix(s) <= s.len(),
        forall|k: int| s.len() - ws_suffix(s) <= k < s.len() ==> is_ws(#[trigger] s[k]),
        ws_suffix(s) < s.len() ==> !is_ws(s[s.len() - ws_suffix(s) - 1]),
    decreases s.len(),
{
    if s.len() > 0 && is_ws(s.last()) {
        lemma_ws_suffix_bound(s.drop_last());
        assert forall|k: int| s.len() - ws_suffix(s) <= k < s.len() implies is_ws(
            #[trigger] s[k],
        ) by {
            if k < s.len() - 1 {
                assert(s[k] == s.drop_last()[k]);
            }
        }
    }
}

/// `ws_prefix` is the length of the maximal whitespace prefix.
pub proof fn lemma_ws_prefix_exact(s: Seq<char>, j: int)
    requires
        0 <= j <= s.len(),
        forall|k: int| 0 <= k < j ==> is_ws(#[trigger] s[k]),
        j == s.len() || !is_ws(s[j]),
    ensures
        ws_prefix(s) == j,
    decreases j,
{
    if j > 0 {
        assert forall|k: int| 0 <= k < j - 1 implies is_ws(#[trigger] s.drop_first()[k]) by {
            assert(s.drop_first()[k] == s[k + 1]);
        }
        if j < s.len() {
            assert(s.drop_first()[j - 1] == s[j]);
        }
        lemma_ws_prefix_exact(s.drop_first(), j - 1);
    }
}

/// `ws_suffix` is the length of the maximal whitespace suffix.
pub proof fn lemma_ws_suffix_exact(s: Seq<char>, j: int)
    requires
        0 <= j <= s.len(),
        forall|k: int| s.len() - j <= k < s.len() ==> is_ws(#[trigger] s[k]),
        j == s.len() || !is_ws(s[s.len() - j - 1]),
    ensures
        ws_suffix(s) == j,
    decreases j,
{
    if j > 0 {
        let t = s.drop_last();
        assert forall|k: int| t.len() - (j - 1) <= k < t.len() implies is_ws(#[trigger] t[k]) by {
            assert(t[k] == s[k]);
        }
        if j < s.len() {
            assert(t[t.len() - (j - 1) - 1] == s[s.len() - j - 1]);
        }
        lemma_ws_suffix_exact(t, j - 1);
    }
}

pub fn trim_start_chars(s: &[char]) -> (r: Vec<char>)
    ensures
        r@ == trim_start(s@),
{
    let mut j: usize = 0;
    while j < s.len() && is_whitespace(s[j])
        invariant
            j <= s.len(),
            forall|k: int| 0 <= k < j ==> is_ws(#[trigger] s@[k]),
        decreases s.len() - j,
    {
        j += 1;
    }
    proof {
        lemma_ws_prefix_exact(s@, j as int);
    }
    slice_chars(s, j, s.len())
}

pub fn trim_end_chars(s: &[char]) -> (r: Vec<char>)
    ensures
        r@ == trim_end(s@),
{
    let mut j: usize = 0;
    while j < s.len() && is_whitespace(s[s.len() - 1 - j])
        invariant
            j <= s.len(),
            forall|k: int| s.len() - j <= k < s.len() ==> is_ws(#[trigger] s@[k]),
        decreases s.len() - j,
    {
        j += 1;
    }
    proof {
        lemma_ws_suffix_exact(s@, j as int);
    }
    slice_chars(s, 0, s.len() - j)
}

pub fn trim_chars(s: &[char]) -> (r: Vec<char>)
    ensures
        r@ == trim(s@),
{
    let t = trim_start_chars(s);
    trim_end_chars(&t)
}

// ---------------------------------------------------------------------------
// Matching a pattern at a position
// ---------------------------------------------------------------------------

/// `p` occurs in `s` starting at index `i`.
pub open spec fn occurs_at(s: Seq<char>, i: int, p: Seq<char>) -> bool {
    0 <= i && i + p.len() <= s.len() && s.subrange(i, i + p.len()) == p
}

pub open spec fn starts_with(s: Seq<char>, p: Seq<char>) -> bool {
    occurs_at(s, 0, p)
}

pub open spec fn ends_with(s: Seq<char>, p: Seq<char>) -> bool {
    p.len() <= s.len() && occurs_at(s, s.len() - p.len(), p)
}

pub fn matches_at(s: &[char], i: usize, p: &[char]) -> (b: bool)
    ensures
        b == occurs_at(s@, i as int, p@),
{
    if i > s.len() || p.len() > s.len() - i {
        return false;
    }
    let mut k: usize = 0;
    while k < p.len()
        invariant
            i + p.len() <= s.len(),
            k <= p.len(),
            forall|m: int| 0 <= m < k ==> s@[i + m] == p@[m],
        decreases p.len() - k,
    {
        if s[i + k] != p[k] {
            assert(s@.subrange(i as int, i + p.len())[k as int] != p@[k as int]);
            return false;
        }
        k += 1;
    }
    assert(s@.subrange(i as int, i + p.len()) =~= p@);
    true
}

pub fn starts_with_chars(s: &[char], p: &[char]) -> (b: bool)
    ensures
        b == starts_with(s@, p@),
{
    matches_at(s, 0, p)
}

pub fn ends_with_chars(s: &[char], p: &[char]) -> (b: bool)
    ensures
        b == ends_with(s@, p@),
{
    if p.len() > s.len() {
        false
    } else {
        matches_at(s, s.len() - p.len(), p)
    }
}

// ---------------------------------------------------------------------------
// Searching
// ---------------------------------------------------------------------------

/// First index at or after `i` where `p` occurs in `s`.
pub open spec fn find_from(s: Seq<char>, p: Seq<char>, i: int) -> Option<int>
    decreases s.len() + 1 - i,
{
    if i < 0 || i + p.len() > s.len() {
        None
    } else if occurs_at(s, i, p) {
        Some(i)
    } else {
        find_from(s, p, i + 1)
    }
}

/// `str::find` with a string pattern (as a character index).
pub open spec fn find(s: Seq<char>, p: Seq<char>) -> Option<int> {
    find_from(s, p, 0)
}

/// `str::contains` with a string pattern.
pub open spec fn contains(s: Seq<char>, p: Seq<char>) -> bool {
    exists|i: int| occurs_at(s, i, p)
}

pub proof fn lemma_find_from(s: Seq<char>, p: Seq<char>, i: int)
    requires
        0 <= i,
    ensures
        find_from(s, p, i) matches Some(j) ==> i <= j && occurs_at(s, j, p) && forall|k: int|
            i <= k < j ==> !occurs_at(s, k, p),
        find_from(s, p, i) is None ==> forall|k: int| i <= k ==> !occurs_at(s, k, p),
    decreases s.len() + 1 - i,
{
    if i + p.len() > s.len() {
    } else if occurs_at(s, i, p) {
    } else {
        lemma_find_from(s, p, i + 1);
    }
}

pub proof fn lemma_find(s: Seq<char>, p: Seq<char>)
    ensures
        find(s, p) matches Some(j) ==> occurs_at(s, j, p) && forall|k: int|
            0 <= k < j ==> !occurs_at(s, k, p),
        find(s, p) is Some <==> contains(s, p),
{
    lemma_find_from(s, p, 0);
    if find(s, p) is Some {
        let j = find(s, p)->0;
        assert(occurs_at(s, j, p));
    }
}

/// Search from a start position; returns the first occurrence at or after `i`.
pub fn find_from_chars(s: &[char], p: &[char], i: usize) -> (r: Option<usize>)
    ensures
        r matches Some(j) ==> find_from(s@, p@, i as int) == Some(j as int),
        r is None ==> find_from(s@, p@, i as int) is None,
{
    let mut j: usize = i;
    if j > s.len() || p.len() > s.len() - j {
        return None;
    }
    while p.len() <= s.len() - j
        invariant
            i <= j <= s.len(),
            find_from(s@, p@, i as int) == find_from(s@, p@, j as int),
        decreases s.len() - j,
    {
        if matches_at(s, j, p) {
            return Some(j);
        }
        if p.len() == 0 {
            assert(s@.subrange(j as int, j as int) =~= p@);
        }
        j += 1;
    }
    None
}

pub fn find_chars(s: &[char], p: &[char]) -> (r: Option<usize>)
    ensures
        r matches Some(j) ==> find(s@, p@) == Some(j as int),
        r is None ==> find(s@, p@) is None,
{
    find_from_chars(s, p, 0)
}

pub fn contains_chars(s: &[char], p: &[char]) -> (b: bool)
    ensures
        b == contains(s@, p@),
{
    proof {
        lemma_find(s@, p@);
    }
    find_chars(s, p).is_some()
}

/// `str::contains` on string slices.
pub fn str_contains(s: &str, p: &str) -> (b: bool)
    ensures
        b == contains(s@, p@),
{
    let sv = chars_of(s);
    let pv = chars_of(p);
    contains_chars(&sv, &pv)
}

/// Whether character `c` occurs in `s`.
pub fn has_char(s: &[char], c: char) -> (b: bool)
    ensures
        b == s@.contains(c),
{
    let mut i: usize = 0;
    while i < s.len()
        invariant
            i <= s.len(),
            forall|k: int| 0 <= k < i ==> s@[k] != c,
        decreases s.len() - i,
    {
        if s[i] == c {
            assert(s@[i as int] == c);
            return true;
        }
        i += 1;
    }
    false
}


// ---------------------------------------------------------------------------
// Finding characters
// ---------------------------------------------------------------------------

/// First index at or after `i` whose character is in `set`.
pub open spec fn find_in_from(s: Seq<char>, set: Seq<char>, i: int) -> Option<int>
    decreases s.len() - i,
{
    if i < 0 || i >= s.len() {
        None
    } else if set.contains(s[i]) {
        Some(i)
    } else {
        find_in_from(s, set, i + 1)
    }
}

pub proof fn lemma_find_in_from(s: Seq<char>, set: Seq<char>, i: int)
    requires
        0 <= i,
    ensures
        find_in_from(s, set, i) matches Some(j) ==> i <= j < s.len() && set.contains(s[j])
            && forall|k: int| i <= k < j ==> !set.contains(#[trigger] s[k]),
        find_in_from(s, set, i) is None ==> forall|k: int|
            i <= k < s.len() ==> !set.contains(#[trigger] s[k]),
    decreases s.len() - i,
{
    if i < s.len() && !set.contains(s[i]) {
        lemma_find_in_from(s, set, i + 1);
    }
}

pub fn find_in_from_chars(s: &[char], set: &[char], i: usize) -> (r: Option<usize>)
    ensures
        r matches Some(j) ==> find_in_from(s@, set@, i as int) == Some(j as int),
        r is None ==> find_in_from(s@, set@, i as int) is None,
{
    let mut j: usize = i;
    while j < s.len()
        invariant
            i <= j,
            find_in_from(s@, set@, i as int) == find_in_from(s@, set@, j as int),
        decreases s.len() - j,
    {
        if has_char(set, s[j]) {
            return Some(j);
        }
        j += 1;
    }
    None
}

/// First index at or after `i` holding a whitespace character.
pub open spec fn find_ws_from(s: Seq<char>, i: int) -> Option<int>
    decreases s.len() - i,
{
    if i < 0 || i >= s.len() {
        None
    } else if is_ws(s[i]) {
        Some(i)
    } else {
        find_ws_from(s, i + 1)
    }
}

/// First index at or after `i` holding a non-whitespace character.
pub open spec fn find_non_ws_from(s: Seq<char>, i: int) -> Option<int>
    decreases s.len() - i,
{
    if i < 0 || i >= s.len() {
        None
    } else if !is_ws(s[i]) {
        Some(i)
    } else {
        find_non_ws_from(s, i + 1)
    }
}

pub fn find_ws_from_chars(s: &[char], i: usize) -> (r: Option<usize>)
    ensures
        r matches Some(j) ==> find_ws_from(s@, i as int) == Some(j as int) && j < s.len(),
        r is None ==> find_ws_from(s@, i as int) is None,
{
    let mut j: usize = i;
    while j < s.len()
        invariant
            i <= j,
            find_ws_from(s@, i as int) == find_ws_from(s@, j as int),
        decreases s.len() - j,
    {
        if is_whitespace(s[j]) {
            return Some(j);
        }
        j += 1;
    }
    None
}

pub fn find_non_ws_from_chars(s: &[char], i: usize) -> (r: Option<usize>)
    ensures
        r matches Some(j) ==> find_non_ws_from(s@, i as int) == Some(j as int) && i <= j
            < s.len(),
        r is None ==> find_non_ws_from(s@, i as int) is None,
{
    let mut j: usize = i;
    while j < s.len()
        invariant
            i <= j,
            find_non_ws_from(s@, i as int) == find_non_ws_from(s@, j as int),
        decreases s.len() - j,
    {
        if !is_whitespace(s[j]) {
            return Some(j);
        }
        j += 1;
    }
    None
}


/// A vector of character vectors, seen as a sequence of character sequences.
pub proof fn lemma_chars_deep_view(v: Vec<char>)
    ensures
        v.deep_view() == v@,
{
    assert(v.deep_view() =~= v@);
}

/// A vector of character vectors: its deep view is the views of its items.
pub proof fn lemma_nested_deep_view(v: Vec<Vec<char>>)
    ensures
        v.deep_view() == v@.map_values(|x: Vec<char>| x@),
{
    assert forall|i: int| 0 <= i < v.len() implies v.deep_view()[i] == v@.map_values(
        |x: Vec<char>| x@,
    )[i] by {
        lemma_chars_deep_view(v@[i]);
    }
    assert(v.deep_view() =~= v@.map_values(|x: Vec<char>| x@));
}

/// Pushes a string and tracks the deep view.
pub fn push_piece_string(out: &mut Vec<String>, piece: String)
    ensures
        final(out).deep_view() == old(out).deep_view().push(piece@),
{
    let ghost before = out.deep_view();
    out.push(piece);
    assert(out.deep_view() =~= before.push(piece@));
}

/// Pushes a piece and tracks the deep view.
pub fn push_piece(out: &mut Vec<Vec<char>>, piece: Vec<char>)
    ensures
        final(out).deep_view() == old(out).deep_view().push(piece@),
{
    let ghost before = out.deep_view();
    proof {
        lemma_chars_deep_view(piece);
    }
    out.push(piece);
    assert(out.deep_view() =~= before.push(piece@));
}

// ---------------------------------------------------------------------------
// Lines and splitting
// ---------------------------------------------------------------------------

/// Drops one trailing carriage return.
pub open spec fn strip_cr(s: Seq<char>) -> Seq<char> {
    if s.len() > 0 && s.last() == '\r' {
        s.drop_last()
    } else {
        s
    }
}

/// `str::lines` applied to `s[i..]`: pieces end at `\n`, which is dropped
/// together with one `\r` before it; a final piece without `\n` is kept as is.
pub open spec fn lines_from(s: Seq<char>, i: int) -> Seq<Seq<char>>
    decreases s.len() - i,
{
    if i < 0 || i >= s.len() {
        seq![]
    } else {
        match find_in_from(s, seq!['\n'], i) {
            None => seq![s.subrange(i, s.len() as int)],
            Some(j) => if i <= j < s.len() {
                seq![strip_cr(s.subrange(i, j))] + lines_from(s, j + 1)
            } else {
                seq![]
            },
        }
    }
}

/// `str::lines`.
pub open spec fn lines(s: Seq<char>) -> Seq<Seq<char>> {
    lines_from(s, 0)
}

pub fn strip_cr_chars(v: Vec<char>) -> (r: Vec<char>)
    ensures
        r@ == strip_cr(v@),
{
    let mut v = v;
    if v.len() > 0 && v[v.len() - 1] == '\r' {
        v.pop();
    }
    v
}

/// The lines of a character sequence (`str::lines`).
pub fn lines_of(s: &[char]) -> (r: Vec<Vec<char>>)
    ensures
        r.deep_view() == lines(s@),
{
    let nl = vec!['\n'];
    let mut out: Vec<Vec<char>> = Vec::new();
    let mut i: usize = 0;
    while i < s.len()
        invariant
            i <= s.len(),
            nl@ == seq!['\n'],
            lines(s@) == out.deep_view() + lines_from(s@, i as int),
        decreases s.len() - i,
    {
        proof {
            lemma_find_in_from(s@, nl@, i as int);
        }
        match find_in_from_chars(s, &nl, i) {
            None => {
                let piece = slice_chars(s, i, s.len());
                push_piece(&mut out, piece);
                assert(lines_from(s@, s.len() as int) =~= seq![]);
                i = s.len();
            },
            Some(j) => {
                let piece = strip_cr_chars(slice_chars(s, i, j));
                push_piece(&mut out, piece);
                i = j + 1;
            },
        }
    }
    assert(lines_from(s@, i as int) =~= seq![]);
    assert(out.deep_view() + seq![] =~= out.deep_view());
    out
}

/// `str::split` by any character of `set`, applied to `s[i..]`.
pub open spec fn split_from(s: Seq<char>, set: Seq<char>, i: int) -> Seq<Seq<char>>
    decreases s.len() + 1 - i,
{
    if i < 0 || i > s.len() {
        seq![]
    } else {
        match find_in_from(s, set, i) {
            None => seq![s.subrange(i, s.len() as int)],
            Some(j) => if i <= j < s.len() {
                seq![s.subrange(i, j)] + split_from(s, set, j + 1)
            } else {
                seq![]
            },
        }
    }
}

/// `str::split` with a predicate "is one of the characters in `set`".
pub open spec fn split_by(s: Seq<char>, set: Seq<char>) -> Seq<Seq<char>> {
    split_from(s, set, 0)
}

pub fn split_by_chars(s: &[char], set: &[char]) -> (r: Vec<Vec<char>>)
    ensures
        r.deep_view() == split_by(s@, set@),
{
    let mut out: Vec<Vec<char>> = Vec::new();
    let mut i: usize = 0;
    loop
        invariant
            i <= s.len(),
            split_by(s@, set@) == out.deep_view() + split_from(s@, set@, i as int),
        decreases s.len() - i,
    {
        proof {
            lemma_find_in_from(s@, set@, i as int);
        }
        match find_in_from_chars(s, set, i) {
            None => {
                let piece = slice_chars(s, i, s.len());
                push_piece(&mut out, piece);
                assert(out.deep_view() + seq![] =~= out.deep_view());
                return out;
            },
            Some(j) => {
                let piece = slice_chars(s, i, j);
                push_piece(&mut out, piece);
                i = j + 1;
            },
        }
    }
}

/// `str::split_whitespace` applied to `s[i..]`.
pub open spec fn words_from(s: Seq<char>, i: int) -> Seq<Seq<char>>
    decreases s.len() - i,
{
    if i < 0 {
        seq![]
    } else {
        match find_non_ws_from(s, i) {
            None => seq![],
            Some(k) => match find_ws_from(s, k) {
                None => if i <= k <= s.len() {
                    seq![s.subrange(k, s.len() as int)]
                } else {
                    seq![]
                },
                Some(e) => if i <= k < e <= s.len() {
                    seq![s.subrange(k, e)] + words_from(s, e)
                } else {
                    seq![]
                },
            },
        }
    }
}

/// `str::split_whitespace`.
pub open spec fn words(s: Seq<char>) -> Seq<Seq<char>> {
    words_from(s, 0)
}

pub proof fn lemma_find_non_ws_from(s: Seq<char>, i: int)
    requires
        0 <= i,
    ensures
        find_non_ws_from(s, i) matches Some(j) ==> i <= j < s.len() && !is_ws(s[j])
            && forall|k: int| i <= k < j ==> is_ws(#[trigger] s[k]),
        find_non_ws_from(s, i) is None ==> forall|k: int| i <= k < s.len() ==> is_ws(#[trigger] s[k]),
    decreases s.len() - i,
{
    if i < s.len() && is_ws(s[i]) {
        lemma_find_non_ws_from(s, i + 1);
    }
}

pub proof fn lemma_find_ws_from(s: Seq<char>, i: int)
    requires
        0 <= i,
    ensures
        find_ws_from(s, i) matches Some(j) ==> i <= j < s.len() && is_ws(s[j])
            && forall|k: int| i <= k < j ==> !is_ws(#[trigger] s[k]),
        find_ws_from(s, i) is None ==> forall|k: int| i <= k < s.len() ==> !is_ws(#[trigger] s[k]),
    decreases s.len() - i,
{
    if i < s.len() && !is_ws(s[i]) {
        lemma_find_ws_from(s, i + 1);
    }
}

pub fn words_of(s: &[char]) -> (r: Vec<Vec<char>>)
    ensures
        r.deep_view() == words(s@),
{
    let mut out: Vec<Vec<char>> = Vec::new();
    let mut i: usize = 0;
    loop
        invariant
            i <= s.len(),
            words(s@) == out.deep_view() + words_from(s@, i as int),
        decreases s.len() - i,
    {
        proof {
            lemma_find_non_ws_from(s@, i as int);
        }
        match find_non_ws_from_chars(s, i) {
            None => {
                assert(out.deep_view() + seq![] =~= out.deep_view());
                return out;
            },
            Some(k) => {
                proof {
                    lemma_find_ws_from(s@, k as int);
                }
                match find_ws_from_chars(s, k) {
                    None => {
                        let piece = slice_chars(s, k, s.len());
                        push_piece(&mut out, piece);
                        assert(out.deep_view() + seq![] =~= out.deep_view());
                        return out;
                    },
                    Some(e) => {
                        let piece = slice_chars(s, k, e);
                        push_piece(&mut out, piece);
                        i = e;
                    },
                }
            },
        }
    }
}


// ---------------------------------------------------------------------------
// Pattern-based trimming, replacing, counting
// ---------------------------------------------------------------------------

/// `str::trim_start_matches` with a string pattern.
pub open spec fn trim_start_matches(s: Seq<char>, p: Seq<char>) -> Seq<char>
    decreases s.len(),
{
    if p.len() > 0 && starts_with(s, p) {
        trim_start_matches(s.skip(p.len() as int), p)
    } else {
        s
    }
}

/// `str::trim_end_matches` with a string pattern.
pub open spec fn trim_end_matches(s: Seq<char>, p: Seq<char>) -> Seq<char>
    decreases s.len(),
{
    if p.len() > 0 && ends_with(s, p) {
        trim_end_matches(s.take(s.len() - p.len()), p)
    } else {
        s
    }
}

pub fn trim_start_matches_chars(s: &[char], p: &[char]) -> (r: Vec<char>)
    ensures
        r@ == trim_start_matches(s@, p@),
{
    let mut i: usize = 0;
    if p.len() == 0 {
        return slice_chars(s, 0, s.len());
    }
    assert(s@.skip(0) =~= s@);
    while matches_at(s, i, p)
        invariant
            p.len() > 0,
            i <= s.len(),
            trim_start_matches(s@, p@) == trim_start_matches(s@.skip(i as int), p@),
        decreases s.len() - i,
    {
        proof {
            let t = s@.skip(i as int);
            assert(t.subrange(0, p.len() as int) =~= s@.subrange(i as int, i + p.len()));
            assert(t.skip(p.len() as int) =~= s@.skip(i + p.len()));
        }
        i += p.len();
    }
    proof {
        let t = s@.skip(i as int);
        assert(t.len() >= p.len() ==> t.subrange(0, p.len() as int) =~= s@.subrange(i as int, i + p.len()));
    }
    slice_chars(s, i, s.len())
}

pub fn trim_end_matches_chars(s: &[char], p: &[char]) -> (r: Vec<char>)
    ensures
        r@ == trim_end_matches(s@, p@),
{
    let mut e: usize = s.len();
    if p.len() == 0 {
        return slice_chars(s, 0, s.len());
    }
    assert(s@.take(e as int) =~= s@);
    while e >= p.len() && matches_at(s, e - p.len(), p)
        invariant
            p.len() > 0,
            e <= s.len(),
            trim_end_matches(s@, p@) == trim_end_matches(s@.take(e as int), p@),
        decreases e,
    {
        proof {
            let t = s@.take(e as int);
            assert(t.subrange(e - p.len(), e as int) =~= s@.subrange(e - p.len(), e as int));
            assert(t.take(t.len() - p.len()) =~= s@.take(e - p.len()));
        }
        e -= p.len();
    }
    proof {
        let t = s@.take(e as int);
        assert(e >= p.len() ==> t.subrange(e - p.len(), e as int) =~= s@.subrange(e - p.len(), e as int));
    }
    slice_chars(s, 0, e)
}

/// `str::replace` with a non-empty string pattern: non-overlapping
/// occurrences, scanned left to right, are replaced.
pub open spec fn replace(s: Seq<char>, from: Seq<char>, to: Seq<char>) -> Seq<char>
    recommends
        from.len() > 0,
    decreases s.len(),
{
    if s.len() == 0 {
        seq![]
    } else if from.len() > 0 && starts_with(s, from) {
        to + replace(s.skip(from.len() as int), from, to)
    } else {
        seq![s[0]] + replace(s.drop_first(), from, to)
    }
}

pub fn replace_chars(s: &[char], from: &[char], to: &[char]) -> (r: Vec<char>)
    requires
        from.len() > 0,
    ensures
        r@ == replace(s@, from@, to@),
{
    let mut out: Vec<char> = Vec::new();
    let mut i: usize = 0;
    assert(s@.skip(0) =~= s@);
    while i < s.len()
        invariant
            from.len() > 0,
            i <= s.len(),
            replace(s@, from@, to@) == out@ + replace(s@.skip(i as int), from@, to@),
        decreases s.len() - i,
    {
        let ghost t = s@.skip(i as int);
        if matches_at(s, i, from) {
            proof {
                assert(t.subrange(0, from.len() as int) =~= s@.subrange(i as int, i + from.len()));
                assert(t.skip(from.len() as int) =~= s@.skip(i + from.len()));
            }
            extend_chars(&mut out, to);
            i += from.len();
        } else {
            proof {
                assert(t.len() >= from.len() ==> t.subrange(0, from.len() as int) =~= s@.subrange(i as int, i + from.len()));
                assert(t.drop_first() =~= s@.skip(i + 1));
                assert(seq![t[0]] =~= seq![s@[i as int]]);
            }
            out.push(s[i]);
            i += 1;
        }
    }
    assert(s@.skip(i as int) =~= seq![]);
    assert(out@ + seq![] =~= out@);
    out
}

/// `str::matches(p).count()` for a non-empty string pattern.
pub open spec fn count_matches(s: Seq<char>, p: Seq<char>) -> nat
    decreases s.len(),
{
    if s.len() == 0 {
        0
    } else if p.len() > 0 && starts_with(s, p) {
        1 + count_matches(s.skip(p.len() as int), p)
    } else {
        count_matches(s.drop_first(), p)
    }
}

pub fn count_matches_chars(s: &[char], p: &[char]) -> (n: usize)
    requires
        p.len() > 0,
    ensures
        n == count_matches(s@, p@),
{
    let mut n: usize = 0;
    let mut i: usize = 0;
    assert(s@.skip(0) =~= s@);
    while i < s.len()
        invariant
            p.len() > 0,
            i <= s.len(),
            n <= i,
            count_matches(s@, p@) == n + count_matches(s@.skip(i as int), p@),
        decreases s.len() - i,
    {
        let ghost t = s@.skip(i as int);
        if matches_at(s, i, p) {
            proof {
                assert(t.subrange(0, p.len() as int) =~= s@.subrange(i as int, i + p.len()));
                assert(t.skip(p.len() as int) =~= s@.skip(i + p.len()));
            }
            n += 1;
            i += p.len();
        } else {
            proof {
                assert(t.len() >= p.len() ==> t.subrange(0, p.len() as int) =~= s@.subrange(i as int, i + p.len()));
                assert(t.drop_first() =~= s@.skip(i + 1));
            }
            i += 1;
        }
    }
    assert(s@.skip(i as int) =~= seq![]);
    n
}

/// `str::split` with a non-empty string pattern, applied to `s[i..]`.
pub open spec fn split_str_from(s: Seq<char>, p: Seq<char>, i: int) -> Seq<Seq<char>>
    decreases s.len() + 1 - i,
{
    if i < 0 || i > s.len() || p.len() == 0 {
        seq![]
    } else {
        match find_from(s, p, i) {
            None => seq![s.subrange(i, s.len() as int)],
            Some(j) => if i <= j && j + p.len() <= s.len() {
                seq![s.subrange(i, j)] + split_str_from(s, p, j + p.len())
            } else {
                seq![]
            },
        }
    }
}

/// `str::split` with a non-empty string pattern.
pub open spec fn split_str(s: Seq<char>, p: Seq<char>) -> Seq<Seq<char>> {
    split_str_from(s, p, 0)
}

pub fn split_str_chars(s: &[char], p: &[char]) -> (r: Vec<Vec<char>>)
    requires
        p.len() > 0,
    ensures
        r.deep_view() == split_str(s@, p@),
{
    let mut out: Vec<Vec<char>> = Vec::new();
    let mut i: usize = 0;
    loop
        invariant
            p.len() > 0,
            i <= s.len(),
            split_str(s@, p@) == out.deep_view() + split_str_from(s@, p@, i as int),
        decreases s.len() - i,
    {
        proof {
            lemma_find_from(s@, p@, i as int);
        }
        match find_from_chars(s, p, i) {
            None => {
                let piece = slice_chars(s, i, s.len());
                push_piece(&mut out, piece);
                assert(out.deep_view() + seq![] =~= out.deep_view());
                return out;
            },
            Some(j) => {
                let piece = slice_chars(s, i, j);
                push_piece(&mut out, piece);
                i = j + p.len();
            },
        }
    }
}

/// Number of characters at the front of `s` that belong to `set`.
pub open spec fn set_prefix(s: Seq<char>, set: Seq<char>) -> nat
    decreases s.len(),
{
    if s.len() > 0 && set.contains(s[0]) {
        1 + set_prefix(s.drop_first(), set)
    } else {
        0
    }
}

/// Number of characters at the end of `s` that belong to `set`.
pub open spec fn set_suffix(s: Seq<char>, set: Seq<char>) -> nat
    decreases s.len(),
{
    if s.len() > 0 && set.contains(s.last()) {
        1 + set_suffix(s.drop_last(), set)
    } else {
        0
    }
}

/// `str::trim_matches` with the predicate "is one of the characters of `set`".
pub open spec fn trim_set(s: Seq<char>, set: Seq<char>) -> Seq<char> {
    let t = s.skip(set_prefix(s, set) as int);
    t.take(t.len() - set_suffix(t, set))
}

pub proof fn lemma_set_prefix_exact(s: Seq<char>, set: Seq<char>, j: int)
    requires
        0 <= j <= s.len(),
        forall|k: int| 0 <= k < j ==> set.contains(#[trigger] s[k]),
        j == s.len() || !set.contains(s[j]),
    ensures
        set_prefix(s, set) == j,
    decreases j,
{
    if j > 0 {
        assert forall|k: int| 0 <= k < j - 1 implies set.contains(#[trigger] s.drop_first()[k]) by {
            assert(s.drop_first()[k] == s[k + 1]);
        }
        if j < s.len() {
            assert(s.drop_first()[j - 1] == s[j]);
        }
        lemma_set_prefix_exact(s.drop_first(), set, j - 1);
    }
}

pub proof fn lemma_set_suffix_exact(s: Seq<char>, set: Seq<char>, j: int)
    requires
        0 <= j <= s.len(),
        forall|k: int| s.len() - j <= k < s.len() ==> set.contains(#[trigger] s[k]),
        j == s.len() || !set.contains(s[s.len() - j - 1]),
    ensures
        set_suffix(s, set) == j,
    decreases j,
{
    if j > 0 {
        let t = s.drop_last();
        assert forall|k: int| t.len() - (j - 1) <= k < t.len() implies set.contains(#[trigger] t[k]) by {
            assert(t[k] == s[k]);
        }
        if j < s.len() {
            assert(t[t.len() - (j - 1) - 1] == s[s.len() - j - 1]);
        }
        lemma_set_suffix_exact(t, set, j - 1);
    }
}

pub fn trim_set_chars(s: &[char], set: &[char]) -> (r: Vec<char>)
    ensures
        r@ == trim_set(s@, set@),
{
    let mut j: usize = 0;
    while j < s.len() && has_char(set, s[j])
        invariant
            j <= s.len(),
            forall|k: int| 0 <= k < j ==> set@.contains(#[trigger] s@[k]),
        decreases s.len() - j,
    {
        j += 1;
    }
    proof {
        lemma_set_prefix_exact(s@, set@, j as int);
    }
    let t = slice_chars(s, j, s.len());
    assert(t@ =~= s@.skip(j as int));
    let mut e: usize = 0;
    while e < t.len() && has_char(set, t[t.len() - 1 - e])
        invariant
            e <= t.len(),
            forall|k: int| t.len() - e <= k < t.len() ==> set@.contains(#[trigger] t@[k]),
        decreases t.len() - e,
    {
        e += 1;
    }
    proof {
        lemma_set_suffix_exact(t@, set@, e as int);
    }
    slice_chars(&t, 0, t.len() - e)
}

// ---------------------------------------------------------------------------
// Equality and case
// ---------------------------------------------------------------------------

pub fn chars_eq(a: &[char], b: &[char]) -> (r: bool)
    ensures
        r == (a@ == b@),
{
    if a.len() != b.len() {
        return false;
    }
    let r = matches_at(a, 0, b);
    assert(a@.subrange(0, b.len() as int) =~= a@);
    r
}

/// `char::to_ascii_lowercase`.
pub open spec fn ascii_lower(c: char) -> char {
    if 'A' <= c && c <= 'Z' {
        ((c as u32) + 32) as char
    } else {
        c
    }
}

pub fn ascii_lower_char(c: char) -> (r: char)
    ensures
        r == ascii_lower(c),
{
    if 'A' <= c && c <= 'Z' {
        let n: u8 = (c as u32 + 32) as u8;
        n as char
    } else {
        c
    }
}

/// `str::to_ascii_lowercase`.
pub open spec fn ascii_lowercase(s: Seq<char>) -> Seq<char> {
    s.map_values(|c: char| ascii_lower(c))
}

pub fn ascii_lowercase_chars(s: &[char]) -> (r: Vec<char>)
    ensures
        r@ == ascii_lowercase(s@),
{
    let mut r: Vec<char> = Vec::new();
    let mut i: usize = 0;
    while i < s.len()
        invariant
            i <= s.len(),
            r@ == ascii_lowercase(s@.take(i as int)),
        decreases s.len() - i,
    {
        r.push(ascii_lower_char(s[i]));
        assert(ascii_lowercase(s@.take(i + 1)) =~= ascii_lowercase(s@.take(i as int)).push(ascii_lower(s@[i as int])));
        i += 1;
    }
    assert(s@.take(s.len() as int) =~= s@);
    r
}

/// What `str::to_lowercase` returns for a string (Unicode lowercase
/// mapping); a function of the string alone.
pub uninterp spec fn lowercase(s: Seq<char>) -> Seq<char>;

/// Every character is ASCII.
pub open spec fn all_ascii(s: Seq<char>) -> bool {
    forall|i: int| 0 <= i < s.len() ==> (#[trigger] s[i] as u32) < 128
}

/// Calls `str::to_lowercase`; the result is the Unicode lowercase mapping
/// of the argument, named `lowercase`. On ASCII text that mapping turns
/// `A`..`Z` into `a`..`z` and keeps every other character.
#[verifier::external_body]
fn to_lowercase_str(s: &str) -> (r: String)
    ensures
        r@ == lowercase(s@),
        all_ascii(s@) ==> r@ == ascii_lowercase(s@),
{
    s.to_lowercase()
}

/// What `str::to_uppercase` returns for a string (Unicode uppercase
/// mapping); a function of the string alone.
pub uninterp spec fn uppercase(s: Seq<char>) -> Seq<char>;

/// `char::to_ascii_uppercase`.
pub open spec fn ascii_upper(c: char) -> char {
    if 'a' <= c && c <= 'z' {
        ((c as u32) - 32) as char
    } else {
        c
    }
}

/// `str::to_ascii_uppercase`.
pub open spec fn ascii_uppercase(s: Seq<char>) -> Seq<char> {
    s.map_values(|c: char| ascii_upper(c))
}

/// Calls `str::to_uppercase`; the result is the Unicode uppercase mapping
/// of the argument, named `uppercase`. On ASCII text that mapping turns
/// `a`..`z` into `A`..`Z` and keeps every other character.
#[verifier::external_body]
fn to_uppercase_str(s: &str) -> (r: String)
    ensures
        r@ == uppercase(s@),
        all_ascii(s@) ==> r@ == ascii_uppercase(s@),
{
    s.to_uppercase()
}

/// `str::to_uppercase`.
pub fn to_upper(s: &str) -> (r: String)
    ensures
        r@ == uppercase(s@),
        all_ascii(s@) ==> r@ == ascii_uppercase(s@),
{
    to_uppercase_str(s)
}

/// `str::to_lowercase`.
pub fn to_lower(s: &str) -> (r: String)
    ensures
        r@ == lowercase(s@),
        all_ascii(s@) ==> r@ == ascii_lowercase(s@),
{
    to_lowercase_str(s)
}

/// `str::starts_with` on string slices.
pub fn str_starts_with(s: &str, p: &str) -> (b: bool)
    ensures
        b == starts_with(s@, p@),
{
    let sv = chars_of(s);
    let pv = chars_of(p);
    starts_with_chars(&sv, &pv)
}

/// `str::ends_with` on string slices.
pub fn str_ends_with(s: &str, p: &str) -> (b: bool)
    ensures
        b == ends_with(s@, p@),
{
    let sv = chars_of(s);
    let pv = chars_of(p);
    ends_with_chars(&sv, &pv)
}

/// Three string slices, one after the other.
pub fn cat3(a: &str, b: &str, c: &str) -> (r: String)
    ensures
        r@ == a@ + b@ + c@,
{
    let mut v = chars_of(a);
    push_str(&mut v, b);
    push_str(&mut v, c);
    string_of(&v)
}

/// Lowercases a character sequence with `str::to_lowercase`.
pub fn lowercase_chars(s: &[char]) -> (r: Vec<char>)
    ensures
        r@ == lowercase(s@),
        all_ascii(s@) ==> r@ == ascii_lowercase(s@),
{
    let st = string_of(s);
    let lo = to_lowercase_str(st.as_str());
    chars_of(lo.as_str())
}


// ---------------------------------------------------------------------------
// Owned strings
// ---------------------------------------------------------------------------

/// An owned copy of a string slice.
pub fn owned(s: &str) -> (r: String)
    ensures
        r@ == s@,
{
    s.to_owned()
}

/// `a` followed by `b`.
pub fn concat_strs(a: &str, b: &str) -> (r: String)
    ensures
        r@ == a@ + b@,
{
    let mut v = chars_of(a);
    let w = chars_of(b);
    extend_chars(&mut v, &w);
    string_of(&v)
}

/// Appends a string slice to a character vector.
pub fn push_str(dst: &mut Vec<char>, s: &str)
    ensures
        final(dst)@ == old(dst)@ + s@,
{
    let w = chars_of(s);
    extend_chars(dst, &w);
}


// ---------------------------------------------------------------------------
// Joining and byte length
// ---------------------------------------------------------------------------

/// The pieces joined with `sep` between consecutive ones (`[T]::join`).
pub open spec fn join(ps: Seq<Seq<char>>, sep: Seq<char>) -> Seq<char>
    decreases ps.len(),
{
    if ps.len() == 0 {
        seq![]
    } else if ps.len() == 1 {
        ps[0]
    } else {
        join(ps.drop_last(), sep) + sep + ps.last()
    }
}

pub fn join_chars(ps: &[Vec<char>], sep: &[char]) -> (r: Vec<char>)
    ensures
        r@ == join(ps@.map_values(|v: Vec<char>| v@), sep@),
{
    let ghost all = ps@.map_values(|v: Vec<char>| v@);
    let mut r: Vec<char> = Vec::new();
    let mut i: usize = 0;
    while i < ps.len()
        invariant
            i <= ps.len(),
            all == ps@.map_values(|v: Vec<char>| v@),
            r@ == join(all.take(i as int), sep@),
        decreases ps.len() - i,
    {
        proof {
            let t = all.take(i + 1);
            assert(t.drop_last() =~= all.take(i as int));
            assert(t.last() == ps@[i as int]@);
            if i == 0 {
                assert(t.len() == 1);
            }
        }
        if i > 0 {
            extend_chars(&mut r, sep);
        }
        extend_chars(&mut r, &ps[i]);
        proof {
            if i == 0 {
                assert(all.take(1)[0] == ps@[0]@);
                assert(r@ =~= join(all.take(1), sep@));
            }
        }
        i += 1;
    }
    assert(all.take(ps.len() as int) =~= all);
    r
}

/// The pieces from position `start` on, joined with `sep`.
pub fn join_chars_from(ps: &[Vec<char>], start: usize, sep: &[char]) -> (r: Vec<char>)
    requires
        start <= ps@.len(),
    ensures
        r@ == join(ps@.map_values(|v: Vec<char>| v@).skip(start as int), sep@),
{
    let ghost all = ps@.map_values(|v: Vec<char>| v@);
    if start == ps.len() {
        assert(all.skip(start as int) =~= Seq::<Seq<char>>::empty());
        return Vec::new();
    }
    let ghost rest = all.skip(start as int);
    let mut r: Vec<char> = Vec::new();
    let mut i: usize = start;
    assert(rest.take(0) =~= Seq::<Seq<char>>::empty());
    while i < ps.len()
        invariant
            start <= i <= ps.len(),
            all == ps@.map_values(|v: Vec<char>| v@),
            rest == all.skip(start as int),
            r@ == join(rest.take(i - start), sep@),
        decreases ps.len() - i,
    {
        proof {
            let t = rest.take(i - start + 1);
            assert(t.drop_last() =~= rest.take(i - start));
            assert(t.last() == ps@[i as int]@);
            if i == start {
                assert(t.len() == 1);
            }
        }
        if i > start {
            extend_chars(&mut r, sep);
        }
        extend_chars(&mut r, &ps[i]);
        proof {
            if i == start {
                assert(rest.take(1)[0] == ps@[i as int]@);
                assert(r@ =~= join(rest.take(1), sep@));
            }
        }
        i += 1;
    }
    assert(rest.take(ps.len() - start) =~= rest);
    r
}

/// Number of bytes of the UTF-8 encoding (what `str::len` returns).
pub open spec fn utf8_len(s: Seq<char>) -> nat {
    vstd::utf8::encode_utf8(s).len()
}

pub fn byte_len(s: &[char]) -> (n: usize)
    ensures
        n == utf8_len(s@) as usize,
{
    let st = string_of(s);
    st.as_str().len()
}

/// What `char::is_alphanumeric` reports (Unicode `Alphabetic` or
/// `Numeric`); a function of the character alone.
pub uninterp spec fn is_alnum(c: char) -> bool;

/// Calls `char::is_alphanumeric`; the answer is named `is_alnum`.
#[verifier::external_body]
pub(crate) fn is_alphanumeric(c: char) -> (b: bool)
    ensures
        b == is_alnum(c),
{
    c.is_alphanumeric()
}

/// Some character of `s` is alphanumeric.
pub open spec fn has_alnum(s: Seq<char>) -> bool {
    exists|k: int| 0 <= k < s.len() && is_alnum(#[trigger] s[k])
}

pub fn has_alnum_chars(s: &[char]) -> (b: bool)
    ensures
        b == has_alnum(s@),
{
    let mut i: usize = 0;
    while i < s.len()
        invariant
            i <= s.len(),
            forall|k: int| 0 <= k < i ==> !is_alnum(#[trigger] s@[k]),
        decreases s.len() - i,
    {
        if is_alphanumeric(s[i]) {
            assert(is_alnum(s@[i as int]));
            return true;
        }
        i += 1;
    }
    false
}

/// The `Debug` rendering of a list of strings: `[` and `]` around the items,
/// each quoted and escaped, separated by `, `.
pub uninterp spec fn debug_strings(v: Seq<Seq<char>>) -> Seq<char>;

/// `format!("{:?}", v)` on a vector of strings; the result is named by
/// `debug_strings` of the items.
#[verifier::external_body]
pub(crate) fn debug_string_list(v: &Vec<String>) -> (s: String)
    ensures
        s@ == debug_strings(v.deep_view()),
{
    format!("{:?}", v)
}

/// What `format!("{:?}", v)` prints for a vector of vectors of strings: a
/// function of the items alone.
pub uninterp spec fn debug_string_lists(v: Seq<Seq<Seq<char>>>) -> Seq<char>;

/// `format!("{:?}", v)` on a vector of vectors of strings; the result is
/// named by `debug_string_lists` of the items.
#[verifier::external_body]
pub(crate) fn debug_nested_list(v: &Vec<Vec<String>>) -> (s: String)
    ensures
        s@ == debug_string_lists(v.deep_view()),
{
    format!("{:?}", v)
}


/// Last position of `c` in `s`.
pub open spec fn last_index(s: Seq<char>, c: char) -> Option<int>
    decreases s.len(),
{
    if s.len() == 0 {
        None
    } else if s.last() == c {
        Some(s.len() - 1)
    } else {
        last_index(s.drop_last(), c)
    }
}

/// Last position of `c` in a character sequence (`str::rfind` with a
/// character).
pub fn last_index_of(s: &[char], c: char) -> (r: Option<usize>)
    ensures
        match r {
            Some(e) => last_index(s@, c) == Some(e as int) && e < s@.len() && s@[e as int] == c,
            None => last_index(s@, c) is None,
        },
{
    let mut n: usize = s.len();
    assert(s@.take(n as int) =~= s@);
    while n > 0
        invariant
            n <= s@.len(),
            last_index(s@, c) == last_index(s@.take(n as int), c),
        decreases n,
    {
        assert(s@.take(n as int).drop_last() =~= s@.take(n - 1));
        if s[n - 1] == c {
            return Some(n - 1);
        }
        n -= 1;
    }
    None
}


/// Number of bytes UTF-8 takes for one character.
pub open spec fn char_width(c: char) -> int {
    if (c as u32) < 0x80 {
        1
    } else if (c as u32) < 0x800 {
        2
    } else if (c as u32) < 0x10000 {
        3
    } else {
        4
    }
}

/// Number of bytes of the UTF-8 encoding of `s`, as a sum of character
/// widths.
pub open spec fn utf8_width(s: Seq<char>) -> int
    decreases s.len(),
{
    if s.len() == 0 {
        0
    } else {
        utf8_width(s.drop_last()) + char_width(s.last())
    }
}

/// The UTF-8 byte length of a character sequence.
pub fn width_of(s: &[char]) -> (w: u128)
    ensures
        w as int == utf8_width(s@),
        w <= 4 * s.len(),
{
    let mut w: u128 = 0;
    let mut i: usize = 0;
    while i < s.len()
        invariant
            i <= s.len(),
            w as int == utf8_width(s@.take(i as int)),
            w <= 4 * i,
        decreases s.len() - i,
    {
        assert(s@.take(i + 1).drop_last() =~= s@.take(i as int));
        let u: u32 = s[i] as u32;
        let cw: u128 = if u < 0x80 {
            1
        } else if u < 0x800 {
            2
        } else if u < 0x10000 {
            3
        } else {
            4
        };
        w = w + cw;
        i += 1;
    }
    assert(s@.take(s.len() as int) =~= s@);
    w
}

/// Owned copies of a list of string slices.
pub fn strings_of(items: &[&str]) -> (r: Vec<String>)
    ensures
        r.deep_view() == items@.map_values(|s: &str| s@),
{
    let mut r: Vec<String> = Vec::new();
    let mut i: usize = 0;
    while i < items.len()
        invariant
            i <= items@.len(),
            r.deep_view() == items@.map_values(|s: &str| s@).take(i as int),
        decreases items.len() - i,
    {
        push_piece_string(&mut r, owned(items[i]));
        assert(items@.map_values(|s: &str| s@).take(i + 1) =~= items@.map_values(|s: &str| s@).take(i as int).push(items@[i as int]@));
        i += 1;
    }
    assert(items@.map_values(|s: &str| s@).take(items@.len() as int) =~= items@.map_values(|s: &str| s@));
    r
}

} // verus!
