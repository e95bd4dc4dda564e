//! Path canonicalisation: the keys under which components are registered.
use vstd::prelude::*;
use crate::text::{
    all_ascii, ascii_lowercase, chars_of, contains, contains_chars, find_in_from, lemma_chars_deep_view, lemma_find_in_from,
    lowercase, lowercase_chars, push_piece, replace, replace_chars, slice_chars, split_by,
    split_by_chars, split_from, string_of, trim, trim_chars, trim_end_matches,
    trim_end_matches_chars, trim_start_matches, trim_start_matches_chars,
};

verus! {

/// The canonical key of a path: trimmed, leading `./` and `/` removed,
/// backslashes turned into slashes, lowercased.
pub open spec fn canonical_key(path: Seq<char>) -> Seq<char> {
    lowercase(
        replace(
            trim_start_matches(trim_start_matches(trim(path), "./"@), "/"@),
            "\\"@,
            "/"@,
        ),
    )
}

proof fn lemma_ascii_trim(s: Seq<char>)
    requires
        all_ascii(s),
    ensures
        all_ascii(trim(s)),
{
    crate::text::lemma_ws_prefix_bound(s);
    let a = crate::text::trim_start(s);
    assert(all_ascii(a)) by {
        assert forall|i: int| 0 <= i < a.len() implies (#[trigger] a[i] as u32) < 128 by {
            assert(a[i] == s[i + crate::text::ws_prefix(s)]);
        }
    }
    crate::text::lemma_ws_suffix_bound(a);
}

proof fn lemma_ascii_trim_start_matches(s: Seq<char>, p: Seq<char>)
    requires
        all_ascii(s),
    ensures
        all_ascii(trim_start_matches(s, p)),
    decreases s.len(),
{
    if p.len() > 0 && crate::text::starts_with(s, p) {
        let t = s.skip(p.len() as int);
        assert forall|i: int| 0 <= i < t.len() implies (#[trigger] t[i] as u32) < 128 by {
            assert(t[i] == s[i + p.len()]);
        }
        lemma_ascii_trim_start_matches(t, p);
    }
}

/// Turning every backslash of an ASCII text into a slash leaves an ASCII
/// text with no backslash.
proof fn lemma_replace_backslashes(s: Seq<char>)
    requires
        all_ascii(s),
    ensures
        all_ascii(replace(s, "\\"@, "/"@)),
        !replace(s, "\\"@, "/"@).contains('\\'),
    decreases s.len(),
{
    reveal_strlit("\\");
    reveal_strlit("/");
    let r = replace(s, "\\"@, "/"@);
    if s.len() > 0 {
        let rest = if crate::text::starts_with(s, "\\"@) { s.skip(1) } else { s.drop_first() };
        assert forall|i: int| 0 <= i < rest.len() implies (#[trigger] rest[i] as u32) < 128 by {
            assert(rest[i] == s[i + 1]);
        }
        lemma_replace_backslashes(rest);
        let rr = replace(rest, "\\"@, "/"@);
        let head = if crate::text::starts_with(s, "\\"@) { "/"@ } else { seq![s[0]] };
        if !crate::text::starts_with(s, "\\"@) {
            assert(s[0] != '\\') by {
                if s[0] == '\\' {
                    assert(s.subrange(0, 1) =~= "\\"@);
                }
            }
        }
        assert(r == head + rr);
        assert forall|i: int| 0 <= i < r.len() implies (#[trigger] r[i] as u32) < 128 && r[i] != '\\' by {
            if i < head.len() {
                assert(r[i] == head[i]);
            } else {
                assert(r[i] == rr[i - head.len()]);
                assert(rr.contains(rr[i - head.len()]) ==> rr[i - head.len()] != '\\');
            }
        }
    }
}

proof fn lemma_lowercase_keeps_no_backslash(s: Seq<char>)
    requires
        !s.contains('\\'),
    ensures
        !ascii_lowercase(s).contains('\\'),
{
    let l = ascii_lowercase(s);
    assert forall|i: int| 0 <= i < l.len() implies l[i] != '\\' by {
        assert(l[i] == crate::text::ascii_lower(s[i]));
        assert(s[i] != '\\');
    }
}

/// A path with every backslash turned into a slash.
pub open spec fn with_slashes(p: Seq<char>) -> Seq<char> {
    p.map_values(|c: char| if c == '\\' { '/' } else { c })
}

proof fn lemma_replace_is_with_slashes(s: Seq<char>)
    ensures
        replace(s, "\\"@, "/"@) == with_slashes(s),
    decreases s.len(),
{
    reveal_strlit("\\");
    reveal_strlit("/");
    if s.len() > 0 {
        let r = replace(s, "\\"@, "/"@);
        if crate::text::starts_with(s, "\\"@) {
            lemma_replace_is_with_slashes(s.skip(1));
            assert(s.skip(1) =~= s.drop_first());
            assert(s[0] == s.subrange(0, 1)[0]);
        } else {
            lemma_replace_is_with_slashes(s.drop_first());
            if s[0] == '\\' {
                assert(s.subrange(0, 1) =~= "\\"@);
            }
        }
        assert(r =~= with_slashes(s));
    }
}

/// A path that holds no whitespace and does not start with `.`, `/` or `\`
/// is neither trimmed nor stripped.
proof fn lemma_plain_path_untouched(p: Seq<char>)
    requires
        p.len() > 0,
        forall|i: int| 0 <= i < p.len() ==> !crate::text::is_ws(#[trigger] p[i]),
        p[0] != '.',
        p[0] != '/',
    ensures
        trim_start_matches(trim_start_matches(trim(p), "./"@), "/"@) == p,
{
    reveal_strlit("./");
    reveal_strlit("/");
    assert(crate::text::ws_prefix(p) == 0);
    assert(p.skip(0) =~= p);
    assert(crate::text::ws_suffix(p) == 0);
    assert(p.take(p.len() as int) =~= p);
    assert(trim(p) == p);
    if crate::text::starts_with(p, "./"@) {
        assert(p.subrange(0, 2)[0] == p[0]);
    }
    if crate::text::starts_with(p, "/"@) {
        assert(p.subrange(0, 1)[0] == p[0]);
    }
}

/// Windows separators do not change a component's key: a path that holds no
/// whitespace and does not start with `.`, `/` or `\` has the same key as
/// that path with every backslash turned into a slash.
pub proof fn lemma_backslashes_share_key(p: Seq<char>)
    requires
        p.len() > 0,
        forall|i: int| 0 <= i < p.len() ==> !crate::text::is_ws(#[trigger] p[i]),
        p[0] != '.',
        p[0] != '/',
        p[0] != '\\',
    ensures
        canonical_key(p) == canonical_key(with_slashes(p)),
{
    let q = with_slashes(p);
    assert forall|i: int| 0 <= i < q.len() implies !crate::text::is_ws(#[trigger] q[i]) by {
        assert(q[i] == if p[i] == '\\' { '/' } else { p[i] });
    }
    lemma_plain_path_untouched(p);
    lemma_plain_path_untouched(q);
    lemma_replace_is_with_slashes(p);
    lemma_replace_is_with_slashes(q);
    assert(with_slashes(q) =~= q);
}

pub fn canonicalize_path_chars(path: &[char]) -> (r: Vec<char>)
    ensures
        r@ == canonical_key(path@),
        all_ascii(path@) ==> !r@.contains('\\'),
{
    let t = trim_chars(path);
    let dot_slash = chars_of("./");
    let slash = chars_of("/");
    let backslash = chars_of("\\");
    let a = trim_start_matches_chars(&t, &dot_slash);
    let b = trim_start_matches_chars(&a, &slash);
    proof {
        reveal_strlit("\\");
    }
    let c = replace_chars(&b, &backslash, &slash);
    proof {
        if all_ascii(path@) {
            lemma_ascii_trim(path@);
            lemma_ascii_trim_start_matches(t@, dot_slash@);
            lemma_ascii_trim_start_matches(a@, slash@);
            lemma_replace_backslashes(b@);
            lemma_lowercase_keeps_no_backslash(c@);
        }
    }
    lowercase_chars(&c)
}

/// The key under which a path's component is registered. On an ASCII path
/// the key holds no backslash: Windows separators become slashes, so
/// `src\main.c` and `src/main.c` name one component.
pub fn canonicalize_path(path: &str) -> (r: String)
    ensures
        r@ == canonical_key(path@),
        all_ascii(path@) ==> !r@.contains('\\'),
{
    let p = chars_of(path);
    string_of(&canonicalize_path_chars(&p))
}

/// Last `/`-separated segment of `s`.
pub open spec fn last_segment(s: Seq<char>) -> Seq<char> {
    split_by(s, seq!['/']).last()
}

pub proof fn lemma_split_nonempty(s: Seq<char>, set: Seq<char>, i: int)
    requires
        0 <= i <= s.len(),
    ensures
        split_from(s, set, i).len() > 0,
    decreases s.len() + 1 - i,
{
    lemma_find_in_from(s, set, i);
    match find_in_from(s, set, i) {
        None => {},
        Some(j) => {
            lemma_split_nonempty(s, set, j + 1);
        },
    }
}

/// The file extensions that `canonical_ir_name` strips, in the order it strips them.
pub open spec fn strip_known_extensions(s: Seq<char>) -> Seq<char> {
    trim_end_matches(
        trim_end_matches(
            trim_end_matches(
                trim_end_matches(
                    trim_end_matches(
                        trim_end_matches(
                            trim_end_matches(trim_end_matches(s, ".c"@), ".h"@),
                            ".cpp"@,
                        ),
                        ".hpp"@,
                    ),
                    ".rs"@,
                ),
                ".py"@,
            ),
            ".ts"@,
        ),
        ".js"@,
    )
}

/// The IR name of a path: the lowercased file name with known source
/// extensions removed.
pub open spec fn ir_name(path: Seq<char>) -> Seq<char> {
    lowercase(strip_known_extensions(last_segment(replace(trim(path), "\\"@, "/"@))))
}

fn strip_ext(s: Vec<char>, ext: &str) -> (r: Vec<char>)
    ensures
        r@ == trim_end_matches(s@, ext@),
{
    let e = chars_of(ext);
    trim_end_matches_chars(&s, &e)
}

pub fn canonical_ir_name(path: &str) -> (r: String)
    ensures
        r@ == ir_name(path@),
{
    let p = chars_of(path);
    let t = trim_chars(&p);
    let backslash = chars_of("\\");
    let slash = chars_of("/");
    proof {
        reveal_strlit("/");
        reveal_strlit("\\");
    }
    let normalized = replace_chars(&t, &backslash, &slash);
    let seps = vec!['/'];
    let parts = split_by_chars(&normalized, &seps);
    proof {
        assert(seps@ =~= seq!['/']);
        lemma_split_nonempty(normalized@, seps@, 0);
    }
    let filename = slice_chars(&parts[parts.len() - 1], 0, parts[parts.len() - 1].len());
    proof {
        lemma_chars_deep_view(parts@[parts.len() - 1]);
        assert(parts.deep_view()[parts.len() - 1] == parts@[parts.len() - 1].deep_view());
        assert(filename@ =~= parts@[parts.len() - 1]@);
    }
    let n = strip_ext(filename, ".c");
    let n = strip_ext(n, ".h");
    let n = strip_ext(n, ".cpp");
    let n = strip_ext(n, ".hpp");
    let n = strip_ext(n, ".rs");
    let n = strip_ext(n, ".py");
    let n = strip_ext(n, ".ts");
    let n = strip_ext(n, ".js");
    string_of(&lowercase_chars(&n))
}

/// Trimmed, non-empty, lowercased pieces, in order.
pub open spec fn clean_pieces(ps: Seq<Seq<char>>) -> Seq<Seq<char>>
    decreases ps.len(),
{
    if ps.len() == 0 {
        seq![]
    } else {
        let r = clean_pieces(ps.drop_last());
        let t = trim(ps.last());
        if t.len() == 0 {
            r
        } else {
            r.push(lowercase(t))
        }
    }
}

/// The separators of a compound path list.
pub open spec fn path_separators() -> Seq<char> {
    seq![',', '|', '/', ' ']
}

/// The list of paths in a raw, possibly compound, path string.
pub open spec fn normalized_paths(raw: Seq<char>) -> Seq<Seq<char>> {
    clean_pieces(split_by(trim(raw), path_separators()))
}

/// Converts a vector of character vectors into strings.
pub fn strings_of(v: &Vec<Vec<char>>) -> (r: Vec<String>)
    ensures
        r.deep_view() == v.deep_view(),
{
    let mut r: Vec<String> = Vec::new();
    let mut i: usize = 0;
    while i < v.len()
        invariant
            i <= v.len(),
            r.deep_view() == v.deep_view().take(i as int),
        decreases v.len() - i,
    {
        let s = string_of(&v[i]);
        proof {
            lemma_chars_deep_view(v@[i as int]);
        }
        let ghost before = r.deep_view();
        r.push(s);
        assert(r.deep_view() =~= before.push(s@));
        assert(v.deep_view().take(i + 1) =~= v.deep_view().take(i as int).push(v.deep_view()[i as int]));
        i += 1;
    }
    assert(v.deep_view().take(v.len() as int) =~= v.deep_view());
    r
}

pub fn normalize_paths(raw: &str) -> (r: Vec<String>)
    ensures
        r.deep_view() == normalized_paths(raw@),
{
    let p = chars_of(raw);
    let t = trim_chars(&p);
    let seps = vec![',', '|', '/', ' '];
    assert(seps@ =~= path_separators());
    let parts = split_by_chars(&t, &seps);
    let mut out: Vec<Vec<char>> = Vec::new();
    let mut i: usize = 0;
    while i < parts.len()
        invariant
            i <= parts.len(),
            out.deep_view() == clean_pieces(parts.deep_view().take(i as int)),
        decreases parts.len() - i,
    {
        let piece = trim_chars(&parts[i]);
        proof {
            lemma_chars_deep_view(parts@[i as int]);
            let ps = parts.deep_view().take(i + 1);
            assert(ps.drop_last() =~= parts.deep_view().take(i as int));
            assert(ps.last() == parts@[i as int]@);
        }
        if piece.len() > 0 {
            let lo = lowercase_chars(&piece);
            push_piece(&mut out, lo);
        }
        i += 1;
    }
    assert(parts.deep_view().take(parts.len() as int) =~= parts.deep_view());
    strings_of(&out)
}

/// Whether some character sequence of `ps` contains `p`.
pub open spec fn any_contains(ps: Seq<Seq<char>>, p: Seq<char>) -> bool {
    exists|k: int| 0 <= k < ps.len() && contains(#[trigger] ps[k], p)
}

/// A path string naming several files, at least one of them C source or header.
pub open spec fn compound_path(path: Seq<char>) -> bool {
    let segs = split_by(trim(path), seq![',', '|']);
    segs.len() > 1 && (any_contains(segs, ".c"@) || any_contains(segs, ".h"@))
}

pub fn is_compound_path(path: &str) -> (b: bool)
    ensures
        b == compound_path(path@),
{
    let p = chars_of(path);
    let t = trim_chars(&p);
    let seps = vec![',', '|'];
    assert(seps@ =~= seq![',', '|']);
    let segs = split_by_chars(&t, &seps);
    if segs.len() <= 1 {
        return false;
    }
    let dc = chars_of(".c");
    let dh = chars_of(".h");
    let mut i: usize = 0;
    while i < segs.len()
        invariant
            i <= segs.len(),
            segs.len() > 1,
            segs.deep_view() == split_by(trim(path@), seq![',', '|']),
            dc@ == ".c"@,
            dh@ == ".h"@,
            forall|k: int|
                0 <= k < i ==> !contains(#[trigger] segs.deep_view()[k], ".c"@) && !contains(
                    segs.deep_view()[k],
                    ".h"@,
                ),
        decreases segs.len() - i,
    {
        proof {
            lemma_chars_deep_view(segs@[i as int]);
        }
        if contains_chars(&segs[i], &dc) || contains_chars(&segs[i], &dh) {
            assert(segs.deep_view()[i as int] == segs@[i as int]@);
            proof {
                let ps = segs.deep_view();
                assert(ps == split_by(trim(path@), seq![',', '|']));
                assert(ps.len() > 1);
                if contains(ps[i as int], ".c"@) {
                    assert(any_contains(ps, ".c"@));
                } else {
                    assert(any_contains(ps, ".h"@));
                }
            }
            return true;
        }
        i += 1;
    }
    false
}

/// `char::is_control`: general category Cc.
pub open spec fn is_control(c: char) -> bool {
    c <= '\u{1F}' || ('\u{7F}' <= c && c <= '\u{9F}')
}

/// A character that survives sanitising: not a control character, or one
/// of newline, carriage return and tab.
pub open spec fn keeps_char(c: char) -> bool {
    !is_control(c) || c == '\n' || c == '\r' || c == '\t'
}

/// The characters of `s` that survive sanitising, in order.
pub open spec fn sanitized(s: Seq<char>) -> Seq<char>
    decreases s.len(),
{
    if s.len() == 0 {
        seq![]
    } else if keeps_char(s.last()) {
        sanitized(s.drop_last()).push(s.last())
    } else {
        sanitized(s.drop_last())
    }
}

pub fn sanitize_llm_output(raw: &str) -> (r: String)
    ensures
        r@ == sanitized(raw@),
{
    let s = chars_of(raw);
    let mut out: Vec<char> = Vec::new();
    let mut i: usize = 0;
    while i < s.len()
        invariant
            i <= s.len(),
            out@ == sanitized(s@.take(i as int)),
        decreases s.len() - i,
    {
        let c = s[i];
        proof {
            assert(s@.take(i + 1).drop_last() =~= s@.take(i as int));
        }
        if !(c <= '\u{1F}' || ('\u{7F}' <= c && c <= '\u{9F}')) || c == '\n' || c == '\r' || c
            == '\t' {
            out.push(c);
        }
        i += 1;
    }
    assert(s@.take(s.len() as int) =~= s@);
    string_of(&out)
}

} // verus!
