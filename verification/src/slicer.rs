//! The header slicer: a proposed header (`.h`, `.hpp`) that defines
//! functions is split into a header of declarations and a companion source
//! file that holds the bodies.
use vstd::prelude::*;
use crate::paths::{file_name, path_file_name};
use crate::text::{
    chars_of, contains, contains_chars, ends_with, ends_with_chars, extend_chars, find, find_chars,
    join, join_chars, lemma_chars_deep_view, lemma_find_in_from, lemma_nested_deep_view, lines,
    lines_from, lines_of, push_piece, push_str, replace, replace_chars, slice_chars, starts_with,
    starts_with_chars, string_of, strip_cr, trim, trim_chars, trim_end_matches,
    trim_end_matches_chars, find_in_from, last_index, last_index_of,
};

verus! {

// ---------------------------------------------------------------------------
// Character counts and line lengths
// ---------------------------------------------------------------------------

/// How often `c` occurs in `s`.
pub open spec fn char_count(s: Seq<char>, c: char) -> int
    decreases s.len(),
{
    if s.len() == 0 {
        0
    } else {
        char_count(s.drop_last(), c) + if s.last() == c { 1int } else { 0int }
    }
}

fn count_char(s: &[char], c: char) -> (n: i32)
    requires
        s@.len() <= i32::MAX,
    ensures
        n == char_count(s@, c),
        0 <= n <= s@.len(),
{
    let mut n: i32 = 0;
    let mut i: usize = 0;
    while i < s.len()
        invariant
            i <= s@.len(),
            s@.len() <= i32::MAX,
            n == char_count(s@.take(i as int), c),
            0 <= n <= i,
        decreases s.len() - i,
    {
        assert(s@.take(i + 1).drop_last() =~= s@.take(i as int));
        if s[i] == c {
            n += 1;
        }
        i += 1;
    }
    assert(s@.take(s@.len() as int) =~= s@);
    n
}

/// The summed length of some lines.
pub open spec fn total_len(ls: Seq<Seq<char>>) -> int
    decreases ls.len(),
{
    if ls.len() == 0 {
        0
    } else {
        total_len(ls.drop_last()) + ls.last().len()
    }
}

proof fn lemma_total_len_concat(a: Seq<Seq<char>>, b: Seq<Seq<char>>)
    ensures
        total_len(a + b) == total_len(a) + total_len(b),
        total_len(b) >= 0,
    decreases b.len(),
{
    if b.len() == 0 {
        assert(a + b =~= a);
    } else {
        lemma_total_len_concat(a, b.drop_last());
        assert((a + b).drop_last() =~= a + b.drop_last());
    }
}

proof fn lemma_total_len_take(ls: Seq<Seq<char>>, i: int)
    requires
        0 <= i < ls.len(),
    ensures
        total_len(ls.take(i + 1)) == total_len(ls.take(i)) + ls[i].len(),
        total_len(ls.take(i + 1)) <= total_len(ls),
{
    assert(ls.take(i + 1).drop_last() =~= ls.take(i));
    lemma_total_len_concat(ls.take(i + 1), ls.skip(i + 1));
    assert(ls.take(i + 1) + ls.skip(i + 1) =~= ls);
}

/// The lines of a text are no longer, together, than the text.
proof fn lemma_lines_total(s: Seq<char>, i: int)
    requires
        0 <= i,
    ensures
        total_len(lines_from(s, i)) <= if i < s.len() { s.len() - i } else { 0 },
    decreases s.len() - i,
{
    if i < s.len() {
        lemma_find_in_from(s, seq!['\n'], i);
        match find_in_from(s, seq!['\n'], i) {
            None => {
                let x = s.subrange(i, s.len() as int);
                assert(lines_from(s, i) == seq![x]);
                assert(seq![x].drop_last() =~= Seq::<Seq<char>>::empty());
                assert(total_len(Seq::<Seq<char>>::empty()) == 0);
                assert(total_len(seq![x]) == x.len());
            },
            Some(j) => {
                lemma_lines_total(s, j + 1);
                let x = strip_cr(s.subrange(i, j));
                assert(lines_from(s, i) == seq![x] + lines_from(s, j + 1));
                lemma_total_len_concat(seq![x], lines_from(s, j + 1));
                assert(seq![x].drop_last() =~= Seq::<Seq<char>>::empty());
                assert(total_len(Seq::<Seq<char>>::empty()) == 0);
                assert(total_len(seq![x]) == x.len());
                assert(x.len() <= j - i);
            },
        }
    }
}

// ---------------------------------------------------------------------------
// Looking ahead
// ---------------------------------------------------------------------------

/// Index of the first line from `k` on equal to `l` (the number of lines
/// where none is).
pub open spec fn index_from(ls: Seq<Seq<char>>, l: Seq<char>, k: int) -> int
    decreases ls.len() - k,
{
    if k < 0 || k >= ls.len() {
        ls.len() as int
    } else if ls[k] == l {
        k
    } else {
        index_from(ls, l, k + 1)
    }
}

/// The first line from `j` on that, trimmed, is neither empty nor a `//`
/// comment; trimmed.
pub open spec fn next_code_from(ls: Seq<Seq<char>>, j: int) -> Option<Seq<char>>
    decreases ls.len() - j,
{
    if j < 0 || j >= ls.len() {
        None
    } else {
        let t = trim(ls[j]);
        if t.len() > 0 && !starts_with(t, "//"@) {
            Some(t)
        } else {
            next_code_from(ls, j + 1)
        }
    }
}

/// A line that opens a function definition: it has `)`, and `{` either on
/// it or starting the next code line after the first line equal to it.
pub open spec fn opens_definition(ls: Seq<Seq<char>>, line: Seq<char>) -> bool {
    let t = trim(line);
    contains(t, ")"@) && (contains(t, "{"@) || match next_code_from(ls, index_from(ls, line, 0) + 1) {
        Some(n) => starts_with(n, "{"@),
        None => false,
    })
}

fn index_of_line(ls: &Vec<Vec<char>>, l: &[char]) -> (k: usize)
    ensures
        k == index_from(ls.deep_view(), l@, 0),
        k <= ls@.len(),
{
    let ghost lv = ls.deep_view();
    let mut k: usize = 0;
    while k < ls.len()
        invariant
            lv == ls.deep_view(),
            k <= lv.len(),
            index_from(lv, l@, 0) == index_from(lv, l@, k as int),
        decreases ls.len() - k,
    {
        proof {
            lemma_chars_deep_view(ls@[k as int]);
        }
        if crate::text::chars_eq(&ls[k], l) {
            return k;
        }
        k += 1;
    }
    k
}

fn next_code_line(ls: &Vec<Vec<char>>, j: usize) -> (r: Option<Vec<char>>)
    ensures
        match r {
            Some(v) => next_code_from(ls.deep_view(), j as int) == Some(v@),
            None => next_code_from(ls.deep_view(), j as int) is None,
        },
{
    let ghost lv = ls.deep_view();
    let slashes = chars_of("//");
    let mut k: usize = j;
    while k < ls.len()
        invariant
            lv == ls.deep_view(),
            slashes@ == "//"@,
            j <= k,
            next_code_from(lv, j as int) == next_code_from(lv, k as int),
        decreases ls.len() - k,
    {
        proof {
            lemma_chars_deep_view(ls@[k as int]);
        }
        let t = trim_chars(&ls[k]);
        if t.len() > 0 && !starts_with_chars(&t, &slashes) {
            return Some(t);
        }
        k += 1;
    }
    None
}

// ---------------------------------------------------------------------------
// One line at a time
// ---------------------------------------------------------------------------

/// Where the slicer stands after some lines: the header lines kept, the
/// source lines made, whether a body is open, the brace depth, the open
/// function's signature and the lines of its body so far.
pub struct SliceState {
    pub header: Seq<Seq<char>>,
    pub cpp: Seq<Seq<char>>,
    pub in_body: bool,
    pub depth: int,
    pub sig: Option<Seq<char>>,
    pub buf: Seq<Seq<char>>,
}

pub open spec fn initial_slice() -> SliceState {
    SliceState { header: seq![], cpp: seq![], in_body: false, depth: 0, sig: None, buf: seq![] }
}

/// The signature on a definition line: what stands before its first `{`.
pub open spec fn signature(t: Seq<char>) -> Seq<char> {
    match find(t, "{"@) {
        Some(p) => trim(t.subrange(0, p)),
        None => trim(t),
    }
}

/// The declaration that replaces a definition in the header.
pub open spec fn declaration(sig: Seq<char>) -> Seq<char> {
    if ends_with(sig, ")"@) {
        sig + ";"@
    } else {
        trim(trim_end_matches(sig, "{"@)) + ";"@
    }
}

/// The body of a definition opened and closed on one line, indented, when
/// it is not blank.
pub open spec fn inline_body(t: Seq<char>) -> Seq<Seq<char>> {
    match find(t, "{"@) {
        Some(start) => match last_index(t.subrange(start, t.len() as int), '}') {
            Some(e) => {
                let body = trim(t.subrange(start + 1, start + e));
                if body.len() > 0 {
                    seq!["    "@ + body]
                } else {
                    seq![]
                }
            },
            None => seq![],
        },
        None => seq![],
    }
}

/// The lines of a body that go to the source file: those that, trimmed,
/// are neither empty nor a preprocessor line.
pub open spec fn body_lines(buf: Seq<Seq<char>>) -> Seq<Seq<char>>
    decreases buf.len(),
{
    if buf.len() == 0 {
        seq![]
    } else {
        let t = trim(buf.last());
        body_lines(buf.drop_last()) + if t.len() > 0 && !starts_with(t, "#"@) {
            seq![buf.last()]
        } else {
            seq![]
        }
    }
}

/// The slicer's step on one line of the header text `ls`.
pub open spec fn slice_step(ls: Seq<Seq<char>>, st: SliceState, line: Seq<char>) -> SliceState {
    let t = trim(line);
    if !st.in_body {
        if starts_with(t, "#"@) || t.len() == 0 {
            SliceState { header: st.header.push(line), ..st }
        } else if opens_definition(ls, line) {
            let sig = signature(t);
            let header = st.header.push(declaration(sig));
            if contains(t, "{"@) {
                let d = char_count(t, '{') - char_count(t, '}');
                if d <= 0 {
                    SliceState {
                        header,
                        cpp: st.cpp.push(sig + " {"@) + inline_body(t) + seq!["}"@],
                        in_body: false,
                        depth: d,
                        sig: None,
                        buf: seq![line],
                    }
                } else {
                    SliceState { header, cpp: st.cpp, in_body: true, depth: d, sig: Some(sig), buf: seq![line] }
                }
            } else {
                SliceState { header, cpp: st.cpp, in_body: true, depth: 0, sig: Some(sig), buf: seq![] }
            }
        } else {
            SliceState { header: st.header.push(line), ..st }
        }
    } else {
        let buf = st.buf.push(line);
        let d = st.depth + char_count(t, '{') - char_count(t, '}');
        if d <= 0 {
            let cpp = match st.sig {
                Some(s) => st.cpp.push(s + " {"@) + body_lines(buf) + seq!["}"@],
                None => st.cpp,
            };
            SliceState { cpp, in_body: false, depth: d, sig: None, buf, ..st }
        } else {
            SliceState { buf, depth: d, ..st }
        }
    }
}

/// The slicer after the first `n` lines of `ls`.
pub open spec fn slice_lines(ls: Seq<Seq<char>>, n: int) -> SliceState
    decreases n,
{
    if n <= 0 {
        initial_slice()
    } else {
        slice_step(ls, slice_lines(ls, n - 1), ls[n - 1])
    }
}

// ---------------------------------------------------------------------------
// The result
// ---------------------------------------------------------------------------

/// The companion source file's path: `include/` becomes `src/`, then `.hpp`
/// and `.h` become `.cpp`, in that order (so `x.hpp` and `x.h` both give
/// `x.cpp`).
pub open spec fn companion_path(target: Seq<char>) -> Seq<char> {
    replace(replace(replace(target, "include/"@, "src/"@), ".hpp"@, ".cpp"@), ".h"@, ".cpp"@)
}

/// The companion source file: it includes the header by its file name and
/// the C standard headers, then holds the bodies.
pub open spec fn companion_source(target: Seq<char>, cpp: Seq<Seq<char>>) -> Seq<char> {
    let inc = match file_name(target) {
        Some(n) => n,
        None => target,
    };
    "#include \""@ + inc + "\"\n"@ + "#include <stdio.h>\n#include <stdlib.h>\n#include <string.h>\n"@
        + "\n"@ + join(cpp, "\n"@) + "\n"@
}

/// The cleaned header, the companion source and its path, where a header
/// defines at least one function completely.
pub open spec fn sliced_header(target: Seq<char>, code: Seq<char>) -> Option<(Seq<char>, Seq<char>, Seq<char>)> {
    if !ends_with(target, ".h"@) && !ends_with(target, ".hpp"@) {
        None
    } else {
        let ls = lines(code);
        let st = slice_lines(ls, ls.len() as int);
        if st.cpp.len() == 0 {
            None
        } else {
            Some((join(st.header, "\n"@), companion_source(target, st.cpp), companion_path(target)))
        }
    }
}

fn inline_body_exec(t: &[char]) -> (r: Vec<Vec<char>>)
    ensures
        r.deep_view() == inline_body(t@),
{
    let mut r: Vec<Vec<char>> = Vec::new();
    proof {
        crate::text::lemma_find(t@, "{"@);
    }
    match find_chars(t, &chars_of("{")) {
        Some(start) => {
            let rest = slice_chars(t, start, t.len());
            proof {
                reveal_strlit("{");
                assert(rest@[0] == '{');
            }
            match last_index_of(&rest, '}') {
                Some(e) => {
                    let body = trim_chars(&slice_chars(t, start + 1, start + e));
                    if body.len() > 0 {
                        let mut line = chars_of("    ");
                        extend_chars(&mut line, &body);
                        push_piece(&mut r, line);
                        assert(r.deep_view() =~= seq!["    "@ + body@]);
                    } else {
                        assert(r.deep_view() =~= Seq::<Seq<char>>::empty());
                    }
                },
                None => {
                    assert(r.deep_view() =~= Seq::<Seq<char>>::empty());
                },
            }
        },
        None => {},
    }
    assert(r.deep_view() =~= inline_body(t@));
    r
}

fn body_lines_exec(buf: &Vec<Vec<char>>) -> (r: Vec<Vec<char>>)
    ensures
        r.deep_view() == body_lines(buf.deep_view()),
{
    let ghost bv = buf.deep_view();
    let hash = chars_of("#");
    let mut r: Vec<Vec<char>> = Vec::new();
    let mut i: usize = 0;
    while i < buf.len()
        invariant
            bv == buf.deep_view(),
            hash@ == "#"@,
            i <= bv.len(),
            r.deep_view() == body_lines(bv.take(i as int)),
        decreases buf.len() - i,
    {
        proof {
            lemma_chars_deep_view(buf@[i as int]);
            assert(bv.take(i + 1).drop_last() =~= bv.take(i as int));
        }
        let t = trim_chars(&buf[i]);
        let ghost before = r.deep_view();
        assert(bv.take(i + 1).last() == bv[i as int]);
        if t.len() > 0 && !starts_with_chars(&t, &hash) {
            let piece = slice_chars(&buf[i], 0, buf[i].len());
            assert(piece@ =~= bv[i as int]);
            push_piece(&mut r, piece);
            assert(r.deep_view() =~= before + seq![bv[i as int]]);
        } else {
            assert(r.deep_view() =~= before + Seq::<Seq<char>>::empty());
        }
        assert(r.deep_view() =~= body_lines(bv.take(i + 1)));
        i += 1;
    }
    assert(bv.take(bv.len() as int) =~= bv);
    r
}

fn extend_lines(dst: &mut Vec<Vec<char>>, src: Vec<Vec<char>>)
    ensures
        final(dst).deep_view() == old(dst).deep_view() + src.deep_view(),
{
    let ghost d0 = dst.deep_view();
    let ghost sv = src.deep_view();
    let mut i: usize = 0;
    while i < src.len()
        invariant
            sv == src.deep_view(),
            i <= sv.len(),
            dst.deep_view() == d0 + sv.take(i as int),
        decreases src.len() - i,
    {
        proof {
            lemma_chars_deep_view(src@[i as int]);
        }
        let ghost before = dst.deep_view();
        let piece = slice_chars(&src[i], 0, src[i].len());
        assert(piece@ =~= sv[i as int]);
        push_piece(dst, piece);
        assert(d0 + sv.take(i + 1) =~= before.push(sv[i as int]));
        i += 1;
    }
    assert(sv.take(sv.len() as int) =~= sv);
}

/// The spec state that the exec state stands for.
pub open spec fn state_view(
    header: Seq<Seq<char>>,
    cpp: Seq<Seq<char>>,
    in_body: bool,
    depth: i32,
    sig: Option<Vec<char>>,
    buf: Seq<Seq<char>>,
) -> SliceState {
    SliceState {
        header,
        cpp,
        in_body,
        depth: depth as int,
        sig: match sig {
            Some(v) => Some(v@),
            None => None,
        },
        buf,
    }
}

/// Splits a proposed header that defines functions: each definition that
/// closes becomes a declaration in the header and a body in the companion
/// source file. `None` where the target is no header or nothing was split.
/// The caller writes the companion file under its sandbox root.
#[verifier::rlimit(60)]
pub fn autonomous_header_slicer(target_file: &str, proposed_code: &str) -> (r: Option<(String, String, String)>)
    requires
        proposed_code@.len() <= i32::MAX,
    ensures
        match r {
            Some((h, c, p)) => sliced_header(target_file@, proposed_code@) == Some((h@, c@, p@)),
            None => sliced_header(target_file@, proposed_code@) is None,
        },
{
    let tv = chars_of(target_file);
    if !ends_with_chars(&tv, &chars_of(".h")) && !ends_with_chars(&tv, &chars_of(".hpp")) {
        return None;
    }
    let cv = chars_of(proposed_code);
    let ls = lines_of(&cv);
    let ghost lv = ls.deep_view();
    proof {
        lemma_lines_total(cv@, 0);
        lemma_total_len_concat(Seq::<Seq<char>>::empty(), lv);
        assert(lv.take(0) =~= Seq::<Seq<char>>::empty());
    }
    let hash = chars_of("#");
    let open = chars_of("{");
    let close_paren = chars_of(")");
    let mut header: Vec<Vec<char>> = Vec::new();
    let mut cpp: Vec<Vec<char>> = Vec::new();
    let mut in_body = false;
    let mut depth: i32 = 0;
    let mut sig: Option<Vec<char>> = None;
    let mut buf: Vec<Vec<char>> = Vec::new();
    let mut i: usize = 0;
    assert(header.deep_view() =~= Seq::<Seq<char>>::empty());
    assert(cpp.deep_view() =~= Seq::<Seq<char>>::empty());
    assert(buf.deep_view() =~= Seq::<Seq<char>>::empty());
    while i < ls.len()
        invariant
            lv == ls.deep_view(),
            lv == lines(proposed_code@),
            total_len(lv) <= proposed_code@.len() <= i32::MAX,
            hash@ == "#"@,
            open@ == "{"@,
            close_paren@ == ")"@,
            i <= lv.len(),
            state_view(header.deep_view(), cpp.deep_view(), in_body, depth, sig, buf.deep_view())
                == slice_lines(lv, i as int),
            -total_len(lv.take(i as int)) <= depth <= total_len(lv.take(i as int)),
        decreases ls.len() - i,
    {
        proof {
            lemma_chars_deep_view(ls@[i as int]);
            lemma_total_len_take(lv, i as int);
            crate::text::lemma_ws_prefix_bound(lv[i as int]);
            crate::text::lemma_ws_suffix_bound(crate::text::trim_start(lv[i as int]));
        }
        let ghost st0 = slice_lines(lv, i as int);
        let ghost h0 = header.deep_view();
        let ghost c0 = cpp.deep_view();
        let ghost l = lv[i as int];
        let line = &ls[i];
        let t = trim_chars(line);
        assert(line@ == l);
        assert(t@.len() <= l.len());
        let whole = slice_chars(line, 0, line.len());
        assert(whole@ =~= l);
        if !in_body {
            if starts_with_chars(&t, &hash) || t.len() == 0 {
                push_piece(&mut header, whole);
                assert(state_view(header.deep_view(), cpp.deep_view(), in_body, depth, sig, buf.deep_view())
                    =~= slice_step(lv, st0, l));
            } else {
                let has_paren = contains_chars(&t, &close_paren);
                let has_open = contains_chars(&t, &open);
                let opens = if !has_paren {
                    false
                } else if has_open {
                    true
                } else {
                    let k = index_of_line(&ls, line);
                    let next = if k < ls.len() { next_code_line(&ls, k + 1) } else { None };
                    proof {
                        if k >= ls.len() {
                            assert(next_code_from(lv, k + 1) is None);
                        }
                    }
                    match next {
                        Some(n) => starts_with_chars(&n, &open),
                        None => false,
                    }
                };
                assert(opens == opens_definition(lv, l));
                if opens {
                    proof {
                        crate::text::lemma_find(t@, "{"@);
                    }
                    let s = match find_chars(&t, &open) {
                        Some(p) => trim_chars(&slice_chars(&t, 0, p)),
                        None => trim_chars(&t),
                    };
                    assert(s@ == signature(t@));
                    let decl = if ends_with_chars(&s, &close_paren) {
                        let mut d = slice_chars(&s, 0, s.len());
                        push_str(&mut d, ";");
                        d
                    } else {
                        let mut d = trim_chars(&trim_end_matches_chars(&s, &open));
                        push_str(&mut d, ";");
                        d
                    };
                    assert(decl@ == declaration(s@));
                    push_piece(&mut header, decl);
                    let ghost h1 = header.deep_view();
                    assert(h1 == h0.push(declaration(signature(t@))));
                    if has_open {
                        let o = count_char(&t, '{');
                        let c = count_char(&t, '}');
                        let d = o - c;
                        if d <= 0 {
                            let mut first = slice_chars(&s, 0, s.len());
                            push_str(&mut first, " {");
                            assert(first@ =~= s@ + " {"@);
                            push_piece(&mut cpp, first);
                            let ghost c1 = cpp.deep_view();
                            let ib = inline_body_exec(&t);
                            extend_lines(&mut cpp, ib);
                            let ghost c2 = cpp.deep_view();
                            assert(c2 == c1 + inline_body(t@));
                            push_piece(&mut cpp, chars_of("}"));
                            assert(cpp.deep_view() == c2.push("}"@));
                            assert(cpp.deep_view() =~= c0.push(s@ + " {"@) + inline_body(t@) + seq!["}"@]);
                            in_body = false;
                            sig = None;
                        } else {
                            in_body = true;
                            sig = Some(s);
                        }
                        depth = d;
                        buf = Vec::new();
                        push_piece(&mut buf, whole);
                        assert(buf.deep_view() =~= seq![l]);
                        assert(state_view(header.deep_view(), cpp.deep_view(), in_body, depth, sig, buf.deep_view())
                            =~= slice_step(lv, st0, l));
                    } else {
                        in_body = true;
                        depth = 0;
                        sig = Some(s);
                        buf = Vec::new();
                        assert(buf.deep_view() =~= Seq::<Seq<char>>::empty());
                        assert(state_view(header.deep_view(), cpp.deep_view(), in_body, depth, sig, buf.deep_view())
                            =~= slice_step(lv, st0, l));
                    }
                } else {
                    push_piece(&mut header, whole);
                    assert(state_view(header.deep_view(), cpp.deep_view(), in_body, depth, sig, buf.deep_view())
                        =~= slice_step(lv, st0, l));
                }
            }
        } else {
            push_piece(&mut buf, whole);
            let o = count_char(&t, '{');
            let c = count_char(&t, '}');
            depth = depth + o - c;
            if depth <= 0 {
                match &sig {
                    Some(s) => {
                        let mut first = slice_chars(s, 0, s.len());
                        push_str(&mut first, " {");
                        assert(first@ =~= s@ + " {"@);
                        push_piece(&mut cpp, first);
                        let ghost c1 = cpp.deep_view();
                        let bl = body_lines_exec(&buf);
                        extend_lines(&mut cpp, bl);
                        let ghost c2 = cpp.deep_view();
                        assert(c2 == c1 + body_lines(buf.deep_view()));
                        push_piece(&mut cpp, chars_of("}"));
                        assert(cpp.deep_view() == c2.push("}"@));
                        assert(cpp.deep_view() =~= c0.push(s@ + " {"@) + body_lines(buf.deep_view()) + seq!["}"@]);
                    },
                    None => {},
                }
                in_body = false;
                sig = None;
            }
            assert(state_view(header.deep_view(), cpp.deep_view(), in_body, depth, sig, buf.deep_view())
                =~= slice_step(lv, st0, l));
        }
        proof {
            assert(slice_lines(lv, i + 1) == slice_step(lv, st0, l));
        }
        i += 1;
    }
    let st_cpp_len = cpp.len();
    if st_cpp_len == 0 {
        return None;
    }
    proof {
        lemma_nested_deep_view(header);
        lemma_nested_deep_view(cpp);
    }
    let h = join_chars(&header, &chars_of("\n"));
    let inc = match path_file_name(target_file) {
        Some(n) => n,
        None => crate::text::owned(target_file),
    };
    let mut src = chars_of("#include \"");
    push_str(&mut src, inc.as_str());
    push_str(&mut src, "\"\n");
    push_str(&mut src, "#include <stdio.h>\n#include <stdlib.h>\n#include <string.h>\n");
    push_str(&mut src, "\n");
    let body = join_chars(&cpp, &chars_of("\n"));
    extend_chars(&mut src, &body);
    push_str(&mut src, "\n");
    let inc_dir = chars_of("include/");
    let h_ext = chars_of(".h");
    let hpp_ext = chars_of(".hpp");
    proof {
        reveal_strlit("include/");
        reveal_strlit(".h");
        reveal_strlit(".hpp");
    }
    let p1 = replace_chars(&tv, &inc_dir, &chars_of("src/"));
    let p2 = replace_chars(&p1, &hpp_ext, &chars_of(".cpp"));
    let p3 = replace_chars(&p2, &h_ext, &chars_of(".cpp"));
    assert(src@ =~= companion_source(target_file@, cpp.deep_view()));
    Some((string_of(&h), string_of(&src), string_of(&p3)))
}

} // verus!
