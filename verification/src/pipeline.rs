//! The decisions of the execution pipeline: normalising agent output,
//! judging proposed code, and the retry / promotion state machine.
use vstd::prelude::*;
use crate::json::{JsonValue, json_of, parse_json, str_member};
use crate::text::{owned, 
    byte_len, chars_of, contains, contains_chars, ends_with, ends_with_chars, has_char,
    join, join_chars, lines, lines_of, starts_with, starts_with_chars, string_of, trim,
    trim_chars, utf8_len, split_by, split_by_chars, lemma_chars_deep_view, extend_chars,
    lemma_nested_deep_view, push_piece, slice_chars,
};

verus! {

/// Lifecycle of a sandboxed file.
#[derive(Clone, Copy, Debug, PartialEq, Eq, Structural)]
pub enum SandboxState {
    Clean,
    Proposed,
    Rejected,
    Contaminated,
    Promoted,
}

impl SandboxState {
    pub fn as_str(&self) -> (r: &'static str)
        ensures
            r@ == match *self {
                SandboxState::Clean => "CLEAN"@,
                SandboxState::Proposed => "PROPOSED"@,
                SandboxState::Rejected => "REJECTED"@,
                SandboxState::Contaminated => "CONTAMINATED"@,
                SandboxState::Promoted => "PROMOTED"@,
            },
    {
        match self {
            SandboxState::Clean => "CLEAN",
            SandboxState::Proposed => "PROPOSED",
            SandboxState::Rejected => "REJECTED",
            SandboxState::Contaminated => "CONTAMINATED",
            SandboxState::Promoted => "PROMOTED",
        }
    }
}

/// What an agent's output converges to.
#[derive(Clone, Debug)]
pub struct NormalizedOutput {
    pub decision: Option<String>,
    pub feedback: Option<String>,
    pub code: Option<String>,
}

/// The view of an optional string.
pub open spec fn opt_view(o: Option<String>) -> Option<Seq<char>> {
    match o {
        Some(s) => Some(s@),
        None => None,
    }
}

impl NormalizedOutput {
    /// Decision, feedback and code as character sequences.
    pub open spec fn view(&self) -> (Option<Seq<char>>, Option<Seq<char>>, Option<Seq<char>>) {
        (opt_view(self.decision), opt_view(self.feedback), opt_view(self.code))
    }

    pub fn is_approve(&self) -> (b: bool)
        ensures
            b == (opt_view(self.decision) == Some("APPROVE"@)),
    {
        match &self.decision {
            Some(d) => crate::ordmap::str_eq(d.as_str(), "APPROVE"),
            None => false,
        }
    }
}

// ---------------------------------------------------------------------------
// Reasoning blocks
// ---------------------------------------------------------------------------

/// Appends a kept line: a newline goes before it only when something is already there.
pub open spec fn append_line(acc: Seq<char>, line: Seq<char>) -> Seq<char> {
    if acc.len() > 0 {
        acc.push('\n') + line
    } else {
        acc + line
    }
}

/// The lines outside `<REASONING>` ... `</REASONING>` markers, from `ls[i..]` on.
pub open spec fn strip_fold(ls: Seq<Seq<char>>, i: int, skip: bool, acc: Seq<char>) -> Seq<char>
    decreases ls.len() - i,
{
    if i < 0 || i >= ls.len() {
        acc
    } else {
        let t = trim(ls[i]);
        if starts_with(t, "<REASONING>"@) {
            strip_fold(ls, i + 1, true, acc)
        } else if starts_with(t, "</REASONING>"@) {
            strip_fold(ls, i + 1, false, acc)
        } else if !skip {
            strip_fold(ls, i + 1, skip, append_line(acc, ls[i]))
        } else {
            strip_fold(ls, i + 1, skip, acc)
        }
    }
}

pub open spec fn stripped_reasoning(raw: Seq<char>) -> Seq<char> {
    strip_fold(lines(raw), 0, false, seq![])
}

fn append_line_chars(acc: &mut Vec<char>, line: &[char])
    ensures
        final(acc)@ == append_line(old(acc)@, line@),
{
    if acc.len() > 0 {
        acc.push('\n');
    }
    extend_chars(acc, line);
}

/// Lines of the raw text outside `<REASONING>` blocks, joined by newlines.
pub fn strip_reasoning_block_chars(raw: &[char]) -> (r: Vec<char>)
    ensures
        r@ == stripped_reasoning(raw@),
{
    let ls = lines_of(raw);
    let open_tag = chars_of("<REASONING>");
    let close_tag = chars_of("</REASONING>");
    let mut result: Vec<char> = Vec::new();
    let mut skip = false;
    let mut i: usize = 0;
    while i < ls.len()
        invariant
            i <= ls.len(),
            open_tag@ == "<REASONING>"@,
            close_tag@ == "</REASONING>"@,
            strip_fold(ls.deep_view(), 0, false, seq![]) == strip_fold(
                ls.deep_view(),
                i as int,
                skip,
                result@,
            ),
        decreases ls.len() - i,
    {
        proof {
            lemma_chars_deep_view(ls@[i as int]);
        }
        let t = trim_chars(&ls[i]);
        if starts_with_chars(&t, &open_tag) {
            skip = true;
        } else if starts_with_chars(&t, &close_tag) {
            skip = false;
        } else if !skip {
            append_line_chars(&mut result, &ls[i]);
        }
        i += 1;
    }
    result
}

pub fn strip_reasoning_block(raw: &str) -> (r: String)
    ensures
        r@ == stripped_reasoning(raw@),
{
    let v = chars_of(raw);
    string_of(&strip_reasoning_block_chars(&v))
}

// ---------------------------------------------------------------------------
// Header hallucination guard
// ---------------------------------------------------------------------------

/// The text of a line before its first `{`.
pub open spec fn before_brace(t: Seq<char>) -> Seq<char> {
    split_by(t, seq!['{'])[0]
}

/// A line that looks like the start of a function definition (a body opens after `)`).
pub open spec fn is_body_line(line: Seq<char>) -> bool {
    let t = trim(line);
    let b = before_brace(t);
    let bt = trim(b);
    &&& !(starts_with(t, "#"@) || starts_with(t, "//"@) || starts_with(t, "/*"@) || starts_with(
        t,
        "*"@,
    ) || t.len() == 0)
    &&& t.contains('{')
    &&& b.contains(')')
    &&& !starts_with(bt, "struct"@)
    &&& !starts_with(bt, "enum"@)
    &&& !starts_with(bt, "union"@)
    &&& !starts_with(bt, "class"@)
}

/// The proposed code holds some function body.
pub open spec fn has_function_body(code: Seq<char>) -> bool {
    exists|k: int| 0 <= k < lines(code).len() && is_body_line(#[trigger] lines(code)[k])
}

/// A rejection of a header is a hallucination when the header holds only declarations.
pub open spec fn header_hallucination(target: Seq<char>, code: Seq<char>) -> bool {
    (ends_with(target, ".h"@) || ends_with(target, ".hpp"@)) && !has_function_body(code)
}

/// A `.hpp` header is judged exactly as a `.h` header of the same stem: a
/// rejection of either is a hallucination just when the proposal opens no
/// function body. A `.c` source is never such a header.
pub proof fn lemma_hpp_is_a_header(stem: Seq<char>, code: Seq<char>)
    ensures
        header_hallucination(stem + ".hpp"@, code) == header_hallucination(stem + ".h"@, code),
        header_hallucination(stem + ".h"@, code) == !has_function_body(code),
        !header_hallucination(stem + ".c"@, code),
{
    reveal_strlit(".h");
    reveal_strlit(".hpp");
    reveal_strlit(".c");
    let h = stem + ".h"@;
    let hpp = stem + ".hpp"@;
    let c = stem + ".c"@;
    assert(h.subrange(h.len() - 2, h.len() as int) =~= ".h"@);
    assert(hpp.subrange(hpp.len() - 4, hpp.len() as int) =~= ".hpp"@);
    assert(ends_with(h, ".h"@));
    assert(ends_with(hpp, ".hpp"@));
    assert(c.last() == 'c');
    if ends_with(c, ".h"@) {
        assert(c.subrange(c.len() - 2, c.len() as int)[1] == c.last());
    }
    if ends_with(c, ".hpp"@) {
        assert(c.subrange(c.len() - 4, c.len() as int)[3] == c.last());
    }
}

fn lit_prefix(t: &[char], lit: &str) -> (b: bool)
    ensures
        b == starts_with(t@, lit@),
{
    let l = chars_of(lit);
    starts_with_chars(t, &l)
}

fn lit_suffix(t: &[char], lit: &str) -> (b: bool)
    ensures
        b == ends_with(t@, lit@),
{
    let l = chars_of(lit);
    ends_with_chars(t, &l)
}

pub proof fn lemma_split_first(s: Seq<char>, set: Seq<char>)
    ensures
        split_by(s, set).len() > 0,
{
    crate::canonicalizer::lemma_split_nonempty(s, set, 0);
}

fn is_body_line_chars(line: &[char]) -> (b: bool)
    ensures
        b == is_body_line(line@),
{
    let t = trim_chars(line);
    if lit_prefix(&t, "#") || lit_prefix(&t, "//") || lit_prefix(&t, "/*") || lit_prefix(&t, "*")
        || t.len() == 0 {
        return false;
    }
    if !has_char(&t, '{') {
        return false;
    }
    let brace = vec!['{'];
    assert(brace@ =~= seq!['{']);
    let parts = split_by_chars(&t, &brace);
    proof {
        lemma_split_first(t@, brace@);
        lemma_chars_deep_view(parts@[0]);
    }
    let b = &parts[0];
    let bt = trim_chars(b);
    has_char(b, ')') && !lit_prefix(&bt, "struct") && !lit_prefix(&bt, "enum") && !lit_prefix(
        &bt,
        "union",
    ) && !lit_prefix(&bt, "class")
}

fn has_function_body_chars(code: &[char]) -> (b: bool)
    ensures
        b == has_function_body(code@),
{
    let ls = lines_of(code);
    let mut i: usize = 0;
    while i < ls.len()
        invariant
            i <= ls.len(),
            ls.deep_view() == lines(code@),
            forall|k: int| 0 <= k < i ==> !is_body_line(#[trigger] lines(code@)[k]),
        decreases ls.len() - i,
    {
        proof {
            lemma_chars_deep_view(ls@[i as int]);
        }
        if is_body_line_chars(&ls[i]) {
            assert(is_body_line(lines(code@)[i as int]));
            return true;
        }
        i += 1;
    }
    false
}

/// When a Senior rejects a header, whether the proposal in fact holds only
/// declarations (so the rejection is a hallucination).
pub fn detect_senior_header_hallucination(
    target_file: &str,
    _feedback: &str,
    proposed_code: &str,
) -> (b: bool)
    ensures
        b == header_hallucination(target_file@, proposed_code@),
{
    let t = chars_of(target_file);
    if !lit_suffix(&t, ".h") && !lit_suffix(&t, ".hpp") {
        return false;
    }
    let code = chars_of(proposed_code);
    !has_function_body_chars(&code)
}

// ---------------------------------------------------------------------------
// Junior output
// ---------------------------------------------------------------------------

/// Content of the first non-empty fenced block (```` ``` ````), scanning `ls[i..]`.
pub open spec fn code_block_fold(ls: Seq<Seq<char>>, i: int, in_code: bool, acc: Seq<char>) -> Option<
    Seq<char>,
>
    decreases ls.len() - i,
{
    if i < 0 || i >= ls.len() {
        if acc.len() > 0 {
            Some(acc)
        } else {
            None
        }
    } else if starts_with(trim(ls[i]), "```"@) {
        if in_code {
            if acc.len() > 0 {
                Some(acc)
            } else {
                code_block_fold(ls, i + 1, false, acc)
            }
        } else {
            code_block_fold(ls, i + 1, true, seq![])
        }
    } else if in_code {
        code_block_fold(ls, i + 1, in_code, append_line(acc, ls[i]))
    } else {
        code_block_fold(ls, i + 1, in_code, acc)
    }
}

pub open spec fn code_block(raw: Seq<char>) -> Option<Seq<char>> {
    code_block_fold(lines(raw), 0, false, seq![])
}

/// The view of an optional character vector.
pub open spec fn optv(o: Option<Vec<char>>) -> Option<Seq<char>> {
    match o {
        Some(v) => Some(v@),
        None => None,
    }
}

pub fn extract_code_block(raw: &[char]) -> (r: Option<Vec<char>>)
    ensures
        optv(r) == code_block(raw@),
{
    let ls = lines_of(raw);
    let fence = chars_of("```");
    let mut result: Vec<char> = Vec::new();
    let mut in_code = false;
    let mut i: usize = 0;
    while i < ls.len()
        invariant
            i <= ls.len(),
            fence@ == "```"@,
            code_block(raw@) == code_block_fold(ls.deep_view(), i as int, in_code, result@),
            ls.deep_view() == lines(raw@),
        decreases ls.len() - i,
    {
        proof {
            lemma_chars_deep_view(ls@[i as int]);
        }
        let t = trim_chars(&ls[i]);
        if starts_with_chars(&t, &fence) {
            if in_code {
                if result.len() > 0 {
                    return Some(result);
                }
                in_code = false;
            } else {
                in_code = true;
                result = Vec::new();
            }
        } else if in_code {
            append_line_chars(&mut result, &ls[i]);
        }
        i += 1;
    }
    if result.len() > 0 {
        Some(result)
    } else {
        None
    }
}

/// Line prefixes that mark C/C++ code.
pub open spec fn c_markers() -> Seq<Seq<char>> {
    seq![
        "#include"@,
        "struct "@,
        "class "@,
        "void "@,
        "int "@,
        "bool "@,
        "extern "@,
        "typedef "@,
        "enum "@,
        "#define"@,
        "#ifndef"@,
        "#pragma"@,
    ]
}

pub open spec fn is_c_line(line: Seq<char>) -> bool {
    exists|k: int| 0 <= k < c_markers().len() && starts_with(trim(line), #[trigger] c_markers()[k])
}

/// The C/C++ stretch of raw output: from the first to the last line that
/// starts with a C marker, if it is at least 20 bytes long.
pub open spec fn c_code(raw: Seq<char>) -> Option<Seq<char>> {
    let ls = lines(raw);
    if exists|k: int| 0 <= k < ls.len() && is_c_line(#[trigger] ls[k]) {
        let first = choose|a: int|
            0 <= a < ls.len() && is_c_line(ls[a]) && forall|k: int|
                0 <= k < a ==> !is_c_line(#[trigger] ls[k]);
        let last = choose|b: int|
            0 <= b < ls.len() && is_c_line(ls[b]) && forall|k: int|
                b < k < ls.len() ==> !is_c_line(#[trigger] ls[k]);
        let code = join(ls.subrange(first, last + 1), "\n"@);
        if utf8_len(code) as usize >= 20 {
            Some(code)
        } else {
            None
        }
    } else {
        None
    }
}

fn is_c_line_chars(line: &[char]) -> (b: bool)
    ensures
        b == is_c_line(line@),
{
    let t = trim_chars(line);
    let r = lit_prefix(&t, "#include") || lit_prefix(&t, "struct ") || lit_prefix(&t, "class ")
        || lit_prefix(&t, "void ") || lit_prefix(&t, "int ") || lit_prefix(&t, "bool ")
        || lit_prefix(&t, "extern ") || lit_prefix(&t, "typedef ") || lit_prefix(&t, "enum ")
        || lit_prefix(&t, "#define") || lit_prefix(&t, "#ifndef") || lit_prefix(&t, "#pragma");
    proof {
        let m = c_markers();
        if r {
            if starts_with(t@, "#include"@) { assert(starts_with(trim(line@), m[0])); }
            else if starts_with(t@, "struct "@) { assert(starts_with(trim(line@), m[1])); }
            else if starts_with(t@, "class "@) { assert(starts_with(trim(line@), m[2])); }
            else if starts_with(t@, "void "@) { assert(starts_with(trim(line@), m[3])); }
            else if starts_with(t@, "int "@) { assert(starts_with(trim(line@), m[4])); }
            else if starts_with(t@, "bool "@) { assert(starts_with(trim(line@), m[5])); }
            else if starts_with(t@, "extern "@) { assert(starts_with(trim(line@), m[6])); }
            else if starts_with(t@, "typedef "@) { assert(starts_with(trim(line@), m[7])); }
            else if starts_with(t@, "enum "@) { assert(starts_with(trim(line@), m[8])); }
            else if starts_with(t@, "#define"@) { assert(starts_with(trim(line@), m[9])); }
            else if starts_with(t@, "#ifndef"@) { assert(starts_with(trim(line@), m[10])); }
            else { assert(starts_with(trim(line@), m[11])); }
        } else {
            assert forall|k: int| 0 <= k < m.len() implies !starts_with(trim(line@), #[trigger] m[k]) by {
                if k == 0 { assert(m[k] == "#include"@); }
                else if k == 1 { assert(m[k] == "struct "@); }
                else if k == 2 { assert(m[k] == "class "@); }
                else if k == 3 { assert(m[k] == "void "@); }
                else if k == 4 { assert(m[k] == "int "@); }
                else if k == 5 { assert(m[k] == "bool "@); }
                else if k == 6 { assert(m[k] == "extern "@); }
                else if k == 7 { assert(m[k] == "typedef "@); }
                else if k == 8 { assert(m[k] == "enum "@); }
                else if k == 9 { assert(m[k] == "#define"@); }
                else if k == 10 { assert(m[k] == "#ifndef"@); }
                else { assert(m[k] == "#pragma"@); }
            }
        }
    }
    r
}

pub fn extract_cpp_c_code(raw: &[char]) -> (r: Option<Vec<char>>)
    ensures
        optv(r) == c_code(raw@),
{
    let ls = lines_of(raw);
    let ghost lsv = ls.deep_view();
    let mut first: Option<usize> = None;
    let mut last: usize = 0;
    let mut i: usize = 0;
    while i < ls.len()
        invariant
            i <= ls.len(),
            lsv == ls.deep_view(),
            lsv == lines(raw@),
            first is None ==> forall|k: int| 0 <= k < i ==> !is_c_line(#[trigger] lsv[k]),
            first matches Some(a) ==> a <= last < i && is_c_line(lsv[a as int]) && is_c_line(
                lsv[last as int],
            ) && (forall|k: int| 0 <= k < a ==> !is_c_line(#[trigger] lsv[k])) && (forall|k: int|
                last < k < i ==> !is_c_line(#[trigger] lsv[k])),
        decreases ls.len() - i,
    {
        proof {
            lemma_chars_deep_view(ls@[i as int]);
        }
        if is_c_line_chars(&ls[i]) {
            if first.is_none() {
                first = Some(i);
            }
            last = i;
        }
        i += 1;
    }
    match first {
        None => None,
        Some(a) => {
            let mut piece_vec: Vec<Vec<char>> = Vec::new();
            let mut k: usize = a;
            while k <= last
                invariant
                    a <= k <= last + 1,
                    last < ls.len(),
                    piece_vec.deep_view() == lsv.subrange(a as int, k as int),
                    lsv == ls.deep_view(),
                decreases last + 1 - k,
            {
                proof {
                    lemma_chars_deep_view(ls@[k as int]);
                }
                let piece = slice_chars(&ls[k], 0, ls[k].len());
                assert(piece@ =~= lsv[k as int]);
                push_piece(&mut piece_vec, piece);
                assert(lsv.subrange(a as int, k + 1) =~= lsv.subrange(a as int, k as int).push(
                    lsv[k as int],
                ));
                k += 1;
            }
            proof {
                lemma_nested_deep_view(piece_vec);
            }
            let nl = vec!['\n'];
            let code = join_chars(&piece_vec, &nl);
            proof {
                assert(nl@ =~= "\n"@) by {
                    reveal_strlit("\n");
                }
                let ls2 = lines(raw@);
                assert(exists|k: int| 0 <= k < ls2.len() && is_c_line(#[trigger] ls2[k])) by {
                    assert(is_c_line(ls2[a as int]));
                }
                let f = choose|x: int|
                    0 <= x < ls2.len() && is_c_line(ls2[x]) && forall|k: int|
                        0 <= k < x ==> !is_c_line(#[trigger] ls2[k]);
                let l = choose|y: int|
                    0 <= y < ls2.len() && is_c_line(ls2[y]) && forall|k: int|
                        y < k < ls2.len() ==> !is_c_line(#[trigger] ls2[k]);
                assert(f == a) by {
                    if f < a {
                        assert(!is_c_line(ls2[f]));
                    } else if f > a {
                        assert(!is_c_line(ls2[a as int]));
                    }
                }
                assert(l == last) by {
                    if l < last {
                        assert(!is_c_line(ls2[last as int]));
                    } else if l > last {
                        assert(!is_c_line(ls2[l]));
                    }
                }
            }
            if byte_len(&code) >= 20 {
                Some(code)
            } else {
                None
            }
        },
    }
}

/// The code a Junior's raw output converges to.
pub open spec fn junior_code(raw: Seq<char>) -> Seq<char> {
    match code_block(raw) {
        Some(c) => c,
        None => match c_code(raw) {
            Some(c) => c,
            None => raw,
        },
    }
}

fn normalize_junior_output(raw: &[char]) -> (r: NormalizedOutput)
    ensures
        r.view() == (None::<Seq<char>>, None::<Seq<char>>, Some(junior_code(raw@))),
{
    if let Some(code) = extract_code_block(raw) {
        return NormalizedOutput { decision: None, feedback: None, code: Some(string_of(&code)) };
    }
    if let Some(code) = extract_cpp_c_code(raw) {
        return NormalizedOutput { decision: None, feedback: None, code: Some(string_of(&code)) };
    }
    NormalizedOutput { decision: None, feedback: None, code: Some(string_of(raw)) }
}

// ---------------------------------------------------------------------------
// Senior output
// ---------------------------------------------------------------------------

/// A text, or nothing where it is empty.
pub open spec fn nonempty(s: Seq<char>) -> Option<Seq<char>> {
    if s.len() == 0 {
        None
    } else {
        Some(s)
    }
}

/// The first line of a text, trimmed (empty when there is none).
pub open spec fn first_line(t: Seq<char>) -> Seq<char> {
    if lines(t).len() > 0 {
        trim(lines(t)[0])
    } else {
        seq![]
    }
}

/// The lines after the first, joined by newlines and trimmed.
pub open spec fn rest_text(t: Seq<char>) -> Seq<char> {
    if lines(t).len() > 0 {
        trim(join(lines(t).skip(1), "\n"@))
    } else {
        seq![]
    }
}

/// The feedback a Senior reports for an empty review.
pub open spec fn empty_review_feedback() -> Seq<char> {
    "[PATCH_TRUNCATED] Senior validator returned empty response — context collapse or malformed patch detected"@
}

/// What a Senior's review converges to, given what its trimmed text (after
/// the reasoning blocks are dropped) reads as JSON: an empty review is
/// rejected; a JSON status of truncation or context collapse rejects with
/// its root cause; a first line starting `[APPROVE]` or `[REJECT]` decides
/// with the remaining lines as feedback; a JSON object approves only when
/// its `decision` is `APPROVE` and rejects otherwise (a missing or any other
/// decision fails closed), with its `feedback` or `response`; anything else
/// is a rejection carrying the whole text. So the decision is always
/// `APPROVE` or `REJECT`.
pub open spec fn senior_view(raw: Seq<char>, parsed: Option<JsonValue>) -> (Option<Seq<char>>, Option<Seq<char>>, Option<Seq<char>>) {
    let t = trim(stripped_reasoning(raw));
    let first = first_line(t);
    let causal = match parsed {
        Some(j) => match str_member(j, "status"@) {
            Some(st) => st == "PATCH_TRUNCATED"@ || st == "CONTEXT_COLLAPSE"@,
            None => false,
        },
        None => false,
    };
    if t.len() == 0 || t == "{}"@ || t == "{ }"@ {
        (Some("REJECT"@), Some(empty_review_feedback()), None)
    } else if starts_with(t, "{"@) && causal {
        let j = parsed->0;
        let reason = match str_member(j, "root_cause"@) {
            Some(r) => r,
            None => "unknown"@,
        };
        (Some("REJECT"@), Some("["@ + str_member(j, "status"@)->0 + "] "@ + reason), None)
    } else if starts_with(first, "[APPROVE]"@) {
        (Some("APPROVE"@), nonempty(rest_text(t)), None)
    } else if starts_with(first, "[REJECT]"@) {
        let fb = if rest_text(t).len() == 0 && first.len() > 8 {
            trim(first.subrange(8, first.len() as int))
        } else {
            rest_text(t)
        };
        (Some("REJECT"@), nonempty(fb), None)
    } else if (starts_with(first, "{"@) || starts_with(t, "{"@)) && parsed is Some {
        let j = parsed->0;
        let decision = if str_member(j, "decision"@) == Some("APPROVE"@) {
            "APPROVE"@
        } else {
            "REJECT"@
        };
        let fb0 = match str_member(j, "feedback"@) {
            Some(f) => f,
            None => seq![],
        };
        let fb = if fb0.len() == 0 {
            match str_member(j, "response"@) {
                Some(f) => f,
                None => seq![],
            }
        } else {
            fb0
        };
        (Some(decision), nonempty(fb), None)
    } else {
        (Some("REJECT"@), Some(raw), None)
    }
}

/// A Senior's review always converges to a decision, and that decision is
/// `APPROVE` or `REJECT`: no other verdict reaches the task state machine.
pub proof fn lemma_senior_decision_binary(raw: Seq<char>, parsed: Option<JsonValue>)
    ensures
        senior_view(raw, parsed).0 == Some("APPROVE"@) || senior_view(raw, parsed).0 == Some("REJECT"@),
{
}

fn opt_nonempty(v: Vec<char>) -> (r: Option<String>)
    ensures
        opt_view(r) == nonempty(v@),
{
    if v.len() == 0 {
        None
    } else {
        Some(string_of(&v))
    }
}

/// The Senior verdict on a review text, given how the trimmed text (after
/// reasoning blocks are dropped) reads as JSON.
pub fn senior_verdict(raw: &str, parsed: Option<JsonValue>) -> (r: NormalizedOutput)
    ensures
        r.view() == senior_view(raw@, parsed),
{
    let stripped = strip_reasoning_block(raw);
    let sv = chars_of(stripped.as_str());
    let t = trim_chars(&sv);
    let ts = string_of(&t);
    if t.len() == 0 || crate::ordmap::str_eq(ts.as_str(), "{}") || crate::ordmap::str_eq(ts.as_str(), "{ }") {
        return NormalizedOutput {
            decision: Some(owned("REJECT")),
            feedback: Some(owned("[PATCH_TRUNCATED] Senior validator returned empty response — context collapse or malformed patch detected")),
            code: None,
        };
    }
    let brace = chars_of("{");
    let starts_brace = starts_with_chars(&t, &brace);
    if starts_brace {
        if let Some(j) = &parsed {
            if let Some(status) = j.get_str("status") {
                if crate::ordmap::str_eq(status.as_str(), "PATCH_TRUNCATED") || crate::ordmap::str_eq(status.as_str(), "CONTEXT_COLLAPSE") {
                    let reason = match j.get_str("root_cause") {
                        Some(r) => r,
                        None => owned("unknown"),
                    };
                    let mut fb = chars_of("[");
                    crate::text::push_str(&mut fb, status.as_str());
                    crate::text::push_str(&mut fb, "] ");
                    crate::text::push_str(&mut fb, reason.as_str());
                    return NormalizedOutput {
                        decision: Some(owned("REJECT")),
                        feedback: Some(string_of(&fb)),
                        code: None,
                    };
                }
            }
        }
    }
    let ls = lines_of(&t);
    proof {
        crate::text::lemma_nested_deep_view(ls);
    }
    let first: Vec<char> = if ls.len() > 0 {
        proof {
            lemma_chars_deep_view(ls@[0]);
        }
        trim_chars(&ls[0])
    } else {
        Vec::new()
    };
    let nl = vec!['\n'];
    proof {
        assert(nl@ =~= "\n"@) by {
            reveal_strlit("\n");
        }
    }
    let rest: Vec<char> = if ls.len() > 0 {
        let joined = crate::text::join_chars_from(&ls, 1, &nl);
        trim_chars(&joined)
    } else {
        Vec::new()
    };
    proof {
        assert(first@ == first_line(t@));
        assert(rest@ == rest_text(t@));
    }
    if starts_with_chars(&first, &chars_of("[APPROVE]")) {
        return NormalizedOutput { decision: Some(owned("APPROVE")), feedback: opt_nonempty(rest), code: None };
    }
    if starts_with_chars(&first, &chars_of("[REJECT]")) {
        let fb = if rest.len() == 0 && first.len() > 8 {
            trim_chars(&crate::text::slice_chars(&first, 8, first.len()))
        } else {
            rest
        };
        return NormalizedOutput { decision: Some(owned("REJECT")), feedback: opt_nonempty(fb), code: None };
    }
    if starts_with_chars(&first, &brace) || starts_brace {
        if let Some(j) = &parsed {
            let approved = match j.get_str("decision") {
                Some(d) => crate::ordmap::str_eq(d.as_str(), "APPROVE"),
                None => false,
            };
            let decision = if approved {
                owned("APPROVE")
            } else {
                owned("REJECT")
            };
            let fb0 = match j.get_str("feedback") {
                Some(f) => f,
                None => owned(""),
            };
            let fb = if fb0.as_str().is_empty() {
                match j.get_str("response") {
                    Some(f) => f,
                    None => owned(""),
                }
            } else {
                fb0
            };
            proof {
                reveal_strlit("");
            }
            return NormalizedOutput { decision: Some(decision), feedback: opt_nonempty(chars_of(fb.as_str())), code: None };
        }
    }
    NormalizedOutput { decision: Some(owned("REJECT")), feedback: Some(owned(raw)), code: None }
}

/// Normalises a Senior's review: the JSON reading of its trimmed text is
/// taken with `serde_json` where the text starts with `{`.
fn normalize_senior_output(raw: &str) -> (r: NormalizedOutput)
    ensures
        r.view() == senior_view(raw@, json_of(trim(stripped_reasoning(raw@)))),
{
    let stripped = strip_reasoning_block(raw);
    let sv = chars_of(stripped.as_str());
    let t = trim_chars(&sv);
    let ts = string_of(&t);
    let parsed = parse_json(ts.as_str());
    senior_verdict(raw, parsed)
}

/// Converges raw agent output: a Senior's review to a decision and
/// feedback, a Junior's output to code. The raw text is trimmed first.
pub fn normalize_output(raw: &str, is_senior_review: bool) -> (r: NormalizedOutput)
    ensures
        is_senior_review ==> r.view() == senior_view(trim(raw@), json_of(trim(stripped_reasoning(trim(raw@))))),
        !is_senior_review ==> r.view() == (None::<Seq<char>>, None::<Seq<char>>, Some(junior_code(trim(raw@)))),
{
    let rv = chars_of(raw);
    let t = trim_chars(&rv);
    if is_senior_review {
        let ts = string_of(&t);
        normalize_senior_output(ts.as_str())
    } else {
        normalize_junior_output(&t)
    }
}

} // verus!
