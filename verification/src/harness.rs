//! The global harness that screens proposed code before review: empty or
//! comment-only code, forbidden symbols, non-conforming includes, edits
//! outside the regions a failure allows, and the target file of a task.
use vstd::prelude::*;
use crate::json::{member, parse_json, json_of, JsonValue};
use crate::spec_ir::decimal;
use crate::text::{
    chars_of, contains, contains_chars, has_alnum, has_alnum_chars, lemma_chars_deep_view, lines,
    lines_of, owned, push_str, slice_chars, split_by, starts_with, starts_with_chars, str_contains,
    string_of, trim, trim_chars, trim_set, trim_set_chars, words, words_of,
};
use crate::ordmap::str_eq;

verus! {

// ---------------------------------------------------------------------------
// Empty or comment-only code
// ---------------------------------------------------------------------------

/// Drops inline `/* ... */` comments from `s[i..]`.
pub open spec fn strip_inline(s: Seq<char>, i: int, in_block: bool) -> Seq<char>
    decreases s.len() - i,
{
    if i < 0 || i >= s.len() {
        seq![]
    } else if in_block {
        if s[i] == '*' && i + 1 < s.len() && s[i + 1] == '/' {
            strip_inline(s, i + 2, false)
        } else {
            strip_inline(s, i + 1, true)
        }
    } else if s[i] == '/' && i + 1 < s.len() && s[i + 1] == '*' {
        strip_inline(s, i + 2, true)
    } else {
        seq![s[i]] + strip_inline(s, i + 1, false)
    }
}

/// A line comment of the language (`#` in Python, `--` but not `---` in
/// Lua, `//` elsewhere).
pub open spec fn is_line_comment(l: Seq<char>, ext: Seq<char>) -> bool {
    if ext == "py"@ {
        starts_with(l, "#"@)
    } else if ext == "lua"@ {
        starts_with(l, "--"@) && !starts_with(l, "---"@)
    } else {
        starts_with(l, "//"@)
    }
}

/// The trimmed lines from `ls[i..]` outside block comments and line
/// comments, concatenated.
pub open spec fn code_lines(ls: Seq<Seq<char>>, i: int, in_block: bool, ext: Seq<char>) -> Seq<char>
    decreases ls.len() - i,
{
    if i < 0 || i >= ls.len() {
        seq![]
    } else {
        let l = trim(ls[i]);
        if !in_block && starts_with(l, "/*"@) {
            code_lines(ls, i + 1, !contains(l, "*/"@), ext)
        } else if in_block {
            code_lines(ls, i + 1, !contains(l, "*/"@), ext)
        } else if is_line_comment(l, ext) {
            code_lines(ls, i + 1, false, ext)
        } else {
            l + code_lines(ls, i + 1, false, ext)
        }
    }
}

/// Code that is empty, has no letter or digit, or has none outside its comments.
pub open spec fn empty_or_comments(code: Seq<char>, ext: Seq<char>) -> bool {
    let t = trim(code);
    t.len() == 0 || !has_alnum(t) || !has_alnum(strip_inline(code_lines(lines(t), 0, false, ext), 0, false))
}

fn strip_inline_exec(s: &[char]) -> (r: Vec<char>)
    ensures
        r@ == strip_inline(s@, 0, false),
{
    let mut r: Vec<char> = Vec::new();
    let mut i: usize = 0;
    let mut in_block = false;
    while i < s.len()
        invariant
            i <= s.len() + 1,
            strip_inline(s@, 0, false) == r@ + strip_inline(s@, i as int, in_block),
        decreases s.len() + 1 - i,
    {
        if in_block {
            if s[i] == '*' && i + 1 < s.len() && s[i + 1] == '/' {
                i += 2;
                in_block = false;
            } else {
                i += 1;
            }
        } else if s[i] == '/' && i + 1 < s.len() && s[i + 1] == '*' {
            i += 2;
            in_block = true;
        } else {
            let ghost before = r@;
            r.push(s[i]);
            assert(before + (seq![s@[i as int]] + strip_inline(s@, i + 1, false)) =~= r@ + strip_inline(s@, i + 1, false));
            i += 1;
        }
    }
    assert(r@ + seq![] =~= r@);
    r
}

/// The code is empty or only comments, judged with the comment syntax of
/// its file extension.
pub fn is_empty_or_comments_only(code: &str, file_ext: &str) -> (b: bool)
    ensures
        b == empty_or_comments(code@, file_ext@),
{
    let cv = chars_of(code);
    let t = trim_chars(&cv);
    if t.len() == 0 {
        return true;
    }
    if !has_alnum_chars(&t) {
        return true;
    }
    let is_python = str_eq(file_ext, "py");
    let is_lua = str_eq(file_ext, "lua");
    let ls = lines_of(&t);
    let open = chars_of("/*");
    let close = chars_of("*/");
    let mut cleaned: Vec<char> = Vec::new();
    let mut in_block = false;
    let mut i: usize = 0;
    while i < ls.len()
        invariant
            i <= ls@.len(),
            ls.deep_view() == lines(t@),
            open@ == "/*"@,
            close@ == "*/"@,
            is_python == (file_ext@ == "py"@),
            is_lua == (file_ext@ == "lua"@),
            code_lines(lines(t@), 0, false, file_ext@) == cleaned@ + code_lines(lines(t@), i as int, in_block, file_ext@),
        decreases ls.len() - i,
    {
        proof {
            lemma_chars_deep_view(ls@[i as int]);
        }
        let l = trim_chars(&ls[i]);
        if !in_block && starts_with_chars(&l, &open) {
            in_block = !contains_chars(&l, &close);
        } else if in_block {
            in_block = !contains_chars(&l, &close);
        } else {
            let is_comment = if is_python {
                starts_with_chars(&l, &chars_of("#"))
            } else if is_lua {
                starts_with_chars(&l, &chars_of("--")) && !starts_with_chars(&l, &chars_of("---"))
            } else {
                starts_with_chars(&l, &chars_of("//"))
            };
            if !is_comment {
                let ghost before = cleaned@;
                crate::text::extend_chars(&mut cleaned, &l);
                assert(before + (l@ + code_lines(lines(t@), i + 1, false, file_ext@)) =~= cleaned@ + code_lines(lines(t@), i + 1, false, file_ext@));
            }
        }
        i += 1;
    }
    assert(cleaned@ + seq![] =~= cleaned@);
    let f = strip_inline_exec(&cleaned);
    !has_alnum_chars(&f)
}

// ---------------------------------------------------------------------------
// Forbidden symbols and includes
// ---------------------------------------------------------------------------

/// The strings of a JSON array value, in order (others skipped).
pub open spec fn array_strings(items: Seq<JsonValue>) -> Seq<Seq<char>>
    decreases items.len(),
{
    if items.len() == 0 {
        seq![]
    } else {
        array_strings(items.drop_last()) + match items.last() {
            JsonValue::Str(s) => seq![s@],
            _ => seq![],
        }
    }
}

/// The `forbidden_patterns` strings of an immutable-constraints document
/// (none where it is missing, is not JSON, or has no such array).
pub open spec fn forbidden_patterns_in(doc: Option<JsonValue>) -> Seq<Seq<char>> {
    match doc {
        Some(j) => match member(j, "forbidden_patterns"@) {
            Some(JsonValue::Array(items)) => array_strings(items@),
            _ => seq![],
        },
        None => seq![],
    }
}

/// The global forbidden patterns, read from the text of the
/// immutable-constraints file (`None` where there is no such file).
pub fn forbidden_patterns_from(text: Option<&str>) -> (r: Vec<String>)
    ensures
        r.deep_view() == match text {
            Some(t) => forbidden_patterns_in(json_of(t@)),
            None => Seq::<Seq<char>>::empty(),
        },
{
    let mut out: Vec<String> = Vec::new();
    match text {
        Some(t) => {
            let doc = parse_json(t);
            match &doc {
                Some(j) => match j.get("forbidden_patterns") {
                    Some(JsonValue::Array(items)) => {
                        let mut i: usize = 0;
                        assert(out.deep_view() =~= array_strings(items@.take(0)));
                        while i < items.len()
                            invariant
                                i <= items@.len(),
                                out.deep_view() == array_strings(items@.take(i as int)),
                            decreases items.len() - i,
                        {
                            assert(items@.take(i + 1).drop_last() =~= items@.take(i as int));
                            match &items[i] {
                                JsonValue::Str(s) => crate::text::push_piece_string(&mut out, s.clone()),
                                _ => {},
                            }
                            i += 1;
                        }
                        assert(items@.take(items@.len() as int) =~= items@);
                    },
                    _ => {},
                },
                None => {},
            }
        },
        None => {},
    }
    proof {
        if text is None {
            assert(out.deep_view() =~= Seq::<Seq<char>>::empty());
        }
    }
    out
}

/// The first pattern of `ps` the code contains.
pub open spec fn first_in_code(code: Seq<char>, ps: Seq<Seq<char>>) -> Option<Seq<char>>
    decreases ps.len(),
{
    if ps.len() == 0 {
        None
    } else if contains(code, ps[0]) {
        Some(ps[0])
    } else {
        first_in_code(code, ps.drop_first())
    }
}

fn first_in_code_exec(code: &str, ps: &[String]) -> (r: Option<String>)
    ensures
        match r {
            Some(s) => first_in_code(code@, ps@.map_values(|x: String| x@)) == Some(s@),
            None => first_in_code(code@, ps@.map_values(|x: String| x@)) is None,
        },
{
    let ghost pv = ps@.map_values(|x: String| x@);
    let mut i: usize = 0;
    assert(pv.skip(0) =~= pv);
    while i < ps.len()
        invariant
            pv == ps@.map_values(|x: String| x@),
            i <= pv.len(),
            first_in_code(code@, pv) == first_in_code(code@, pv.skip(i as int)),
        decreases ps.len() - i,
    {
        assert(pv.skip(i as int)[0] == ps@[i as int]@);
        assert(pv.skip(i as int).drop_first() =~= pv.skip(i + 1));
        if str_contains(code, ps[i].as_str()) {
            return Some(ps[i].clone());
        }
        i += 1;
    }
    assert(pv.skip(i as int) =~= Seq::<Seq<char>>::empty());
    None
}

/// The first global, then the first component-specific, forbidden symbol
/// the code contains.
pub fn check_forbidden_symbols(code: &str, custom_forbidden: &[String], global_forbidden: &[String]) -> (r: Option<String>)
    ensures
        match r {
            Some(s) => Some(s@) == match first_in_code(code@, global_forbidden@.map_values(|x: String| x@)) {
                Some(g) => Some(g),
                None => first_in_code(code@, custom_forbidden@.map_values(|x: String| x@)),
            },
            None => first_in_code(code@, global_forbidden@.map_values(|x: String| x@)) is None
                && first_in_code(code@, custom_forbidden@.map_values(|x: String| x@)) is None,
        },
{
    match first_in_code_exec(code, global_forbidden) {
        Some(s) => Some(s),
        None => first_in_code_exec(code, custom_forbidden),
    }
}

/// Headers every program may include.
pub open spec fn standard_headers() -> Seq<Seq<char>> {
    seq![
        "stdio.h"@, "stdlib.h"@, "string.h"@, "string"@, "vector"@, "iostream"@, "memory"@,
        "algorithm"@, "map"@, "set"@, "thread"@, "mutex"@, "filesystem"@, "chrono"@, "dlfcn.h"@,
        "pthread.h"@, "math.h"@, "cstddef"@, "cstring"@, "cassert"@,
    ]
}

/// A header name without its `<`, `>` or `"` marks.
pub open spec fn bare_header(s: Seq<char>) -> Seq<char> {
    trim_set(s, "<>\""@)
}

/// An allowed entry names the header (equal to it, or contained in it).
pub open spec fn allowed_by(allowed: Seq<Seq<char>>, header: Seq<char>) -> bool {
    exists|i: int| 0 <= i < allowed.len() && {
        let a = bare_header(#[trigger] allowed[i]);
        a == header || contains(header, a)
    }
}

/// The include named on an `#include` line that neither the allowed list
/// nor the standard headers admit.
pub open spec fn bad_include(line: Seq<char>, allowed: Seq<Seq<char>>) -> Option<Seq<char>> {
    let t = trim(line);
    let parts = words(t);
    if starts_with(t, "#include"@) && parts.len() >= 2 {
        let header = bare_header(parts[1]);
        if allowed_by(allowed, header) || standard_headers().contains(header) {
            None
        } else {
            Some(parts[1])
        }
    } else {
        None
    }
}

/// The first such include, line by line.
pub open spec fn first_bad_include(ls: Seq<Seq<char>>, allowed: Seq<Seq<char>>) -> Option<Seq<char>>
    decreases ls.len(),
{
    if ls.len() == 0 {
        None
    } else {
        match bad_include(ls[0], allowed) {
            Some(h) => Some(h),
            None => first_bad_include(ls.drop_first(), allowed),
        }
    }
}

fn allowed_by_exec(allowed: &[String], header: &[char]) -> (b: bool)
    ensures
        b == allowed_by(allowed@.map_values(|x: String| x@), header@),
{
    let ghost av = allowed@.map_values(|x: String| x@);
    let marks = chars_of("<>\"");
    let mut i: usize = 0;
    while i < allowed.len()
        invariant
            av == allowed@.map_values(|x: String| x@),
            marks@ == "<>\""@,
            i <= av.len(),
            forall|k: int| 0 <= k < i ==> {
                let a = bare_header(#[trigger] av[k]);
                !(a == header@ || contains(header@, a))
            },
        decreases allowed.len() - i,
    {
        assert(av[i as int] == allowed@[i as int]@);
        let a = trim_set_chars(&chars_of(allowed[i].as_str()), &marks);
        if crate::text::chars_eq(&a, header) || contains_chars(header, &a) {
            return true;
        }
        i += 1;
    }
    false
}

fn is_standard_header(h: &[char]) -> (b: bool)
    ensures
        b == standard_headers().contains(h@),
{
    let names: [&str; 20] = [
        "stdio.h", "stdlib.h", "string.h", "string", "vector", "iostream", "memory", "algorithm",
        "map", "set", "thread", "mutex", "filesystem", "chrono", "dlfcn.h", "pthread.h", "math.h",
        "cstddef", "cstring", "cassert",
    ];
    let ghost nv = names@.map_values(|s: &str| s@);
    assert(nv =~= standard_headers());
    let hs = string_of(h);
    let mut i: usize = 0;
    while i < 20
        invariant
            nv == names@.map_values(|s: &str| s@),
            nv == standard_headers(),
            hs@ == h@,
            i <= 20,
            forall|k: int| 0 <= k < i ==> nv[k] != h@,
        decreases 20 - i,
    {
        if str_eq(names[i], hs.as_str()) {
            assert(nv[i as int] == h@);
            return true;
        }
        i += 1;
    }
    false
}

/// The first `#include` whose header is neither allowed (an allowed entry
/// equal to it or contained in it, marks ignored) nor a standard header; no
/// check at all when nothing is allowed.
pub fn check_allowed_includes(code: &str, allowed: &[String]) -> (r: Option<String>)
    ensures
        allowed@.len() == 0 ==> r is None,
        allowed@.len() > 0 ==> match r {
            Some(s) => first_bad_include(lines(code@), allowed@.map_values(|x: String| x@)) == Some(s@),
            None => first_bad_include(lines(code@), allowed@.map_values(|x: String| x@)) is None,
        },
{
    if allowed.len() == 0 {
        return None;
    }
    let ghost av = allowed@.map_values(|x: String| x@);
    let cv = chars_of(code);
    let ls = lines_of(&cv);
    let ghost lv = ls.deep_view();
    let inc = chars_of("#include");
    let marks = chars_of("<>\"");
    let mut i: usize = 0;
    assert(lv.skip(0) =~= lv);
    while i < ls.len()
        invariant
            av == allowed@.map_values(|x: String| x@),
            allowed@.len() > 0,
            lv == ls.deep_view(),
            lv == lines(code@),
            inc@ == "#include"@,
            marks@ == "<>\""@,
            i <= lv.len(),
            first_bad_include(lv, av) == first_bad_include(lv.skip(i as int), av),
        decreases ls.len() - i,
    {
        proof {
            lemma_chars_deep_view(ls@[i as int]);
            assert(lv.skip(i as int)[0] == ls@[i as int]@);
            assert(lv.skip(i as int).drop_first() =~= lv.skip(i + 1));
        }
        let t = trim_chars(&ls[i]);
        if starts_with_chars(&t, &inc) {
            let parts = words_of(&t);
            proof {
                crate::text::lemma_nested_deep_view(parts);
            }
            if parts.len() >= 2 {
                proof {
                    lemma_chars_deep_view(parts@[1]);
                }
                let header = trim_set_chars(&parts[1], &marks);
                if !(allowed_by_exec(allowed, &header) || is_standard_header(&header)) {
                    return Some(string_of(&parts[1]));
                }
            }
        }
        i += 1;
    }
    assert(lv.skip(i as int) =~= Seq::<Seq<char>>::empty());
    None
}

// ---------------------------------------------------------------------------
// Patch radius
// ---------------------------------------------------------------------------

/// The region around each failure line: from three lines before it
/// (not below zero) to three lines after it, 1-based.
pub open spec fn regions_of(lines_: Seq<Option<usize>>) -> Seq<(usize, usize)>
    decreases lines_.len(),
{
    if lines_.len() == 0 {
        seq![]
    } else {
        regions_of(lines_.drop_last()) + match lines_.last() {
            Some(l) => seq![((if l >= 3 { l - 3 } else { 0 }) as usize, (l + 3) as usize)],
            None => seq![],
        }
    }
}

/// The allowed regions of a patch: one per failure that names a line.
pub fn diagnostic_to_regions(error_lines: &[Option<usize>]) -> (r: Vec<(usize, usize)>)
    requires
        forall|i: int| 0 <= i < error_lines@.len() ==> match #[trigger] error_lines@[i] {
            Some(l) => l + 3 <= usize::MAX,
            None => true,
        },
    ensures
        r@ == regions_of(error_lines@),
{
    let mut r: Vec<(usize, usize)> = Vec::new();
    let mut i: usize = 0;
    while i < error_lines.len()
        invariant
            i <= error_lines@.len(),
            forall|k: int| 0 <= k < error_lines@.len() ==> match #[trigger] error_lines@[k] {
                Some(l) => l + 3 <= usize::MAX,
                None => true,
            },
            r@ == regions_of(error_lines@.take(i as int)),
        decreases error_lines.len() - i,
    {
        assert(error_lines@.take(i + 1).drop_last() =~= error_lines@.take(i as int));
        match error_lines[i] {
            Some(l) => {
                let start = l.saturating_sub(3);
                r.push((start, l + 3));
            },
            None => {},
        }
        i += 1;
    }
    assert(error_lines@.take(error_lines@.len() as int) =~= error_lines@);
    r
}

/// Line `i` (0-based) lies in one of the 1-based regions.
pub open spec fn in_regions(regions: Seq<(usize, usize)>, i: int) -> bool {
    exists|k: int| 0 <= k < regions.len() && {
        let (s, e) = #[trigger] regions[k];
        (if s >= 1 { s - 1 } else { 0 }) <= i && i < e
    }
}

/// Line `i` of a text, or nothing past its end.
pub open spec fn line_at(ls: Seq<Seq<char>>, i: int) -> Seq<char> {
    if 0 <= i < ls.len() {
        ls[i]
    } else {
        seq![]
    }
}

/// The first changed line outside the regions.
pub open spec fn first_stray_edit(a: Seq<Seq<char>>, b: Seq<Seq<char>>, regions: Seq<(usize, usize)>, i: int) -> Option<int>
    decreases (if a.len() > b.len() { a.len() } else { b.len() }) - i,
{
    let n = if a.len() > b.len() { a.len() } else { b.len() };
    if i < 0 || i >= n {
        None
    } else if line_at(a, i) != line_at(b, i) && !in_regions(regions, i) {
        Some(i)
    } else {
        first_stray_edit(a, b, regions, i + 1)
    }
}

/// `Debug` of a list of regions: `[(1, 5), (7, 9)]`.
pub open spec fn regions_text(rs: Seq<(usize, usize)>) -> Seq<char>
    decreases rs.len(),
{
    if rs.len() == 0 {
        "[]"@
    } else {
        regions_items(rs)
    }
}

pub open spec fn region_text(r: (usize, usize)) -> Seq<char> {
    "("@ + decimal(r.0 as nat) + ", "@ + decimal(r.1 as nat) + ")"@
}

pub open spec fn regions_list(rs: Seq<(usize, usize)>) -> Seq<char>
    decreases rs.len(),
{
    if rs.len() == 0 {
        seq![]
    } else if rs.len() == 1 {
        region_text(rs[0])
    } else {
        regions_list(rs.drop_last()) + ", "@ + region_text(rs.last())
    }
}

pub open spec fn regions_items(rs: Seq<(usize, usize)>) -> Seq<char> {
    "["@ + regions_list(rs) + "]"@
}

/// The report of a stray edit on line `i` (0-based).
pub open spec fn stray_report(i: int, regions: Seq<(usize, usize)>, old_line: Seq<char>, new_line: Seq<char>) -> Seq<char> {
    "🚨 [PATCH_RADIUS] Line "@ + decimal((i + 1) as nat) + " modified outside allowed regions "@ + regions_text(regions)
        + ":\n  old: "@ + old_line + "\n  new: "@ + new_line
}

fn regions_text_exec(rs: &[(usize, usize)]) -> (s: Vec<char>)
    ensures
        s@ == regions_text(rs@),
{
    if rs.len() == 0 {
        return chars_of("[]");
    }
    let mut s = chars_of("[");
    let ghost head = s@;
    let mut i: usize = 0;
    assert(head + regions_list(rs@.take(0)) =~= head);
    while i < rs.len()
        invariant
            i <= rs@.len(),
            rs@.len() > 0,
            s@ == head + regions_list(rs@.take(i as int)),
        decreases rs.len() - i,
    {
        let ghost before = s@;
        if i > 0 {
            push_str(&mut s, ", ");
        }
        push_str(&mut s, "(");
        push_str(&mut s, crate::spec_ir::decimal_string(rs[i].0).as_str());
        push_str(&mut s, ", ");
        push_str(&mut s, crate::spec_ir::decimal_string(rs[i].1).as_str());
        push_str(&mut s, ")");
        proof {
            let t = rs@.take(i + 1);
            assert(t.drop_last() =~= rs@.take(i as int));
            if i == 0 {
                assert(t.len() == 1);
            }
            assert(s@ =~= head + regions_list(t));
        }
        i += 1;
    }
    push_str(&mut s, "]");
    assert(rs@.take(rs@.len() as int) =~= rs@);
    s
}

/// Checks that a proposed patch changes no line outside the allowed
/// regions; the error reports the first line that does.
pub fn validate_patch_radius(original: &str, proposed: &str, regions: &[(usize, usize)]) -> (r: Result<(), String>)
    ensures
        match first_stray_edit(lines(original@), lines(proposed@), regions@, 0) {
            None => r is Ok,
            Some(i) => r matches Err(m) && m@ == stray_report(i, regions@, line_at(lines(original@), i), line_at(lines(proposed@), i)),
        },
{
    let ov = chars_of(original);
    let pv = chars_of(proposed);
    let a = lines_of(&ov);
    let b = lines_of(&pv);
    proof {
        crate::text::lemma_nested_deep_view(a);
        crate::text::lemma_nested_deep_view(b);
    }
    let ghost av = a.deep_view();
    let ghost bv = b.deep_view();
    let n = if a.len() > b.len() { a.len() } else { b.len() };
    let mut i: usize = 0;
    while i < n
        invariant
            av == a.deep_view(),
            bv == b.deep_view(),
            av == lines(original@),
            bv == lines(proposed@),
            n == if av.len() > bv.len() { av.len() } else { bv.len() },
            i <= n,
            first_stray_edit(av, bv, regions@, 0) == first_stray_edit(av, bv, regions@, i as int),
        decreases n - i,
    {
        let old_line: Vec<char> = if i < a.len() {
            proof {
                lemma_chars_deep_view(a@[i as int]);
            }
            slice_chars(&a[i], 0, a[i].len())
        } else {
            Vec::new()
        };
        let new_line: Vec<char> = if i < b.len() {
            proof {
                lemma_chars_deep_view(b@[i as int]);
            }
            slice_chars(&b[i], 0, b[i].len())
        } else {
            Vec::new()
        };
        assert(old_line@ =~= line_at(av, i as int));
        assert(new_line@ =~= line_at(bv, i as int));
        if !crate::text::chars_eq(&old_line, &new_line) {
            let mut allowed = false;
            let mut k: usize = 0;
            while k < regions.len()
                invariant
                    k <= regions@.len(),
                    allowed == exists|j: int| 0 <= j < k && {
                        let (s, e) = #[trigger] regions@[j];
                        (if s >= 1 { s - 1 } else { 0 }) <= i && i < e
                    },
                decreases regions.len() - k,
            {
                let (s, e) = regions[k];
                let s0 = s.saturating_sub(1);
                if i >= s0 && i < e {
                    allowed = true;
                }
                k += 1;
            }
            if !allowed {
                let mut m = chars_of("🚨 [PATCH_RADIUS] Line ");
                push_str(&mut m, crate::spec_ir::decimal_string(i + 1).as_str());
                push_str(&mut m, " modified outside allowed regions ");
                let rt = regions_text_exec(regions);
                crate::text::extend_chars(&mut m, &rt);
                push_str(&mut m, ":\n  old: ");
                crate::text::extend_chars(&mut m, &old_line);
                push_str(&mut m, "\n  new: ");
                crate::text::extend_chars(&mut m, &new_line);
                assert(m@ =~= stray_report(i as int, regions@, line_at(av, i as int), line_at(bv, i as int)));
                return Err(string_of(&m));
            }
        }
        i += 1;
    }
    Ok(())
}

// ---------------------------------------------------------------------------
// The target of a task
// ---------------------------------------------------------------------------

/// The file a task targets: its declared target, else the last word of its
/// title stripped of brackets, parentheses, backticks and stars and cut at
/// the first `]` and `(`; no target where that is empty or `unknown`.
pub open spec fn target_of(target_file: Option<Seq<char>>, title: Seq<char>) -> Option<Seq<char>> {
    match target_file {
        Some(t) => Some(t),
        None => {
            let ws = words(title);
            let raw = if ws.len() > 0 { ws.last() } else { "unknown"@ };
            let cleaned = split_by(split_by(trim_set(raw, "[]()`*"@), seq![']'])[0], seq!['('])[0];
            if cleaned.len() == 0 || cleaned == "unknown"@ {
                None
            } else {
                Some(cleaned)
            }
        },
    }
}

pub fn resolve_target(target_file: Option<&str>, title: &str) -> (r: Option<String>)
    ensures
        match r {
            Some(s) => target_of(match target_file { Some(t) => Some(t@), None => None }, title@) == Some(s@),
            None => target_of(match target_file { Some(t) => Some(t@), None => None }, title@) is None,
        },
{
    match target_file {
        Some(t) => Some(owned(t)),
        None => {
            let tv = chars_of(title);
            let ws = words_of(&tv);
            proof {
                crate::text::lemma_nested_deep_view(ws);
            }
            let raw: Vec<char> = if ws.len() > 0 {
                proof {
                    lemma_chars_deep_view(ws@[ws.len() - 1]);
                }
                let w = slice_chars(&ws[ws.len() - 1], 0, ws[ws.len() - 1].len());
                assert(w@ =~= words(title@).last());
                w
            } else {
                chars_of("unknown")
            };
            let stripped = trim_set_chars(&raw, &chars_of("[]()`*"));
            let a = first_piece(&stripped, ']');
            let cleaned = first_piece(&a, '(');
            let cs = string_of(&cleaned);
            if cleaned.len() == 0 || str_eq(cs.as_str(), "unknown") {
                None
            } else {
                Some(cs)
            }
        },
    }
}

fn first_piece(s: &[char], sep: char) -> (r: Vec<char>)
    ensures
        r@ == split_by(s@, seq![sep])[0],
{
    let set = vec![sep];
    let parts = crate::text::split_by_chars(s, &set);
    assert(set@ =~= seq![sep]);
    proof {
        crate::text::lemma_nested_deep_view(parts);
        crate::canonicalizer::lemma_split_nonempty(s@, set@, 0);
        lemma_chars_deep_view(parts@[0]);
    }
    slice_chars(&parts[0], 0, parts[0].len())
}

} // verus!
