//! Checking C/C++ sources against the Win32 GUI runtime contract.
use vstd::prelude::*;
use crate::paths::{file_stem, path_file_stem};
use crate::patterns::{any_match, any_matches, eval_re, regex_test};
use crate::text::{
    ascii_lowercase, ascii_lowercase_chars, cat3, chars_of, contains, count_matches,
    count_matches_chars, ends_with, find, find_chars, owned, push_str, slice_chars, str_contains,
    str_ends_with, string_of, strings_of,
};
use crate::win32::{get_win32_contract, Win32Contract};
use crate::ordmap::str_eq;

verus! {

/// Checks sources against a Win32 GUI contract.
pub struct PlatformValidator {
    pub contract: Win32Contract,
}

/// `\bNAME\b`: the name as a whole word.
pub open spec fn word_pattern(n: Seq<char>) -> Seq<char> {
    "\\b"@ + n + "\\b"@
}

/// `\bNAME\s*\(`: a call of the name.
pub open spec fn call_pattern(n: Seq<char>) -> Seq<char> {
    "\\b"@ + n + "\\s*\\("@
}

/// Whole-word patterns of names.
pub open spec fn word_patterns(ns: Seq<Seq<char>>) -> Seq<Seq<char>> {
    ns.map_values(|n: Seq<char>| word_pattern(n))
}

pub open spec fn win32_types() -> Seq<Seq<char>> {
    seq![
        "HWND"@, "HDC"@, "HINSTANCE"@, "HMENU"@, "HBRUSH"@, "HCURSOR"@, "MSG"@, "RECT"@,
        "PAINTSTRUCT"@, "WNDCLASS"@, "WNDCLASSEX"@, "WNDPROC"@, "LPARAM"@, "WPARAM"@, "LRESULT"@,
    ]
}

pub open spec fn win32_calls() -> Seq<Seq<char>> {
    seq!["CreateWindow"@, "CreateWindowEx"@, "DefWindowProc"@, "BeginPaint"@, "EndPaint"@]
}

/// Definitions that stand in for Win32 types or APIs.
pub open spec fn fake_definitions() -> Seq<Seq<char>> {
    seq![
        "\\btypedef\\s+.*\\bHWND\\b"@,
        "\\bstruct\\s+HWND\\b"@,
        "\\bstruct\\s+HWND__\\b"@,
        "\\bint\\s+CreateWindow\\b"@,
        "\\bint\\s+CreateWindowEx\\b"@,
        "\\bint\\s+DefWindowProc\\b"@,
        "\\btypedef\\s+.*\\bLRESULT\\b"@,
        "\\btypedef\\s+.*\\bHINSTANCE\\b"@,
        "\\btypedef\\s+.*\\bWPARAM\\b"@,
        "\\btypedef\\s+.*\\bLPARAM\\b"@,
        "\\bHWND\\s+(WINAPI\\s+)?CreateWindowEx\\b"@,
        "\\bLRESULT\\s+(CALLBACK\\s+)?DispatchMessage\\b"@,
        "\\bBOOL\\s+(WINAPI\\s+)?TranslateMessage\\b"@,
        "\\bLRESULT\\s+(CALLBACK\\s+)?DefWindowProc\\b"@,
        "\\bHDC\\s+(WINAPI\\s+)?BeginPaint\\b"@,
        "\\bBOOL\\s+(WINAPI\\s+)?EndPaint\\b"@,
        "\\bBOOL\\s+(WINAPI\\s+)?ShowWindow\\b"@,
        "\\bBOOL\\s+(WINAPI\\s+)?UpdateWindow\\b"@,
        "\\bBOOL\\s+(WINAPI\\s+)?GetMessage\\b"@,
    ]
}

pub open spec fn main_pattern() -> Seq<char> {
    "\\b(int|void)?\\s*main\\s*\\("@
}

pub open spec fn gui_entry_pattern() -> Seq<char> {
    "\\b(wWinMain|WinMain)\\s*\\("@
}

pub open spec fn v(s: Seq<char>) -> Seq<char> {
    "PLATFORM_CONTRACT_VIOLATION: "@ + s
}

/// A system library name a project may not implement.
pub open spec fn is_system_library(n: Seq<char>) -> bool {
    n == "user32"@ || n == "gdi32"@ || n == "kernel32"@ || n == "shell32"@ || n == "comdlg32"@
        || n == "gdi"@ || n == "win32_api"@
}

/// The first forbidden pattern the text contains.
pub open spec fn first_contained(ps: Seq<Seq<char>>, t: Seq<char>) -> Option<Seq<char>>
    decreases ps.len(),
{
    if ps.len() == 0 {
        None
    } else if contains(t, ps[0]) {
        Some(ps[0])
    } else {
        first_contained(ps.drop_first(), t)
    }
}

/// No forbidden call appears as a whole word.
pub open spec fn calls_check(cs: Seq<Seq<char>>, f: Seq<char>, t: Seq<char>) -> Result<(), Seq<char>>
    decreases cs.len(),
{
    if cs.len() == 0 {
        Ok(())
    } else {
        match eval_re(word_pattern(cs[0]), t) {
            Err(e) => Err(e),
            Ok(true) => Err(v("Forbidden API call '"@ + cs[0] + "' detected in "@ + f + "."@)),
            Ok(false) => calls_check(cs.drop_first(), f, t),
        }
    }
}

/// Every required call is made.
pub open spec fn required_calls_check(cs: Seq<Seq<char>>, t: Seq<char>) -> Result<(), Seq<char>>
    decreases cs.len(),
{
    if cs.len() == 0 {
        Ok(())
    } else {
        match eval_re(call_pattern(cs[0]), t) {
            Err(e) => Err(e),
            Ok(false) => Err(v("Main source code lacks required Win32 API call '"@ + cs[0]
                + "' in message loop. A fake render loop or polling is forbidden."@)),
            Ok(true) => required_calls_check(cs.drop_first(), t),
        }
    }
}

/// Every required message is handled.
pub open spec fn required_messages_check(ms: Seq<Seq<char>>, t: Seq<char>) -> Result<(), Seq<char>>
    decreases ms.len(),
{
    if ms.len() == 0 {
        Ok(())
    } else {
        match eval_re(word_pattern(ms[0]), t) {
            Err(e) => Err(e),
            Ok(false) => Err(v("Win32 WndProc lacks mandatory message handler: "@ + ms[0] + "."@)),
            Ok(true) => required_messages_check(ms.drop_first(), t),
        }
    }
}

/// Rendering happens only in the `WM_PAINT` handler: everything from the
/// first `WM_PAINT` up to the next `case ` (else `default:`, else the end)
/// holds every `BeginPaint` and every `EndPaint`.
pub open spec fn render_check(t: Seq<char>) -> Result<(), Seq<char>> {
    if contains(t, "BeginPaint"@) || contains(t, "EndPaint"@) {
        match eval_re(word_pattern("WM_PAINT"@), t) {
            Err(e) => Err(e),
            Ok(false) => Err(v("Rendering call (BeginPaint/EndPaint) detected but WM_PAINT message handler is missing."@)),
            Ok(true) => match find(t, "WM_PAINT"@) {
                Some(pos) => {
                    let post = t.subrange(pos, t.len() as int);
                    let end = match find(post, "case "@) {
                        Some(e) => e,
                        None => match find(post, "default:"@) {
                            Some(e) => e,
                            None => post.len() as int,
                        },
                    };
                    let block = post.subrange(0, end);
                    if count_matches(t, "BeginPaint"@) != count_matches(block, "BeginPaint"@) {
                        Err(v("Continuous rendering or rendering outside WM_PAINT is forbidden. 'BeginPaint' must only be called inside the WM_PAINT message handler scope."@))
                    } else if count_matches(t, "EndPaint"@) != count_matches(block, "EndPaint"@) {
                        Err(v("Continuous rendering or rendering outside WM_PAINT is forbidden. 'EndPaint' must only be called inside the WM_PAINT message handler scope."@))
                    } else {
                        Ok(())
                    }
                },
                None => Err(v("BeginPaint/EndPaint is called but WM_PAINT scope cannot be verified."@)),
            },
        }
    } else {
        Ok(())
    }
}

/// The checks that follow the contract's own lists: a GUI entry point makes
/// the message loop, handles the required messages and delegates to
/// `DefWindowProc`; then the rendering rule.
pub open spec fn entry_rules(c: Win32Contract, t: Seq<char>) -> Result<(), Seq<char>> {
    match eval_re(gui_entry_pattern(), t) {
        Err(e) => Err(e),
        Ok(false) => render_check(t),
        Ok(true) => match required_calls_check(c.required_calls.deep_view(), t) {
            Err(e) => Err(e),
            Ok(_) => match required_messages_check(c.required_messages.deep_view(), t) {
                Err(e) => Err(e),
                Ok(_) => match eval_re("\\bDefWindowProc\\s*\\("@, t) {
                    Err(e) => Err(e),
                    Ok(false) => Err(v("Win32 WndProc lacks mandatory callback chain delegation to 'DefWindowProc'."@)),
                    Ok(true) => render_check(t),
                },
            },
        },
    }
}

/// From the system-library rule on.
pub open spec fn library_rules(c: Win32Contract, f: Seq<char>, t: Seq<char>, is_entrypoint: bool) -> Result<(), Seq<char>> {
    let base = match file_stem(ascii_lowercase(f)) {
        Some(s) => s,
        None => seq![],
    };
    if is_system_library(base) {
        Err(v("System library '"@ + f
            + "' cannot be generated as a project-owned module. It is a link-time OS service, not a source implementation."@))
    } else {
        match eval_re(main_pattern(), t) {
            Err(e) => Err(e),
            Ok(true) => Err(v("Forbidden entry point 'main' detected in "@ + f
                + ". Win32 GUI application must use '"@ + c.required_entry@
                + "' as the main entry point, and console 'main' is strictly forbidden."@)),
            Ok(false) => {
                let entry_ok = if is_entrypoint {
                    match eval_re(gui_entry_pattern(), t) {
                        Err(e) => Err(e),
                        Ok(false) => Err(v("Entrypoint component '"@ + f
                            + "' lacks the mandatory Win32 GUI entrypoint function '"@ + c.required_entry@
                            + "' or 'WinMain'. Console entrypoints are forbidden."@)),
                        Ok(true) => Ok(()),
                    }
                } else {
                    Ok(())
                };
                match entry_ok {
                    Err(e) => Err(e),
                    Ok(_) => match first_contained(c.forbidden_patterns.deep_view(), t) {
                        Some(p) => Err(v("Forbidden library/pattern '"@ + p + "' detected in "@ + f
                            + ". This is invalid for Win32 GUI App."@)),
                        None => match calls_check(c.forbidden_calls.deep_view(), f, t) {
                            Err(e) => Err(e),
                            Ok(_) => entry_rules(c, t),
                        },
                    },
                }
            },
        }
    }
}

/// The verdict on a source file (C/C++ sources and headers only; any other
/// file passes): Win32 types or calls need `windows.h` and no stand-in
/// definitions; no system library may be implemented; no console `main`;
/// an entry component defines `wWinMain`/`WinMain`; no forbidden pattern or
/// call; a GUI entry point has its message loop, messages and
/// `DefWindowProc`; rendering stays in `WM_PAINT`. A pattern that does not
/// compile reports the regex error.
pub open spec fn source_verdict(c: Win32Contract, f: Seq<char>, t: Seq<char>, is_entrypoint: bool) -> Result<(), Seq<char>> {
    if !(ends_with(f, ".c"@) || ends_with(f, ".cpp"@) || ends_with(f, ".h"@)) {
        Ok(())
    } else {
        match any_match(word_patterns(win32_types()), t) {
            Err(e) => Err(e),
            Ok(u1) => match any_match(word_patterns(win32_calls()), t) {
                Err(e) => Err(e),
                Ok(u2) => if u1 || u2 {
                    if !contains(t, "<windows.h>"@) && !contains(t, "\"windows.h\""@) {
                        Err(v("Win32 type/API usage detected in "@ + f
                            + " but '#include <windows.h>' is missing. Win32 types are owned by windows.h and must not be used without including it."@))
                    } else {
                        match any_match(fake_definitions(), t) {
                            Err(e) => Err(e),
                            Ok(true) => Err(v("Fake Win32 type definition or API replacement detected in "@ + f
                                + ". LLM must treat Win32 types/APIs as external OS ABI entities and MUST NOT define or replace them."@)),
                            Ok(false) => library_rules(c, f, t, is_entrypoint),
                        }
                    }
                } else {
                    library_rules(c, f, t, is_entrypoint)
                },
            },
        }
    }
}

fn word_pattern_exec(n: &str) -> (p: String)
    ensures
        p@ == word_pattern(n@),
{
    cat3("\\b", n, "\\b")
}

fn word_patterns_exec(ns: &[&str]) -> (r: Vec<String>)
    ensures
        r.deep_view() == word_patterns(ns@.map_values(|s: &str| s@)),
{
    let ghost nv = ns@.map_values(|s: &str| s@);
    let mut r: Vec<String> = Vec::new();
    let mut i: usize = 0;
    while i < ns.len()
        invariant
            nv == ns@.map_values(|s: &str| s@),
            i <= ns@.len(),
            r.deep_view() == word_patterns(nv.take(i as int)),
        decreases ns.len() - i,
    {
        crate::text::push_piece_string(&mut r, word_pattern_exec(ns[i]));
        assert(word_patterns(nv.take(i + 1)) =~= word_patterns(nv.take(i as int)).push(word_pattern(ns@[i as int]@)));
        i += 1;
    }
    assert(nv.take(ns@.len() as int) =~= nv);
    r
}

fn viol(s: &str) -> (r: String)
    ensures
        r@ == v(s@),
{
    crate::text::concat_strs("PLATFORM_CONTRACT_VIOLATION: ", s)
}

fn first_contained_exec(ps: &Vec<String>, t: &str) -> (r: Option<String>)
    ensures
        match r {
            Some(p) => first_contained(ps.deep_view(), t@) == Some(p@),
            None => first_contained(ps.deep_view(), t@) is None,
        },
{
    let ghost pv = ps.deep_view();
    let mut i: usize = 0;
    assert(pv.skip(0) =~= pv);
    while i < ps.len()
        invariant
            pv == ps.deep_view(),
            i <= pv.len(),
            first_contained(pv, t@) == first_contained(pv.skip(i as int), t@),
        decreases ps.len() - i,
    {
        assert(pv.skip(i as int)[0] == ps@[i as int]@);
        assert(pv.skip(i as int).drop_first() =~= pv.skip(i + 1));
        if str_contains(t, ps[i].as_str()) {
            return Some(ps[i].clone());
        }
        i += 1;
    }
    assert(pv.skip(i as int) =~= Seq::<Seq<char>>::empty());
    None
}

fn calls_check_exec(cs: &Vec<String>, f: &str, t: &str) -> (r: Result<(), String>)
    ensures
        match r {
            Ok(_) => calls_check(cs.deep_view(), f@, t@) is Ok,
            Err(e) => calls_check(cs.deep_view(), f@, t@) == Err::<(), Seq<char>>(e@),
        },
{
    let ghost cv = cs.deep_view();
    let mut i: usize = 0;
    assert(cv.skip(0) =~= cv);
    while i < cs.len()
        invariant
            cv == cs.deep_view(),
            i <= cv.len(),
            calls_check(cv, f@, t@) == calls_check(cv.skip(i as int), f@, t@),
        decreases cs.len() - i,
    {
        assert(cv.skip(i as int)[0] == cs@[i as int]@);
        assert(cv.skip(i as int).drop_first() =~= cv.skip(i + 1));
        match regex_test(word_pattern_exec(cs[i].as_str()).as_str(), t) {
            Err(e) => {
                return Err(e);
            },
            Ok(true) => {
                let mut m = chars_of("Forbidden API call '");
                push_str(&mut m, cs[i].as_str());
                push_str(&mut m, "' detected in ");
                push_str(&mut m, f);
                push_str(&mut m, ".");
                return Err(viol(string_of(&m).as_str()));
            },
            Ok(false) => {},
        }
        i += 1;
    }
    assert(cv.skip(i as int) =~= Seq::<Seq<char>>::empty());
    Ok(())
}

fn required_calls_exec(cs: &Vec<String>, t: &str) -> (r: Result<(), String>)
    ensures
        match r {
            Ok(_) => required_calls_check(cs.deep_view(), t@) is Ok,
            Err(e) => required_calls_check(cs.deep_view(), t@) == Err::<(), Seq<char>>(e@),
        },
{
    let ghost cv = cs.deep_view();
    let mut i: usize = 0;
    assert(cv.skip(0) =~= cv);
    while i < cs.len()
        invariant
            cv == cs.deep_view(),
            i <= cv.len(),
            required_calls_check(cv, t@) == required_calls_check(cv.skip(i as int), t@),
        decreases cs.len() - i,
    {
        assert(cv.skip(i as int)[0] == cs@[i as int]@);
        assert(cv.skip(i as int).drop_first() =~= cv.skip(i + 1));
        match regex_test(cat3("\\b", cs[i].as_str(), "\\s*\\(").as_str(), t) {
            Err(e) => {
                return Err(e);
            },
            Ok(false) => {
                return Err(viol(cat3("Main source code lacks required Win32 API call '", cs[i].as_str(),
                    "' in message loop. A fake render loop or polling is forbidden.").as_str()));
            },
            Ok(true) => {},
        }
        i += 1;
    }
    assert(cv.skip(i as int) =~= Seq::<Seq<char>>::empty());
    Ok(())
}

fn required_messages_exec(ms: &Vec<String>, t: &str) -> (r: Result<(), String>)
    ensures
        match r {
            Ok(_) => required_messages_check(ms.deep_view(), t@) is Ok,
            Err(e) => required_messages_check(ms.deep_view(), t@) == Err::<(), Seq<char>>(e@),
        },
{
    let ghost mv = ms.deep_view();
    let mut i: usize = 0;
    assert(mv.skip(0) =~= mv);
    while i < ms.len()
        invariant
            mv == ms.deep_view(),
            i <= mv.len(),
            required_messages_check(mv, t@) == required_messages_check(mv.skip(i as int), t@),
        decreases ms.len() - i,
    {
        assert(mv.skip(i as int)[0] == ms@[i as int]@);
        assert(mv.skip(i as int).drop_first() =~= mv.skip(i + 1));
        match regex_test(word_pattern_exec(ms[i].as_str()).as_str(), t) {
            Err(e) => {
                return Err(e);
            },
            Ok(false) => {
                return Err(viol(cat3("Win32 WndProc lacks mandatory message handler: ", ms[i].as_str(), ".").as_str()));
            },
            Ok(true) => {},
        }
        i += 1;
    }
    assert(mv.skip(i as int) =~= Seq::<Seq<char>>::empty());
    Ok(())
}

fn render_check_exec(t: &str) -> (r: Result<(), String>)
    ensures
        match r {
            Ok(_) => render_check(t@) is Ok,
            Err(e) => render_check(t@) == Err::<(), Seq<char>>(e@),
        },
{
    if str_contains(t, "BeginPaint") || str_contains(t, "EndPaint") {
        match regex_test(word_pattern_exec("WM_PAINT").as_str(), t) {
            Err(e) => Err(e),
            Ok(false) => Err(viol("Rendering call (BeginPaint/EndPaint) detected but WM_PAINT message handler is missing.")),
            Ok(true) => {
                let tv = chars_of(t);
                let wm = chars_of("WM_PAINT");
                proof {
                    crate::text::lemma_find(tv@, wm@);
                }
                match find_chars(&tv, &wm) {
                    Some(pos) => {
                        assert(crate::text::occurs_at(tv@, pos as int, wm@));
                        let post = slice_chars(&tv, pos, tv.len());
                        let case_kw = chars_of("case ");
                        let default_kw = chars_of("default:");
                        proof {
                            crate::text::lemma_find(post@, case_kw@);
                            crate::text::lemma_find(post@, default_kw@);
                        }
                        let end = match find_chars(&post, &case_kw) {
                            Some(e) => e,
                            None => match find_chars(&post, &default_kw) {
                                Some(e) => e,
                                None => post.len(),
                            },
                        };
                        proof {
                            if find(post@, case_kw@) is Some {
                                assert(crate::text::occurs_at(post@, end as int, case_kw@));
                            } else if find(post@, default_kw@) is Some {
                                assert(crate::text::occurs_at(post@, end as int, default_kw@));
                            }
                        }
                        let block = slice_chars(&post, 0, end);
                        let bp = chars_of("BeginPaint");
                        let ep = chars_of("EndPaint");
                        proof {
                            reveal_strlit("BeginPaint");
                            reveal_strlit("EndPaint");
                        }
                        if count_matches_chars(&tv, &bp) != count_matches_chars(&block, &bp) {
                            Err(viol("Continuous rendering or rendering outside WM_PAINT is forbidden. 'BeginPaint' must only be called inside the WM_PAINT message handler scope."))
                        } else if count_matches_chars(&tv, &ep) != count_matches_chars(&block, &ep) {
                            Err(viol("Continuous rendering or rendering outside WM_PAINT is forbidden. 'EndPaint' must only be called inside the WM_PAINT message handler scope."))
                        } else {
                            Ok(())
                        }
                    },
                    None => Err(viol("BeginPaint/EndPaint is called but WM_PAINT scope cannot be verified.")),
                }
            },
        }
    } else {
        Ok(())
    }
}

impl PlatformValidator {
    /// A validator holding the built-in contract.
    pub fn new() -> (r: Self)
        ensures
            r.contract.required_entry@ == "wWinMain"@,
            r.contract.required_calls.deep_view() == crate::win32::default_required_calls(),
            r.contract.forbidden_calls.deep_view() == crate::win32::default_forbidden_calls(),
            r.contract.required_messages.deep_view() == seq!["WM_PAINT"@],
            r.contract.forbidden_patterns.deep_view() == crate::win32::default_forbidden_patterns(),
    {
        PlatformValidator { contract: get_win32_contract() }
    }

    fn entry_rules_exec(&self, t: &str) -> (r: Result<(), String>)
        ensures
            match r {
                Ok(_) => entry_rules(self.contract, t@) is Ok,
                Err(e) => entry_rules(self.contract, t@) == Err::<(), Seq<char>>(e@),
            },
    {
        match regex_test("\\b(wWinMain|WinMain)\\s*\\(", t) {
            Err(e) => Err(e),
            Ok(false) => render_check_exec(t),
            Ok(true) => {
                match required_calls_exec(&self.contract.required_calls, t) {
                    Err(e) => {
                        return Err(e);
                    },
                    Ok(_) => {},
                }
                match required_messages_exec(&self.contract.required_messages, t) {
                    Err(e) => {
                        return Err(e);
                    },
                    Ok(_) => {},
                }
                match regex_test("\\bDefWindowProc\\s*\\(", t) {
                    Err(e) => Err(e),
                    Ok(false) => Err(viol("Win32 WndProc lacks mandatory callback chain delegation to 'DefWindowProc'.")),
                    Ok(true) => render_check_exec(t),
                }
            },
        }
    }

    fn library_rules_exec(&self, f: &str, t: &str, is_entrypoint: bool) -> (r: Result<(), String>)
        ensures
            match r {
                Ok(_) => library_rules(self.contract, f@, t@, is_entrypoint) is Ok,
                Err(e) => library_rules(self.contract, f@, t@, is_entrypoint) == Err::<(), Seq<char>>(e@),
            },
    {
        let fl = ascii_lowercase_chars(&chars_of(f));
        let fls = string_of(&fl);
        let base = match path_file_stem(fls.as_str()) {
            Some(s) => s,
            None => owned(""),
        };
        proof {
            reveal_strlit("");
            assert(""@ =~= Seq::<char>::empty());
        }
        let b = base.as_str();
        if str_eq(b, "user32") || str_eq(b, "gdi32") || str_eq(b, "kernel32") || str_eq(b, "shell32")
            || str_eq(b, "comdlg32") || str_eq(b, "gdi") || str_eq(b, "win32_api") {
            return Err(viol(cat3("System library '", f,
                "' cannot be generated as a project-owned module. It is a link-time OS service, not a source implementation.").as_str()));
        }
        match regex_test("\\b(int|void)?\\s*main\\s*\\(", t) {
            Err(e) => {
                return Err(e);
            },
            Ok(true) => {
                let mut m = chars_of("Forbidden entry point 'main' detected in ");
                push_str(&mut m, f);
                push_str(&mut m, ". Win32 GUI application must use '");
                push_str(&mut m, self.contract.required_entry.as_str());
                push_str(&mut m, "' as the main entry point, and console 'main' is strictly forbidden.");
                return Err(viol(string_of(&m).as_str()));
            },
            Ok(false) => {},
        }
        if is_entrypoint {
            match regex_test("\\b(wWinMain|WinMain)\\s*\\(", t) {
                Err(e) => {
                    return Err(e);
                },
                Ok(false) => {
                    let mut m = chars_of("Entrypoint component '");
                    push_str(&mut m, f);
                    push_str(&mut m, "' lacks the mandatory Win32 GUI entrypoint function '");
                    push_str(&mut m, self.contract.required_entry.as_str());
                    push_str(&mut m, "' or 'WinMain'. Console entrypoints are forbidden.");
                    return Err(viol(string_of(&m).as_str()));
                },
                Ok(true) => {},
            }
        }
        match first_contained_exec(&self.contract.forbidden_patterns, t) {
            Some(p) => {
                let mut m = chars_of("Forbidden library/pattern '");
                push_str(&mut m, p.as_str());
                push_str(&mut m, "' detected in ");
                push_str(&mut m, f);
                push_str(&mut m, ". This is invalid for Win32 GUI App.");
                return Err(viol(string_of(&m).as_str()));
            },
            None => {},
        }
        match calls_check_exec(&self.contract.forbidden_calls, f, t) {
            Err(e) => {
                return Err(e);
            },
            Ok(_) => {},
        }
        self.entry_rules_exec(t)
    }

    /// Checks a source file against the Win32 GUI contract; the error is the
    /// first violation found, as `source_verdict` orders them.
    pub fn validate_source_code(&self, filename: &str, content: &str, is_entrypoint: bool) -> (r: Result<(), String>)
        ensures
            match r {
                Ok(_) => source_verdict(self.contract, filename@, content@, is_entrypoint) is Ok,
                Err(e) => source_verdict(self.contract, filename@, content@, is_entrypoint) == Err::<(), Seq<char>>(e@),
            },
    {
        if !str_ends_with(filename, ".c") && !str_ends_with(filename, ".cpp") && !str_ends_with(filename, ".h") {
            return Ok(());
        }
        let tnames: [&str; 15] = [
            "HWND", "HDC", "HINSTANCE", "HMENU", "HBRUSH", "HCURSOR", "MSG", "RECT",
            "PAINTSTRUCT", "WNDCLASS", "WNDCLASSEX", "WNDPROC", "LPARAM", "WPARAM", "LRESULT",
        ];
        let cnames: [&str; 5] = ["CreateWindow", "CreateWindowEx", "DefWindowProc", "BeginPaint", "EndPaint"];
        let types = word_patterns_exec(&tnames);
        let calls = word_patterns_exec(&cnames);
        proof {
            assert(tnames@.map_values(|s: &str| s@) =~= win32_types());
            assert(cnames@.map_values(|s: &str| s@) =~= win32_calls());
        }
        let u1 = match any_matches(&types, content) {
            Err(e) => {
                return Err(e);
            },
            Ok(b) => b,
        };
        let u2 = match any_matches(&calls, content) {
            Err(e) => {
                return Err(e);
            },
            Ok(b) => b,
        };
        if u1 || u2 {
            if !str_contains(content, "<windows.h>") && !str_contains(content, "\"windows.h\"") {
                return Err(viol(cat3("Win32 type/API usage detected in ", filename,
                    " but '#include <windows.h>' is missing. Win32 types are owned by windows.h and must not be used without including it.").as_str()));
            }
            let fnames: [&str; 19] = [
                "\\btypedef\\s+.*\\bHWND\\b",
                "\\bstruct\\s+HWND\\b",
                "\\bstruct\\s+HWND__\\b",
                "\\bint\\s+CreateWindow\\b",
                "\\bint\\s+CreateWindowEx\\b",
                "\\bint\\s+DefWindowProc\\b",
                "\\btypedef\\s+.*\\bLRESULT\\b",
                "\\btypedef\\s+.*\\bHINSTANCE\\b",
                "\\btypedef\\s+.*\\bWPARAM\\b",
                "\\btypedef\\s+.*\\bLPARAM\\b",
                "\\bHWND\\s+(WINAPI\\s+)?CreateWindowEx\\b",
                "\\bLRESULT\\s+(CALLBACK\\s+)?DispatchMessage\\b",
                "\\bBOOL\\s+(WINAPI\\s+)?TranslateMessage\\b",
                "\\bLRESULT\\s+(CALLBACK\\s+)?DefWindowProc\\b",
                "\\bHDC\\s+(WINAPI\\s+)?BeginPaint\\b",
                "\\bBOOL\\s+(WINAPI\\s+)?EndPaint\\b",
                "\\bBOOL\\s+(WINAPI\\s+)?ShowWindow\\b",
                "\\bBOOL\\s+(WINAPI\\s+)?UpdateWindow\\b",
                "\\bBOOL\\s+(WINAPI\\s+)?GetMessage\\b",
            ];
            let fakes = strings_of(&fnames);
            proof {
                assert(fnames@.map_values(|s: &str| s@) =~= fake_definitions());
            }
            match any_matches(&fakes, content) {
                Err(e) => {
                    return Err(e);
                },
                Ok(true) => {
                    return Err(viol(cat3("Fake Win32 type definition or API replacement detected in ", filename,
                        ". LLM must treat Win32 types/APIs as external OS ABI entities and MUST NOT define or replace them.").as_str()));
                },
                Ok(false) => {},
            }
        }
        self.library_rules_exec(filename, content, is_entrypoint)
    }
}

impl Default for PlatformValidator {
    fn default() -> (r: Self)
        ensures
            r.contract.required_entry@ == "wWinMain"@,
    {
        PlatformValidator::new()
    }
}

// ---------------------------------------------------------------------------
// The built binary
// ---------------------------------------------------------------------------

/// A little-endian 16-bit value at `i`.
pub open spec fn le16(b: Seq<u8>, i: int) -> int {
    b[i] as int + 256 * b[i + 1] as int
}

/// A little-endian 32-bit value at `i`.
pub open spec fn le32(b: Seq<u8>, i: int) -> int {
    b[i] as int + 256 * b[i + 1] as int + 65536 * b[i + 2] as int + 16777216 * b[i + 3] as int
}

/// A byte with ASCII capitals made small.
pub open spec fn lower_byte(x: u8) -> u8 {
    if 65 <= x <= 90 { (x + 32) as u8 } else { x }
}

/// The `n` bytes of `b` from `i`, ASCII-lowercased.
pub open spec fn lowered_window(b: Seq<u8>, i: int, n: int) -> Seq<u8> {
    b.subrange(i, i + n).map_values(|x: u8| lower_byte(x))
}

/// `p` occurs in `b` after ASCII lowercasing `b`.
pub open spec fn has_bytes_lower(b: Seq<u8>, p: Seq<u8>) -> bool {
    exists|i: int| 0 <= i && i + p.len() <= b.len() && #[trigger] lowered_window(b, i, p.len() as int) == p
}

pub open spec fn user32_dll() -> Seq<u8> {
    seq![117u8, 115, 101, 114, 51, 50, 46, 100, 108, 108]
}

pub open spec fn gdi32_dll() -> Seq<u8> {
    seq![103u8, 100, 105, 51, 50, 46, 100, 108, 108]
}

/// The check of a built Windows binary: a Portable Executable whose
/// subsystem is the Windows GUI (2) and that links `user32.dll` and
/// `gdi32.dll`; the error names the first problem.
pub open spec fn binary_verdict(b: Seq<u8>) -> Result<(), Seq<char>> {
    if b.len() < 64 {
        Err("Invalid binary format: too short"@)
    } else {
        let pe = le32(b, 0x3c);
        if b.len() < pe + 4 {
            Err("Invalid PE binary offset"@)
        } else if !(b[pe] == 80 && b[pe + 1] == 69 && b[pe + 2] == 0 && b[pe + 3] == 0) {
            Err("PLATFORM_CONTRACT_VIOLATION: Binary is not a Portable Executable (PE). Ensure compilation targets MinGW/Windows."@)
        } else if b.len() < pe + 24 + 2 {
            Err("Invalid PE optional header"@)
        } else {
            let magic = le16(b, pe + 24);
            if magic != 0x10b && magic != 0x20b {
                Err("Unknown PE optional header magic"@)
            } else if b.len() < pe + 24 + 68 + 2 {
                Err("Invalid PE subsystem offset"@)
            } else {
                let sub = le16(b, pe + 24 + 68);
                if sub != 2 {
                    Err("PLATFORM_CONTRACT_VIOLATION: Subsystem is not WINDOWS_GUI (expected 2, got "@ + crate::spec_ir::decimal(sub as nat)
                        + "). Binary will open a Console Window."@)
                } else if !has_bytes_lower(b, user32_dll()) {
                    Err("PLATFORM_CONTRACT_VIOLATION: Binary lacks linkage to 'user32.dll'. Ensure GUI windowing library is properly linked."@)
                } else if !has_bytes_lower(b, gdi32_dll()) {
                    Err("PLATFORM_CONTRACT_VIOLATION: Binary lacks linkage to 'gdi32.dll'. Ensure GDI drawing library is properly linked."@)
                } else {
                    Ok(())
                }
            }
        }
    }
}

fn lower_byte_exec(x: u8) -> (r: u8)
    ensures
        r == lower_byte(x),
{
    if 65 <= x && x <= 90 { x + 32 } else { x }
}

fn find_bytes_lower(b: &[u8], p: &Vec<u8>) -> (r: bool)
    ensures
        r == has_bytes_lower(b@, p@),
{
    if p.len() > b.len() {
        return false;
    }
    let mut i: usize = 0;
    while i <= b.len() - p.len()
        invariant
            p.len() <= b.len(),
            i <= b.len(),
            forall|k: int| 0 <= k < i ==> #[trigger] lowered_window(b@, k, p@.len() as int) != p@,
        decreases b.len() - i,
    {
        let mut j: usize = 0;
        let mut same = true;
        while j < p.len()
            invariant
                i + p.len() <= b.len(),
                j <= p.len(),
                same == forall|t: int| 0 <= t < j ==> lower_byte(#[trigger] b@[i + t]) == p@[t],
            decreases p.len() - j,
        {
            if lower_byte_exec(b[i + j]) != p[j] {
                same = false;
            }
            j += 1;
        }
        let ghost w = lowered_window(b@, i as int, p@.len() as int);
        if same {
            assert forall|t: int| 0 <= t < p@.len() implies w[t] == p@[t] by {
                assert(lower_byte(b@[i + t]) == p@[t]);
            }
            assert(w =~= p@);
            return true;
        } else {
            assert(w != p@) by {
                let t = choose|t: int| 0 <= t < p.len() && lower_byte(#[trigger] b@[i + t]) != p@[t];
                assert(w[t] == lower_byte(b@[i + t]));
            }
        }
        i += 1;
    }
    proof {
        assert forall|k: int| 0 <= k && k + p@.len() <= b@.len() implies #[trigger] lowered_window(b@, k, p@.len() as int) != p@ by {
            assert(k < i);
        }
    }
    false
}

/// The constraints of a specification that the platform check reads.
pub struct PlatformConstraints {
    pub platform: Option<String>,
    pub runtime_model: Option<String>,
    pub language: String,
}

/// A specification for a Win32 GUI application: by its platform, its
/// runtime model, or the word in its text.
pub open spec fn targets_win32(spec: Seq<char>, c: PlatformConstraints) -> bool {
    ||| (match c.platform { Some(p) => p@ == "win32"@, None => false })
    ||| (match c.runtime_model { Some(m) => m@ == "win32_gui"@, None => false })
    ||| contains(crate::text::lowercase(spec), "win32"@)
}

/// The first forbidden pattern a specification's text mentions, lowercased.
pub open spec fn first_requested(spec: Seq<char>, ps: Seq<Seq<char>>) -> Option<Seq<char>>
    decreases ps.len(),
{
    if ps.len() == 0 {
        None
    } else if contains(crate::text::lowercase(spec), crate::text::lowercase(ps[0])) {
        Some(ps[0])
    } else {
        first_requested(spec, ps.drop_first())
    }
}

/// The check of a specification before design: a Win32 GUI application is
/// written in C or C++ and asks for no forbidden library.
pub open spec fn spec_verdict(contract: Win32Contract, spec: Seq<char>, c: PlatformConstraints) -> Result<(), Seq<char>> {
    if !targets_win32(spec, c) {
        Ok(())
    } else {
        let lang = crate::text::lowercase(c.language@);
        if lang != "c"@ && lang != "cpp"@ && lang != "c++"@ {
            Err("PLATFORM_CONTRACT_VIOLATION: Win32 GUI applications require C or C++ programming language (expected 'c' or 'cpp', got '"@
                + c.language@ + "')."@)
        } else {
            match first_requested(spec, contract.forbidden_patterns.deep_view()) {
                Some(p) => Err("PLATFORM_CONTRACT_VIOLATION: Specification requests forbidden cross-platform GUI/Console library/pattern '"@
                    + p + "' for Win32 GUI app."@),
                None => Ok(()),
            }
        }
    }
}

impl PlatformValidator {
    /// Checks the bytes of a built binary (see `binary_verdict`).
    pub fn check_binary_subsystem(&self, bytes: &[u8]) -> (r: Result<(), String>)
        ensures
            match r {
                Ok(_) => binary_verdict(bytes@) is Ok,
                Err(e) => binary_verdict(bytes@) == Err::<(), Seq<char>>(e@),
            },
    {
        let b = bytes;
        if b.len() < 64 {
            return Err(owned("Invalid binary format: too short"));
        }
        let pe: u64 = b[0x3c] as u64 + 256 * (b[0x3d] as u64) + 65536 * (b[0x3e] as u64) + 16777216 * (b[0x3f] as u64);
        assert(pe == le32(b@, 0x3c));
        if (b.len() as u64) < pe + 4 {
            return Err(owned("Invalid PE binary offset"));
        }
        let p = pe as usize;
        if !(b[p] == 80 && b[p + 1] == 69 && b[p + 2] == 0 && b[p + 3] == 0) {
            return Err(owned("PLATFORM_CONTRACT_VIOLATION: Binary is not a Portable Executable (PE). Ensure compilation targets MinGW/Windows."));
        }
        if (b.len() as u64) < pe + 24 + 2 {
            return Err(owned("Invalid PE optional header"));
        }
        let o = p + 24;
        let magic: u64 = b[o] as u64 + 256 * (b[o + 1] as u64);
        if magic != 0x10b && magic != 0x20b {
            return Err(owned("Unknown PE optional header magic"));
        }
        if (b.len() as u64) < pe + 24 + 68 + 2 {
            return Err(owned("Invalid PE subsystem offset"));
        }
        let so = o + 68;
        let sub: u64 = b[so] as u64 + 256 * (b[so + 1] as u64);
        if sub != 2 {
            let mut m = chars_of("PLATFORM_CONTRACT_VIOLATION: Subsystem is not WINDOWS_GUI (expected 2, got ");
            push_str(&mut m, crate::spec_ir::decimal_string(sub as usize).as_str());
            push_str(&mut m, "). Binary will open a Console Window.");
            return Err(string_of(&m));
        }
        let user32: Vec<u8> = vec![117u8, 115, 101, 114, 51, 50, 46, 100, 108, 108];
        let gdi32: Vec<u8> = vec![103u8, 100, 105, 51, 50, 46, 100, 108, 108];
        assert(user32@ =~= user32_dll());
        assert(gdi32@ =~= gdi32_dll());
        if !find_bytes_lower(b, &user32) {
            return Err(owned("PLATFORM_CONTRACT_VIOLATION: Binary lacks linkage to 'user32.dll'. Ensure GUI windowing library is properly linked."));
        }
        if !find_bytes_lower(b, &gdi32) {
            return Err(owned("PLATFORM_CONTRACT_VIOLATION: Binary lacks linkage to 'gdi32.dll'. Ensure GDI drawing library is properly linked."));
        }
        Ok(())
    }

    /// Checks a specification against the platform before design (see `spec_verdict`).
    pub fn validate_spec(&self, spec_content: &str, constraints: &PlatformConstraints) -> (r: Result<(), String>)
        ensures
            match r {
                Ok(_) => spec_verdict(self.contract, spec_content@, *constraints) is Ok,
                Err(e) => spec_verdict(self.contract, spec_content@, *constraints) == Err::<(), Seq<char>>(e@),
            },
    {
        let plat = match &constraints.platform {
            Some(p) => str_eq(p.as_str(), "win32"),
            None => false,
        };
        let model = match &constraints.runtime_model {
            Some(m) => str_eq(m.as_str(), "win32_gui"),
            None => false,
        };
        let spec_lower = crate::text::to_lower(spec_content);
        if !(plat || model || str_contains(spec_lower.as_str(), "win32")) {
            return Ok(());
        }
        let lang = crate::text::to_lower(constraints.language.as_str());
        if !str_eq(lang.as_str(), "c") && !str_eq(lang.as_str(), "cpp") && !str_eq(lang.as_str(), "c++") {
            return Err(cat3(
                "PLATFORM_CONTRACT_VIOLATION: Win32 GUI applications require C or C++ programming language (expected 'c' or 'cpp', got '",
                constraints.language.as_str(),
                "').",
            ));
        }
        let ps = &self.contract.forbidden_patterns;
        let ghost pv = ps.deep_view();
        let mut i: usize = 0;
        assert(pv.skip(0) =~= pv);
        while i < ps.len()
            invariant
                pv == ps.deep_view(),
                ps == self.contract.forbidden_patterns,
                targets_win32(spec_content@, *constraints),
                !(crate::text::lowercase(constraints.language@) != "c"@ && crate::text::lowercase(constraints.language@) != "cpp"@
                    && crate::text::lowercase(constraints.language@) != "c++"@),
                spec_lower@ == crate::text::lowercase(spec_content@),
                i <= pv.len(),
                first_requested(spec_content@, pv) == first_requested(spec_content@, pv.skip(i as int)),
            decreases ps.len() - i,
        {
            assert(pv.skip(i as int)[0] == ps@[i as int]@);
            assert(pv.skip(i as int).drop_first() =~= pv.skip(i + 1));
            let pl = crate::text::to_lower(ps[i].as_str());
            if str_contains(spec_lower.as_str(), pl.as_str()) {
                return Err(cat3(
                    "PLATFORM_CONTRACT_VIOLATION: Specification requests forbidden cross-platform GUI/Console library/pattern '",
                    ps[i].as_str(),
                    "' for Win32 GUI app.",
                ));
            }
            i += 1;
        }
        assert(pv.skip(i as int) =~= Seq::<Seq<char>>::empty());
        Ok(())
    }
}

} // verus!
