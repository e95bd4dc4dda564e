//! The Win32 GUI runtime contract: the entry point, message-loop calls,
//! messages and patterns a Win32 GUI program must use or avoid, read from
//! `KEY: value` contract texts with built-in fallbacks.
use vstd::prelude::*;
use crate::text::{
    ascii_lowercase, ascii_lowercase_chars, chars_eq, chars_of, find, find_chars, lines, lines_of,
    owned, slice_chars, split_by, split_by_chars, starts_with, starts_with_chars, string_of, trim,
    trim_chars, lemma_chars_deep_view, strings_of,
};

verus! {

/// What a Win32 GUI program must and must not contain.
#[derive(Debug)]
pub struct Win32Contract {
    pub required_entry: String,
    pub forbidden_entry: String,
    pub required_calls: Vec<String>,
    pub forbidden_calls: Vec<String>,
    pub required_messages: Vec<String>,
    pub forbidden_patterns: Vec<String>,
    pub expected_subsystem: String,
    pub subsystem_contract: String,
    pub winmain_contract: String,
    pub message_loop_contract: String,
    pub wndproc_contract: String,
    pub rendering_contract: String,
}

/// The value of the first `key: value` line (key compared ignoring ASCII
/// case; comment lines starting `#` and empty lines skipped), trimmed.
pub open spec fn line_value(ls: Seq<Seq<char>>, key: Seq<char>) -> Option<Seq<char>>
    decreases ls.len(),
{
    if ls.len() == 0 {
        None
    } else {
        let l = trim(ls[0]);
        if starts_with(l, "#"@) || l.len() == 0 {
            line_value(ls.drop_first(), key)
        } else {
            match find(l, ":"@) {
                Some(pos) => if ascii_lowercase(trim(l.subrange(0, pos))) == ascii_lowercase(key) {
                    Some(trim(l.subrange(pos + 1, l.len() as int)))
                } else {
                    line_value(ls.drop_first(), key)
                },
                None => line_value(ls.drop_first(), key),
            }
        }
    }
}

/// The comma-separated items, trimmed, empty ones dropped.
pub open spec fn csv_items(parts: Seq<Seq<char>>) -> Seq<Seq<char>>
    decreases parts.len(),
{
    if parts.len() == 0 {
        seq![]
    } else {
        csv_items(parts.drop_last()) + if trim(parts.last()).len() > 0 {
            seq![trim(parts.last())]
        } else {
            seq![]
        }
    }
}

/// The items of the `key` line of a contract text (none where it is missing).
pub open spec fn csv_value(raw: Seq<char>, key: Seq<char>) -> Seq<Seq<char>> {
    match line_value(lines(raw), key) {
        Some(v) => csv_items(split_by(v, seq![','])),
        None => seq![],
    }
}

/// The value of the `key` line of a contract text.
pub fn parse_line_value(raw: &str, key: &str) -> (r: Option<String>)
    ensures
        match r {
            Some(s) => line_value(lines(raw@), key@) == Some(s@),
            None => line_value(lines(raw@), key@) is None,
        },
{
    let rv = chars_of(raw);
    let kv = chars_of(key);
    let kl = ascii_lowercase_chars(&kv);
    let ls = lines_of(&rv);
    let ghost lv = ls.deep_view();
    let hash = chars_of("#");
    let colon = chars_of(":");
    let mut i: usize = 0;
    assert(lv.skip(0) =~= lv);
    while i < ls.len()
        invariant
            lv == ls.deep_view(),
            lv == lines(raw@),
            i <= lv.len(),
            hash@ == "#"@,
            colon@ == ":"@,
            kl@ == ascii_lowercase(key@),
            line_value(lv, key@) == line_value(lv.skip(i as int), key@),
        decreases ls.len() - i,
    {
        proof {
            lemma_chars_deep_view(ls@[i as int]);
            assert(lv.skip(i as int)[0] == ls@[i as int]@);
            assert(lv.skip(i as int).drop_first() =~= lv.skip(i + 1));
        }
        let l = trim_chars(&ls[i]);
        if !(starts_with_chars(&l, &hash) || l.len() == 0) {
            proof {
                crate::text::lemma_find(l@, colon@);
            }
            if let Some(pos) = find_chars(&l, &colon) {
                assert(crate::text::occurs_at(l@, pos as int, colon@));
                proof {
                    reveal_strlit(":");
                }
                assert(colon@.len() == 1);
                let k = trim_chars(&slice_chars(&l, 0, pos));
                let klo = ascii_lowercase_chars(&k);
                if chars_eq(&klo, &kl) {
                    let v = trim_chars(&slice_chars(&l, pos + 1, l.len()));
                    return Some(string_of(&v));
                }
            }
        }
        i += 1;
    }
    assert(lv.skip(i as int) =~= Seq::<Seq<char>>::empty());
    None
}

/// The comma-separated items of the `key` line of a contract text.
pub fn parse_csv_value(raw: &str, key: &str) -> (r: Vec<String>)
    ensures
        r.deep_view() == csv_value(raw@, key@),
{
    let mut out: Vec<String> = Vec::new();
    match parse_line_value(raw, key) {
        Some(v) => {
            let vv = chars_of(v.as_str());
            let comma = vec![','];
            let parts = split_by_chars(&vv, &comma);
            let ghost pv = parts.deep_view();
            assert(comma@ =~= seq![',']);
            let mut i: usize = 0;
            assert(out.deep_view() =~= csv_items(pv.take(0)));
            while i < parts.len()
                invariant
                    pv == parts.deep_view(),
                    pv == split_by(v@, seq![',']),
                    i <= pv.len(),
                    out.deep_view() == csv_items(pv.take(i as int)),
                decreases parts.len() - i,
            {
                proof {
                    lemma_chars_deep_view(parts@[i as int]);
                    assert(pv.take(i + 1).drop_last() =~= pv.take(i as int));
                    assert(pv.take(i + 1).last() == parts@[i as int]@);
                }
                let t = trim_chars(&parts[i]);
                if t.len() > 0 {
                    crate::text::push_piece_string(&mut out, string_of(&t));
                }
                proof {
                    assert(out.deep_view() =~= csv_items(pv.take(i + 1)));
                }
                i += 1;
            }
            assert(pv.take(pv.len() as int) =~= pv);
        },
        None => {
            assert(out.deep_view() =~= Seq::<Seq<char>>::empty());
        },
    }
    out
}

/// The message-loop calls required when the contract names none.
pub open spec fn default_required_calls() -> Seq<Seq<char>> {
    seq!["GetMessage"@, "TranslateMessage"@, "DispatchMessage"@]
}

/// The calls forbidden when the contract names none.
pub open spec fn default_forbidden_calls() -> Seq<Seq<char>> {
    seq!["polling_loop"@, "busy_renderer"@, "frame_scheduler"@]
}

/// The patterns forbidden when the contract names none.
pub open spec fn default_forbidden_patterns() -> Seq<Seq<char>> {
    seq![
        "SDL_Init"@, "SDL_PollEvent"@, "SDL_WaitEvent"@, "glfwInit"@, "glfwPollEvents"@,
        "glfwWaitEvents"@, "gtk_init"@, "gtk_main"@, "gtk_main_quit"@, "QApplication"@,
        "ncurses"@, "initscr"@, "electron"@, "NW.js"@,
    ]
}

/// The cross-platform event-loop patterns added to a contract's own list.
pub open spec fn extra_forbidden_patterns() -> Seq<Seq<char>> {
    seq!["SDL_PollEvent"@, "SDL_WaitEvent"@, "glfwPollEvents"@, "glfwWaitEvents"@, "gtk_main"@]
}

/// A list, or the fallback where it is empty.
pub open spec fn or_default(v: Seq<Seq<char>>, d: Seq<Seq<char>>) -> Seq<Seq<char>> {
    if v.len() == 0 {
        d
    } else {
        v
    }
}

impl Win32Contract {
    /// The contract read from its five texts (subsystem, WinMain, message
    /// loop, WndProc, rendering): `EXPECTED_SUBSYSTEM` and
    /// `FORBIDDEN_PATTERNS`, `REQUIRED_ENTRY` and `FORBIDDEN_ENTRY`,
    /// `REQUIRED_CALLS` and `FORBIDDEN_CALLS`, `REQUIRED_MESSAGES`; empty
    /// lists fall back to the built-in ones, and a contract that names its
    /// own forbidden patterns gets the cross-platform event loops added.
    pub fn from_texts(subsystem: &str, winmain: &str, message_loop: &str, wndproc: &str, rendering: &str) -> (c: Self)
        ensures
            c.expected_subsystem@ == match line_value(lines(subsystem@), "EXPECTED_SUBSYSTEM"@) {
                Some(v) => v,
                None => "WINDOWS"@,
            },
            c.required_entry@ == match line_value(lines(winmain@), "REQUIRED_ENTRY"@) {
                Some(v) => v,
                None => "wWinMain"@,
            },
            c.forbidden_entry@ == match line_value(lines(winmain@), "FORBIDDEN_ENTRY"@) {
                Some(v) => v,
                None => "main"@,
            },
            c.required_calls.deep_view() == or_default(csv_value(message_loop@, "REQUIRED_CALLS"@), default_required_calls()),
            c.forbidden_calls.deep_view() == or_default(csv_value(message_loop@, "FORBIDDEN_CALLS"@), default_forbidden_calls()),
            c.required_messages.deep_view() == or_default(csv_value(rendering@, "REQUIRED_MESSAGES"@), seq!["WM_PAINT"@]),
            c.forbidden_patterns.deep_view() == if csv_value(subsystem@, "FORBIDDEN_PATTERNS"@).len() == 0 {
                default_forbidden_patterns()
            } else {
                csv_value(subsystem@, "FORBIDDEN_PATTERNS"@) + extra_forbidden_patterns()
            },
            c.subsystem_contract@ == subsystem@,
            c.winmain_contract@ == winmain@,
            c.message_loop_contract@ == message_loop@,
            c.wndproc_contract@ == wndproc@,
            c.rendering_contract@ == rendering@,
    {
        let expected_subsystem = match parse_line_value(subsystem, "EXPECTED_SUBSYSTEM") {
            Some(v) => v,
            None => owned("WINDOWS"),
        };
        let mut forbidden_patterns = parse_csv_value(subsystem, "FORBIDDEN_PATTERNS");
        let required_entry = match parse_line_value(winmain, "REQUIRED_ENTRY") {
            Some(v) => v,
            None => owned("wWinMain"),
        };
        let forbidden_entry = match parse_line_value(winmain, "FORBIDDEN_ENTRY") {
            Some(v) => v,
            None => owned("main"),
        };
        let mut required_calls = parse_csv_value(message_loop, "REQUIRED_CALLS");
        let mut forbidden_calls = parse_csv_value(message_loop, "FORBIDDEN_CALLS");
        let mut required_messages = parse_csv_value(rendering, "REQUIRED_MESSAGES");
        if required_calls.len() == 0 {
            required_calls = strings_of(&["GetMessage", "TranslateMessage", "DispatchMessage"]);
        }
        if forbidden_calls.len() == 0 {
            forbidden_calls = strings_of(&["polling_loop", "busy_renderer", "frame_scheduler"]);
        }
        if required_messages.len() == 0 {
            required_messages = strings_of(&["WM_PAINT"]);
        }
        if forbidden_patterns.len() == 0 {
            forbidden_patterns = strings_of(&[
                "SDL_Init", "SDL_PollEvent", "SDL_WaitEvent", "glfwInit", "glfwPollEvents",
                "glfwWaitEvents", "gtk_init", "gtk_main", "gtk_main_quit", "QApplication",
                "ncurses", "initscr", "electron", "NW.js",
            ]);
        } else {
            let extra = strings_of(&["SDL_PollEvent", "SDL_WaitEvent", "glfwPollEvents", "glfwWaitEvents", "gtk_main"]);
            let ghost before = forbidden_patterns.deep_view();
            let mut i: usize = 0;
            while i < extra.len()
                invariant
                    i <= extra@.len(),
                    forbidden_patterns.deep_view() == before + extra.deep_view().take(i as int),
                decreases extra.len() - i,
            {
                crate::text::push_piece_string(&mut forbidden_patterns, extra[i].clone());
                assert(extra.deep_view().take(i + 1) =~= extra.deep_view().take(i as int).push(extra@[i as int]@));
                i += 1;
            }
            assert(extra.deep_view().take(extra@.len() as int) =~= extra.deep_view());
        }
        Win32Contract {
            required_entry,
            forbidden_entry,
            required_calls,
            forbidden_calls,
            required_messages,
            forbidden_patterns,
            expected_subsystem,
            subsystem_contract: owned(subsystem),
            winmain_contract: owned(winmain),
            message_loop_contract: owned(message_loop),
            wndproc_contract: owned(wndproc),
            rendering_contract: owned(rendering),
        }
    }
}

/// The built-in contract: the contract texts it is read from are empty, so
/// every value is the built-in fallback.
pub fn get_win32_contract() -> (c: Win32Contract)
    ensures
        c.required_entry@ == "wWinMain"@,
        c.forbidden_entry@ == "main"@,
        c.expected_subsystem@ == "WINDOWS"@,
        c.required_calls.deep_view() == default_required_calls(),
        c.forbidden_calls.deep_view() == default_forbidden_calls(),
        c.required_messages.deep_view() == seq!["WM_PAINT"@],
        c.forbidden_patterns.deep_view() == default_forbidden_patterns(),
{
    proof {
        reveal_strlit("");
        assert(lines(""@) =~= Seq::<Seq<char>>::empty());
    }
    Win32Contract::from_texts("", "", "", "", "")
}

} // verus!
