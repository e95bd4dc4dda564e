//! The decisions of one task's run: when an attempt may start, what the
//! global harness rejects, which gates a proposal passed, whether it is
//! promoted, and how a rejection is counted and reported. The caller does
//! the work in between (agents, files, compilers, the Boss Board) and
//! hands the results back.
use vstd::prelude::*;
use crate::canonicalizer::canonical_key;
use crate::harness::{
    check_allowed_includes, check_forbidden_symbols, empty_or_comments, first_bad_include,
    first_in_code, is_empty_or_comments_only,
};
use crate::json::{json_of, member, parse_json, JsonValue};
use crate::ordmap::{keys_of, lookup, str_eq};
use crate::paths::{extension, file_name, path_extension, path_file_name};
use crate::patterns::{capture1, compile, regex_capture1, regex_compile};
use crate::schema::{Language, ProjectIR};
use crate::spec_ir::{decimal, decimal_string};
use crate::text::{
    chars_of, ends_with, join, lines, lowercase, owned, push_str, starts_with, str_ends_with,
    str_starts_with, string_of, to_lower, trim, trim_chars,
};

verus! {

// ---------------------------------------------------------------------------
// The retry budget
// ---------------------------------------------------------------------------

/// How many times a task may be attempted before the Boss Board takes it.
pub const MAX_TASK_RETRIES: u32 = 3;

/// What a task run knows between attempts: the attempts used up, the
/// budget, and the feedback the next attempt starts from.
pub struct TaskRun {
    pub retries: u32,
    pub max_retries: u32,
    pub error_feedback: Option<String>,
}

/// What happens at the top of the loop.
#[derive(Clone, Copy, Debug, PartialEq, Eq, Structural)]
pub enum AttemptStart {
    /// The pipeline was paused: stop without touching the task.
    Paused,
    /// The budget is used up: the task goes to the Boss Board.
    Exhausted,
    /// Run another attempt.
    Proceed,
}

/// What happens after a rejected attempt.
#[derive(Clone, Copy, Debug, PartialEq, Eq, Structural)]
pub enum AfterRejection {
    /// Sleep a little and try again with the feedback.
    Retry,
    /// The last attempt was rejected: the task goes to the Boss Board.
    Escalate,
}

/// The feedback text of an optional string.
pub open spec fn opt_view(o: Option<String>) -> Option<Seq<char>> {
    match o {
        Some(s) => Some(s@),
        None => None,
    }
}

/// The decision at the top of the loop, by the attempts used up.
pub open spec fn start_of(retries: u32, max_retries: u32, paused: bool) -> AttemptStart {
    if paused {
        AttemptStart::Paused
    } else if retries >= max_retries {
        AttemptStart::Exhausted
    } else {
        AttemptStart::Proceed
    }
}

impl TaskRun {
    /// The attempts used up never exceed the budget.
    pub open spec fn wf(&self) -> bool {
        self.retries <= self.max_retries
    }

    /// A fresh run of a task, starting from the feedback the task carries.
    pub fn start(error_feedback: Option<String>) -> (r: TaskRun)
        ensures
            r.wf(),
            r.retries == 0,
            r.max_retries == MAX_TASK_RETRIES,
            opt_view(r.error_feedback) == opt_view(error_feedback),
    {
        TaskRun { retries: 0, max_retries: MAX_TASK_RETRIES, error_feedback }
    }

    /// Pausing wins; then an exhausted budget; else another attempt.
    pub fn begin_attempt(&self, paused: bool) -> (a: AttemptStart)
        ensures
            a == start_of(self.retries, self.max_retries, paused),
    {
        if paused {
            AttemptStart::Paused
        } else if self.retries >= self.max_retries {
            AttemptStart::Exhausted
        } else {
            AttemptStart::Proceed
        }
    }

    /// An agent call failed (the Junior's proposal or the Senior's review):
    /// the attempt counts, the feedback stays.
    pub fn agent_failed(&mut self)
        requires
            old(self).wf(),
            old(self).retries < old(self).max_retries,
        ensures
            final(self).wf(),
            final(self).retries == old(self).retries + 1,
            final(self).max_retries == old(self).max_retries,
            opt_view(final(self).error_feedback) == opt_view(old(self).error_feedback),
    {
        self.retries = self.retries + 1;
    }

    /// An attempt was rejected: it counts, its feedback is what the next
    /// attempt starts from, and the last one escalates.
    pub fn rejected(&mut self, feedback: String) -> (a: AfterRejection)
        requires
            old(self).wf(),
            old(self).retries < old(self).max_retries,
        ensures
            final(self).wf(),
            final(self).retries == old(self).retries + 1,
            final(self).max_retries == old(self).max_retries,
            opt_view(final(self).error_feedback) == Some(feedback@),
            a == (if final(self).retries >= final(self).max_retries {
                AfterRejection::Escalate
            } else {
                AfterRejection::Retry
            }),
    {
        self.retries = self.retries + 1;
        self.error_feedback = Some(feedback);
        if self.retries >= self.max_retries {
            AfterRejection::Escalate
        } else {
            AfterRejection::Retry
        }
    }
}

// ---------------------------------------------------------------------------
// Rejection sources and counters
// ---------------------------------------------------------------------------

/// Which check rejected an attempt.
#[derive(Clone, Copy, Debug, PartialEq, Eq, Structural)]
pub enum RejectionSource {
    Validator,
    Lsp,
    Compiler,
    Senior,
}

impl RejectionSource {
    pub open spec fn spec_gatekeeper(self) -> Seq<char> {
        match self {
            RejectionSource::Validator => "validator (global_harness)"@,
            RejectionSource::Lsp => "lsp (semantic_gate)"@,
            RejectionSource::Compiler => "compiler (build_gate)"@,
            RejectionSource::Senior => "senior"@,
        }
    }

    /// The gatekeeper named in the diagnostic of a rejected attempt.
    pub fn gatekeeper(&self) -> (s: &'static str)
        ensures
            s@ == self.spec_gatekeeper(),
    {
        match self {
            RejectionSource::Validator => "validator (global_harness)",
            RejectionSource::Lsp => "lsp (semantic_gate)",
            RejectionSource::Compiler => "compiler (build_gate)",
            RejectionSource::Senior => "senior",
        }
    }
}

/// The rejection counters a task keeps, one per gate, and the Boss Board
/// interventions.
#[derive(Clone, Copy, Debug, PartialEq, Eq, Structural)]
pub struct RejectionCounters {
    pub validator: u32,
    pub lsp: u32,
    pub cargo: u32,
    pub senior: u32,
    pub boss_interventions: u32,
}

impl RejectionCounters {
    /// The counter a source adds to.
    pub open spec fn count_of(self, source: RejectionSource) -> u32 {
        match source {
            RejectionSource::Validator => self.validator,
            RejectionSource::Lsp => self.lsp,
            RejectionSource::Compiler => self.cargo,
            RejectionSource::Senior => self.senior,
        }
    }

    /// Counts one rejection against the check that made it; the others stay.
    pub fn record(&mut self, source: RejectionSource)
        requires
            old(self).count_of(source) < u32::MAX,
        ensures
            final(self).count_of(source) == old(self).count_of(source) + 1,
            forall|o: RejectionSource| o != source ==> #[trigger] final(self).count_of(o) == old(self).count_of(o),
            final(self).boss_interventions == old(self).boss_interventions,
    {
        match source {
            RejectionSource::Validator => self.validator = self.validator + 1,
            RejectionSource::Lsp => self.lsp = self.lsp + 1,
            RejectionSource::Compiler => self.cargo = self.cargo + 1,
            RejectionSource::Senior => self.senior = self.senior + 1,
        }
    }

    /// The Boss Board takes the task once more.
    pub fn escalate(&mut self)
        requires
            old(self).boss_interventions < u32::MAX,
        ensures
            final(self).boss_interventions == old(self).boss_interventions + 1,
            forall|o: RejectionSource| #[trigger] final(self).count_of(o) == old(self).count_of(o),
    {
        self.boss_interventions = self.boss_interventions + 1;
    }
}

// ---------------------------------------------------------------------------
// What the previous attempt left behind
// ---------------------------------------------------------------------------

/// Text left from an earlier attempt that says nothing: blank, or one of
/// the placeholder comments of a new file.
pub open spec fn meaningless(raw: Seq<char>) -> bool {
    let t = trim(raw);
    ||| t.len() == 0
    ||| t == "// Empty file"@
    ||| t == "// This is a new file."@
    ||| t == "// empty file"@
    ||| starts_with(t, "// This is a new file"@)
}

/// The earlier code an attempt starts from: nothing where what was left
/// says nothing.
pub fn usable_existing_code(raw: &str) -> (r: String)
    ensures
        r@ == if meaningless(raw@) { Seq::<char>::empty() } else { raw@ },
{
    let tv = trim_chars(&chars_of(raw));
    let t = string_of(&tv);
    let ts = t.as_str();
    if tv.len() == 0 || str_eq(ts, "// Empty file") || str_eq(ts, "// This is a new file.")
        || str_eq(ts, "// empty file") || str_starts_with(ts, "// This is a new file") {
        let e = String::new();
        assert(e@ =~= Seq::<char>::empty());
        e
    } else {
        owned(raw)
    }
}

// ---------------------------------------------------------------------------
// The global harness gate
// ---------------------------------------------------------------------------

/// Why the global harness rejected a proposal: the rejection's text, the
/// diagnostic's message and its classification.
pub struct HarnessRejection {
    pub reason: String,
    pub message: String,
    pub classification: String,
}

/// The extension of the resolved target (none where there is no target).
pub open spec fn target_ext(target: Option<Seq<char>>) -> Seq<char> {
    match target {
        Some(t) => match extension(t) {
            Some(e) => e,
            None => seq![],
        },
        None => seq![],
    }
}

/// The first forbidden symbol the code holds: the global list first, then
/// the component's own.
pub open spec fn forbidden_hit(code: Seq<char>, custom: Seq<Seq<char>>, global: Seq<Seq<char>>) -> Option<Seq<char>> {
    match first_in_code(code, global) {
        Some(g) => Some(g),
        None => first_in_code(code, custom),
    }
}

/// The first include the allowed list does not admit (nothing is checked
/// where the list is empty).
pub open spec fn include_hit(code: Seq<char>, allowed: Seq<Seq<char>>) -> Option<Seq<char>> {
    if allowed.len() == 0 {
        None
    } else {
        first_bad_include(lines(code), allowed)
    }
}

/// The global harness's verdict on a proposal's code: the rejection's
/// reason, message and classification, or `None` where the code passes.
pub open spec fn harness_verdict(
    code: Option<Seq<char>>,
    target: Option<Seq<char>>,
    custom: Seq<Seq<char>>,
    global: Seq<Seq<char>>,
    allowed: Seq<Seq<char>>,
) -> Option<(Seq<char>, Seq<char>, Seq<char>)> {
    match code {
        None => Some((
            "🚨 [GLOBAL_HARNESS] Auto-rejected: Proposed code is empty."@,
            "Proposed code is empty (no full_code in proposal)."@,
            "empty_code"@,
        )),
        Some(c) => if empty_or_comments(c, target_ext(target)) {
            Some((
                "🚨 [GLOBAL_HARNESS] Auto-rejected: Proposed code is empty or contains only comments. Actual implementation is required."@,
                "Proposed code is empty or contains only comments."@,
                "empty_or_comments"@,
            ))
        } else {
            match forbidden_hit(c, custom, global) {
                Some(sym) => Some((
                    "🚨 [GLOBAL_HARNESS] Auto-rejected: Code contains forbidden symbol/function '"@ + sym + "'."@,
                    "Forbidden symbol/function '"@ + sym + "' detected."@,
                    "forbidden_symbol"@,
                )),
                None => match include_hit(c, allowed) {
                    Some(h) => Some((
                        "🚨 [GLOBAL_HARNESS] Auto-rejected: Non-conforming header '"@ + h
                            + "' detected. Only allowed includes are permitted."@,
                        "Non-conforming header '"@ + h + "' detected."@,
                        "non_conforming_include"@,
                    )),
                    None => None,
                },
            }
        },
    }
}

/// A rejection of the global harness, as plain texts.
pub open spec fn rejection_view(r: Option<HarnessRejection>) -> Option<(Seq<char>, Seq<char>, Seq<char>)> {
    match r {
        Some(x) => Some((x.reason@, x.message@, x.classification@)),
        None => None,
    }
}

fn rejection(a: &str, b: &str, c: &str) -> (r: HarnessRejection)
    ensures
        r.reason@ == a@,
        r.message@ == b@,
        r.classification@ == c@,
{
    HarnessRejection { reason: owned(a), message: owned(b), classification: owned(c) }
}

/// The global harness: no code, empty or comment-only code, a forbidden
/// symbol, or an include outside the allowed list rejects the proposal,
/// checked in that order.
pub fn harness_gate(
    code: Option<&str>,
    target: Option<&str>,
    custom_forbidden: &[String],
    global_forbidden: &[String],
    allowed: &[String],
) -> (r: Option<HarnessRejection>)
    ensures
        rejection_view(r) == harness_verdict(
            match code { Some(c) => Some(c@), None => None },
            match target { Some(t) => Some(t@), None => None },
            custom_forbidden@.map_values(|x: String| x@),
            global_forbidden@.map_values(|x: String| x@),
            allowed@.map_values(|x: String| x@),
        ),
{
    match code {
        None => Some(rejection(
            "🚨 [GLOBAL_HARNESS] Auto-rejected: Proposed code is empty.",
            "Proposed code is empty (no full_code in proposal).",
            "empty_code",
        )),
        Some(c) => {
            let ext = match target {
                Some(t) => match path_extension(t) {
                    Some(e) => e,
                    None => String::new(),
                },
                None => String::new(),
            };
            proof {
                if ext@.len() == 0 {
                    assert(ext@ =~= Seq::<char>::empty());
                }
            }
            assert(ext@ == target_ext(match target { Some(t) => Some(t@), None => None }));
            if is_empty_or_comments_only(c, ext.as_str()) {
                return Some(rejection(
                    "🚨 [GLOBAL_HARNESS] Auto-rejected: Proposed code is empty or contains only comments. Actual implementation is required.",
                    "Proposed code is empty or contains only comments.",
                    "empty_or_comments",
                ));
            }
            match check_forbidden_symbols(c, custom_forbidden, global_forbidden) {
                Some(sym) => {
                    let mut reason = chars_of("🚨 [GLOBAL_HARNESS] Auto-rejected: Code contains forbidden symbol/function '");
                    push_str(&mut reason, sym.as_str());
                    push_str(&mut reason, "'.");
                    let mut message = chars_of("Forbidden symbol/function '");
                    push_str(&mut message, sym.as_str());
                    push_str(&mut message, "' detected.");
                    Some(HarnessRejection {
                        reason: string_of(&reason),
                        message: string_of(&message),
                        classification: owned("forbidden_symbol"),
                    })
                },
                None => match check_allowed_includes(c, allowed) {
                    Some(h) => {
                        let mut reason = chars_of("🚨 [GLOBAL_HARNESS] Auto-rejected: Non-conforming header '");
                        push_str(&mut reason, h.as_str());
                        push_str(&mut reason, "' detected. Only allowed includes are permitted.");
                        let mut message = chars_of("Non-conforming header '");
                        push_str(&mut message, h.as_str());
                        push_str(&mut message, "' detected.");
                        Some(HarnessRejection {
                            reason: string_of(&reason),
                            message: string_of(&message),
                            classification: owned("non_conforming_include"),
                        })
                    },
                    None => None,
                },
            }
        },
    }
}

// ---------------------------------------------------------------------------
// What the IR allows a target
// ---------------------------------------------------------------------------

/// The file names of the header components (keys ending in `.h` or `.hpp`).
pub open spec fn header_names(keys: Seq<Seq<char>>) -> Seq<Seq<char>>
    decreases keys.len(),
{
    if keys.len() == 0 {
        seq![]
    } else {
        let k = keys.last();
        header_names(keys.drop_last()) + if ends_with(k, ".h"@) || ends_with(k, ".hpp"@) {
            match file_name(k) {
                Some(n) => seq![n],
                None => seq![],
            }
        } else {
            seq![]
        }
    }
}

/// The key a target is looked up under (the empty path where there is none).
pub open spec fn target_key(target: Option<Seq<char>>) -> Seq<char> {
    canonical_key(match target {
        Some(t) => t,
        None => seq![],
    })
}

/// The includes a target may use: those its component allows, then the
/// file name of every header of the project.
pub open spec fn allowed_for(ir: Option<ProjectIR>, target: Option<Seq<char>>) -> Seq<Seq<char>> {
    match ir {
        None => seq![],
        Some(p) => {
            let own = match lookup(p.components.view(), target_key(target)) {
                Some(c) => c.allowed_includes.view(),
                None => seq![],
            };
            own + header_names(keys_of(p.components.view()))
        },
    }
}

/// The symbols a target's component forbids.
pub open spec fn forbidden_for(ir: Option<ProjectIR>, target: Option<Seq<char>>) -> Seq<Seq<char>> {
    match ir {
        None => seq![],
        Some(p) => match lookup(p.components.view(), target_key(target)) {
            Some(c) => c.forbidden_symbols.view(),
            None => seq![],
        },
    }
}

fn target_or_empty(target: Option<&str>) -> (r: String)
    ensures
        r@ == match target {
            Some(t) => t@,
            None => Seq::<char>::empty(),
        },
{
    match target {
        Some(t) => owned(t),
        None => {
            let e = String::new();
            assert(e@ =~= Seq::<char>::empty());
            e
        },
    }
}

/// The includes the harness admits for a target.
pub fn allowed_includes_for(ir: Option<&ProjectIR>, target: Option<&str>) -> (r: Vec<String>)
    ensures
        r.deep_view() == allowed_for(
            match ir { Some(p) => Some(*p), None => None },
            match target { Some(t) => Some(t@), None => None },
        ),
{
    let mut out: Vec<String> = Vec::new();
    match ir {
        None => {
            assert(out.deep_view() =~= Seq::<Seq<char>>::empty());
        },
        Some(p) => {
            let key = target_or_empty(target);
            match p.get_component(key.as_str()) {
                Some(c) => {
                    out = c.allowed_includes.to_vec();
                },
                None => {
                    assert(out.deep_view() =~= Seq::<Seq<char>>::empty());
                },
            }
            let ghost own = out.deep_view();
            let keys = p.get_all_keys();
            let ghost kv = keys.deep_view();
            let mut i: usize = 0;
            assert(header_names(kv.take(0)) =~= Seq::<Seq<char>>::empty());
            assert(own + header_names(kv.take(0)) =~= own);
            while i < keys.len()
                invariant
                    kv == keys.deep_view(),
                    i <= kv.len(),
                    out.deep_view() == own + header_names(kv.take(i as int)),
                decreases keys.len() - i,
            {
                let k = keys[i].as_str();
                assert(k@ == kv[i as int]);
                assert(kv.take(i + 1).drop_last() =~= kv.take(i as int));
                let ghost before = out.deep_view();
                if str_ends_with(k, ".h") || str_ends_with(k, ".hpp") {
                    match path_file_name(k) {
                        Some(n) => {
                            crate::text::push_piece_string(&mut out, n);
                        },
                        None => {},
                    }
                }
                assert(out.deep_view() =~= own + header_names(kv.take(i + 1)));
                i += 1;
            }
            assert(kv.take(kv.len() as int) =~= kv);
        },
    }
    out
}

/// The symbols the harness forbids a target beyond the global list.
pub fn forbidden_symbols_for(ir: Option<&ProjectIR>, target: Option<&str>) -> (r: Vec<String>)
    ensures
        r.deep_view() == forbidden_for(
            match ir { Some(p) => Some(*p), None => None },
            match target { Some(t) => Some(t@), None => None },
        ),
{
    match ir {
        None => {
            let out: Vec<String> = Vec::new();
            assert(out.deep_view() =~= Seq::<Seq<char>>::empty());
            out
        },
        Some(p) => {
            let key = target_or_empty(target);
            match p.get_component(key.as_str()) {
                Some(c) => c.forbidden_symbols.to_vec(),
                None => {
                    let out: Vec<String> = Vec::new();
                    assert(out.deep_view() =~= Seq::<Seq<char>>::empty());
                    out
                },
            }
        },
    }
}

// ---------------------------------------------------------------------------
// The static gates
// ---------------------------------------------------------------------------

/// The language the static analyser is run for, by the target's lowercased
/// extension (none for other files).
pub open spec fn lsp_language_of(target: Seq<char>) -> Option<Language> {
    let e = lowercase(match extension(target) {
        Some(x) => x,
        None => seq![],
    });
    if e == "c"@ || e == "h"@ || e == "cpp"@ || e == "hpp"@ || e == "cc"@ || e == "cxx"@ {
        Some(Language::C)
    } else if e == "rs"@ {
        Some(Language::Rust)
    } else if e == "py"@ {
        Some(Language::Python)
    } else {
        None
    }
}

fn lowered_extension(target: &str) -> (r: String)
    ensures
        r@ == lowercase(match extension(target@) {
            Some(x) => x,
            None => Seq::<char>::empty(),
        }),
{
    let e = match path_extension(target) {
        Some(x) => x,
        None => {
            let x = String::new();
            assert(x@ =~= Seq::<char>::empty());
            x
        },
    };
    to_lower(e.as_str())
}

/// The language of the static analysis gate for a target.
pub fn lsp_language(target: &str) -> (r: Option<Language>)
    ensures
        r == lsp_language_of(target@),
{
    let e = lowered_extension(target);
    let s = e.as_str();
    if str_eq(s, "c") || str_eq(s, "h") || str_eq(s, "cpp") || str_eq(s, "hpp") || str_eq(s, "cc")
        || str_eq(s, "cxx") {
        Some(Language::C)
    } else if str_eq(s, "rs") {
        Some(Language::Rust)
    } else if str_eq(s, "py") {
        Some(Language::Python)
    } else {
        None
    }
}

/// A target the compilation gate builds, by its lowercased extension.
pub open spec fn compilable(target: Seq<char>) -> bool {
    let e = lowercase(match extension(target) {
        Some(x) => x,
        None => seq![],
    });
    e == "c"@ || e == "cpp"@ || e == "cc"@ || e == "cxx"@ || e == "rs"@ || e == "py"@ || e == "lua"@
}

/// Whether the compilation gate builds a target.
pub fn is_compilable(target: &str) -> (b: bool)
    ensures
        b == compilable(target@),
{
    let e = lowered_extension(target);
    let s = e.as_str();
    str_eq(s, "c") || str_eq(s, "cpp") || str_eq(s, "cc") || str_eq(s, "cxx") || str_eq(s, "rs")
        || str_eq(s, "py") || str_eq(s, "lua")
}

/// The compiler named in a build failure's diagnostic, by the target's
/// extension as written.
pub open spec fn compiler_of(target: Seq<char>) -> Seq<char> {
    match extension(target) {
        Some(e) => if e == "rs"@ {
            "compiler (cargo)"@
        } else if e == "py"@ {
            "compiler (python3)"@
        } else if e == "lua"@ {
            "compiler (luac)"@
        } else {
            "compiler (gcc)"@
        },
        None => "compiler (gcc)"@,
    }
}

pub fn compiler_gatekeeper(target: &str) -> (s: &'static str)
    ensures
        s@ == compiler_of(target@),
{
    match path_extension(target) {
        Some(e) => {
            let es = e.as_str();
            if str_eq(es, "rs") {
                "compiler (cargo)"
            } else if str_eq(es, "py") {
                "compiler (python3)"
            } else if str_eq(es, "lua") {
                "compiler (luac)"
            } else {
                "compiler (gcc)"
            }
        },
        None => "compiler (gcc)",
    }
}

/// The first lines of a text, joined again with newlines.
pub open spec fn head_lines(text: Seq<char>, n: nat) -> Seq<char> {
    let ls = lines(text);
    join(if ls.len() > n { ls.take(n as int) } else { ls }, "\n"@)
}

/// A failed build: the rejection's text, and the diagnostic's line and
/// message, from the first error location found in the compiler's output
/// (else no line, and the output's first three lines).
pub open spec fn build_failure(diag: Seq<char>, first: Option<(usize, Seq<char>)>) -> (Seq<char>, Option<usize>, Seq<char>) {
    (
        " [COMPILATION_GATE] Build failed:\n"@ + diag,
        match first {
            Some(f) => Some(f.0),
            None => None,
        },
        match first {
            Some(f) => f.1,
            None => head_lines(diag, 3),
        },
    )
}

pub fn compile_rejection(diag: &str, first: Option<(usize, String)>) -> (r: (String, Option<usize>, String))
    ensures
        (r.0@, r.1, r.2@) == build_failure(diag@, match first {
            Some(f) => Some((f.0, f.1@)),
            None => None,
        }),
{
    let mut reason = chars_of(" [COMPILATION_GATE] Build failed:\n");
    push_str(&mut reason, diag);
    match first {
        Some((line, message)) => (string_of(&reason), Some(line), message),
        None => {
            let dv = chars_of(diag);
            let ls = crate::text::lines_of(&dv);
            proof {
                crate::text::lemma_nested_deep_view(ls);
            }
            let n: usize = if ls.len() > 3 { 3 } else { ls.len() };
            let mut head: Vec<Vec<char>> = Vec::new();
            let mut i: usize = 0;
            while i < n
                invariant
                    i <= n <= ls@.len(),
                    head.deep_view() == ls.deep_view().take(i as int),
                decreases n - i,
            {
                proof {
                    crate::text::lemma_chars_deep_view(ls@[i as int]);
                }
                let piece = crate::text::slice_chars(&ls[i], 0, ls[i].len());
                assert(piece@ =~= ls.deep_view()[i as int]);
                crate::text::push_piece(&mut head, piece);
                assert(head.deep_view() =~= ls.deep_view().take(i + 1));
                i += 1;
            }
            proof {
                crate::text::lemma_nested_deep_view(head);
                if ls@.len() <= 3 {
                    assert(ls.deep_view().take(n as int) =~= ls.deep_view());
                }
            }
            let m = crate::text::join_chars(&head, &chars_of("\n"));
            (string_of(&reason), None, string_of(&m))
        },
    }
}

/// One error of the static analyser, as the rejection lists it.
pub open spec fn lsp_error_line(e: (usize, Seq<char>)) -> Seq<char> {
    "[Line "@ + decimal(e.0 as nat) + "] "@ + e.1
}

pub open spec fn lsp_error_lines(es: Seq<(usize, Seq<char>)>) -> Seq<Seq<char>>
    decreases es.len(),
{
    if es.len() == 0 {
        seq![]
    } else {
        lsp_error_lines(es.drop_last()).push(lsp_error_line(es.last()))
    }
}

/// The rejection of the static analysis gate: the number of errors, then
/// each error with its line.
pub open spec fn lsp_reason(es: Seq<(usize, Seq<char>)>) -> Seq<char> {
    "🚨 [LSP_GATEKEEPER] Auto-rejected: Static analysis found "@ + decimal(es.len()) + " error(s):\n"@
        + join(lsp_error_lines(es), "\n"@)
}

pub fn lsp_rejection(errors: &[(usize, String)]) -> (r: String)
    ensures
        r@ == lsp_reason(errors@.map_values(|e: (usize, String)| (e.0, e.1@))),
{
    let ghost ev = errors@.map_values(|e: (usize, String)| (e.0, e.1@));
    let mut items: Vec<Vec<char>> = Vec::new();
    let mut i: usize = 0;
    while i < errors.len()
        invariant
            ev == errors@.map_values(|e: (usize, String)| (e.0, e.1@)),
            i <= ev.len(),
            items.deep_view() == lsp_error_lines(ev.take(i as int)),
        decreases errors.len() - i,
    {
        assert(ev.take(i + 1).drop_last() =~= ev.take(i as int));
        let mut line = chars_of("[Line ");
        push_str(&mut line, decimal_string(errors[i].0).as_str());
        push_str(&mut line, "] ");
        push_str(&mut line, errors[i].1.as_str());
        assert(line@ =~= lsp_error_line(ev[i as int]));
        crate::text::push_piece(&mut items, line);
        i += 1;
    }
    assert(ev.take(ev.len() as int) =~= ev);
    proof {
        crate::text::lemma_nested_deep_view(items);
    }
    let mut r = chars_of("🚨 [LSP_GATEKEEPER] Auto-rejected: Static analysis found ");
    push_str(&mut r, decimal_string(errors.len()).as_str());
    push_str(&mut r, " error(s):\n");
    let body = crate::text::join_chars(&items, &chars_of("\n"));
    crate::text::extend_chars(&mut r, &body);
    string_of(&r)
}

// ---------------------------------------------------------------------------
// Promotion
// ---------------------------------------------------------------------------

/// How a gate judged an attempt.
#[derive(Debug)]
pub enum GateStatus {
    Passed,
    Failed(String),
    Skipped,
}

/// A gate's judgement, as plain data.
pub enum GateView {
    Passed,
    Failed(Seq<char>),
    Skipped,
}

pub open spec fn gate_view(g: GateStatus) -> GateView {
    match g {
        GateStatus::Passed => GateView::Passed,
        GateStatus::Failed(m) => GateView::Failed(m@),
        GateStatus::Skipped => GateView::Skipped,
    }
}

/// The judgements of all gates on one attempt.
#[derive(Debug)]
pub struct PromotionDecision {
    pub validator: GateStatus,
    pub lsp: GateStatus,
    pub compilation: GateStatus,
    pub senior: GateStatus,
    pub boss: GateStatus,
}

/// The five judgements, as plain data.
pub struct DecisionView {
    pub validator: GateView,
    pub lsp: GateView,
    pub compilation: GateView,
    pub senior: GateView,
    pub boss: GateView,
}

/// An attempt is promoted when no gate failed it.
pub open spec fn view_eligible(d: DecisionView) -> bool {
    &&& !(d.validator is Failed)
    &&& !(d.lsp is Failed)
    &&& !(d.compilation is Failed)
    &&& !(d.senior is Failed)
    &&& !(d.boss is Failed)
}

/// The gates' judgements: a harness, static analysis or build rejection
/// fails its own gate and skips those after it; the Senior's gate is
/// skipped on such a rejection, else passes with an approval; the Boss's
/// gate passes with an approval.
pub open spec fn decision_of(
    auto_reject: Option<Seq<char>>,
    source: RejectionSource,
    is_approve: bool,
    boss_approved: bool,
    feedback: Seq<char>,
) -> DecisionView {
    let reason = match auto_reject {
        Some(r) => r,
        None => seq![],
    };
    DecisionView {
        validator: if auto_reject is Some && source == RejectionSource::Validator {
            GateView::Failed(reason)
        } else {
            GateView::Passed
        },
        lsp: if auto_reject is Some && source == RejectionSource::Lsp {
            GateView::Failed(reason)
        } else if auto_reject is None || source != RejectionSource::Validator {
            GateView::Passed
        } else {
            GateView::Skipped
        },
        compilation: if auto_reject is Some && source == RejectionSource::Compiler {
            GateView::Failed(reason)
        } else if auto_reject is None || (source != RejectionSource::Validator && source
            != RejectionSource::Lsp) {
            GateView::Passed
        } else {
            GateView::Skipped
        },
        senior: if auto_reject is Some {
            GateView::Skipped
        } else if is_approve || boss_approved {
            GateView::Passed
        } else {
            GateView::Failed(feedback)
        },
        boss: if boss_approved || is_approve {
            GateView::Passed
        } else {
            GateView::Failed("Boss rejected"@)
        },
    }
}

impl PromotionDecision {
    pub open spec fn view(&self) -> DecisionView {
        DecisionView {
            validator: gate_view(self.validator),
            lsp: gate_view(self.lsp),
            compilation: gate_view(self.compilation),
            senior: gate_view(self.senior),
            boss: gate_view(self.boss),
        }
    }

    /// Whether no gate failed the attempt.
    pub fn eligible(&self) -> (b: bool)
        ensures
            b == view_eligible(self.view()),
    {
        let f1 = match &self.validator {
            GateStatus::Failed(_) => true,
            _ => false,
        };
        let f2 = match &self.lsp {
            GateStatus::Failed(_) => true,
            _ => false,
        };
        let f3 = match &self.compilation {
            GateStatus::Failed(_) => true,
            _ => false,
        };
        let f4 = match &self.senior {
            GateStatus::Failed(_) => true,
            _ => false,
        };
        let f5 = match &self.boss {
            GateStatus::Failed(_) => true,
            _ => false,
        };
        !(f1 || f2 || f3 || f4 || f5)
    }
}

fn failed_with(reason: &str) -> (g: GateStatus)
    ensures
        gate_view(g) == GateView::Failed(reason@),
{
    GateStatus::Failed(owned(reason))
}

/// The gates' judgements on an attempt, from the automatic rejection (if
/// any) and the check that made it, the Senior's and the Boss's approvals,
/// and the feedback.
pub fn promotion_decision(
    auto_reject: Option<&str>,
    source: RejectionSource,
    is_approve: bool,
    boss_approved: bool,
    feedback: &str,
) -> (d: PromotionDecision)
    ensures
        d.view() == decision_of(
            match auto_reject { Some(r) => Some(r@), None => None },
            source,
            is_approve,
            boss_approved,
            feedback@,
        ),
{
    let reason: &str = match auto_reject {
        Some(r) => r,
        None => "",
    };
    proof {
        reveal_strlit("");
        if auto_reject is None {
            assert(reason@ =~= Seq::<char>::empty());
        }
    }
    let has_reject = auto_reject.is_some();
    let validator = if has_reject && source == RejectionSource::Validator {
        failed_with(reason)
    } else {
        GateStatus::Passed
    };
    let lsp = if has_reject && source == RejectionSource::Lsp {
        failed_with(reason)
    } else if !has_reject || source != RejectionSource::Validator {
        GateStatus::Passed
    } else {
        GateStatus::Skipped
    };
    let compilation = if has_reject && source == RejectionSource::Compiler {
        failed_with(reason)
    } else if !has_reject || (source != RejectionSource::Validator && source != RejectionSource::Lsp) {
        GateStatus::Passed
    } else {
        GateStatus::Skipped
    };
    let senior = if has_reject {
        GateStatus::Skipped
    } else if is_approve || boss_approved {
        GateStatus::Passed
    } else {
        failed_with(feedback)
    };
    let boss = if boss_approved || is_approve {
        GateStatus::Passed
    } else {
        failed_with("Boss rejected")
    };
    PromotionDecision { validator, lsp, compilation, senior, boss }
}

/// An attempt is promoted exactly when no gate rejected it automatically
/// and the Senior or the Boss approved it.
pub proof fn lemma_promotion_requires_all_gates(
    auto_reject: Option<Seq<char>>,
    source: RejectionSource,
    is_approve: bool,
    boss_approved: bool,
    feedback: Seq<char>,
)
    requires
        source != RejectionSource::Senior,
    ensures
        view_eligible(decision_of(auto_reject, source, is_approve, boss_approved, feedback))
            <==> (auto_reject is None && (is_approve || boss_approved)),
{
}

/// The feedback an attempt leaves: the Senior's where the Boss approved,
/// else the Boss's rejection of the task.
pub open spec fn feedback_after_boss(boss_approved: bool, senior_feedback: Seq<char>, title: Seq<char>) -> Seq<char> {
    if boss_approved {
        senior_feedback
    } else {
        "[BOSS_REJECTED] Boss overridden rejection for task: "@ + title
    }
}

pub fn boss_feedback(boss_approved: bool, senior_feedback: String, title: &str) -> (r: String)
    ensures
        r@ == feedback_after_boss(boss_approved, senior_feedback@, title@),
{
    if boss_approved {
        senior_feedback
    } else {
        let mut m = chars_of("[BOSS_REJECTED] Boss overridden rejection for task: ");
        push_str(&mut m, title);
        string_of(&m)
    }
}

// ---------------------------------------------------------------------------
// The diagnostic of a rejection
// ---------------------------------------------------------------------------

/// The pattern that finds a line number in review feedback.
pub open spec fn line_pattern() -> Seq<char> {
    "(?:line|Line)\\s*(\\d+)"@
}

/// The value of a run of ASCII digits.
pub open spec fn digits_value(s: Seq<char>) -> nat
    decreases s.len(),
{
    if s.len() == 0 {
        0
    } else {
        digits_value(s.drop_last()) * 10 + (s.last() as int - '0' as int) as nat
    }
}

pub open spec fn all_digits(s: Seq<char>) -> bool {
    forall|i: int| 0 <= i < s.len() ==> '0' <= #[trigger] s[i] <= '9'
}

/// `str::parse::<usize>`: an optional `+`, then at least one ASCII digit,
/// with a value that fits.
pub open spec fn parse_usize(s: Seq<char>) -> Option<usize> {
    let d = if s.len() > 1 && s[0] == '+' { s.drop_first() } else { s };
    if d.len() > 0 && all_digits(d) && digits_value(d) <= usize::MAX {
        Some(digits_value(d) as usize)
    } else {
        None
    }
}

proof fn lemma_digits_value_grows(s: Seq<char>, i: int, j: int)
    requires
        0 <= i <= j <= s.len(),
        all_digits(s),
    ensures
        digits_value(s.take(i)) <= digits_value(s.take(j)),
    decreases j - i,
{
    if i < j {
        lemma_digits_value_grows(s, i, j - 1);
        assert(s.take(j).drop_last() =~= s.take(j - 1));
    }
}

/// Parses a decimal `usize` the way `str::parse` does.
pub fn parse_decimal(s: &str) -> (r: Option<usize>)
    ensures
        r == parse_usize(s@),
{
    let v = chars_of(s);
    let start: usize = if v.len() > 1 && v[0] == '+' { 1 } else { 0 };
    let ghost d = if v@.len() > 1 && v@[0] == '+' { v@.drop_first() } else { v@ };
    assert(d =~= v@.skip(start as int));
    if start == v.len() {
        assert(d.len() == 0);
        return None;
    }
    let mut val: usize = 0;
    let mut i: usize = start;
    while i < v.len()
        invariant
            start <= i <= v@.len(),
            v@ == s@,
            d == (if s@.len() > 1 && s@[0] == '+' { s@.drop_first() } else { s@ }),
            d == v@.skip(start as int),
            all_digits(d.take(i - start)),
            val == digits_value(d.take(i - start)),
        decreases v.len() - i,
    {
        let c = v[i];
        assert(d[i - start] == c);
        assert(d.take(i - start + 1).drop_last() =~= d.take(i - start));
        if !('0' <= c && c <= '9') {
            assert(!('0' <= d[i - start] <= '9'));
            assert(!all_digits(d));
            return None;
        }
        let digit = (c as u32 - '0' as u32) as usize;
        assert(digit == (c as int - '0' as int));
        assert(d.take(i - start + 1).last() == c);
        assert(digits_value(d.take(i - start + 1)) == val * 10 + digit);
        assert(all_digits(d.take(i - start + 1)));
        match val.checked_mul(10) {
            Some(t) => match t.checked_add(digit) {
                Some(n) => {
                    val = n;
                },
                None => {
                    proof {
                        assert(all_digits(d.take(i - start + 1)));
                        if all_digits(d) {
                            lemma_digits_value_grows(d, i - start + 1, d.len() as int);
                            assert(d.take(d.len() as int) =~= d);
                        }
                    }
                    return None;
                },
            },
            None => {
                proof {
                    assert(all_digits(d.take(i - start + 1)));
                    if all_digits(d) {
                        lemma_digits_value_grows(d, i - start + 1, d.len() as int);
                        assert(d.take(d.len() as int) =~= d);
                    }
                }
                return None;
            },
        }
        i += 1;
    }
    assert(d.take(d.len() as int) =~= d);
    Some(val)
}

/// The line a review's feedback points at: the number after the first
/// `line` or `Line`, where it parses.
pub open spec fn feedback_line(feedback: Seq<char>) -> Option<usize> {
    match regex_compile(line_pattern()) {
        Ok(_) => match regex_capture1(line_pattern(), feedback) {
            Some(d) => parse_usize(d),
            None => None,
        },
        Err(_) => None,
    }
}

pub fn error_line_of(feedback: &str) -> (r: Option<usize>)
    ensures
        r == feedback_line(feedback@),
{
    match compile("(?:line|Line)\\s*(\\d+)") {
        Ok(re) => match capture1(&re, feedback) {
            Some(d) => parse_decimal(d.as_str()),
            None => None,
        },
        Err(_) => None,
    }
}

/// The first `n` characters of a text.
pub open spec fn first_chars(s: Seq<char>, n: nat) -> Seq<char> {
    if s.len() > n { s.take(n as int) } else { s }
}

/// The diagnostic message of a rejection: its first 500 characters.
pub fn diagnostic_message(feedback: &str) -> (r: String)
    ensures
        r@ == first_chars(feedback@, 500),
{
    let v = chars_of(feedback);
    let n: usize = if v.len() > 500 { 500 } else { v.len() };
    let t = crate::text::slice_chars(&v, 0, n);
    assert(t@ =~= first_chars(feedback@, 500));
    string_of(&t)
}

// ---------------------------------------------------------------------------
// The Boss Board's answer
// ---------------------------------------------------------------------------

/// What an approval file says: approved where `approved` is `true`,
/// rejected where `status` is `"REJECTED"`, else nothing yet.
pub open spec fn approval_answer(doc: Option<JsonValue>) -> Option<bool> {
    match doc {
        None => None,
        Some(j) => if member(j, "approved"@) == Some(JsonValue::Bool(true)) {
            Some(true)
        } else if (match member(j, "status"@) {
            Some(JsonValue::Str(s)) => s@ == "REJECTED"@,
            _ => false,
        }) {
            Some(false)
        } else {
            None
        },
    }
}

/// Reads the Boss Board's answer from the text of an approval file.
pub fn approval_verdict(content: &str) -> (r: Option<bool>)
    ensures
        r == approval_answer(json_of(content@)),
{
    let doc = parse_json(content);
    match &doc {
        None => None,
        Some(j) => {
            let approved = match j.get("approved") {
                Some(JsonValue::Bool(b)) => *b,
                _ => false,
            };
            if approved {
                return Some(true);
            }
            let rejected = match j.get("status") {
                Some(JsonValue::Str(s)) => str_eq(s.as_str(), "REJECTED"),
                _ => false,
            };
            if rejected {
                Some(false)
            } else {
                None
            }
        },
    }
}

} // verus!
