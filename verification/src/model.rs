//! What the model drivers decide: the text of a reply and the model lists
//! read from a provider's JSON, the prompts sent, and the local model's
//! context budget and its degradation between attempts. The requests
//! themselves are made by the caller.
use vstd::prelude::*;
use crate::json::{json_of, member, parse_json, JsonValue};
use crate::ordmap::str_eq;
use crate::text::{
    chars_of, owned, push_str, slice_chars, starts_with, str_contains, str_starts_with, string_of,
    trim, trim_chars, trim_end_matches, trim_end_matches_chars,
};

verus! {

/// A model's reply.
#[derive(Debug, Clone)]
pub struct ModelResponse {
    pub text: String,
    pub thought: Option<String>,
    pub total_duration: Option<u64>,
    pub eval_count: Option<u64>,
    pub eval_duration: Option<u64>,
}

/// A reply that carries only its text.
pub open spec fn text_only(r: ModelResponse, t: Seq<char>) -> bool {
    r.text@ == t && r.thought is None && r.total_duration is None && r.eval_count is None && r.eval_duration is None
}

fn reply_with(t: String) -> (r: ModelResponse)
    ensures
        text_only(r, t@),
{
    ModelResponse { text: t, thought: None, total_duration: None, eval_count: None, eval_duration: None }
}

/// The prompt of a system and a user part, for drivers without a system role.
pub open spec fn combined_prompt(system: Seq<char>, user: Seq<char>) -> Seq<char> {
    system + "\n\n"@ + user
}

pub fn combine_system_prompt(system: &str, user: &str) -> (r: String)
    ensures
        r@ == combined_prompt(system@, user@),
{
    crate::text::cat3(system, "\n\n", user)
}

/// The driver that answers without a model.
pub struct MockDriver;

impl MockDriver {
    pub fn id(&self) -> (s: String)
        ensures
            s@ == "mock"@,
    {
        owned("mock")
    }

    /// The same reply to every prompt.
    pub fn generate(&self, prompt: String) -> (r: ModelResponse)
        ensures
            text_only(r, "Mock response from AXON Model Driver"@),
    {
        reply_with(owned("Mock response from AXON Model Driver"))
    }
}

// ---------------------------------------------------------------------------
// Reading replies
// ---------------------------------------------------------------------------

/// `v[key]`: the member, or null.
pub open spec fn at_key(v: JsonValue, key: Seq<char>) -> JsonValue {
    match member(v, key) {
        Some(x) => x,
        None => JsonValue::Null,
    }
}

/// `v[i]`: the array item, or null.
pub open spec fn at_pos(v: JsonValue, i: int) -> JsonValue {
    match v {
        JsonValue::Array(items) => if 0 <= i < items@.len() {
            items@[i]
        } else {
            JsonValue::Null
        },
        _ => JsonValue::Null,
    }
}

/// `v.as_str()`.
pub open spec fn text_of(v: JsonValue) -> Option<Seq<char>> {
    match v {
        JsonValue::Str(s) => Some(s@),
        _ => None,
    }
}

fn key_of<'a>(v: &'a JsonValue, key: &str) -> (r: Option<&'a JsonValue>)
    ensures
        match r {
            Some(x) => at_key(*v, key@) == *x,
            None => at_key(*v, key@) == JsonValue::Null,
        },
{
    v.get(key)
}

fn pos_of(v: &JsonValue, i: usize) -> (r: Option<&JsonValue>)
    ensures
        match r {
            Some(x) => at_pos(*v, i as int) == *x,
            None => at_pos(*v, i as int) == JsonValue::Null,
        },
{
    match v {
        JsonValue::Array(items) => if i < items.len() {
            Some(&items[i])
        } else {
            None
        },
        _ => None,
    }
}

fn str_at(v: Option<&JsonValue>) -> (r: Option<String>)
    ensures
        match r {
            Some(s) => match v {
                Some(x) => text_of(*x) == Some(s@),
                None => false,
            },
            None => match v {
                Some(x) => text_of(*x) is None,
                None => true,
            },
        },
{
    match v {
        Some(JsonValue::Str(s)) => Some(owned(s.as_str())),
        _ => None,
    }
}

/// The text of an Anthropic reply: `content[0].text`.
pub open spec fn anthropic_text_of(v: JsonValue) -> Option<Seq<char>> {
    text_of(at_key(at_pos(at_key(v, "content"@), 0), "text"@))
}

/// The text of an OpenAI reply: `choices[0].message.content`.
pub open spec fn openai_text_of(v: JsonValue) -> Option<Seq<char>> {
    text_of(at_key(at_key(at_pos(at_key(v, "choices"@), 0), "message"@), "content"@))
}

/// The text of a Gemini reply: `candidates[0].content.parts[0].text`.
pub open spec fn gemini_text_of(v: JsonValue) -> Option<Seq<char>> {
    text_of(at_key(at_pos(at_key(at_key(at_pos(at_key(v, "candidates"@), 0), "content"@), "parts"@), 0), "text"@))
}

pub fn anthropic_text(v: &JsonValue) -> (r: Option<String>)
    ensures
        match r {
            Some(s) => anthropic_text_of(*v) == Some(s@),
            None => anthropic_text_of(*v) is None,
        },
{
    let a = match key_of(v, "content") {
        Some(x) => pos_of(x, 0),
        None => None,
    };
    let b = match a {
        Some(x) => key_of(x, "text"),
        None => None,
    };
    str_at(b)
}

pub fn openai_text(v: &JsonValue) -> (r: Option<String>)
    ensures
        match r {
            Some(s) => openai_text_of(*v) == Some(s@),
            None => openai_text_of(*v) is None,
        },
{
    let a = match key_of(v, "choices") {
        Some(x) => pos_of(x, 0),
        None => None,
    };
    let b = match a {
        Some(x) => key_of(x, "message"),
        None => None,
    };
    let c = match b {
        Some(x) => key_of(x, "content"),
        None => None,
    };
    str_at(c)
}

pub fn gemini_text(v: &JsonValue) -> (r: Option<String>)
    ensures
        match r {
            Some(s) => gemini_text_of(*v) == Some(s@),
            None => gemini_text_of(*v) is None,
        },
{
    let a = match key_of(v, "candidates") {
        Some(x) => pos_of(x, 0),
        None => None,
    };
    let b = match a {
        Some(x) => key_of(x, "content"),
        None => None,
    };
    let c = match b {
        Some(x) => key_of(x, "parts"),
        None => None,
    };
    let d = match c {
        Some(x) => pos_of(x, 0),
        None => None,
    };
    let e = match d {
        Some(x) => key_of(x, "text"),
        None => None,
    };
    str_at(e)
}

// ---------------------------------------------------------------------------
// Model lists
// ---------------------------------------------------------------------------

/// The items of an array value (none for another value).
pub open spec fn items_of(v: JsonValue) -> Seq<JsonValue> {
    match v {
        JsonValue::Array(items) => items@,
        _ => seq![],
    }
}

/// The string field `key` of each item that has one, in order, as a
/// provider reads it: Gemini (0) drops a `models/` prefix, OpenAI (1)
/// keeps only names that start with `gpt`, Ollama (2) keeps them all.
pub open spec fn names_of(items: Seq<JsonValue>, key: Seq<char>, provider: int) -> Seq<Seq<char>>
    decreases items.len(),
{
    if items.len() == 0 {
        seq![]
    } else {
        names_of(items.drop_last(), key, provider) + match text_of(at_key(items.last(), key)) {
            Some(n) => if provider == 0 {
                seq![if starts_with(n, "models/"@) { n.skip(7) } else { n }]
            } else if provider == 1 {
                if starts_with(n, "gpt"@) { seq![n] } else { seq![] }
            } else {
                seq![n]
            },
            None => seq![],
        }
    }
}

/// The models Gemini lists: each `models[].name` without its `models/` prefix.
pub open spec fn gemini_models_of(v: JsonValue) -> Seq<Seq<char>> {
    names_of(items_of(at_key(v, "models"@)), "name"@, 0)
}

/// The models OpenAI lists: each `data[].id` that starts with `gpt`.
pub open spec fn openai_models_of(v: JsonValue) -> Seq<Seq<char>> {
    names_of(items_of(at_key(v, "data"@)), "id"@, 1)
}

/// The models Ollama lists: each `models[].name`.
pub open spec fn ollama_models_of(v: JsonValue) -> Seq<Seq<char>> {
    names_of(items_of(at_key(v, "models"@)), "name"@, 2)
}

fn names_exec(v: &JsonValue, list_key: &str, key: &str, provider: u8) -> (r: Vec<String>)
    requires
        provider < 3,
    ensures
        r.deep_view() == names_of(items_of(at_key(*v, list_key@)), key@, provider as int),
{
    let mut out: Vec<String> = Vec::new();
    let empty: Vec<JsonValue> = Vec::new();
    let items: &Vec<JsonValue> = match key_of(v, list_key) {
        Some(JsonValue::Array(a)) => a,
        _ => &empty,
    };
    assert(items@ == items_of(at_key(*v, list_key@)));
    let ghost iv = items@;
    let mut i: usize = 0;
    assert(out.deep_view() =~= names_of(iv.take(0), key@, provider as int));
    while i < items.len()
        invariant
            iv == items@,
            provider < 3,
            i <= iv.len(),
            out.deep_view() == names_of(iv.take(i as int), key@, provider as int),
        decreases items.len() - i,
    {
        assert(iv.take(i + 1).drop_last() =~= iv.take(i as int));
        assert(iv.take(i + 1).last() == iv[i as int]);
        let ghost before = out.deep_view();
        match str_at(key_of(&items[i], key)) {
            Some(n) => {
                if provider == 0 {
                    let nv = chars_of(n.as_str());
                    if str_starts_with(n.as_str(), "models/") {
                        proof {
                            reveal_strlit("models/");
                        }
                        let rest = slice_chars(&nv, 7, nv.len());
                        assert(rest@ =~= n@.skip(7));
                        crate::text::push_piece_string(&mut out, string_of(&rest));
                    } else {
                        crate::text::push_piece_string(&mut out, n);
                    }
                } else if provider == 1 {
                    if str_starts_with(n.as_str(), "gpt") {
                        crate::text::push_piece_string(&mut out, n);
                    }
                } else {
                    crate::text::push_piece_string(&mut out, n);
                }
            },
            None => {},
        }
        assert(out.deep_view() =~= names_of(iv.take(i + 1), key@, provider as int));
        i += 1;
    }
    assert(iv.take(iv.len() as int) =~= iv);
    out
}

pub fn gemini_models(v: &JsonValue) -> (r: Vec<String>)
    ensures
        r.deep_view() == gemini_models_of(*v),
{
    names_exec(v, "models", "name", 0)
}

pub fn openai_models(v: &JsonValue) -> (r: Vec<String>)
    ensures
        r.deep_view() == openai_models_of(*v),
{
    names_exec(v, "data", "id", 1)
}

pub fn ollama_models(v: &JsonValue) -> (r: Vec<String>)
    ensures
        r.deep_view() == ollama_models_of(*v),
{
    names_exec(v, "models", "name", 2)
}

/// A Gemini error that asks the caller to wait: a 429 or 503 status, or a
/// message about quota, too many requests or high demand.
pub open spec fn quota_error(status: u16, message: Seq<char>) -> bool {
    ||| status == 429
    ||| status == 503
    ||| crate::text::contains(message, "Quota exceeded"@)
    ||| crate::text::contains(message, "Too Many Requests"@)
    ||| crate::text::contains(message, "high demand"@)
}

pub fn is_quota_error(status: u16, message: &str) -> (b: bool)
    ensures
        b == quota_error(status, message@),
{
    status == 429 || status == 503 || str_contains(message, "Quota exceeded") || str_contains(message, "Too Many Requests")
        || str_contains(message, "high demand")
}

// ---------------------------------------------------------------------------
// The local model
// ---------------------------------------------------------------------------

/// The base address without its trailing slashes.
pub fn ollama_base_url(base_url: &str) -> (r: String)
    ensures
        r@ == trim_end_matches(base_url@, "/"@),
{
    string_of(&trim_end_matches_chars(&chars_of(base_url), &chars_of("/")))
}

/// The first context size: the one asked for, else a large one for
/// skeleton and IR prompts, else the default.
pub open spec fn initial_context(forced: usize, user: Seq<char>) -> usize {
    if forced > 0 {
        forced
    } else if crate::text::contains(user, "Node Definitions"@) || crate::text::contains(user, "IR Spec"@)
        || crate::text::contains(user, "Skeleton"@) {
        16384
    } else {
        8192
    }
}

pub fn ollama_initial_context(forced: usize, user: &str) -> (r: usize)
    ensures
        r == initial_context(forced, user@),
{
    if forced > 0 {
        forced
    } else if str_contains(user, "Node Definitions") || str_contains(user, "IR Spec") || str_contains(user, "Skeleton") {
        16384
    } else {
        8192
    }
}

/// The prompt sent: the user part alone, or the instructions and the input
/// under their headings.
pub open spec fn local_prompt(system: Seq<char>, user: Seq<char>) -> Seq<char> {
    if system.len() == 0 {
        user
    } else {
        "### INSTRUCTIONS ###\n"@ + system + "\n\n### INPUT ###\n"@ + user
    }
}

pub fn ollama_prompt(system: &str, user: &str) -> (r: String)
    ensures
        r@ == local_prompt(system@, user@),
{
    let sv = chars_of(system);
    if sv.len() == 0 {
        owned(user)
    } else {
        let mut v = chars_of("### INSTRUCTIONS ###\n");
        push_str(&mut v, system);
        push_str(&mut v, "\n\n### INPUT ###\n");
        push_str(&mut v, user);
        string_of(&v)
    }
}

/// Between attempts the context shrinks to three quarters (not below 2048)
/// and the prompt to its first seven eighths of characters.
pub open spec fn degraded(ctx: usize, prompt: Seq<char>) -> (int, Seq<char>) {
    let c = ctx * 3 / 4;
    (if c > 2048 { c } else { 2048 }, prompt.take((prompt.len() * 7 / 8) as int))
}

pub fn ollama_degrade(ctx: usize, prompt: &str) -> (r: (usize, String))
    requires
        ctx * 3 <= usize::MAX,
    ensures
        (r.0 as int, r.1@) == degraded(ctx, prompt@),
{
    let c = ctx * 3 / 4;
    let pv = chars_of(prompt);
    let n = pv.len() / 8 * 7 + pv.len() % 8 * 7 / 8;
    assert(n == pv@.len() * 7 / 8) by (nonlinear_arith)
        requires
            n == pv@.len() / 8 * 7 + pv@.len() % 8 * 7 / 8,
    ;
    let t = slice_chars(&pv, 0, n);
    (if c > 2048 { c } else { 2048 }, string_of(&t))
}

/// The number a JSON value holds, where it is a whole number that fits
/// (`Value::as_u64`).
pub open spec fn as_u64_of(v: JsonValue) -> Option<u64> {
    match v {
        JsonValue::Number(t) => match crate::task_flow::parse_usize(t@) {
            Some(n) => if !starts_with(t@, "+"@) && n <= u64::MAX { Some(n as u64) } else { None },
            None => None,
        },
        _ => None,
    }
}

/// A local model's reply: its `response` text, where the text is JSON and
/// the response not blank, with its timings.
pub open spec fn local_reply(raw: Seq<char>) -> Option<(Seq<char>, Option<u64>, Option<u64>, Option<u64>)> {
    match json_of(raw) {
        Some(v) => {
            let t = match text_of(at_key(v, "response"@)) {
                Some(s) => s,
                None => seq![],
            };
            if trim(t).len() == 0 {
                None
            } else {
                Some((t, as_u64_of(at_key(v, "total_duration"@)), as_u64_of(at_key(v, "eval_count"@)), as_u64_of(at_key(v, "eval_duration"@))))
            }
        },
        None => None,
    }
}

fn u64_at(v: Option<&JsonValue>) -> (r: Option<u64>)
    ensures
        r == match v {
            Some(x) => as_u64_of(*x),
            None => as_u64_of(JsonValue::Null),
        },
{
    match v {
        Some(JsonValue::Number(t)) => {
            if str_starts_with(t.as_str(), "+") {
                return None;
            }
            match crate::task_flow::parse_decimal(t.as_str()) {
                Some(n) => if (n as u128) <= u64::MAX as u128 {
                    Some(n as u64)
                } else {
                    None
                },
                None => None,
            }
        },
        _ => None,
    }
}

/// Reads a local model's reply from the text of the response body.
pub fn ollama_reply(raw: &str) -> (r: Option<ModelResponse>)
    ensures
        match r {
            Some(m) => local_reply(raw@) == Some((m.text@, m.total_duration, m.eval_count, m.eval_duration)) && m.thought is None,
            None => local_reply(raw@) is None,
        },
{
    match parse_json(raw) {
        Some(v) => {
            let t = match str_at(key_of(&v, "response")) {
                Some(s) => s,
                None => {
                    let e = String::new();
                    assert(e@ =~= Seq::<char>::empty());
                    e
                },
            };
            let tt = trim_chars(&chars_of(t.as_str()));
            if tt.len() == 0 {
                None
            } else {
                Some(ModelResponse {
                    text: t,
                    thought: None,
                    total_duration: u64_at(key_of(&v, "total_duration")),
                    eval_count: u64_at(key_of(&v, "eval_count")),
                    eval_duration: u64_at(key_of(&v, "eval_duration")),
                })
            }
        },
        None => None,
    }
}


/// How many requests a local model gets.
pub const OLLAMA_ATTEMPTS: u32 = 3;

/// What follows a request to a local model.
pub enum OllamaNext {
    /// The reply, taken.
    Done(ModelResponse),
    /// Degrade the context and the prompt, wait, and ask again.
    Retry,
    /// Give up: the attempts are spent.
    GiveUp,
}

/// After the `attempts`-th request: a successful status with a usable reply
/// ends the loop; otherwise another request follows while fewer than
/// `OLLAMA_ATTEMPTS` were made.
pub fn ollama_next(attempts: u32, status_ok: bool, reply: Option<ModelResponse>) -> (r: OllamaNext)
    ensures
        match r {
            OllamaNext::Done(m) => status_ok && reply == Some(m),
            OllamaNext::Retry => !(status_ok && reply is Some) && attempts < OLLAMA_ATTEMPTS,
            OllamaNext::GiveUp => !(status_ok && reply is Some) && attempts >= OLLAMA_ATTEMPTS,
        },
{
    if status_ok {
        if let Some(m) = reply {
            return OllamaNext::Done(m);
        }
    }
    if attempts >= OLLAMA_ATTEMPTS {
        OllamaNext::GiveUp
    } else {
        OllamaNext::Retry
    }
}

} // verus!
