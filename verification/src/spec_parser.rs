//! Reading an architecture spec written in Markdown into the semantic IR.
//! `pulldown_cmark` turns the text into events; the library folds the
//! events into nodes, interfaces, transitions, retry loops, invariants and
//! dependencies.
use vstd::prelude::*;
use crate::schema::Language;
use crate::spec_ir::{
    ArchitecturalInvariant, DependencyConstraint, InterfaceContract, LogicalNode, RetryLoop,
    SemanticSpecIR, StateTransition, TransitionKind,
};
use crate::text::{
    chars_of, contains, contains_chars, find, find_chars, has_char, lemma_chars_deep_view, lines,
    lines_of, lowercase, lowercase_chars, owned, slice_chars, split_by, split_by_chars, split_str,
    split_str_chars, starts_with, starts_with_chars, string_of, trim, trim_chars, trim_set,
    trim_set_chars,
};

verus! {

/// A transition as plain values.
pub open spec fn tv(t: StateTransition) -> (Seq<char>, Seq<char>, Option<Seq<char>>, TransitionKind) {
    (t.from@, t.to@, crate::pipeline::opt_view(t.condition), t.kind)
}

/// A retry loop as plain values.
pub open spec fn rv(r: RetryLoop) -> (Seq<char>, Seq<char>, Seq<char>) {
    (r.trigger_node@, r.target_node@, r.condition@)
}

/// What one line of a Mermaid flowchart declares: `FROM --> TO` or
/// `FROM -->|COND| TO` (a condition mentioning a failure or error is a
/// rollback, which is also a retry loop).
pub open spec fn mermaid_line(line: Seq<char>) -> Option<((Seq<char>, Seq<char>, Option<Seq<char>>, TransitionKind), Option<(Seq<char>, Seq<char>, Seq<char>)>)> {
    let l = trim(line);
    let parts = split_str(l, "-->"@);
    if l.len() == 0 || starts_with(l, "graph"@) || starts_with(l, "flowchart"@) || parts.len() != 2 {
        None
    } else {
        let from = trim(parts[0]);
        let right = trim(parts[1]);
        if starts_with(right, "|"@) {
            let rest = right.subrange(1, right.len() as int);
            match find(rest, "|"@) {
                Some(e) => {
                    let cond = right.subrange(1, e + 1);
                    let to = trim(right.subrange(e + 2, right.len() as int));
                    let lc = lowercase(cond);
                    if contains(lc, "fail"@) || contains(lc, "err"@) {
                        Some(((from, to, Some(cond), TransitionKind::Rollback), Some((from, to, cond))))
                    } else {
                        Some(((from, to, Some(cond), TransitionKind::Conditional), None))
                    }
                },
                None => Some(((from, right, None, TransitionKind::Forward), None)),
            }
        } else {
            Some(((from, right, None, TransitionKind::Forward), None))
        }
    }
}

/// The transitions the lines declare, in order.
pub open spec fn mermaid_transitions(ls: Seq<Seq<char>>) -> Seq<(Seq<char>, Seq<char>, Option<Seq<char>>, TransitionKind)>
    decreases ls.len(),
{
    if ls.len() == 0 {
        seq![]
    } else {
        mermaid_transitions(ls.drop_last()) + match mermaid_line(ls.last()) {
            Some((t, _)) => seq![t],
            None => seq![],
        }
    }
}

/// The retry loops the lines declare, in order.
pub open spec fn mermaid_retries(ls: Seq<Seq<char>>) -> Seq<(Seq<char>, Seq<char>, Seq<char>)>
    decreases ls.len(),
{
    if ls.len() == 0 {
        seq![]
    } else {
        mermaid_retries(ls.drop_last()) + match mermaid_line(ls.last()) {
            Some((_, Some(r))) => seq![r],
            _ => seq![],
        }
    }
}

fn mermaid_line_exec(line: &[char]) -> (r: Option<(StateTransition, Option<RetryLoop>)>)
    ensures
        match r {
            Some((t, ro)) => mermaid_line(line@) == Some((tv(t), match ro {
                Some(x) => Some(rv(x)),
                None => None::<(Seq<char>, Seq<char>, Seq<char>)>,
            })),
            None => mermaid_line(line@) is None,
        },
{
    let l = trim_chars(line);
    let arrow = chars_of("-->");
    proof {
        reveal_strlit("-->");
    }
    let parts = split_str_chars(&l, &arrow);
    proof {
        crate::text::lemma_nested_deep_view(parts);
    }
    if l.len() == 0 || starts_with_chars(&l, &chars_of("graph")) || starts_with_chars(&l, &chars_of("flowchart")) || parts.len() != 2 {
        return None;
    }
    proof {
        lemma_chars_deep_view(parts@[0]);
        lemma_chars_deep_view(parts@[1]);
    }
    let from = trim_chars(&parts[0]);
    let right = trim_chars(&parts[1]);
    let bar = chars_of("|");
    proof {
        reveal_strlit("|");
    }
    if starts_with_chars(&right, &bar) {
        let rest = slice_chars(&right, 1, right.len());
        proof {
            crate::text::lemma_find(rest@, bar@);
        }
        match find_chars(&rest, &bar) {
            Some(e) => {
                assert(crate::text::occurs_at(rest@, e as int, bar@));
                let cond = slice_chars(&right, 1, e + 1);
                let to = trim_chars(&slice_chars(&right, e + 2, right.len()));
                let lc = lowercase_chars(&cond);
                let t = StateTransition {
                    from: string_of(&from),
                    to: string_of(&to),
                    condition: Some(string_of(&cond)),
                    kind: TransitionKind::Conditional,
                };
                if contains_chars(&lc, &chars_of("fail")) || contains_chars(&lc, &chars_of("err")) {
                    let t = StateTransition { kind: TransitionKind::Rollback, ..t };
                    let rl = RetryLoop {
                        trigger_node: string_of(&from),
                        target_node: string_of(&to),
                        condition: string_of(&cond),
                    };
                    Some((t, Some(rl)))
                } else {
                    Some((t, None))
                }
            },
            None => Some((StateTransition {
                from: string_of(&from),
                to: string_of(&right),
                condition: None,
                kind: TransitionKind::Forward,
            }, None)),
        }
    } else {
        Some((StateTransition {
            from: string_of(&from),
            to: string_of(&right),
            condition: None,
            kind: TransitionKind::Forward,
        }, None))
    }
}

/// Reads the transitions of a Mermaid flowchart (`graph`/`flowchart`
/// header lines and blank lines skipped; a line with one `-->` is a
/// transition), appending them, and the retry loops, to the given lists.
pub fn parse_mermaid_transitions(code: &str, transitions: &mut Vec<StateTransition>, retry_loops: &mut Vec<RetryLoop>)
    ensures
        final(transitions)@.map_values(|t: StateTransition| tv(t)) == old(transitions)@.map_values(
            |t: StateTransition| tv(t),
        ) + mermaid_transitions(lines(code@)),
        final(retry_loops)@.map_values(|r: RetryLoop| rv(r)) == old(retry_loops)@.map_values(
            |r: RetryLoop| rv(r),
        ) + mermaid_retries(lines(code@)),
{
    let cv = chars_of(code);
    let ls = lines_of(&cv);
    let ghost lv = ls.deep_view();
    let ghost t0 = transitions@.map_values(|t: StateTransition| tv(t));
    let ghost r0 = retry_loops@.map_values(|r: RetryLoop| rv(r));
    let mut i: usize = 0;
    assert(t0 + mermaid_transitions(lv.take(0)) =~= t0);
    assert(r0 + mermaid_retries(lv.take(0)) =~= r0);
    while i < ls.len()
        invariant
            lv == ls.deep_view(),
            lv == lines(code@),
            i <= lv.len(),
            transitions@.map_values(|t: StateTransition| tv(t)) == t0 + mermaid_transitions(lv.take(i as int)),
            retry_loops@.map_values(|r: RetryLoop| rv(r)) == r0 + mermaid_retries(lv.take(i as int)),
        decreases ls.len() - i,
    {
        proof {
            lemma_chars_deep_view(ls@[i as int]);
            assert(lv.take(i + 1).drop_last() =~= lv.take(i as int));
            assert(lv.take(i + 1).last() == ls@[i as int]@);
        }
        let ghost tb = transitions@;
        let ghost rb = retry_loops@;
        match mermaid_line_exec(&ls[i]) {
            Some((t, ro)) => {
                let ghost tg = t;
                transitions.push(t);
                assert(transitions@.map_values(|t: StateTransition| tv(t)) =~= tb.map_values(|t: StateTransition| tv(t)).push(tv(tg)));
                match ro {
                    Some(rl) => {
                        let ghost rg = rl;
                        retry_loops.push(rl);
                        assert(retry_loops@.map_values(|r: RetryLoop| rv(r)) =~= rb.map_values(|r: RetryLoop| rv(r)).push(rv(rg)));
                    },
                    None => {},
                }
            },
            None => {},
        }
        i += 1;
    }
    assert(lv.take(lv.len() as int) =~= lv);
}

/// A file path from a heading: up to the first `/`, without surrounding
/// backticks, stars, underscores and parentheses.
pub open spec fn clean_path(raw: Seq<char>) -> Seq<char> {
    trim_set(split_by(raw, seq!['/'])[0], "`*_()"@)
}

pub fn clean_file_path(raw: &str) -> (r: String)
    ensures
        r@ == clean_path(raw@),
{
    let rv = chars_of(raw);
    let slash = vec!['/'];
    let parts = split_by_chars(&rv, &slash);
    assert(slash@ =~= seq!['/']);
    proof {
        crate::text::lemma_nested_deep_view(parts);
        crate::canonicalizer::lemma_split_nonempty(rv@, slash@, 0);
        lemma_chars_deep_view(parts@[0]);
    }
    let set = chars_of("`*_()");
    string_of(&trim_set_chars(&parts[0], &set))
}

/// The Markdown events the spec reading looks at.
#[derive(Debug)]
pub enum MdEvent {
    HeadingStart,
    HeadingEnd,
    Text(String),
    TableStart,
    TableEnd,
    TableHeadStart,
    TableHeadEnd,
    TableRowStart,
    TableRowEnd,
    TableCellStart,
    CodeBlockStart,
    CodeBlockEnd,
    ItemStart,
    ItemEnd,
    ParagraphStart,
    ParagraphEnd,
    Other,
}

#[verifier::external_type_specification]
#[verifier::external_body]
pub struct ExCmarkEvent<'a>(pulldown_cmark::Event<'a>);

#[verifier::external_type_specification]
#[verifier::external_body]
pub struct ExCmarkTag<'a>(pulldown_cmark::Tag<'a>);

#[verifier::external_type_specification]
#[verifier::external_body]
pub struct ExCmarkTagEnd(pulldown_cmark::TagEnd);

/// The events `pulldown_cmark::Parser::new` yields for a text (default
/// options), as library events. A function of the text alone.
pub uninterp spec fn md_events(md: Seq<char>) -> Seq<MdEvent>;

/// Tells the opening tags apart.
#[verifier::external_body]
fn start_event(t: pulldown_cmark::Tag) -> MdEvent {
    match t {
        pulldown_cmark::Tag::Heading { .. } => MdEvent::HeadingStart,
        pulldown_cmark::Tag::Table(_) => MdEvent::TableStart,
        pulldown_cmark::Tag::TableHead => MdEvent::TableHeadStart,
        pulldown_cmark::Tag::TableRow => MdEvent::TableRowStart,
        pulldown_cmark::Tag::TableCell => MdEvent::TableCellStart,
        pulldown_cmark::Tag::CodeBlock(_) => MdEvent::CodeBlockStart,
        pulldown_cmark::Tag::Item => MdEvent::ItemStart,
        pulldown_cmark::Tag::Paragraph => MdEvent::ParagraphStart,
        _ => MdEvent::Other,
    }
}

/// Tells the closing tags apart.
#[verifier::external_body]
fn end_event(t: pulldown_cmark::TagEnd) -> MdEvent {
    match t {
        pulldown_cmark::TagEnd::Heading(_) => MdEvent::HeadingEnd,
        pulldown_cmark::TagEnd::Table => MdEvent::TableEnd,
        pulldown_cmark::TagEnd::TableHead => MdEvent::TableHeadEnd,
        pulldown_cmark::TagEnd::TableRow => MdEvent::TableRowEnd,
        pulldown_cmark::TagEnd::CodeBlock => MdEvent::CodeBlockEnd,
        pulldown_cmark::TagEnd::Item => MdEvent::ItemEnd,
        pulldown_cmark::TagEnd::Paragraph => MdEvent::ParagraphEnd,
        _ => MdEvent::Other,
    }
}

/// Tells the events apart, moving the text of a text event.
#[verifier::external_body]
fn library_event(e: pulldown_cmark::Event) -> MdEvent {
    match e {
        pulldown_cmark::Event::Start(t) => start_event(t),
        pulldown_cmark::Event::End(t) => end_event(t),
        pulldown_cmark::Event::Text(t) => MdEvent::Text(t.into_string()),
        _ => MdEvent::Other,
    }
}

/// Runs `pulldown_cmark::Parser::new` over the text; the events are named `md_events`.
#[verifier::external_body]
pub(crate) fn markdown_events(md: &str) -> (r: Vec<MdEvent>)
    ensures
        r@ == md_events(md@),
{
    pulldown_cmark::Parser::new(md).map(library_event).collect()
}

// ---------------------------------------------------------------------------
// The fold over the events
// ---------------------------------------------------------------------------

/// The reading state: the current section heading, table, code block, list
/// item and paragraph being collected, the active component, and the IR so far.
pub struct PState {
    pub section: Seq<char>,
    pub in_table: bool,
    pub headers: Seq<Seq<char>>,
    pub row: Seq<Seq<char>>,
    pub in_code: bool,
    pub code: Seq<char>,
    pub in_list: bool,
    pub item: Seq<char>,
    pub in_para: bool,
    pub para: Seq<char>,
    pub active: Seq<char>,
    pub language: Language,
    pub nodes: Seq<(Seq<char>, Seq<char>, Seq<char>, Seq<char>)>,
    pub interfaces: Seq<(Seq<char>, Seq<char>, Seq<char>)>,
    pub transitions: Seq<(Seq<char>, Seq<char>, Option<Seq<char>>, TransitionKind)>,
    pub retries: Seq<(Seq<char>, Seq<char>, Seq<char>)>,
    pub invariants: Seq<(Seq<char>, Seq<char>, Seq<char>)>,
    pub deps: Seq<Seq<char>>,
}

/// The state before the first event.
pub open spec fn initial_state() -> PState {
    PState {
        section: seq![],
        in_table: false,
        headers: seq![],
        row: seq![],
        in_code: false,
        code: seq![],
        in_list: false,
        item: seq![],
        in_para: false,
        para: seq![],
        active: seq![],
        language: Language::Rust,
        nodes: seq![],
        interfaces: seq![],
        transitions: seq![],
        retries: seq![],
        invariants: seq![],
        deps: seq![],
    }
}

/// The language a section heading (in lowercase) names, if any.
pub open spec fn heading_language(l: Language, sl: Seq<char>) -> Language {
    if contains(sl, "rust"@) {
        Language::Rust
    } else if contains(sl, "c++"@) || contains(sl, "cpp"@) {
        Language::Cpp
    } else if contains(sl, "python"@) {
        Language::Python
    } else if contains(sl, " c "@) {
        Language::C
    } else {
        l
    }
}

/// The text appended to the last cell of a row, or starting one.
pub open spec fn row_text(headers: Seq<Seq<char>>, row: Seq<Seq<char>>, t: Seq<char>) -> Seq<Seq<char>> {
    if row.len() > 0 {
        row.update(row.len() - 1, row.last() + t)
    } else if row.len() < headers.len() || headers.len() == 0 {
        seq![t]
    } else {
        row
    }
}

/// A text event: it starts an empty heading (and may name the language),
/// else joins the table cell, code block, list item, paragraph or heading
/// being collected, in that order.
pub open spec fn on_text(st: PState, t: Seq<char>) -> PState {
    if st.section.len() == 0 {
        PState { section: t, language: heading_language(st.language, lowercase(t)), ..st }
    } else if st.in_table {
        PState { row: row_text(st.headers, st.row, t), ..st }
    } else if st.in_code {
        PState { code: st.code + t, ..st }
    } else if st.in_list {
        PState { item: st.item + t, ..st }
    } else if st.in_para {
        PState { para: st.para + t, ..st }
    } else {
        PState { section: st.section + t, ..st }
    }
}

/// Mentions a source file extension.
pub open spec fn has_source_ext(s: Seq<char>) -> bool {
    contains(s, ".c"@) || contains(s, ".h"@) || contains(s, ".rs"@) || contains(s, ".py"@) || contains(s, ".cpp"@)
}

/// The cleaned file path of the first word (stripped of backticks,
/// parentheses, commas and colons) that mentions a source file.
pub open spec fn first_file_word(ws: Seq<Seq<char>>) -> Seq<char>
    decreases ws.len(),
{
    if ws.len() == 0 {
        seq![]
    } else {
        let c = trim_set(ws[0], "`(),:"@);
        if has_source_ext(c) {
            clean_path(c)
        } else {
            first_file_word(ws.drop_first())
        }
    }
}

/// Some node has this id.
pub open spec fn has_node(ns: Seq<(Seq<char>, Seq<char>, Seq<char>, Seq<char>)>, id: Seq<char>) -> bool {
    exists|i: int| 0 <= i < ns.len() && (#[trigger] ns[i]).0 == id
}

/// The end of a heading that names a source file makes that file's
/// component active (its id is the uppercase file name before the first
/// `.`), adding its node if no node has that id.
pub open spec fn on_heading_end(st: PState) -> PState {
    let candidate = if has_source_ext(lowercase(st.section)) {
        first_file_word(crate::text::words(st.section))
    } else {
        seq![]
    };
    let node_id = crate::text::uppercase(split_by(candidate, seq!['.'])[0]);
    if candidate.len() > 0 && node_id.len() > 0 {
        PState {
            active: node_id,
            nodes: if has_node(st.nodes, node_id) {
                st.nodes
            } else {
                st.nodes.push((node_id, "component"@, candidate, st.section))
            },
            ..st
        }
    } else {
        st
    }
}

/// The last whitespace-separated word.
pub open spec fn last_word(s: Seq<char>) -> Seq<char> {
    if crate::text::words(s).len() > 0 {
        crate::text::words(s).last()
    } else {
        seq![]
    }
}

/// The symbol a signature declares: the last word before its `(`.
pub open spec fn symbol_of(sig: Seq<char>) -> Seq<char> {
    last_word(split_by(sig, seq!['('])[0])
}

/// The end of a table row in a mapping, node or component section: the
/// first cell names a node (added unless present), the second its file,
/// and a third cell, if any, a signature.
pub open spec fn on_row_end(st: PState) -> PState {
    let sl = lowercase(st.section);
    if st.headers.len() > 0 && st.row.len() >= 2 && (contains(sl, "mapping"@) || contains(sl, "node"@) || contains(sl, "component"@)) {
        let nt = trim(st.row[0]);
        let target = trim(st.row[1]);
        let sig = if st.row.len() > 2 {
            trim(st.row[2])
        } else {
            seq![]
        };
        if nt.len() > 0 {
            let id = trim_set(nt, "`*"@);
            PState {
                nodes: if has_node(st.nodes, id) {
                    st.nodes
                } else {
                    st.nodes.push((id, "component"@, target, seq![]))
                },
                interfaces: if sig.len() > 0 {
                    st.interfaces.push((id, symbol_of(sig), sig))
                } else {
                    st.interfaces
                },
                ..st
            }
        } else {
            st
        }
    } else {
        st
    }
}

/// The end of a code block: a transition section or a Mermaid flowchart
/// adds its transitions and retry loops.
pub open spec fn on_code_end(st: PState) -> PState {
    let st2 = PState { in_code: false, ..st };
    if contains(lowercase(st.section), "transition"@) || contains(st.code, "graph TD"@) || contains(st.code, "flowchart"@) {
        PState {
            transitions: st2.transitions + mermaid_transitions(lines(st.code)),
            retries: st2.retries + mermaid_retries(lines(st.code)),
            ..st2
        }
    } else {
        st2
    }
}

/// The interface a list item declares for the active component: a
/// backticked or parenthesised signature whose symbol is not `fn`/`pub`.
pub open spec fn item_interface(active: Seq<char>, item: Seq<char>) -> Option<(Seq<char>, Seq<char>, Seq<char>)> {
    let it = trim(item);
    if active.len() > 0 && (starts_with(it, "`"@) || it.contains('(')) {
        let sig = if starts_with(it, "`"@) {
            match find(it.subrange(1, it.len() as int), "`"@) {
                Some(e) => trim(it.subrange(1, e + 1)),
                None => it,
            }
        } else {
            trim(split_by(it, seq![':'])[0])
        };
        if sig.contains('(') && sig.len() > 0 {
            let sym = trim_set(symbol_of(sig), "*&`"@);
            if sym.len() > 0 && sym != "fn"@ && sym != "pub"@ {
                Some((active, sym, sig))
            } else {
                None
            }
        } else {
            None
        }
    } else {
        None
    }
}

/// The end of a list item: an interface of the active component; in an
/// invariant section an `id: rule` invariant; in a dependency or constraint
/// section a dependency on the item's first word.
pub open spec fn on_item_end(st: PState) -> PState {
    let sl = lowercase(st.section);
    let ifaces = match item_interface(st.active, st.item) {
        Some(x) => st.interfaces.push(x),
        None => st.interfaces,
    };
    let st2 = PState { in_list: false, interfaces: ifaces, ..st };
    if contains(sl, "invariant"@) || contains(sl, "불변"@) {
        let parts = split_by(st.item, seq![':']);
        if parts.len() >= 2 {
            PState {
                invariants: st2.invariants.push((trim(parts[0]), trim(crate::text::join(parts.skip(1), ":"@)), "Invariant violated"@)),
                ..st2
            }
        } else {
            st2
        }
    } else if contains(sl, "dependenc"@) || contains(sl, "의존성"@) || contains(sl, "constraint"@) {
        let target = if crate::text::words(st.item).len() > 0 {
            crate::text::words(st.item)[0]
        } else {
            seq![]
        };
        PState { deps: st2.deps.push(target), ..st2 }
    } else {
        st2
    }
}

/// The pattern of node rows that lost their table formatting.
pub open spec fn fallback_pattern() -> Seq<char> {
    "([A-Z_]{3,})([a-z_]+)(src/[a-z_A-Z0-9./]+\\.[A-Za-z]+)(pub fn [a-z_0-9]+\\([^)]*\\)(?: -> [a-zA-Z<>(), ]+)?|fn main\\([^)]*\\)[^A-Z]*|[a-zA-Z0-9_* ]+)"@
}

/// Group `i` of a match, or nothing.
pub open spec fn group(g: Seq<Option<Seq<char>>>, i: int) -> Seq<char> {
    if 0 <= i < g.len() && g[i] is Some {
        g[i]->0
    } else {
        seq![]
    }
}

pub open spec fn fallback_nodes(ms: Seq<Seq<Option<Seq<char>>>>) -> Seq<(Seq<char>, Seq<char>, Seq<char>, Seq<char>)> {
    ms.map_values(|g: Seq<Option<Seq<char>>>| (group(g, 1), group(g, 2), group(g, 3), seq![]))
}

pub open spec fn fallback_interfaces(ms: Seq<Seq<Option<Seq<char>>>>) -> Seq<(Seq<char>, Seq<char>, Seq<char>)> {
    ms.map_values(|g: Seq<Option<Seq<char>>>| (group(g, 1), symbol_of(group(g, 4)), group(g, 4)))
}

/// The end of a paragraph in a mapping section that holds a flattened node
/// table: every match of `fallback_pattern` is a node and its interface.
pub open spec fn on_para_end(st: PState) -> PState {
    let st2 = PState { in_para: false, ..st };
    if contains(lowercase(st.section), "mapping"@) && contains(st.para, "NodeTypeTarget File"@) {
        match regex_compile_result(fallback_pattern()) {
            true => {
                let ms = crate::patterns::regex_groups_all(fallback_pattern(), st.para);
                PState {
                    nodes: st2.nodes + fallback_nodes(ms),
                    interfaces: st2.interfaces + fallback_interfaces(ms),
                    ..st2
                }
            },
            false => st2,
        }
    } else {
        st2
    }
}

pub open spec fn regex_compile_result(p: Seq<char>) -> bool {
    crate::patterns::regex_compile(p) is Ok
}

/// One event.
pub open spec fn step(st: PState, e: MdEvent) -> PState {
    match e {
        MdEvent::HeadingStart => PState { section: seq![], ..st },
        MdEvent::Text(t) => on_text(st, t@),
        MdEvent::HeadingEnd => on_heading_end(st),
        MdEvent::TableStart => PState { in_table: true, headers: seq![], ..st },
        MdEvent::TableEnd => PState { in_table: false, ..st },
        MdEvent::TableHeadStart => PState { row: seq![], ..st },
        MdEvent::TableHeadEnd => PState { headers: st.row, row: seq![], ..st },
        MdEvent::TableRowStart => PState { row: seq![], ..st },
        MdEvent::TableCellStart => PState { row: st.row.push(seq![]), ..st },
        MdEvent::TableRowEnd => on_row_end(st),
        MdEvent::CodeBlockStart => PState { in_code: true, code: seq![], ..st },
        MdEvent::CodeBlockEnd => on_code_end(st),
        MdEvent::ItemStart => PState { in_list: true, item: seq![], ..st },
        MdEvent::ItemEnd => on_item_end(st),
        MdEvent::ParagraphStart => PState { in_para: true, para: seq![], ..st },
        MdEvent::ParagraphEnd => on_para_end(st),
        MdEvent::Other => st,
    }
}

/// The state after the events, one after the other.
pub open spec fn fold_events(st: PState, es: Seq<MdEvent>) -> PState
    decreases es.len(),
{
    if es.len() == 0 {
        st
    } else {
        step(fold_events(st, es.drop_last()), es.last())
    }
}

pub open spec fn nv(n: LogicalNode) -> (Seq<char>, Seq<char>, Seq<char>, Seq<char>) {
    (n.id@, n.tier@, n.file_path@, n.description@)
}

pub open spec fn iv(i: InterfaceContract) -> (Seq<char>, Seq<char>, Seq<char>) {
    (i.node_id@, i.symbol@, i.signature@)
}

pub open spec fn invv(i: ArchitecturalInvariant) -> (Seq<char>, Seq<char>, Seq<char>) {
    (i.id@, i.rule@, i.message@)
}

/// The IR's lists as plain values.
pub open spec fn ir_view(ir: SemanticSpecIR) -> (Language, Seq<(Seq<char>, Seq<char>, Seq<char>, Seq<char>)>, Seq<(Seq<char>, Seq<char>, Seq<char>)>, Seq<(Seq<char>, Seq<char>, Option<Seq<char>>, TransitionKind)>, Seq<(Seq<char>, Seq<char>, Seq<char>)>, Seq<(Seq<char>, Seq<char>, Seq<char>)>, Seq<Seq<char>>) {
    (
        ir.language,
        ir.nodes@.map_values(|n: LogicalNode| nv(n)),
        ir.interfaces@.map_values(|i: InterfaceContract| iv(i)),
        ir.transitions@.map_values(|t: StateTransition| tv(t)),
        ir.retry_loops@.map_values(|r: RetryLoop| rv(r)),
        ir.invariants@.map_values(|i: ArchitecturalInvariant| invv(i)),
        ir.dependencies@.map_values(|d: DependencyConstraint| d.target@),
    )
}

/// Every dependency names no allowed and no forbidden targets.
pub open spec fn deps_bare(ir: SemanticSpecIR) -> bool {
    forall|i: int| 0 <= i < ir.dependencies@.len() ==> (#[trigger] ir.dependencies@[i]).allowed_dependencies@.len() == 0
        && ir.dependencies@[i].forbidden_dependencies@.len() == 0
}

struct ParseState {
    section: Vec<char>,
    in_table: bool,
    headers: Vec<Vec<char>>,
    row: Vec<Vec<char>>,
    in_code: bool,
    code: Vec<char>,
    in_list: bool,
    item: Vec<char>,
    in_para: bool,
    para: Vec<char>,
    active: Vec<char>,
    ir: SemanticSpecIR,
}

impl ParseState {
    spec fn view(&self) -> PState {
        let (l, ns, is, ts, rs, vs, ds) = ir_view(self.ir);
        PState {
            section: self.section@,
            in_table: self.in_table,
            headers: self.headers.deep_view(),
            row: self.row.deep_view(),
            in_code: self.in_code,
            code: self.code@,
            in_list: self.in_list,
            item: self.item@,
            in_para: self.in_para,
            para: self.para@,
            active: self.active@,
            language: l,
            nodes: ns,
            interfaces: is,
            transitions: ts,
            retries: rs,
            invariants: vs,
            deps: ds,
        }
    }
}

fn has_node_exec(ns: &Vec<LogicalNode>, id: &[char]) -> (b: bool)
    ensures
        b == has_node(ns@.map_values(|n: LogicalNode| nv(n)), id@),
{
    let ghost m = ns@.map_values(|n: LogicalNode| nv(n));
    let ids = string_of(id);
    let mut i: usize = 0;
    while i < ns.len()
        invariant
            m == ns@.map_values(|n: LogicalNode| nv(n)),
            ids@ == id@,
            i <= ns@.len(),
            forall|k: int| 0 <= k < i ==> (#[trigger] m[k]).0 != id@,
        decreases ns.len() - i,
    {
        assert(m[i as int] == nv(ns@[i as int]));
        if crate::ordmap::str_eq(ns[i].id.as_str(), ids.as_str()) {
            return true;
        }
        i += 1;
    }
    false
}

fn push_node(ir: &mut SemanticSpecIR, n: LogicalNode)
    ensures
        ir_view(*final(ir)) == {
            let (l, ns, is, ts, rs, vs, ds) = ir_view(*old(ir));
            (l, ns.push(nv(n)), is, ts, rs, vs, ds)
        },
        deps_bare(*old(ir)) ==> deps_bare(*final(ir)),
{
    let ghost before = ir.nodes@;
    ir.nodes.push(n);
    assert(ir.nodes@.map_values(|x: LogicalNode| nv(x)) =~= before.map_values(|x: LogicalNode| nv(x)).push(nv(n)));
}

fn push_iface(ir: &mut SemanticSpecIR, x: InterfaceContract)
    ensures
        ir_view(*final(ir)) == {
            let (l, ns, is, ts, rs, vs, ds) = ir_view(*old(ir));
            (l, ns, is.push(iv(x)), ts, rs, vs, ds)
        },
        deps_bare(*old(ir)) ==> deps_bare(*final(ir)),
{
    let ghost before = ir.interfaces@;
    ir.interfaces.push(x);
    assert(ir.interfaces@.map_values(|y: InterfaceContract| iv(y)) =~= before.map_values(|y: InterfaceContract| iv(y)).push(iv(x)));
}

fn last_word_exec(s: &[char]) -> (r: Vec<char>)
    ensures
        r@ == last_word(s@),
{
    let ws = crate::text::words_of(s);
    proof {
        crate::text::lemma_nested_deep_view(ws);
    }
    if ws.len() > 0 {
        proof {
            lemma_chars_deep_view(ws@[ws.len() - 1]);
        }
        slice_chars(&ws[ws.len() - 1], 0, ws[ws.len() - 1].len())
    } else {
        Vec::new()
    }
}

fn first_piece(s: &[char], sep: char) -> (r: Vec<char>)
    ensures
        r@ == split_by(s@, seq![sep])[0],
{
    let set = vec![sep];
    let parts = split_by_chars(s, &set);
    assert(set@ =~= seq![sep]);
    proof {
        crate::text::lemma_nested_deep_view(parts);
        crate::canonicalizer::lemma_split_nonempty(s@, set@, 0);
        lemma_chars_deep_view(parts@[0]);
    }
    slice_chars(&parts[0], 0, parts[0].len())
}

fn symbol_exec(sig: &[char]) -> (r: Vec<char>)
    ensures
        r@ == symbol_of(sig@),
{
    let head = first_piece(sig, '(');
    last_word_exec(&head)
}

fn has_source_ext_exec(s: &[char]) -> (b: bool)
    ensures
        b == has_source_ext(s@),
{
    contains_chars(s, &chars_of(".c")) || contains_chars(s, &chars_of(".h")) || contains_chars(s, &chars_of(".rs"))
        || contains_chars(s, &chars_of(".py")) || contains_chars(s, &chars_of(".cpp"))
}

fn first_file_word_exec(section: &[char]) -> (r: Vec<char>)
    ensures
        r@ == first_file_word(crate::text::words(section@)),
{
    let ws = crate::text::words_of(section);
    let ghost wv = ws.deep_view();
    let set = chars_of("`(),:");
    let mut i: usize = 0;
    assert(wv.skip(0) =~= wv);
    while i < ws.len()
        invariant
            wv == ws.deep_view(),
            wv == crate::text::words(section@),
            set@ == "`(),:"@,
            i <= wv.len(),
            first_file_word(wv) == first_file_word(wv.skip(i as int)),
        decreases ws.len() - i,
    {
        proof {
            lemma_chars_deep_view(ws@[i as int]);
            assert(wv.skip(i as int)[0] == ws@[i as int]@);
            assert(wv.skip(i as int).drop_first() =~= wv.skip(i + 1));
        }
        let c = trim_set_chars(&ws[i], &set);
        if has_source_ext_exec(&c) {
            let cs = string_of(&c);
            let cleaned = clean_file_path(cs.as_str());
            return chars_of(cleaned.as_str());
        }
        i += 1;
    }
    assert(wv.skip(i as int) =~= Seq::<Seq<char>>::empty());
    Vec::new()
}

fn heading_language_exec(l: Language, sl: &[char]) -> (r: Language)
    ensures
        r == heading_language(l, sl@),
{
    if contains_chars(sl, &chars_of("rust")) {
        Language::Rust
    } else if contains_chars(sl, &chars_of("c++")) || contains_chars(sl, &chars_of("cpp")) {
        Language::Cpp
    } else if contains_chars(sl, &chars_of("python")) {
        Language::Python
    } else if contains_chars(sl, &chars_of(" c ")) {
        Language::C
    } else {
        l
    }
}

fn row_text_exec(headers: &Vec<Vec<char>>, row: &mut Vec<Vec<char>>, t: &[char])
    ensures
        final(row).deep_view() == row_text(headers.deep_view(), old(row).deep_view(), t@),
{
    let ghost r0 = row.deep_view();
    if row.len() > 0 {
        let mut last = row.pop().unwrap();
        proof {
            lemma_chars_deep_view(last);
            assert(row.deep_view() =~= r0.drop_last());
        }
        crate::text::extend_chars(&mut last, t);
        crate::text::push_piece(row, last);
        assert(row.deep_view() =~= r0.update(r0.len() - 1, r0.last() + t@));
    } else if row.len() < headers.len() || headers.len() == 0 {
        let piece = slice_chars(t, 0, t.len());
        assert(piece@ =~= t@);
        crate::text::push_piece(row, piece);
        assert(row.deep_view() =~= seq![t@]);
    }
}

fn on_text_exec(st: &mut ParseState, t: &String)
    ensures
        final(st).view() == on_text(old(st).view(), t@),
        deps_bare(old(st).ir) ==> deps_bare(final(st).ir),
{
    let tv = chars_of(t.as_str());
    if st.section.len() == 0 {
        crate::text::extend_chars(&mut st.section, &tv);
        let lo = lowercase_chars(&st.section);
        st.ir.language = heading_language_exec(st.ir.language, &lo);
        assert(st.section@ =~= t@);
    } else if st.in_table {
        row_text_exec(&st.headers, &mut st.row, &tv);
    } else if st.in_code {
        crate::text::extend_chars(&mut st.code, &tv);
    } else if st.in_list {
        crate::text::extend_chars(&mut st.item, &tv);
    } else if st.in_para {
        crate::text::extend_chars(&mut st.para, &tv);
    } else {
        crate::text::extend_chars(&mut st.section, &tv);
    }
}

fn on_heading_end_exec(st: &mut ParseState)
    ensures
        final(st).view() == on_heading_end(old(st).view()),
        deps_bare(old(st).ir) ==> deps_bare(final(st).ir),
{
    let sl = lowercase_chars(&st.section);
    let candidate = if has_source_ext_exec(&sl) {
        first_file_word_exec(&st.section)
    } else {
        Vec::new()
    };
    let head = first_piece(&candidate, '.');
    let hs = string_of(&head);
    let up = crate::text::to_upper(hs.as_str());
    let node_id = chars_of(up.as_str());
    if candidate.len() > 0 && node_id.len() > 0 {
        let present = has_node_exec(&st.ir.nodes, &node_id);
        if !present {
            let n = LogicalNode {
                id: string_of(&node_id),
                tier: owned("component"),
                file_path: string_of(&candidate),
                description: string_of(&st.section),
            };
            push_node(&mut st.ir, n);
        }
        st.active = node_id;
    }
}

fn on_row_end_exec(st: &mut ParseState)
    ensures
        final(st).view() == on_row_end(old(st).view()),
        deps_bare(old(st).ir) ==> deps_bare(final(st).ir),
{
    let sl = lowercase_chars(&st.section);
    proof {
        crate::text::lemma_nested_deep_view(st.row);
    }
    if st.headers.len() > 0 && st.row.len() >= 2 && (contains_chars(&sl, &chars_of("mapping"))
        || contains_chars(&sl, &chars_of("node")) || contains_chars(&sl, &chars_of("component"))) {
        proof {
            lemma_chars_deep_view(st.row@[0]);
            lemma_chars_deep_view(st.row@[1]);
        }
        let nt = trim_chars(&st.row[0]);
        let target = trim_chars(&st.row[1]);
        let sig: Vec<char> = if st.row.len() > 2 {
            proof {
                lemma_chars_deep_view(st.row@[2]);
            }
            trim_chars(&st.row[2])
        } else {
            Vec::new()
        };
        if nt.len() > 0 {
            let id = trim_set_chars(&nt, &chars_of("`*"));
            let present = has_node_exec(&st.ir.nodes, &id);
            if !present {
                push_node(&mut st.ir, LogicalNode {
                    id: string_of(&id),
                    tier: owned("component"),
                    file_path: string_of(&target),
                    description: owned(""),
                });
                proof {
                    reveal_strlit("");
                    assert(""@ =~= Seq::<char>::empty());
                }
            }
            if sig.len() > 0 {
                let sym = symbol_exec(&sig);
                push_iface(&mut st.ir, InterfaceContract {
                    node_id: string_of(&id),
                    symbol: string_of(&sym),
                    signature: string_of(&sig),
                });
            }
        }
    }
}

fn on_code_end_exec(st: &mut ParseState)
    ensures
        final(st).view() == on_code_end(old(st).view()),
        deps_bare(old(st).ir) ==> deps_bare(final(st).ir),
{
    st.in_code = false;
    let sl = lowercase_chars(&st.section);
    if contains_chars(&sl, &chars_of("transition")) || contains_chars(&st.code, &chars_of("graph TD"))
        || contains_chars(&st.code, &chars_of("flowchart")) {
        let code = string_of(&st.code);
        parse_mermaid_transitions(code.as_str(), &mut st.ir.transitions, &mut st.ir.retry_loops);
    }
}

fn item_interface_exec(active: &[char], item: &[char]) -> (r: Option<InterfaceContract>)
    ensures
        match r {
            Some(x) => item_interface(active@, item@) == Some(iv(x)),
            None => item_interface(active@, item@) is None,
        },
{
    let it = trim_chars(item);
    let tick = chars_of("`");
    proof {
        reveal_strlit("`");
    }
    let starts_tick = starts_with_chars(&it, &tick);
    if active.len() > 0 && (starts_tick || has_char(&it, '(')) {
        let sig: Vec<char> = if starts_tick {
            let rest = slice_chars(&it, 1, it.len());
            proof {
                crate::text::lemma_find(rest@, tick@);
            }
            match find_chars(&rest, &tick) {
                Some(e) => {
                    assert(crate::text::occurs_at(rest@, e as int, tick@));
                    trim_chars(&slice_chars(&it, 1, e + 1))
                },
                None => it,
            }
        } else {
            trim_chars(&first_piece(&it, ':'))
        };
        if has_char(&sig, '(') && sig.len() > 0 {
            let sym = trim_set_chars(&symbol_exec(&sig), &chars_of("*&`"));
            let syms = string_of(&sym);
            if sym.len() > 0 && !crate::ordmap::str_eq(syms.as_str(), "fn") && !crate::ordmap::str_eq(syms.as_str(), "pub") {
                return Some(InterfaceContract {
                    node_id: string_of(active),
                    symbol: syms,
                    signature: string_of(&sig),
                });
            }
        }
    }
    None
}

fn on_item_end_exec(st: &mut ParseState)
    ensures
        final(st).view() == on_item_end(old(st).view()),
        deps_bare(old(st).ir) ==> deps_bare(final(st).ir),
{
    st.in_list = false;
    match item_interface_exec(&st.active, &st.item) {
        Some(x) => push_iface(&mut st.ir, x),
        None => {},
    }
    let sl = lowercase_chars(&st.section);
    if contains_chars(&sl, &chars_of("invariant")) || contains_chars(&sl, &chars_of("불변")) {
        let colon = vec![':'];
        let parts = split_by_chars(&st.item, &colon);
        assert(colon@ =~= seq![':']);
        proof {
            crate::text::lemma_nested_deep_view(parts);
        }
        if parts.len() >= 2 {
            proof {
                lemma_chars_deep_view(parts@[0]);
                reveal_strlit(":");
            }
            let id = trim_chars(&parts[0]);
            let rule = trim_chars(&crate::text::join_chars_from(&parts, 1, &chars_of(":")));
            let inv = ArchitecturalInvariant {
                id: string_of(&id),
                rule: string_of(&rule),
                message: owned("Invariant violated"),
            };
            let ghost before = st.ir.invariants@;
            let ghost ig = inv;
            st.ir.invariants.push(inv);
            assert(st.ir.invariants@.map_values(|i: ArchitecturalInvariant| invv(i)) =~= before.map_values(|i: ArchitecturalInvariant| invv(i)).push(invv(ig)));
        }
    } else if contains_chars(&sl, &chars_of("dependenc")) || contains_chars(&sl, &chars_of("의존성"))
        || contains_chars(&sl, &chars_of("constraint")) {
        let ws = crate::text::words_of(&st.item);
        proof {
            crate::text::lemma_nested_deep_view(ws);
        }
        let target: Vec<char> = if ws.len() > 0 {
            proof {
                lemma_chars_deep_view(ws@[0]);
            }
            let w = slice_chars(&ws[0], 0, ws[0].len());
            assert(w@ =~= crate::text::words(st.item@)[0]);
            w
        } else {
            Vec::new()
        };
        assert(target@ =~= if crate::text::words(st.item@).len() > 0 {
            crate::text::words(st.item@)[0]
        } else {
            seq![]
        });
        let d = DependencyConstraint {
            target: string_of(&target),
            allowed_dependencies: Vec::new(),
            forbidden_dependencies: Vec::new(),
        };
        let ghost before = st.ir.dependencies@;
        let ghost dg = d;
        st.ir.dependencies.push(d);
        assert(st.ir.dependencies@.map_values(|x: DependencyConstraint| x.target@) =~= before.map_values(|x: DependencyConstraint| x.target@).push(dg.target@));
        assert(st.ir.dependencies@[st.ir.dependencies@.len() - 1] == dg);
    }
    proof {
        let a = st.view();
        let b = on_item_end(old(st).view());
        assert(a.interfaces == b.interfaces);
        assert(a.invariants == b.invariants);
        assert(a.deps == b.deps);
        assert(a.nodes == b.nodes);
        assert(a.in_list == b.in_list);
    }
}

fn group_exec(g: &Vec<Option<String>>, i: usize) -> (r: String)
    ensures
        r@ == group(g@.map_values(|x: Option<String>| crate::patterns::group_view(x)), i as int),
{
    if i < g.len() {
        match &g[i] {
            Some(s) => s.clone(),
            None => {
                proof {
                    reveal_strlit("");
                    assert(""@ =~= Seq::<char>::empty());
                }
                owned("")
            },
        }
    } else {
        proof {
            reveal_strlit("");
            assert(""@ =~= Seq::<char>::empty());
        }
        owned("")
    }
}

fn on_para_end_exec(st: &mut ParseState)
    ensures
        final(st).view() == on_para_end(old(st).view()),
        deps_bare(old(st).ir) ==> deps_bare(final(st).ir),
{
    st.in_para = false;
    let sl = lowercase_chars(&st.section);
    if contains_chars(&sl, &chars_of("mapping")) && contains_chars(&st.para, &chars_of("NodeTypeTarget File")) {
        let pat = "([A-Z_]{3,})([a-z_]+)(src/[a-z_A-Z0-9./]+\\.[A-Za-z]+)(pub fn [a-z_0-9]+\\([^)]*\\)(?: -> [a-zA-Z<>(), ]+)?|fn main\\([^)]*\\)[^A-Z]*|[a-zA-Z0-9_* ]+)";
        match crate::patterns::compile(pat) {
            Ok(re) => {
                let para = string_of(&st.para);
                let caps = crate::patterns::captures_all(&re, para.as_str());
                let ghost ms = caps@.map_values(|g: Vec<Option<String>>| g@.map_values(|x: Option<String>| crate::patterns::group_view(x)));
                let ghost n0 = st.ir.nodes@.map_values(|n: LogicalNode| nv(n));
                let ghost i0 = st.ir.interfaces@.map_values(|x: InterfaceContract| iv(x));
                let mut k: usize = 0;
                while k < caps.len()
                    invariant
                        ms == caps@.map_values(|g: Vec<Option<String>>| g@.map_values(|x: Option<String>| crate::patterns::group_view(x))),
                        k <= caps@.len(),
                        st.ir.nodes@.map_values(|n: LogicalNode| nv(n)) == n0 + fallback_nodes(ms.take(k as int)),
                        st.ir.interfaces@.map_values(|x: InterfaceContract| iv(x)) == i0 + fallback_interfaces(ms.take(k as int)),
                        ir_view(st.ir).0 == old(st).ir.language,
                        ir_view(st.ir).3 == ir_view(old(st).ir).3,
                        ir_view(st.ir).4 == ir_view(old(st).ir).4,
                        ir_view(st.ir).5 == ir_view(old(st).ir).5,
                        ir_view(st.ir).6 == ir_view(old(st).ir).6,
                        deps_bare(old(st).ir) ==> deps_bare(st.ir),
                        st.section == old(st).section,
                        st.in_table == old(st).in_table,
                        st.headers == old(st).headers,
                        st.row == old(st).row,
                        st.in_code == old(st).in_code,
                        st.code == old(st).code,
                        st.in_list == old(st).in_list,
                        st.item == old(st).item,
                        !st.in_para,
                        st.para == old(st).para,
                        st.active == old(st).active,
                    decreases caps.len() - k,
                {
                    let g = &caps[k];
                    let id = group_exec(g, 1);
                    let tier = group_exec(g, 2);
                    let path = group_exec(g, 3);
                    let sig = group_exec(g, 4);
                    let sym = symbol_exec(&chars_of(sig.as_str()));
                    push_node(&mut st.ir, LogicalNode { id: id.clone(), tier, file_path: path, description: owned("") });
                    push_iface(&mut st.ir, InterfaceContract { node_id: id, symbol: string_of(&sym), signature: sig });
                    proof {
                        reveal_strlit("");
                        assert(""@ =~= Seq::<char>::empty());
                        assert(ms[k as int] == caps@[k as int]@.map_values(|x: Option<String>| crate::patterns::group_view(x)));
                        assert(fallback_nodes(ms.take(k + 1)) =~= fallback_nodes(ms.take(k as int)).push(fallback_nodes(ms)[k as int]));
                        assert(fallback_interfaces(ms.take(k + 1)) =~= fallback_interfaces(ms.take(k as int)).push(fallback_interfaces(ms)[k as int]));
                    }
                    k += 1;
                }
                assert(ms.take(ms.len() as int) =~= ms);
            },
            Err(_) => {},
        }
    }
}

/// The IR part of a reading state.
pub open spec fn state_ir(st: PState) -> (Language, Seq<(Seq<char>, Seq<char>, Seq<char>, Seq<char>)>, Seq<(Seq<char>, Seq<char>, Seq<char>)>, Seq<(Seq<char>, Seq<char>, Option<Seq<char>>, TransitionKind)>, Seq<(Seq<char>, Seq<char>, Seq<char>)>, Seq<(Seq<char>, Seq<char>, Seq<char>)>, Seq<Seq<char>>) {
    (st.language, st.nodes, st.interfaces, st.transitions, st.retries, st.invariants, st.deps)
}

/// The retry loops that the rollback transitions among `ts` stand for, in
/// order: from, to and condition of each.
pub open spec fn rollback_loops(ts: Seq<(Seq<char>, Seq<char>, Option<Seq<char>>, TransitionKind)>) -> Seq<(Seq<char>, Seq<char>, Seq<char>)>
    decreases ts.len(),
{
    if ts.len() == 0 {
        seq![]
    } else {
        rollback_loops(ts.drop_last()) + if ts.last().3 == TransitionKind::Rollback {
            seq![(ts.last().0, ts.last().1, match ts.last().2 { Some(c) => c, None => seq![] })]
        } else {
            seq![]
        }
    }
}

proof fn lemma_rollback_loops_append(
    a: Seq<(Seq<char>, Seq<char>, Option<Seq<char>>, TransitionKind)>,
    b: Seq<(Seq<char>, Seq<char>, Option<Seq<char>>, TransitionKind)>,
)
    ensures
        rollback_loops(a + b) == rollback_loops(a) + rollback_loops(b),
    decreases b.len(),
{
    if b.len() == 0 {
        assert(a + b =~= a);
        assert(rollback_loops(a) + rollback_loops(b) =~= rollback_loops(a));
    } else {
        lemma_rollback_loops_append(a, b.drop_last());
        assert((a + b).drop_last() =~= a + b.drop_last());
        assert((a + b).last() == b.last());
        assert(rollback_loops(a + b) =~= rollback_loops(a) + rollback_loops(b));
    }
}

proof fn lemma_mermaid_line_rollback(l: Seq<char>)
    ensures
        mermaid_line(l) matches Some((t, ro)) ==> (ro is Some <==> t.3 == TransitionKind::Rollback) && (ro matches Some(
            r,
        ) ==> t.2 == Some(r.2) && r.0 == t.0 && r.1 == t.1),
{
}

proof fn lemma_mermaid_rollbacks(ls: Seq<Seq<char>>)
    ensures
        mermaid_retries(ls) == rollback_loops(mermaid_transitions(ls)),
    decreases ls.len(),
{
    if ls.len() > 0 {
        lemma_mermaid_rollbacks(ls.drop_last());
        let one = match mermaid_line(ls.last()) {
            Some((t, _)) => seq![t],
            None => seq![],
        };
        lemma_rollback_loops_append(mermaid_transitions(ls.drop_last()), one);
        if one.len() == 1 {
            assert(one.drop_last() =~= Seq::<(Seq<char>, Seq<char>, Option<Seq<char>>, TransitionKind)>::empty());
        }
        lemma_mermaid_line_rollback(ls.last());
        match mermaid_line(ls.last()) {
            Some((t, ro)) => {
                assert(one =~= seq![t]);
                assert(rollback_loops(one) == rollback_loops(one.drop_last()) + if t.3 == TransitionKind::Rollback {
                    seq![(t.0, t.1, match t.2 { Some(c) => c, None => seq![] })]
                } else {
                    seq![]
                });
                assert(rollback_loops(one.drop_last()) =~= seq![]);
                match ro {
                    Some(r) => {
                        assert(rollback_loops(one) =~= seq![r]);
                    },
                    None => {
                        assert(rollback_loops(one) =~= seq![]);
                    },
                }
            },
            None => {
                assert(rollback_loops(one) =~= seq![]);
            },
        }
    }
}

proof fn lemma_step_keeps_rollbacks(st: PState, e: MdEvent)
    requires
        st.retries == rollback_loops(st.transitions),
    ensures
        step(st, e).retries == rollback_loops(step(st, e).transitions),
{
    if e is CodeBlockEnd {
        if contains(lowercase(st.section), "transition"@) || contains(st.code, "graph TD"@) || contains(st.code, "flowchart"@) {
            lemma_mermaid_rollbacks(lines(st.code));
            lemma_rollback_loops_append(st.transitions, mermaid_transitions(lines(st.code)));
        }
    }
}

proof fn lemma_fold_keeps_rollbacks(es: Seq<MdEvent>)
    ensures
        fold_events(initial_state(), es).retries == rollback_loops(fold_events(initial_state(), es).transitions),
    decreases es.len(),
{
    if es.len() > 0 {
        lemma_fold_keeps_rollbacks(es.drop_last());
        lemma_step_keeps_rollbacks(fold_events(initial_state(), es.drop_last()), es.last());
    } else {
        assert(rollback_loops(initial_state().transitions) =~= seq![]);
    }
}

/// The retry loops of a spec are exactly its rollback transitions: for
/// each, in order, its from, to and condition (the view of `parse_spec`'s
/// result is `state_ir` of these events).
pub proof fn lemma_retry_loops_are_rollbacks(md: Seq<char>)
    ensures
        state_ir(fold_events(initial_state(), md_events(md))).4 == rollback_loops(
            state_ir(fold_events(initial_state(), md_events(md))).3,
        ),
{
    lemma_fold_keeps_rollbacks(md_events(md));
}

/// The text that opens a heading names the spec's language: after a
/// heading start and its first text `t`, the language is Rust where the
/// lowercased text mentions `rust`; else C++ where it mentions `c++` or
/// `cpp`; else Python where it mentions `python`; else C where it mentions
/// ` c `; and otherwise the language stays what the earlier events made it.
pub proof fn lemma_heading_names_language(es: Seq<MdEvent>, t: String)
    ensures
        ({
            let before = fold_events(initial_state(), es).language;
            let after = fold_events(initial_state(), es.push(MdEvent::HeadingStart).push(MdEvent::Text(t))).language;
            let sl = lowercase(t@);
            let rust = contains(sl, "rust"@);
            let cpp = contains(sl, "c++"@) || contains(sl, "cpp"@);
            let python = contains(sl, "python"@);
            let c = contains(sl, " c "@);
            &&& rust ==> after == Language::Rust
            &&& !rust && cpp ==> after == Language::Cpp
            &&& !rust && !cpp && python ==> after == Language::Python
            &&& !rust && !cpp && !python && c ==> after == Language::C
            &&& !rust && !cpp && !python && !c ==> after == before
        }),
{
    let e1 = es.push(MdEvent::HeadingStart);
    let e2 = e1.push(MdEvent::Text(t));
    assert(e2.drop_last() =~= e1);
    assert(e1.drop_last() =~= es);
    let st0 = fold_events(initial_state(), es);
    let st1 = fold_events(initial_state(), e1);
    assert(st1 == step(st0, MdEvent::HeadingStart));
    assert(st1.section.len() == 0);
    assert(st1.language == st0.language);
    let st2 = fold_events(initial_state(), e2);
    assert(st2 == step(st1, MdEvent::Text(t)));
    assert(st2.language == heading_language(st1.language, lowercase(t@)));
}

/// Only the text that opens a section can change the language: every other
/// event keeps it.
pub proof fn lemma_language_changes_only_on_heading_text(st: PState, e: MdEvent)
    ensures
        step(st, e).language != st.language ==> (e is Text && st.section.len() == 0),
{
}

/// The semantic IR the events describe.
pub fn parse_spec_events(events: &Vec<MdEvent>) -> (ir: SemanticSpecIR)
    ensures
        ir_view(ir) == state_ir(fold_events(initial_state(), events@)),
        deps_bare(ir),
{
    let mut st = ParseState {
        section: Vec::new(),
        in_table: false,
        headers: Vec::new(),
        row: Vec::new(),
        in_code: false,
        code: Vec::new(),
        in_list: false,
        item: Vec::new(),
        in_para: false,
        para: Vec::new(),
        active: Vec::new(),
        ir: SemanticSpecIR::default(),
    };
    proof {
        assert(st.view() =~= initial_state()) by {
            assert(st.headers.deep_view() =~= Seq::<Seq<char>>::empty());
            assert(st.row.deep_view() =~= Seq::<Seq<char>>::empty());
            assert(st.ir.nodes@.map_values(|n: LogicalNode| nv(n)) =~= Seq::<(Seq<char>, Seq<char>, Seq<char>, Seq<char>)>::empty());
            assert(st.ir.interfaces@.map_values(|x: InterfaceContract| iv(x)) =~= Seq::<(Seq<char>, Seq<char>, Seq<char>)>::empty());
            assert(st.ir.transitions@.map_values(|t: StateTransition| tv(t)) =~= Seq::<(Seq<char>, Seq<char>, Option<Seq<char>>, TransitionKind)>::empty());
            assert(st.ir.retry_loops@.map_values(|r: RetryLoop| rv(r)) =~= Seq::<(Seq<char>, Seq<char>, Seq<char>)>::empty());
            assert(st.ir.invariants@.map_values(|i: ArchitecturalInvariant| invv(i)) =~= Seq::<(Seq<char>, Seq<char>, Seq<char>)>::empty());
            assert(st.ir.dependencies@.map_values(|d: DependencyConstraint| d.target@) =~= Seq::<Seq<char>>::empty());
        }
        assert(events@.take(0) =~= Seq::<MdEvent>::empty());
    }
    let mut i: usize = 0;
    while i < events.len()
        invariant
            i <= events@.len(),
            st.view() == fold_events(initial_state(), events@.take(i as int)),
            deps_bare(st.ir),
        decreases events.len() - i,
    {
        proof {
            assert(events@.take(i + 1).drop_last() =~= events@.take(i as int));
            assert(events@.take(i + 1).last() == events@[i as int]);
        }
        match &events[i] {
            MdEvent::HeadingStart => {
                st.section = Vec::new();
            },
            MdEvent::Text(t) => on_text_exec(&mut st, t),
            MdEvent::HeadingEnd => on_heading_end_exec(&mut st),
            MdEvent::TableStart => {
                st.in_table = true;
                st.headers = Vec::new();
                assert(st.headers.deep_view() =~= Seq::<Seq<char>>::empty());
            },
            MdEvent::TableEnd => {
                st.in_table = false;
            },
            MdEvent::TableHeadStart => {
                st.row = Vec::new();
                assert(st.row.deep_view() =~= Seq::<Seq<char>>::empty());
            },
            MdEvent::TableHeadEnd => {
                let mut r: Vec<Vec<char>> = Vec::new();
                std::mem::swap(&mut r, &mut st.row);
                st.headers = r;
                assert(st.row.deep_view() =~= Seq::<Seq<char>>::empty());
            },
            MdEvent::TableRowStart => {
                st.row = Vec::new();
                assert(st.row.deep_view() =~= Seq::<Seq<char>>::empty());
            },
            MdEvent::TableCellStart => {
                let cell: Vec<char> = Vec::new();
                assert(cell@ =~= Seq::<char>::empty());
                crate::text::push_piece(&mut st.row, cell);
            },
            MdEvent::TableRowEnd => on_row_end_exec(&mut st),
            MdEvent::CodeBlockStart => {
                st.in_code = true;
                st.code = Vec::new();
            },
            MdEvent::CodeBlockEnd => on_code_end_exec(&mut st),
            MdEvent::ItemStart => {
                st.in_list = true;
                st.item = Vec::new();
            },
            MdEvent::ItemEnd => on_item_end_exec(&mut st),
            MdEvent::ParagraphStart => {
                st.in_para = true;
                st.para = Vec::new();
            },
            MdEvent::ParagraphEnd => on_para_end_exec(&mut st),
            MdEvent::Other => {},
        }
        proof {
            assert(st.view() =~= step(fold_events(initial_state(), events@.take(i as int)), events@[i as int]));
        }
        i += 1;
    }
    assert(events@.take(events@.len() as int) =~= events@);
    st.ir
}

/// Reads an architecture spec in Markdown into the semantic IR: the
/// events `pulldown_cmark` yields for the text, folded by `parse_spec_events`.
pub fn parse_spec(markdown: &str) -> (ir: SemanticSpecIR)
    ensures
        ir_view(ir) == state_ir(fold_events(initial_state(), md_events(markdown@))),
        deps_bare(ir),
{
    let events = markdown_events(markdown);
    parse_spec_events(&events)
}

} // verus!
