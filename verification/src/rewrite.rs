//! Detecting a rewrite where an edit was asked for: the file replaced as a
//! whole, functions, imports, namespaces, types or components dropped, or
//! most lines changed. Each finding is decided exactly on counts; the
//! weighted score is left to the caller.
use vstd::prelude::*;
use crate::patterns::{compile, find_all, regex_compile, regex_find_all};
use crate::text::{
    chars_of, contains, lines, lines_of, lowercase, owned, str_contains, string_of, to_lower, trim,
    trim_chars, words, words_of,
};
use crate::ordmap::str_eq;

verus! {

// ---------------------------------------------------------------------------
// What a text declares
// ---------------------------------------------------------------------------

/// Patterns of function definitions (Rust, C, Python, C++ methods).
pub open spec fn function_patterns() -> Seq<Seq<char>> {
    seq![
        "(?m)^(pub )?fn \\w+"@,
        "(?m)^(pub )?async fn \\w+"@,
        "(?m)^\\w+ \\w+ \\([^)]*\\) \\{"@,
        "(?m)^void \\w+ \\("@,
        "(?m)^( *)def \\w+"@,
        "(?m)^( *)async def \\w+"@,
        "(?m)^\\w+ \\w+::\\w+"@,
    ]
}

/// Patterns of imports (C includes, Rust `use`, Python imports).
pub open spec fn import_patterns() -> Seq<Seq<char>> {
    seq![
        "(?m)^#include <[^>]+>"@,
        "(?m)^#include \"[^\"]+\""@,
        "(?m)^use \\w+"@,
        "(?m)^import \\w+"@,
        "(?m)^from \\w+ import"@,
    ]
}

/// Patterns of namespace declarations.
pub open spec fn namespace_patterns() -> Seq<Seq<char>> {
    seq!["(?m)^namespace \\w+"@, "(?m)^module \\w+"@, "(?m)^package [\\w.]+"@]
}

/// Patterns of type declarations.
pub open spec fn struct_patterns() -> Seq<Seq<char>> {
    seq!["(?m)^struct \\w+"@, "(?m)^class \\w+"@, "(?m)^enum \\w+"@]
}

/// Adds each match, trimmed, unless it is empty or already there.
pub open spec fn add_trimmed(acc: Seq<Seq<char>>, ms: Seq<Seq<char>>) -> Seq<Seq<char>>
    decreases ms.len(),
{
    if ms.len() == 0 {
        acc
    } else {
        let a = add_trimmed(acc, ms.drop_last());
        let s = trim(ms.last());
        if s.len() > 0 && !a.contains(s) {
            a.push(s)
        } else {
            a
        }
    }
}

/// Adds the second word of each match, trimmed, unless it is empty or
/// already there.
pub open spec fn add_names(acc: Seq<Seq<char>>, ms: Seq<Seq<char>>) -> Seq<Seq<char>>
    decreases ms.len(),
{
    if ms.len() == 0 {
        acc
    } else {
        let a = add_names(acc, ms.drop_last());
        let ws = words(ms.last());
        if ws.len() > 1 {
            let s = trim(ws[1]);
            if s.len() > 0 && !a.contains(s) {
                a.push(s)
            } else {
                a
            }
        } else {
            a
        }
    }
}

/// The matches of the first `n` patterns that compile, trimmed, each once,
/// in order (`names` takes each match's second word instead).
pub open spec fn collected(ps: Seq<Seq<char>>, t: Seq<char>, n: int, names: bool) -> Seq<Seq<char>>
    decreases n,
{
    if n <= 0 {
        seq![]
    } else {
        let acc = collected(ps, t, n - 1, names);
        match regex_compile(ps[n - 1]) {
            Ok(_) => if names {
                add_names(acc, regex_find_all(ps[n - 1], t))
            } else {
                add_trimmed(acc, regex_find_all(ps[n - 1], t))
            },
            Err(_) => acc,
        }
    }
}

pub open spec fn function_signatures(t: Seq<char>) -> Seq<Seq<char>> {
    collected(function_patterns(), t, 7, false)
}

pub open spec fn imports_of(t: Seq<char>) -> Seq<Seq<char>> {
    collected(import_patterns(), t, 5, false)
}

pub open spec fn namespaces_of(t: Seq<char>) -> Seq<Seq<char>> {
    collected(namespace_patterns(), t, 3, true)
}

pub open spec fn structs_of(t: Seq<char>) -> Seq<Seq<char>> {
    collected(struct_patterns(), t, 3, true)
}

/// The import patterns all compile.
pub open spec fn imports_compile() -> bool {
    forall|k: int| 0 <= k < 5 ==> #[trigger] regex_compile(import_patterns()[k]) is Ok
}

/// How many components a text declares: its types, half its functions,
/// and its imports.
pub open spec fn components_of(t: Seq<char>) -> int {
    (structs_of(t).len() + function_signatures(t).len() / 2 + imports_of(t).len()) as int
}

fn add_matches(acc: &mut Vec<String>, ms: Vec<String>, names: bool)
    ensures
        final(acc).deep_view() == if names {
            add_names(old(acc).deep_view(), ms.deep_view())
        } else {
            add_trimmed(old(acc).deep_view(), ms.deep_view())
        },
{
    let ghost a0 = acc.deep_view();
    let ghost mv = ms.deep_view();
    let mut i: usize = 0;
    while i < ms.len()
        invariant
            mv == ms.deep_view(),
            i <= mv.len(),
            acc.deep_view() == if names {
                add_names(a0, mv.take(i as int))
            } else {
                add_trimmed(a0, mv.take(i as int))
            },
        decreases ms.len() - i,
    {
        assert(mv.take(i + 1).drop_last() =~= mv.take(i as int));
        assert(mv.take(i + 1).last() == ms@[i as int]@);
        let cv = chars_of(ms[i].as_str());
        let piece: Option<Vec<char>> = if names {
            let ws = words_of(&cv);
            proof {
                crate::text::lemma_nested_deep_view(ws);
            }
            if ws.len() > 1 {
                proof {
                    crate::text::lemma_chars_deep_view(ws@[1]);
                }
                Some(trim_chars(&ws[1]))
            } else {
                None
            }
        } else {
            Some(trim_chars(&cv))
        };
        match piece {
            Some(p) => {
                let s = string_of(&p);
                assert(s@ == p@);
                let mut found = false;
                let mut k: usize = 0;
                while k < acc.len()
                    invariant
                        k <= acc@.len(),
                        found == exists|j: int| 0 <= j < k && #[trigger] acc.deep_view()[j] == s@,
                    decreases acc.len() - k,
                {
                    assert(acc.deep_view()[k as int] == acc@[k as int]@);
                    if str_eq(acc[k].as_str(), s.as_str()) {
                        found = true;
                    }
                    k += 1;
                }
                if p.len() > 0 && !found {
                    crate::text::push_piece_string(acc, s);
                } else {
                    proof {
                        if found {
                            assert(acc.deep_view().contains(s@));
                        } else {
                            assert(s@.len() == 0);
                        }
                    }
                }
            },
            None => {},
        }
        i += 1;
    }
    assert(mv.take(mv.len() as int) =~= mv);
}

fn collect(ps: &[&str], t: &str, names: bool) -> (r: Vec<String>)
    ensures
        r.deep_view() == collected(ps@.map_values(|p: &str| p@), t@, ps@.len() as int, names),
{
    let ghost pv = ps@.map_values(|p: &str| p@);
    let mut acc: Vec<String> = Vec::new();
    assert(acc.deep_view() =~= Seq::<Seq<char>>::empty());
    let mut i: usize = 0;
    while i < ps.len()
        invariant
            pv == ps@.map_values(|p: &str| p@),
            i <= ps@.len(),
            acc.deep_view() == collected(pv, t@, i as int, names),
        decreases ps.len() - i,
    {
        assert(pv[i as int] == ps@[i as int]@);
        match compile(ps[i]) {
            Ok(re) => {
                let ms = find_all(&re, t);
                add_matches(&mut acc, ms, names);
            },
            Err(_) => {},
        }
        i += 1;
    }
    acc
}

fn function_patterns_exec() -> (r: [&'static str; 7])
    ensures
        r@.map_values(|p: &str| p@) == function_patterns(),
{
    let r: [&'static str; 7] = [
        "(?m)^(pub )?fn \\w+",
        "(?m)^(pub )?async fn \\w+",
        "(?m)^\\w+ \\w+ \\([^)]*\\) \\{",
        "(?m)^void \\w+ \\(",
        "(?m)^( *)def \\w+",
        "(?m)^( *)async def \\w+",
        "(?m)^\\w+ \\w+::\\w+",
    ];
    assert(r@.map_values(|p: &str| p@) =~= function_patterns());
    r
}

fn import_patterns_exec() -> (r: [&'static str; 5])
    ensures
        r@.map_values(|p: &str| p@) == import_patterns(),
{
    let r: [&'static str; 5] = [
        "(?m)^#include <[^>]+>",
        "(?m)^#include \"[^\"]+\"",
        "(?m)^use \\w+",
        "(?m)^import \\w+",
        "(?m)^from \\w+ import",
    ];
    assert(r@.map_values(|p: &str| p@) =~= import_patterns());
    r
}







// ---------------------------------------------------------------------------
// Findings
// ---------------------------------------------------------------------------

/// Why an edit counts as a rewrite. The mutation finding carries the
/// changed lines and the line count its ratio is taken over.
#[derive(Clone, Copy, Debug, PartialEq, Eq, Structural)]
pub enum RewriteFinding {
    EntireFileReplaced,
    FunctionDeleted,
    ImportWipe,
    NamespaceWipe,
    InterfaceCollapse,
    ComponentDeletion,
    HighMutationRatio { changed: usize, total: usize },
}

/// The verdict on an edit: a rewrite exactly when something was found.
pub struct RewriteAnalysis {
    pub is_rewrite: bool,
    pub violations: Vec<RewriteFinding>,
}

/// How many items of `a` are also in `b`.
pub open spec fn retained(a: Seq<Seq<char>>, b: Seq<Seq<char>>) -> nat
    decreases a.len(),
{
    if a.len() == 0 {
        0
    } else {
        retained(a.drop_last(), b) + if b.contains(a.last()) { 1nat } else { 0nat }
    }
}

proof fn lemma_retained_le(a: Seq<Seq<char>>, b: Seq<Seq<char>>)
    ensures
        retained(a, b) <= a.len(),
    decreases a.len(),
{
    if a.len() > 0 {
        lemma_retained_le(a.drop_last(), b);
    }
}

/// Lowercased text that looks like code.
pub open spec fn has_code(lower: Seq<char>) -> bool {
    ||| contains(lower, "fn "@)
    ||| contains(lower, "pub fn"@)
    ||| contains(lower, "class "@)
    ||| contains(lower, "struct "@)
    ||| contains(lower, "impl "@)
    ||| contains(lower, "def "@)
    ||| contains(lower, "int "@)
    ||| contains(lower, "void "@)
}

/// Both texts are code of ten lines or more, both define three functions
/// or more, and under a fifth of the old functions are kept.
pub open spec fn entire_file_replaced(o: Seq<char>, n: Seq<char>) -> bool {
    let fo = function_signatures(o);
    let fnew = function_signatures(n);
    &&& lines(o).len() >= 10
    &&& lines(n).len() >= 10
    &&& has_code(lowercase(o))
    &&& has_code(lowercase(n))
    &&& fo.len() >= 3
    &&& fnew.len() >= 3
    &&& 5 * retained(fo, fnew) < fo.len()
}

/// More than half the old functions are gone.
pub open spec fn function_deleted(o: Seq<char>, n: Seq<char>) -> bool {
    let fo = function_signatures(o);
    fo.len() > 0 && 2 * (fo.len() - retained(fo, function_signatures(n))) > fo.len()
}

/// All imports gone, or more than seven tenths of them.
pub open spec fn import_wiped(o: Seq<char>, n: Seq<char>) -> bool {
    let io = imports_of(o);
    let inew = imports_of(n);
    io.len() > 0 && (inew.len() == 0 || 10 * (io.len() - retained(io, inew)) > 7 * io.len())
}

/// All of two or more namespaces gone, or more than eight tenths of them.
pub open spec fn namespace_wiped(o: Seq<char>, n: Seq<char>) -> bool {
    let no = namespaces_of(o);
    let nnew = namespaces_of(n);
    no.len() > 0 && ((nnew.len() == 0 && no.len() >= 2) || 10 * (no.len() - retained(no, nnew)) > 8 * no.len())
}

/// All types gone, or more than seven tenths of them.
pub open spec fn interface_collapsed(o: Seq<char>, n: Seq<char>) -> bool {
    let so = structs_of(o);
    let snew = structs_of(n);
    so.len() > 0 && (snew.len() == 0 || 10 * (so.len() - retained(so, snew)) > 7 * so.len())
}

/// Of three components or more, none left, or more than six tenths gone.
pub open spec fn components_deleted(o: Seq<char>, n: Seq<char>) -> bool {
    let co = components_of(o);
    let cn = components_of(n);
    co >= 3 && if cn == 0 { co >= 2 } else { 10 * (co - cn) > 6 * co }
}

/// The lines that differ among the first `k` of two texts.
pub open spec fn changed_lines(a: Seq<Seq<char>>, b: Seq<Seq<char>>, k: int) -> nat
    decreases k,
{
    if k <= 0 {
        0
    } else {
        changed_lines(a, b, k - 1) + if a[k - 1] != b[k - 1] { 1nat } else { 0nat }
    }
}

proof fn lemma_changed_le(a: Seq<Seq<char>>, b: Seq<Seq<char>>, k: int)
    ensures
        changed_lines(a, b, k) <= if k > 0 { k } else { 0 },
    decreases k,
{
    if k > 0 {
        lemma_changed_le(a, b, k - 1);
    }
}

/// The share of lines changed, as a fraction: the lines that differ
/// position by position plus the lines one text has beyond the other, over
/// the longer text's lines; none for texts under five lines, all where one
/// text is empty and the other is not.
pub open spec fn mutation(o: Seq<char>, n: Seq<char>) -> (nat, nat) {
    let a = lines(o);
    let b = lines(n);
    if a.len() == 0 {
        if b.len() == 0 { (0, 1) } else { (1, 1) }
    } else if b.len() == 0 {
        (1, 1)
    } else {
        let m = if a.len() > b.len() { a.len() } else { b.len() };
        let c = if a.len() < b.len() { a.len() } else { b.len() };
        if m < 5 {
            (0, 1)
        } else {
            ((changed_lines(a, b, c as int) + (m - c)) as nat, m)
        }
    }
}

/// The findings on an edit, in order.
pub open spec fn findings(o: Seq<char>, n: Seq<char>) -> Seq<RewriteFinding> {
    let (ch, tot) = mutation(o, n);
    (if entire_file_replaced(o, n) { seq![RewriteFinding::EntireFileReplaced] } else { seq![] })
        + (if function_deleted(o, n) { seq![RewriteFinding::FunctionDeleted] } else { seq![] })
        + (if import_wiped(o, n) { seq![RewriteFinding::ImportWipe] } else { seq![] })
        + (if namespace_wiped(o, n) { seq![RewriteFinding::NamespaceWipe] } else { seq![] })
        + (if interface_collapsed(o, n) { seq![RewriteFinding::InterfaceCollapse] } else { seq![] })
        + (if components_deleted(o, n) { seq![RewriteFinding::ComponentDeletion] } else { seq![] })
        + (if 10 * ch > 7 * tot {
            seq![RewriteFinding::HighMutationRatio { changed: ch as usize, total: tot as usize }]
        } else {
            seq![]
        })
}

/// What the detection needs: the import patterns compile, the component
/// counts stay below `usize::MAX`, and an edit that keeps components keeps no more than it had.
pub open spec fn detectable(o: Seq<char>, n: Seq<char>) -> bool {
    &&& imports_compile()
    &&& components_of(o) < usize::MAX
    &&& components_of(n) < usize::MAX
    &&& !(components_of(o) >= 3 && components_of(n) != 0 && components_of(n) > components_of(o))
}

fn retained_count(a: &Vec<String>, b: &Vec<String>) -> (n: usize)
    ensures
        n == retained(a.deep_view(), b.deep_view()),
{
    let ghost av = a.deep_view();
    let ghost bv = b.deep_view();
    let mut n: usize = 0;
    let mut i: usize = 0;
    while i < a.len()
        invariant
            av == a.deep_view(),
            bv == b.deep_view(),
            i <= av.len(),
            av.len() == a@.len(),
            n == retained(av.take(i as int), bv),
            n <= i,
        decreases a.len() - i,
    {
        assert(av.take(i + 1).drop_last() =~= av.take(i as int));
        assert(av.take(i + 1).last() == a@[i as int]@);
        let mut found = false;
        let mut k: usize = 0;
        while k < b.len()
            invariant
                bv == b.deep_view(),
                i < a@.len(),
                k <= bv.len(),
                found == exists|j: int| 0 <= j < k && #[trigger] bv[j] == a@[i as int]@,
            decreases b.len() - k,
        {
            assert(bv[k as int] == b@[k as int]@);
            if str_eq(b[k].as_str(), a[i].as_str()) {
                found = true;
            }
            k += 1;
        }
        if found {
            n += 1;
        }
        i += 1;
    }
    assert(av.take(av.len() as int) =~= av);
    n
}

fn code_like(t: &str) -> (b: bool)
    ensures
        b == has_code(lowercase(t@)),
{
    let l = to_lower(t);
    let s = l.as_str();
    str_contains(s, "fn ") || str_contains(s, "pub fn") || str_contains(s, "class ") || str_contains(s, "struct ")
        || str_contains(s, "impl ") || str_contains(s, "def ") || str_contains(s, "int ") || str_contains(s, "void ")
}

fn mutation_exec(o: &str, n: &str) -> (r: (usize, usize))
    ensures
        (r.0 as nat, r.1 as nat) == mutation(o@, n@),
{
    let ov = chars_of(o);
    let nv = chars_of(n);
    let a = lines_of(&ov);
    let b = lines_of(&nv);
    let ghost av = a.deep_view();
    let ghost bv = b.deep_view();
    if a.len() == 0 {
        return if b.len() == 0 { (0, 1) } else { (1, 1) };
    }
    if b.len() == 0 {
        return (1, 1);
    }
    let m = if a.len() > b.len() { a.len() } else { b.len() };
    let c = if a.len() < b.len() { a.len() } else { b.len() };
    if m < 5 {
        return (0, 1);
    }
    let mut changed: usize = 0;
    let mut i: usize = 0;
    while i < c
        invariant
            av == a.deep_view(),
            bv == b.deep_view(),
            c <= av.len(),
            c <= bv.len(),
            i <= c,
            changed == changed_lines(av, bv, i as int),
            changed <= i,
        decreases c - i,
    {
        proof {
            crate::text::lemma_chars_deep_view(a@[i as int]);
            crate::text::lemma_chars_deep_view(b@[i as int]);
        }
        if !crate::text::chars_eq(&a[i], &b[i]) {
            changed += 1;
        }
        i += 1;
    }
    (changed + (m - c), m)
}








/// One finding, where it holds.
pub open spec fn one_if(b: bool, f: RewriteFinding) -> Seq<RewriteFinding> {
    if b { seq![f] } else { seq![] }
}

fn push_if(v: &mut Vec<RewriteFinding>, b: bool, f: RewriteFinding)
    ensures
        final(v)@ == old(v)@ + one_if(b, f),
{
    if b {
        v.push(f);
    } else {
        assert(v@ + one_if(b, f) =~= v@);
    }
}

proof fn lemma_findings(o: Seq<char>, n: Seq<char>)
    ensures
        findings(o, n) == one_if(entire_file_replaced(o, n), RewriteFinding::EntireFileReplaced)
            + one_if(function_deleted(o, n), RewriteFinding::FunctionDeleted)
            + one_if(import_wiped(o, n), RewriteFinding::ImportWipe)
            + one_if(namespace_wiped(o, n), RewriteFinding::NamespaceWipe)
            + one_if(interface_collapsed(o, n), RewriteFinding::InterfaceCollapse)
            + one_if(components_deleted(o, n), RewriteFinding::ComponentDeletion)
            + one_if(10 * mutation(o, n).0 > 7 * mutation(o, n).1, RewriteFinding::HighMutationRatio {
                changed: mutation(o, n).0 as usize,
                total: mutation(o, n).1 as usize,
            }),
{
}



proof fn lemma_retained_self(a: Seq<Seq<char>>, b: Seq<Seq<char>>)
    requires
        forall|k: int| 0 <= k < a.len() ==> b.contains(#[trigger] a[k]),
    ensures
        retained(a, b) == a.len(),
    decreases a.len(),
{
    if a.len() > 0 {
        assert forall|k: int| 0 <= k < a.drop_last().len() implies b.contains(#[trigger] a.drop_last()[k]) by {
            assert(a.drop_last()[k] == a[k]);
        }
        lemma_retained_self(a.drop_last(), b);
        assert(b.contains(a[a.len() - 1]));
    }
}

proof fn lemma_changed_self(a: Seq<Seq<char>>, k: int)
    ensures
        changed_lines(a, a, k) == 0,
    decreases k,
{
    if k > 0 {
        lemma_changed_self(a, k - 1);
    }
}

/// An edit that leaves a text as it was is no rewrite.
pub proof fn lemma_unchanged_is_no_rewrite(t: Seq<char>)
    requires
        detectable(t, t),
    ensures
        findings(t, t).len() == 0,
{
    let f = function_signatures(t);
    let i = imports_of(t);
    let ns = namespaces_of(t);
    let st = structs_of(t);
    assert forall|k: int| 0 <= k < f.len() implies f.contains(#[trigger] f[k]) by {}
    assert forall|k: int| 0 <= k < i.len() implies i.contains(#[trigger] i[k]) by {}
    assert forall|k: int| 0 <= k < ns.len() implies ns.contains(#[trigger] ns[k]) by {}
    assert forall|k: int| 0 <= k < st.len() implies st.contains(#[trigger] st[k]) by {}
    lemma_retained_self(f, f);
    lemma_retained_self(i, i);
    lemma_retained_self(ns, ns);
    lemma_retained_self(st, st);
    lemma_changed_self(lines(t), lines(t).len() as int);
    lemma_findings(t, t);
}

/// The items of `a` that `b` does not hold.
pub open spec fn missing(a: Seq<Seq<char>>, b: Seq<Seq<char>>) -> Seq<Seq<char>> {
    a.filter(|x: Seq<char>| !b.contains(x))
}

proof fn lemma_retained_missing(a: Seq<Seq<char>>, b: Seq<Seq<char>>)
    ensures
        retained(a, b) + missing(a, b).len() == a.len(),
        b.len() == 0 ==> retained(a, b) == 0,
    decreases a.len(),
{
    if a.len() > 0 {
        lemma_retained_missing(a.drop_last(), b);
        let p = |x: Seq<char>| !b.contains(x);
        reveal(Seq::filter);
        assert(missing(a, b) == a.filter(p));
        assert(missing(a.drop_last(), b) == a.drop_last().filter(p));
        assert(a.filter(p) == if p(a.last()) {
            a.drop_last().filter(p).push(a.last())
        } else {
            a.drop_last().filter(p)
        });
        if b.len() == 0 {
            assert(!b.contains(a.last()));
        }
    }
}

proof fn lemma_one_if_other(b: bool, f: RewriteFinding, g: RewriteFinding)
    requires
        f != g,
    ensures
        !one_if(b, f).contains(g),
{
    if b {
        assert(one_if(b, f) =~= seq![f]);
        assert forall|k: int| 0 <= k < one_if(b, f).len() implies one_if(b, f)[k] != g by {}
    }
}

proof fn lemma_contains_middle(a: Seq<RewriteFinding>, b: bool, z: Seq<RewriteFinding>, g: RewriteFinding)
    requires
        !a.contains(g),
        !z.contains(g),
    ensures
        (a + one_if(b, g) + z).contains(g) <==> b,
{
    let w = one_if(b, g);
    let s = a + w + z;
    if b {
        assert(s[a.len() as int] == g);
    } else {
        assert(w.len() == 0);
        assert forall|k: int| 0 <= k < s.len() implies s[k] != g by {
            if k < a.len() {
                assert(s[k] == a[k]);
            } else {
                assert(s[k] == z[k - a.len()]);
            }
        }
    }
}

proof fn lemma_not_in_concat(a: Seq<RewriteFinding>, b: Seq<RewriteFinding>, g: RewriteFinding)
    requires
        !a.contains(g),
        !b.contains(g),
    ensures
        !(a + b).contains(g),
{
    assert forall|k: int| 0 <= k < (a + b).len() implies (a + b)[k] != g by {
        if k < a.len() {
            assert((a + b)[k] == a[k]);
        } else {
            assert((a + b)[k] == b[k - a.len()]);
        }
    }
}

proof fn lemma_wipe_by_missing(o: Seq<char>, n: Seq<char>)
    ensures
        namespace_wiped(o, n) <==> (namespaces_of(o).len() > 0 && 10 * missing(namespaces_of(o), namespaces_of(n)).len() > 8
            * namespaces_of(o).len()),
{
    lemma_retained_missing(namespaces_of(o), namespaces_of(n));
}

/// The old namespaces count as wiped exactly when the old text declares
/// some and more than eight tenths of them are absent from the new text's
/// namespaces, whatever other namespaces the new text declares; the
/// detection then reports `NamespaceWipe`, and otherwise does not.
pub proof fn lemma_namespace_wipe_reported(o: Seq<char>, n: Seq<char>)
    ensures
        findings(o, n).contains(RewriteFinding::NamespaceWipe) <==> (namespaces_of(o).len() > 0 && 10
            * missing(namespaces_of(o), namespaces_of(n)).len() > 8 * namespaces_of(o).len()),
{
    lemma_wipe_by_missing(o, n);
    lemma_findings(o, n);
    let g = RewriteFinding::NamespaceWipe;
    let m = mutation(o, n);
    let h = RewriteFinding::HighMutationRatio { changed: m.0 as usize, total: m.1 as usize };
    let a1 = one_if(entire_file_replaced(o, n), RewriteFinding::EntireFileReplaced);
    let a2 = one_if(function_deleted(o, n), RewriteFinding::FunctionDeleted);
    let a3 = one_if(import_wiped(o, n), RewriteFinding::ImportWipe);
    let z1 = one_if(interface_collapsed(o, n), RewriteFinding::InterfaceCollapse);
    let z2 = one_if(components_deleted(o, n), RewriteFinding::ComponentDeletion);
    let z3 = one_if(10 * m.0 > 7 * m.1, h);
    lemma_one_if_other(entire_file_replaced(o, n), RewriteFinding::EntireFileReplaced, g);
    lemma_one_if_other(function_deleted(o, n), RewriteFinding::FunctionDeleted, g);
    lemma_one_if_other(import_wiped(o, n), RewriteFinding::ImportWipe, g);
    lemma_one_if_other(interface_collapsed(o, n), RewriteFinding::InterfaceCollapse, g);
    lemma_one_if_other(components_deleted(o, n), RewriteFinding::ComponentDeletion, g);
    lemma_one_if_other(10 * m.0 > 7 * m.1, h, g);
    lemma_not_in_concat(a1, a2, g);
    lemma_not_in_concat(a1 + a2, a3, g);
    lemma_not_in_concat(z1, z2, g);
    lemma_not_in_concat(z1 + z2, z3, g);
    lemma_contains_middle(a1 + a2 + a3, namespace_wiped(o, n), z1 + z2 + z3, g);
    assert(findings(o, n) =~= a1 + a2 + a3 + one_if(namespace_wiped(o, n), g) + (z1 + z2 + z3));
}

/// Tells a rewrite from an edit.
pub struct RewriteDetector;

impl RewriteDetector {
    /// The function signatures a text defines.
    pub fn extract_function_signatures(content: &str) -> (r: Vec<String>)
        ensures
            r.deep_view() == function_signatures(content@),
    {
        let ps = function_patterns_exec();
        collect(&ps, content, false)
    }

    /// The imports a text makes.
    pub fn extract_imports(content: &str) -> (r: Vec<String>)
        ensures
            r.deep_view() == imports_of(content@),
    {
        let ps = import_patterns_exec();
        collect(&ps, content, false)
    }

    /// The namespaces a text declares.
    pub fn extract_namespaces(content: &str) -> (r: Vec<String>)
        ensures
            r.deep_view() == namespaces_of(content@),
    {
        let ps: [&'static str; 3] = ["(?m)^namespace \\w+", "(?m)^module \\w+", "(?m)^package [\\w.]+"];
        assert(ps@.map_values(|p: &str| p@) =~= namespace_patterns());
        collect(&ps, content, true)
    }

    /// The types a text declares.
    pub fn extract_structs(content: &str) -> (r: Vec<String>)
        ensures
            r.deep_view() == structs_of(content@),
    {
        let ps: [&'static str; 3] = ["(?m)^struct \\w+", "(?m)^class \\w+", "(?m)^enum \\w+"];
        assert(ps@.map_values(|p: &str| p@) =~= struct_patterns());
        collect(&ps, content, true)
    }

    /// Whether every import pattern compiles.
    pub fn import_patterns_compile() -> (b: bool)
        ensures
            b == imports_compile(),
    {
        let ps = import_patterns_exec();
        let mut i: usize = 0;
        while i < 5
            invariant
                ps@.map_values(|p: &str| p@) == import_patterns(),
                i <= 5,
                forall|k: int| 0 <= k < i ==> #[trigger] regex_compile(import_patterns()[k]) is Ok,
            decreases 5 - i,
        {
            assert(import_patterns()[i as int] == ps@[i as int]@);
            match compile(ps[i]) {
                Ok(_) => {},
                Err(_) => {
                    return false;
                },
            }
            i += 1;
        }
        true
    }

    /// How many components a text declares (at most `usize::MAX`).
    pub fn extract_components(content: &str) -> (n: usize)
        ensures
            n == if components_of(content@) <= usize::MAX { components_of(content@) } else { usize::MAX as int },
    {
        let s = Self::extract_structs(content);
        let f = Self::extract_function_signatures(content);
        let i = Self::extract_imports(content);
        s.len().saturating_add(f.len() / 2).saturating_add(i.len())
    }

    /// Whether the whole file was replaced (see `entire_file_replaced`).
    pub fn is_entire_file_replaced(o: &str, n: &str) -> (b: bool)
        ensures
            b == entire_file_replaced(o@, n@),
    {
        let ol = lines_of(&chars_of(o));
        let nl = lines_of(&chars_of(n));
        if ol.len() < 10 || nl.len() < 10 {
            return false;
        }
        if !code_like(o) || !code_like(n) {
            return false;
        }
        let fo = Self::extract_function_signatures(o);
        let fnew = Self::extract_function_signatures(n);
        if fo.len() >= 3 && fnew.len() >= 3 {
            let kept = retained_count(&fo, &fnew);
            proof {
                lemma_retained_le(fo.deep_view(), fnew.deep_view());
            }
            return (kept as u128) * 5 < fo.len() as u128;
        }
        false
    }

    /// Whether most old functions are gone (see `function_deleted`).
    pub fn has_function_deletion(o: &str, n: &str) -> (b: bool)
        ensures
            b == function_deleted(o@, n@),
    {
        let fo = Self::extract_function_signatures(o);
        let fnew = Self::extract_function_signatures(n);
        if fo.len() == 0 {
            return false;
        }
        let kept = retained_count(&fo, &fnew);
        proof {
            lemma_retained_le(fo.deep_view(), fnew.deep_view());
        }
        ((fo.len() - kept) as u128) * 2 > fo.len() as u128
    }

    /// Whether the imports were wiped (see `import_wiped`).
    pub fn has_import_wipe(o: &str, n: &str) -> (b: bool)
        ensures
            b == import_wiped(o@, n@),
    {
        let io = Self::extract_imports(o);
        let inew = Self::extract_imports(n);
        if io.len() == 0 {
            return false;
        }
        if inew.len() == 0 {
            return true;
        }
        let kept = retained_count(&io, &inew);
        proof {
            lemma_retained_le(io.deep_view(), inew.deep_view());
        }
        ((io.len() - kept) as u128) * 10 > (io.len() as u128) * 7
    }

    /// Whether the namespaces were wiped (see `namespace_wiped`).
    pub fn has_namespace_wipe(o: &str, n: &str) -> (b: bool)
        ensures
            b == namespace_wiped(o@, n@),
    {
        let no = Self::extract_namespaces(o);
        let nnew = Self::extract_namespaces(n);
        if no.len() == 0 {
            return false;
        }
        if nnew.len() == 0 && no.len() >= 2 {
            return true;
        }
        let kept = retained_count(&no, &nnew);
        proof {
            lemma_retained_le(no.deep_view(), nnew.deep_view());
        }
        ((no.len() - kept) as u128) * 10 > (no.len() as u128) * 8
    }

    /// Whether the types collapsed (see `interface_collapsed`).
    pub fn has_interface_collapse(o: &str, n: &str) -> (b: bool)
        ensures
            b == interface_collapsed(o@, n@),
    {
        let so = Self::extract_structs(o);
        let snew = Self::extract_structs(n);
        if so.len() == 0 {
            return false;
        }
        if snew.len() == 0 {
            return true;
        }
        let kept = retained_count(&so, &snew);
        proof {
            lemma_retained_le(so.deep_view(), snew.deep_view());
        }
        ((so.len() - kept) as u128) * 10 > (so.len() as u128) * 7
    }

    /// Whether the components were deleted (see `components_deleted`).
    pub fn has_component_deletion(o: &str, n: &str) -> (b: bool)
        requires
            components_of(o@) < usize::MAX,
            components_of(n@) < usize::MAX,
            !(components_of(o@) >= 3 && components_of(n@) != 0 && components_of(n@) > components_of(o@)),
        ensures
            b == components_deleted(o@, n@),
    {
        let co = Self::extract_components(o);
        let cn = Self::extract_components(n);
        if co < 3 {
            return false;
        }
        if cn == 0 {
            return co >= 2;
        }
        ((co - cn) as u128) * 10 > (co as u128) * 6
    }

    /// The share of lines changed, as changed lines over a line count (see `mutation`).
    pub fn calculate_mutation_ratio(o: &str, n: &str) -> (r: (usize, usize))
        ensures
            (r.0 as nat, r.1 as nat) == mutation(o@, n@),
            r.0 <= r.1,
            r.1 > 0,
    {
        let r = mutation_exec(o, n);
        proof {
            let a = lines(o@);
            let b = lines(n@);
            if a.len() > 0 && b.len() > 0 {
                let c = if a.len() < b.len() { a.len() } else { b.len() };
                lemma_changed_le(a, b, c as int);
            }
        }
        r
    }

    /// The rewrite findings on an edit from `old_content` to `new_content`.
    pub fn detect(old_content: &str, new_content: &str) -> (r: RewriteAnalysis)
        requires
            detectable(old_content@, new_content@),
        ensures
            r.violations@ == findings(old_content@, new_content@),
            r.is_rewrite == (r.violations@.len() > 0),
    {
        let o = old_content;
        let n = new_content;
        let b1 = Self::is_entire_file_replaced(o, n);
        let b2 = Self::has_function_deletion(o, n);
        let b3 = Self::has_import_wipe(o, n);
        let b4 = Self::has_namespace_wipe(o, n);
        let b5 = Self::has_interface_collapse(o, n);
        let b6 = Self::has_component_deletion(o, n);
        let (ch, tot) = Self::calculate_mutation_ratio(o, n);
        let b7 = (ch as u128) * 10 > (tot as u128) * 7;
        let mut v: Vec<RewriteFinding> = Vec::new();
        push_if(&mut v, b1, RewriteFinding::EntireFileReplaced);
        push_if(&mut v, b2, RewriteFinding::FunctionDeleted);
        push_if(&mut v, b3, RewriteFinding::ImportWipe);
        push_if(&mut v, b4, RewriteFinding::NamespaceWipe);
        push_if(&mut v, b5, RewriteFinding::InterfaceCollapse);
        push_if(&mut v, b6, RewriteFinding::ComponentDeletion);
        push_if(&mut v, b7, RewriteFinding::HighMutationRatio { changed: ch, total: tot });
        proof {
            lemma_findings(o@, n@);
            assert(v@ =~= findings(o@, n@));
        }
        let is_rewrite = v.len() > 0;
        RewriteAnalysis { is_rewrite, violations: v }
    }

    /// The detection where it can be made: `None` where an import pattern does
    /// not compile, a component count does not fit, or the new text declares
    /// more components than an old text of three or more.
    pub fn detect_checked(old_content: &str, new_content: &str) -> (r: Option<RewriteAnalysis>)
        ensures
            r is Some <==> detectable(old_content@, new_content@),
            r matches Some(a) ==> a.violations@ == findings(old_content@, new_content@) && a.is_rewrite == (a.violations@.len() > 0),
    {
        if !Self::import_patterns_compile() {
            return None;
        }
        let co = Self::extract_components(old_content);
        let cn = Self::extract_components(new_content);
        if co == usize::MAX || cn == usize::MAX {
            return None;
        }
        if co >= 3 && cn != 0 && cn > co {
            return None;
        }
        Some(Self::detect(old_content, new_content))
    }
}

} // verus!
