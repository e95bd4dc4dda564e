//! Tolerant extraction of a project specification from free text.
//!
//! The text is searched, ignoring the case of ASCII letters, for (in order
//! of priority) an explicit AXON spec block, a JSON document with
//! components, a Markdown architecture section that names files or
//! components, or a looser spec-like passage. Positions are character
//! positions of the text; where a length is counted in bytes (the length
//! bound of a Markdown section, the size of a text) it is the UTF-8 width.
use vstd::prelude::*;
use crate::text::{
    ascii_lowercase, ascii_lowercase_chars, chars_of, contains, contains_chars, count_matches,
    count_matches_chars, extend_chars, find, find_chars, last_index, last_index_of, lemma_find,
    lemma_nested_deep_view, lines, lines_of, occurs_at, push_piece, slice_chars, starts_with,
    starts_with_chars, string_of, trim, trim_chars, trim_set, trim_set_chars, utf8_width,
    width_of,
};

verus! {

/// How a specification was recognised.
#[derive(Debug, Clone, Copy, PartialEq, Eq, Structural)]
pub enum SpecKind {
    /// An explicit AXON spec block (`<!-- AXON:SPEC:COMPONENTS -->`).
    AxonSpec,
    /// A Markdown architecture section (`# Architecture`, `## Components`).
    MarkdownSpec,
    /// A loose `spec:`-style passage.
    GenericSpec,
    /// A JSON document with `"components"`.
    JsonStructured,
    /// Nothing recognisable.
    Unknown,
}

impl SpecKind {
    /// The confidence attached to a spec of this kind, in hundredths.
    pub open spec fn confidence_spec(self) -> u32 {
        match self {
            SpecKind::AxonSpec => 100,
            SpecKind::JsonStructured => 95,
            SpecKind::MarkdownSpec => 80,
            SpecKind::GenericSpec => 60,
            SpecKind::Unknown => 0,
        }
    }

    /// The confidence attached to a spec of this kind, in hundredths
    /// (1.0 is 100).
    pub fn confidence(&self) -> (r: u32)
        ensures
            r == self.confidence_spec(),
    {
        match self {
            SpecKind::AxonSpec => 100,
            SpecKind::JsonStructured => 95,
            SpecKind::MarkdownSpec => 80,
            SpecKind::GenericSpec => 60,
            SpecKind::Unknown => 0,
        }
    }
}

/// A specification found in a text: its kind, the extracted passage, the
/// confidence in hundredths and the number of line breaks before it.
pub struct ExtractedSpec {
    pub kind: SpecKind,
    pub content: String,
    pub confidence: u32,
    pub line_offset: usize,
}

/// What an extraction yields, in spec terms.
pub type Found = (SpecKind, Seq<char>, u32, int);

impl View for ExtractedSpec {
    type V = Found;

    open spec fn view(&self) -> Found {
        (self.kind, self.content@, self.confidence, self.line_offset as int)
    }
}

impl ExtractedSpec {
    /// A spec is usable when its confidence is at least one half and it is
    /// not empty.
    pub fn is_valid(&self) -> (b: bool)
        ensures
            b == (self.confidence >= 50 && self.content@.len() > 0),
    {
        self.confidence >= 50 && !self.content.as_str().is_empty()
    }
}

/// The extractor (stateless).
pub struct SpecExtractor;

// ---------------------------------------------------------------------------
// The model
// ---------------------------------------------------------------------------

/// At most the first `n` characters of `s`.
pub open spec fn first_chars(s: Seq<char>, n: int) -> Seq<char> {
    if 0 <= n < s.len() {
        s.take(n)
    } else {
        s
    }
}

/// Number of line breaks before position `i`.
pub open spec fn nl_before(t: Seq<char>, i: int) -> int {
    count_matches(t.take(i), seq!['\n']) as int
}

/// The first pattern, from the `i`-th on, that occurs in `n`: its index
/// and the position of its first occurrence.
pub open spec fn first_hit(n: Seq<char>, ps: Seq<Seq<char>>, i: int) -> Option<(int, int)>
    decreases ps.len() - i,
{
    if i < 0 || i >= ps.len() {
        None
    } else {
        match find(n, ps[i]) {
            Some(s) => Some((i, s)),
            None => first_hit(n, ps, i + 1),
        }
    }
}

/// Markers of an explicit spec block, by priority.
pub open spec fn axon_patterns() -> Seq<Seq<char>> {
    seq![
        "<axon_spec>"@,
        "<axon-spec>"@,
        "<!-- axonspec"@,
        "<!-- axon:spec"@,
        "```spec"@,
        "```axonspec"@,
        "axon:spec"@,
    ]
}

/// The closing tag of a sentinel tag: `<axon_spec>` is closed by
/// `</axon_spec>`.
pub open spec fn end_tag(p: Seq<char>) -> Seq<char> {
    "</"@ + trim_set(p, "<>"@) + ">"@
}

/// The spec block opened by marker `p` found at position `s` of the
/// lowercased text `n`: the inside of a sentinel tag pair, a whole
/// `<!-- ... -->` comment, or a whole fenced block; failing those, the
/// first 2000 characters from the marker with a lower confidence.
pub open spec fn axon_at(t: Seq<char>, n: Seq<char>, p: Seq<char>, s: int) -> Found {
    let off = nl_before(t, s);
    if starts_with(p, "<axon"@) && find(n.skip(s), end_tag(p)) is Some {
        let e = find(n.skip(s), end_tag(p))->0;
        (SpecKind::AxonSpec, trim(t.subrange(s + p.len(), s + e)), 100, off)
    } else if starts_with(p, "<!--"@) && find(t.skip(s), "-->"@) is Some {
        let e = find(t.skip(s), "-->"@)->0;
        (SpecKind::AxonSpec, trim(t.subrange(s, s + e + 3)), 100, off)
    } else if starts_with(p, "```"@) && find(t.skip(s + 3), "```"@) is Some {
        let e = find(t.skip(s + 3), "```"@)->0;
        (SpecKind::AxonSpec, trim(t.subrange(s, s + e + 6)), 100, off)
    } else {
        (SpecKind::AxonSpec, first_chars(t.skip(s), 2000), 70, off)
    }
}

/// The first stage: an explicit spec block.
pub open spec fn axon_stage(t: Seq<char>, n: Seq<char>) -> Option<Found> {
    match first_hit(n, axon_patterns(), 0) {
        Some((k, s)) => Some(axon_at(t, n, axon_patterns()[k], s)),
        None => None,
    }
}

/// Where the JSON passage ends: after the last `}`, or at the end.
pub open spec fn json_end(t: Seq<char>) -> int {
    match last_index(t, '}') {
        Some(r) => r + 1,
        None => t.len() as int,
    }
}

/// The second stage: from the first `{` to the last `}` of a text that
/// mentions `"components"`, when that passage mentions `"components"` or
/// `"path"`.
pub open spec fn json_stage(t: Seq<char>, n: Seq<char>) -> Option<Found> {
    if !contains(n, "\"components\""@) {
        None
    } else {
        match find(n, "{"@) {
            None => None,
            Some(s) => {
                let content = trim(t.subrange(s, json_end(t)));
                if contains(content, "\"components\""@) || contains(content, "\"path\""@) {
                    Some((SpecKind::JsonStructured, content, 95, nl_before(t, s)))
                } else {
                    None
                }
            },
        }
    }
}

/// The JSON passage would start after it ends: the first `{` comes after
/// the character that follows the last `}`.
pub open spec fn json_slice_fails(t: Seq<char>, n: Seq<char>) -> bool {
    &&& contains(n, "\"components\""@)
    &&& find(n, "{"@) is Some
    &&& find(n, "{"@)->0 > json_end(t)
}

/// Markers of a Markdown architecture section, by priority.
pub open spec fn md_markers() -> Seq<Seq<char>> {
    seq![
        "# architecture"@,
        "## components"@,
        "## component"@,
        "# design"@,
        "## structure"@,
        "# 아키텍처"@,
        "## 구성요소"@,
        "## 컴포넌트"@,
        "## 데이터 흐름"@,
        "# 설계"@,
        "## file"@,
        "### file"@,
        "## modules"@,
        "## functions"@,
        "## 파일"@,
        "## 함수"@,
        "## 모듈"@,
        "# 프로젝트 개요"@,
        "## 개요"@,
        "# overview"@,
    ]
}

/// A first- or second-level Markdown heading.
pub open spec fn is_heading(l: Seq<char>) -> bool {
    starts_with(l, "# "@) || starts_with(l, "## "@)
}

/// The first heading among the lines from the `i`-th on.
pub open spec fn first_heading(ls: Seq<Seq<char>>, i: int) -> Option<int>
    decreases ls.len() - i,
{
    if i < 0 || i >= ls.len() {
        None
    } else if is_heading(ls[i]) {
        Some(i)
    } else {
        first_heading(ls, i + 1)
    }
}

/// The length bound of a section that starts at `s`: when a later line of
/// the section is a heading, the UTF-8 width of the text up to the first
/// occurrence of that line; otherwise the width of the section.
pub open spec fn md_end(t: Seq<char>, s: int) -> int {
    let r = t.skip(s);
    let ls = lines(r);
    match first_heading(ls, 1) {
        Some(k) => utf8_width(t.take(s)) + utf8_width(
            r.take(
                match find(r, ls[k]) {
                    Some(j) => j,
                    None => 0,
                },
            ),
        ),
        None => utf8_width(r),
    }
}

/// The passage of a section that starts at `s`: as many characters as the
/// smaller of its length bound and the width before it plus 3000.
pub open spec fn md_content(t: Seq<char>, s: int) -> Seq<char> {
    let lim = utf8_width(t.take(s)) + 3000;
    first_chars(t.skip(s), if md_end(t, s) < lim { md_end(t, s) } else { lim })
}

/// The passage speaks of files, paths, functions, modules or components,
/// or holds a list item.
pub open spec fn names_components(c: Seq<char>) -> bool {
    ||| contains(c, "file"@)
    ||| contains(c, "path"@)
    ||| contains(c, "파일"@)
    ||| contains(c, "함수"@)
    ||| contains(c, "function"@)
    ||| contains(c, "module"@)
    ||| contains(c, "모듈"@)
    ||| contains(c, "component"@)
    ||| contains(c, "- "@)
}

/// The third stage, from the `i`-th marker on: the first marker found whose
/// section names components.
pub open spec fn md_from(t: Seq<char>, n: Seq<char>, i: int) -> Option<Found>
    decreases md_markers().len() - i,
{
    if i < 0 || i >= md_markers().len() {
        None
    } else {
        match find(n, md_markers()[i]) {
            Some(s) => if names_components(md_content(t, s)) {
                Some((SpecKind::MarkdownSpec, md_content(t, s), 80, nl_before(t, s)))
            } else {
                md_from(t, n, i + 1)
            },
            None => md_from(t, n, i + 1),
        }
    }
}

/// Markers of a loose spec passage, by priority.
pub open spec fn generic_patterns() -> Seq<Seq<char>> {
    seq![
        "spec:"@,
        "specification:"@,
        "```spec"@,
        "```json"@,
        "spec block"@,
        "architecture:"@,
    ]
}

/// The fourth stage: the first 2000 characters from a loose marker.
pub open spec fn generic_stage(t: Seq<char>, n: Seq<char>) -> Option<Found> {
    match first_hit(n, generic_patterns(), 0) {
        Some((k, s)) => Some((SpecKind::GenericSpec, first_chars(t.skip(s), 2000), 60, nl_before(t, s))),
        None => None,
    }
}

/// The text has some structure: a list item, a `file:` or `path:` entry,
/// Korean words for function or file, or more than five line breaks and a
/// colon.
pub open spec fn looks_structured(t: Seq<char>) -> bool {
    ||| contains(t, "- "@)
    ||| contains(t, "file:"@)
    ||| contains(t, "path:"@)
    ||| contains(t, "함수"@)
    ||| contains(t, "파일"@)
    ||| (count_matches(t, seq!['\n']) > 5 && contains(t, ":"@))
}

/// The last resort: a text of more than 100 bytes with some structure is
/// taken whole (its first 5000 characters), with a low confidence.
pub open spec fn fallback_stage(t: Seq<char>) -> Option<Found> {
    if utf8_width(t) > 100 && looks_structured(t) {
        Some((SpecKind::GenericSpec, first_chars(t, 5000), 30, 0))
    } else {
        None
    }
}

/// What `SpecExtractor::extract` finds in a text: the first stage that
/// yields something.
pub open spec fn extracted(t: Seq<char>) -> Option<Found> {
    let n = ascii_lowercase(t);
    match axon_stage(t, n) {
        Some(f) => Some(f),
        None => match json_stage(t, n) {
            Some(f) => Some(f),
            None => match md_from(t, n, 0) {
                Some(f) => Some(f),
                None => match generic_stage(t, n) {
                    Some(f) => Some(f),
                    None => fallback_stage(t),
                },
            },
        },
    }
}

/// The extraction cannot take the JSON passage: there is no spec block and
/// the passage would start after its end.
pub open spec fn extract_panics(t: Seq<char>) -> bool {
    let n = ascii_lowercase(t);
    axon_stage(t, n) is None && json_slice_fails(t, n)
}

/// `first_hit` finds something exactly when some pattern from the `i`-th
/// on occurs.
proof fn lemma_first_hit(n: Seq<char>, ps: Seq<Seq<char>>, i: int)
    requires
        0 <= i,
    ensures
        first_hit(n, ps, i) is Some <==> exists|k: int| i <= k < ps.len() && contains(n, #[trigger] ps[k]),
    decreases ps.len() - i,
{
    if i < ps.len() {
        lemma_find(n, ps[i]);
        lemma_first_hit(n, ps, i + 1);
        if first_hit(n, ps, i + 1) is Some {
            let k = choose|k: int| i + 1 <= k < ps.len() && contains(n, #[trigger] ps[k]);
            assert(i <= k < ps.len() && contains(n, ps[k]));
        }
        if exists|k: int| i <= k < ps.len() && contains(n, #[trigger] ps[k]) {
            let k = choose|k: int| i <= k < ps.len() && contains(n, #[trigger] ps[k]);
            if k > i {
                assert(i + 1 <= k < ps.len() && contains(n, ps[k]));
            }
        }
    }
}

/// An explicit spec block has the highest priority: whenever one of its
/// markers occurs in the text (ignoring ASCII case), the extraction yields
/// an AXON spec, with full confidence or, for a marker whose block is not
/// closed, 0.7.
pub proof fn lemma_spec_block_wins(t: Seq<char>, k: int)
    requires
        0 <= k < axon_patterns().len(),
        contains(ascii_lowercase(t), axon_patterns()[k]),
    ensures
        extracted(t) matches Some(f) && f.0 == SpecKind::AxonSpec && (f.2 == 100 || f.2 == 70),
{
    let n = ascii_lowercase(t);
    lemma_first_hit(n, axon_patterns(), 0);
    assert(contains(n, axon_patterns()[k]));
}

// ---------------------------------------------------------------------------
// Executable parts
// ---------------------------------------------------------------------------

fn new_found(kind: SpecKind, content: &[char], confidence: u32, line_offset: usize) -> (f:
    ExtractedSpec)
    ensures
        f@ == (kind, content@, confidence, line_offset as int),
{
    ExtractedSpec { kind, content: string_of(content), confidence, line_offset }
}

fn first_chars_exec(s: &[char], n: usize) -> (v: Vec<char>)
    ensures
        v@ == first_chars(s@, n as int),
{
    if n < s.len() {
        slice_chars(s, 0, n)
    } else {
        slice_chars(s, 0, s.len())
    }
}

fn nl_before_exec(t: &[char], i: usize) -> (c: usize)
    requires
        i <= t.len(),
    ensures
        c as int == nl_before(t@, i as int),
{
    let pre = slice_chars(t, 0, i);
    let nl = vec!['\n'];
    assert(nl@ =~= seq!['\n']);
    assert(pre@ =~= t@.take(i as int));
    count_matches_chars(&pre, &nl)
}

fn axon_patterns_exec() -> (v: Vec<Vec<char>>)
    ensures
        v.deep_view() == axon_patterns(),
{
    let mut v: Vec<Vec<char>> = Vec::new();
    push_piece(&mut v, chars_of("<axon_spec>"));
    push_piece(&mut v, chars_of("<axon-spec>"));
    push_piece(&mut v, chars_of("<!-- axonspec"));
    push_piece(&mut v, chars_of("<!-- axon:spec"));
    push_piece(&mut v, chars_of("```spec"));
    push_piece(&mut v, chars_of("```axonspec"));
    push_piece(&mut v, chars_of("axon:spec"));
    assert(v.deep_view() =~= axon_patterns());
    v
}

fn generic_patterns_exec() -> (v: Vec<Vec<char>>)
    ensures
        v.deep_view() == generic_patterns(),
{
    let mut v: Vec<Vec<char>> = Vec::new();
    push_piece(&mut v, chars_of("spec:"));
    push_piece(&mut v, chars_of("specification:"));
    push_piece(&mut v, chars_of("```spec"));
    push_piece(&mut v, chars_of("```json"));
    push_piece(&mut v, chars_of("spec block"));
    push_piece(&mut v, chars_of("architecture:"));
    assert(v.deep_view() =~= generic_patterns());
    v
}

fn md_markers_exec() -> (v: Vec<Vec<char>>)
    ensures
        v.deep_view() == md_markers(),
{
    let mut v: Vec<Vec<char>> = Vec::new();
    push_piece(&mut v, chars_of("# architecture"));
    push_piece(&mut v, chars_of("## components"));
    push_piece(&mut v, chars_of("## component"));
    push_piece(&mut v, chars_of("# design"));
    push_piece(&mut v, chars_of("## structure"));
    push_piece(&mut v, chars_of("# 아키텍처"));
    push_piece(&mut v, chars_of("## 구성요소"));
    push_piece(&mut v, chars_of("## 컴포넌트"));
    push_piece(&mut v, chars_of("## 데이터 흐름"));
    push_piece(&mut v, chars_of("# 설계"));
    push_piece(&mut v, chars_of("## file"));
    push_piece(&mut v, chars_of("### file"));
    push_piece(&mut v, chars_of("## modules"));
    push_piece(&mut v, chars_of("## functions"));
    push_piece(&mut v, chars_of("## 파일"));
    push_piece(&mut v, chars_of("## 함수"));
    push_piece(&mut v, chars_of("## 모듈"));
    push_piece(&mut v, chars_of("# 프로젝트 개요"));
    push_piece(&mut v, chars_of("## 개요"));
    push_piece(&mut v, chars_of("# overview"));
    assert(v.deep_view() =~= md_markers());
    v
}

fn first_hit_exec(n: &[char], ps: &Vec<Vec<char>>) -> (r: Option<(usize, usize)>)
    ensures
        match r {
            Some((k, s)) => first_hit(n@, ps.deep_view(), 0) == Some((k as int, s as int)) && k
                < ps.len() && find(n@, ps.deep_view()[k as int]) == Some(s as int),
            None => first_hit(n@, ps.deep_view(), 0) is None,
        },
{
    proof {
        lemma_nested_deep_view(*ps);
    }
    let mut k: usize = 0;
    while k < ps.len()
        invariant
            k <= ps.len(),
            ps.deep_view() == ps@.map_values(|x: Vec<char>| x@),
            first_hit(n@, ps.deep_view(), 0) == first_hit(n@, ps.deep_view(), k as int),
        decreases ps.len() - k,
    {
        match find_chars(n, &ps[k]) {
            Some(s) => {
                return Some((k, s));
            },
            None => {},
        }
        k += 1;
    }
    None
}

/// The sentinel-tag markers hold no `<` after their first character, and
/// their second character is not `/`.
proof fn lemma_axon_tag_markers(k: int)
    requires
        0 <= k < axon_patterns().len(),
        starts_with(axon_patterns()[k], "<axon"@),
    ensures
        axon_patterns()[k].len() >= 2,
        axon_patterns()[k][1] != '/',
        forall|j: int| 1 <= j < axon_patterns()[k].len() ==> axon_patterns()[k][j] != '<',
{
    reveal_strlit("<axon");
    reveal_strlit("<axon_spec>");
    reveal_strlit("<axon-spec>");
    reveal_strlit("<!-- axonspec");
    reveal_strlit("<!-- axon:spec");
    reveal_strlit("```spec");
    reveal_strlit("```axonspec");
    reveal_strlit("axon:spec");
    let p = axon_patterns()[k];
    assert(p.subrange(0, 5) == "<axon"@);
    assert(p.subrange(0, 5)[1] == p[1]);
    assert(p[1] == 'a');
    assert(k == 0 || k == 1) by {
        if k == 2 || k == 3 {
            assert(p[1] == '!');
        } else if k == 4 || k == 5 {
            assert(p[0] == '`');
        } else if k == 6 {
            assert(p[0] == 'a');
        }
    }
}

/// A closing tag cannot start inside the opening tag it closes.
proof fn lemma_end_tag_after(n: Seq<char>, s: int, p: Seq<char>, e: int)
    requires
        occurs_at(n, s, p),
        p.len() >= 2,
        p[1] != '/',
        forall|j: int| 1 <= j < p.len() ==> p[j] != '<',
        occurs_at(n.skip(s), e, end_tag(p)),
    ensures
        e >= p.len(),
{
    reveal_strlit("</");
    let tag = end_tag(p);
    assert(tag[0] == '<');
    assert(tag[1] == '/');
    if e < p.len() {
        assert(n.skip(s).subrange(e, e + tag.len())[0] == tag[0]);
        assert(n[s + e] == '<');
        assert(n.subrange(s, s + p.len())[e] == p[e]);
        if e == 0 {
            assert(n.skip(s).subrange(e, e + tag.len())[1] == tag[1]);
            assert(n.subrange(s, s + p.len())[1] == p[1]);
        }
    }
}

fn axon_at_exec(t: &[char], n: &[char], k: usize, p: &[char], s: usize) -> (f: ExtractedSpec)
    requires
        n@.len() == t@.len(),
        k < axon_patterns().len(),
        p@ == axon_patterns()[k as int],
        find(n@, p@) == Some(s as int),
    ensures
        f@ == axon_at(t@, n@, p@, s as int),
{
    proof {
        lemma_find(n@, p@);
        reveal_strlit("-->");
        reveal_strlit("```");
    }
    let off = nl_before_exec(t, s);
    if starts_with_chars(p, &chars_of("<axon")) {
        let tag = trim_set_chars(p, &chars_of("<>"));
        let mut close = chars_of("</");
        extend_chars(&mut close, &tag);
        extend_chars(&mut close, &chars_of(">"));
        assert(close@ == end_tag(p@));
        let rest = slice_chars(n, s, n.len());
        assert(rest@ == n@.skip(s as int));
        proof {
            lemma_find(rest@, close@);
        }
        match find_chars(&rest, &close) {
            Some(e) => {
                proof {
                    lemma_axon_tag_markers(k as int);
                    lemma_end_tag_after(n@, s as int, p@, e as int);
                }
                let inner = slice_chars(t, s + p.len(), s + e);
                let c = trim_chars(&inner);
                return new_found(SpecKind::AxonSpec, &c, 100, off);
            },
            None => {},
        }
    }
    if starts_with_chars(p, &chars_of("<!--")) {
        let rest = slice_chars(t, s, t.len());
        assert(rest@ == t@.skip(s as int));
        let close = chars_of("-->");
        proof {
            lemma_find(rest@, close@);
        }
        match find_chars(&rest, &close) {
            Some(e) => {
                let whole = slice_chars(t, s, s + e + 3);
                let c = trim_chars(&whole);
                return new_found(SpecKind::AxonSpec, &c, 100, off);
            },
            None => {},
        }
    }
    let fence = chars_of("```");
    if starts_with_chars(p, &fence) {
        assert(p@.len() >= 3);
        assert(occurs_at(n@, s as int, p@));
        assert(s + 3 <= n@.len());
        assert(s + 3 <= t.len());
        let rest = slice_chars(t, s + 3, t.len());
        assert(rest@ == t@.skip(s + 3));
        proof {
            lemma_find(rest@, fence@);
        }
        match find_chars(&rest, &fence) {
            Some(e) => {
                let whole = slice_chars(t, s, s + e + 6);
                let c = trim_chars(&whole);
                return new_found(SpecKind::AxonSpec, &c, 100, off);
            },
            None => {},
        }
    }
    let rest = slice_chars(t, s, t.len());
    assert(rest@ == t@.skip(s as int));
    let c = first_chars_exec(&rest, 2000);
    new_found(SpecKind::AxonSpec, &c, 70, off)
}

fn axon_exec(t: &[char], n: &[char]) -> (r: Option<ExtractedSpec>)
    requires
        n@.len() == t@.len(),
    ensures
        match r {
            Some(f) => axon_stage(t@, n@) == Some(f@),
            None => axon_stage(t@, n@) is None,
        },
{
    let ps = axon_patterns_exec();
    proof {
        lemma_nested_deep_view(ps);
    }
    match first_hit_exec(n, &ps) {
        Some((k, s)) => Some(axon_at_exec(t, n, k, &ps[k], s)),
        None => None,
    }
}

fn json_exec(t: &[char], n: &[char]) -> (r: Option<ExtractedSpec>)
    requires
        n@.len() == t@.len(),
        !json_slice_fails(t@, n@),
    ensures
        match r {
            Some(f) => json_stage(t@, n@) == Some(f@),
            None => json_stage(t@, n@) is None,
        },
{
    if !contains_chars(n, &chars_of("\"components\"")) {
        return None;
    }
    let open = chars_of("{");
    proof {
        lemma_find(n@, open@);
        reveal_strlit("{");
    }
    let s = match find_chars(n, &open) {
        Some(s) => s,
        None => {
            return None;
        },
    };
    let end: usize = match last_index_of(t, '}') {
        Some(r) => {
            assert(r < t.len());
            r + 1
        },
        None => t.len(),
    };
    assert(end as int == json_end(t@));
    let whole = slice_chars(t, s, end);
    let c = trim_chars(&whole);
    if contains_chars(&c, &chars_of("\"components\"")) || contains_chars(&c, &chars_of("\"path\"")) {
        let off = nl_before_exec(t, s);
        Some(new_found(SpecKind::JsonStructured, &c, 95, off))
    } else {
        None
    }
}

fn is_heading_exec(l: &[char]) -> (b: bool)
    ensures
        b == is_heading(l@),
{
    starts_with_chars(l, &chars_of("# ")) || starts_with_chars(l, &chars_of("## "))
}

fn first_heading_exec(ls: &Vec<Vec<char>>) -> (r: Option<usize>)
    ensures
        match r {
            Some(k) => first_heading(ls.deep_view(), 1) == Some(k as int) && 1 <= k < ls.len(),
            None => first_heading(ls.deep_view(), 1) is None,
        },
{
    proof {
        lemma_nested_deep_view(*ls);
    }
    if ls.len() == 0 {
        return None;
    }
    let mut k: usize = 1;
    while k < ls.len()
        invariant
            1 <= k <= ls.len(),
            ls.deep_view() == ls@.map_values(|x: Vec<char>| x@),
            first_heading(ls.deep_view(), 1) == first_heading(ls.deep_view(), k as int),
        decreases ls.len() - k,
    {
        if is_heading_exec(&ls[k]) {
            return Some(k);
        }
        k += 1;
    }
    None
}

fn md_content_exec(t: &[char], s: usize) -> (c: Vec<char>)
    requires
        s <= t.len(),
    ensures
        c@ == md_content(t@, s as int),
{
    let r = slice_chars(t, s, t.len());
    assert(r@ == t@.skip(s as int));
    let pre = slice_chars(t, 0, s);
    assert(pre@ == t@.take(s as int));
    let wpre = width_of(&pre);
    let ls = lines_of(&r);
    proof {
        lemma_nested_deep_view(ls);
    }
    let end: u128 = match first_heading_exec(&ls) {
        Some(k) => {
            let j: usize = match find_chars(&r, &ls[k]) {
                Some(j) => {
                    proof {
                        lemma_find(r@, ls@[k as int]@);
                    }
                    j
                },
                None => 0,
            };
            let head = slice_chars(&r, 0, j);
            assert(head@ == r@.take(j as int));
            let wj = width_of(&head);
            wpre + wj
        },
        None => width_of(&r),
    };
    let lim: u128 = wpre + 3000;
    let m: u128 = if end < lim {
        end
    } else {
        lim
    };
    let cnt: usize = if m < r.len() as u128 {
        m as usize
    } else {
        r.len()
    };
    slice_chars(&r, 0, cnt)
}

fn names_components_exec(c: &[char]) -> (b: bool)
    ensures
        b == names_components(c@),
{
    contains_chars(c, &chars_of("file")) || contains_chars(c, &chars_of("path"))
        || contains_chars(c, &chars_of("파일")) || contains_chars(c, &chars_of("함수"))
        || contains_chars(c, &chars_of("function")) || contains_chars(c, &chars_of("module"))
        || contains_chars(c, &chars_of("모듈")) || contains_chars(c, &chars_of("component"))
        || contains_chars(c, &chars_of("- "))
}

fn md_exec(t: &[char], n: &[char]) -> (r: Option<ExtractedSpec>)
    requires
        n@.len() == t@.len(),
    ensures
        match r {
            Some(f) => md_from(t@, n@, 0) == Some(f@),
            None => md_from(t@, n@, 0) is None,
        },
{
    let ms = md_markers_exec();
    proof {
        lemma_nested_deep_view(ms);
    }
    let mut i: usize = 0;
    while i < ms.len()
        invariant
            i <= ms.len(),
            n@.len() == t@.len(),
            ms.deep_view() == md_markers(),
            ms.deep_view() == ms@.map_values(|x: Vec<char>| x@),
            md_from(t@, n@, 0) == md_from(t@, n@, i as int),
        decreases ms.len() - i,
    {
        proof {
            lemma_find(n@, ms@[i as int]@);
        }
        match find_chars(n, &ms[i]) {
            Some(s) => {
                let c = md_content_exec(t, s);
                if names_components_exec(&c) {
                    let off = nl_before_exec(t, s);
                    return Some(new_found(SpecKind::MarkdownSpec, &c, 80, off));
                }
            },
            None => {},
        }
        i += 1;
    }
    None
}

fn generic_exec(t: &[char], n: &[char]) -> (r: Option<ExtractedSpec>)
    requires
        n@.len() == t@.len(),
    ensures
        match r {
            Some(f) => generic_stage(t@, n@) == Some(f@),
            None => generic_stage(t@, n@) is None,
        },
{
    let ps = generic_patterns_exec();
    match first_hit_exec(n, &ps) {
        Some((k, s)) => {
            proof {
                lemma_find(n@, ps.deep_view()[k as int]);
            }
            let rest = slice_chars(t, s, t.len());
            assert(rest@ == t@.skip(s as int));
            let c = first_chars_exec(&rest, 2000);
            let off = nl_before_exec(t, s);
            Some(new_found(SpecKind::GenericSpec, &c, 60, off))
        },
        None => None,
    }
}

fn looks_structured_exec(t: &[char]) -> (b: bool)
    ensures
        b == looks_structured(t@),
{
    if contains_chars(t, &chars_of("- ")) || contains_chars(t, &chars_of("file:"))
        || contains_chars(t, &chars_of("path:")) || contains_chars(t, &chars_of("함수"))
        || contains_chars(t, &chars_of("파일")) {
        return true;
    }
    let nl = vec!['\n'];
    assert(nl@ =~= seq!['\n']);
    count_matches_chars(t, &nl) > 5 && contains_chars(t, &chars_of(":"))
}

fn fallback_exec(t: &[char]) -> (r: Option<ExtractedSpec>)
    ensures
        match r {
            Some(f) => fallback_stage(t@) == Some(f@),
            None => fallback_stage(t@) is None,
        },
{
    if width_of(t) > 100 && looks_structured_exec(t) {
        let c = first_chars_exec(t, 5000);
        Some(new_found(SpecKind::GenericSpec, &c, 30, 0))
    } else {
        None
    }
}

impl SpecExtractor {
    /// Finds a specification in free text: an explicit spec block first,
    /// then a JSON document with components, then a Markdown architecture
    /// section, then a loose spec passage, and at last the whole text when
    /// it is long enough and has some structure.
    pub fn extract(text: &str) -> (r: Option<ExtractedSpec>)
        requires
            !extract_panics(text@),
        ensures
            match r {
                Some(f) => extracted(text@) == Some(f@),
                None => extracted(text@) is None,
            },
    {
        let t = chars_of(text);
        let n = ascii_lowercase_chars(&t);
        if let Some(f) = axon_exec(&t, &n) {
            return Some(f);
        }
        if let Some(f) = json_exec(&t, &n) {
            return Some(f);
        }
        if let Some(f) = md_exec(&t, &n) {
            return Some(f);
        }
        if let Some(f) = generic_exec(&t, &n) {
            return Some(f);
        }
        fallback_exec(&t)
    }

    /// Whether `extract` can run on this text: false exactly when it would
    /// have to take a JSON passage that starts after it ends.
    pub fn can_extract(text: &str) -> (b: bool)
        ensures
            b == !extract_panics(text@),
    {
        let t = chars_of(text);
        let n = ascii_lowercase_chars(&t);
        if axon_exec(&t, &n).is_some() {
            return true;
        }
        if !contains_chars(&n, &chars_of("\"components\"")) {
            return true;
        }
        let open = chars_of("{");
        match find_chars(&n, &open) {
            None => true,
            Some(s) => {
                let end: usize = match last_index_of(&t, '}') {
                    Some(r) => {
                        assert(r < t.len());
                        r + 1
                    },
                    None => t.len(),
                };
                assert(end as int == json_end(t@));
                s <= end
            },
        }
    }
}

} // verus!
