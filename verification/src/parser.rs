//! Input formats of architecture specs: recognising them, and rendering an
//! IR back to Markdown.
use vstd::prelude::*;
use crate::ordmap::keys_of;
use crate::schema::{Component, Constraint, ProjectIR};
use crate::text::{
    chars_of, contains, contains_chars, lowercase, owned, push_str, starts_with, starts_with_chars,
    string_of, to_lower, trim, trim_chars,
};
use crate::ordmap::str_eq;

verus! {

/// A format an architecture spec can be written in.
#[derive(Debug, Clone, Copy, PartialEq, Eq, Structural)]
pub enum InputFormat {
    Markdown,
    Json,
    Yaml,
    Toml,
}

/// The format a file extension (in lowercase) names.
pub open spec fn format_of_extension(e: Seq<char>) -> Option<InputFormat> {
    if e == "md"@ || e == "markdown"@ {
        Some(InputFormat::Markdown)
    } else if e == "json"@ {
        Some(InputFormat::Json)
    } else if e == "yaml"@ || e == "yml"@ {
        Some(InputFormat::Yaml)
    } else if e == "toml"@ {
        Some(InputFormat::Toml)
    } else {
        None
    }
}

impl InputFormat {
    /// The format of a file extension, compared in lowercase.
    pub fn from_extension(ext: &str) -> (r: Option<Self>)
        ensures
            r == format_of_extension(lowercase(ext@)),
            crate::text::all_ascii(ext@) ==> r == format_of_extension(crate::text::ascii_lowercase(ext@)),
    {
        let lo = to_lower(ext);
        let e = lo.as_str();
        if str_eq(e, "md") || str_eq(e, "markdown") {
            Some(InputFormat::Markdown)
        } else if str_eq(e, "json") {
            Some(InputFormat::Json)
        } else if str_eq(e, "yaml") || str_eq(e, "yml") {
            Some(InputFormat::Yaml)
        } else if str_eq(e, "toml") {
            Some(InputFormat::Toml)
        } else {
            None
        }
    }
}

/// The format a spec's text looks like, judged on the trimmed text: the
/// spec comment of Markdown, a JSON object naming `"components"`, or YAML
/// (a `---` start or a `key: value` pair, not an object).
pub open spec fn format_of_content(content: Seq<char>) -> Option<InputFormat> {
    let t = trim(content);
    if starts_with(t, "<!-- AXON:SPEC"@) {
        Some(InputFormat::Markdown)
    } else if starts_with(t, "{"@) && contains(t, "\"components\""@) {
        Some(InputFormat::Json)
    } else if (starts_with(t, "---"@) || contains(t, ": "@)) && !starts_with(t, "{"@) {
        Some(InputFormat::Yaml)
    } else {
        None
    }
}

pub fn detect_format(content: &str) -> (r: Option<InputFormat>)
    ensures
        r == format_of_content(content@),
{
    let cv = chars_of(content);
    let t = trim_chars(&cv);
    let brace = chars_of("{");
    if starts_with_chars(&t, &chars_of("<!-- AXON:SPEC")) {
        return Some(InputFormat::Markdown);
    }
    if starts_with_chars(&t, &brace) {
        if contains_chars(&t, &chars_of("\"components\"")) {
            return Some(InputFormat::Json);
        }
    }
    if starts_with_chars(&t, &chars_of("---")) || contains_chars(&t, &chars_of(": ")) {
        if !starts_with_chars(&t, &brace) {
            return Some(InputFormat::Yaml);
        }
    }
    None
}

/// The TOML reader does not exist yet: every input is refused.
pub fn parse_toml(input: &str) -> (r: Result<Option<ProjectIR>, String>)
    ensures
        r matches Err(m) && m@ == "TOML parser not yet implemented - placeholder for future"@,
{
    Err(owned("TOML parser not yet implemented - placeholder for future"))
}

/// The TOML writer does not exist yet: every IR is refused.
pub fn to_toml(ir: &ProjectIR) -> (r: Result<String, String>)
    ensures
        r matches Err(m) && m@ == "TOML serializer not yet implemented"@,
{
    Err(owned("TOML serializer not yet implemented"))
}

/// The YAML reader does not exist yet: every input is refused.
pub fn parse_yaml(input: &str) -> (r: Result<Option<ProjectIR>, String>)
    ensures
        r matches Err(m) && m@ == "YAML parser not yet implemented - placeholder for future"@,
{
    Err(owned("YAML parser not yet implemented - placeholder for future"))
}

/// The YAML writer does not exist yet: every IR is refused.
pub fn to_yaml(ir: &ProjectIR) -> (r: Result<String, String>)
    ensures
        r matches Err(m) && m@ == "YAML serializer not yet implemented"@,
{
    Err(owned("YAML serializer not yet implemented"))
}

/// The function list of one component.
pub open spec fn md_functions(fs: Seq<Seq<char>>) -> Seq<char>
    decreases fs.len(),
{
    if fs.len() == 0 {
        seq![]
    } else {
        md_functions(fs.drop_last()) + "  - `"@ + fs.last() + "`\n"@
    }
}

/// The section of one component.
pub open spec fn md_component(key: Seq<char>, c: Component) -> Seq<char> {
    "### "@ + key + "\n"@ + "- **File**: `"@ + c.file_path@ + "`\n"@ + "- **Functions**:\n"@
        + md_functions(keys_of(c.functions.view())) + "\n"@
}

/// The sections of the components, in key order.
pub open spec fn md_components(cs: Seq<(Seq<char>, Component)>) -> Seq<char>
    decreases cs.len(),
{
    if cs.len() == 0 {
        seq![]
    } else {
        md_components(cs.drop_last()) + md_component(cs.last().0, cs.last().1)
    }
}

/// The constraint list.
pub open spec fn md_constraints(cs: Seq<Constraint>) -> Seq<char>
    decreases cs.len(),
{
    if cs.len() == 0 {
        seq![]
    } else {
        md_constraints(cs.drop_last()) + "- **"@ + cs.last().kind@ + "**: "@ + cs.last().target@ + " ("@
            + cs.last().message@ + ")\n"@
    }
}

/// The Markdown rendering of an IR.
pub open spec fn markdown_of(ir: ProjectIR, title: Seq<char>) -> Seq<char> {
    "# Architecture: "@ + title + "\n\n"@ + "## Components\n\n"@ + md_components(ir.components.view())
        + if ir.constraints@.len() == 0 {
        seq![]
    } else {
        "## Constraints\n\n"@ + md_constraints(ir.constraints@)
    }
}

/// Renders an IR as Markdown: a title, one section per component in key
/// order with its file and functions, then the constraints if there are any.
pub fn to_markdown(ir: &ProjectIR, title: &str) -> (md: String)
    ensures
        md@ == markdown_of(*ir, title@),
{
    let mut md: Vec<char> = chars_of("# Architecture: ");
    push_str(&mut md, title);
    push_str(&mut md, "\n\n");
    push_str(&mut md, "## Components\n\n");
    let ghost head = md@;
    let ghost cs = ir.components.view();
    let n = ir.components.len();
    let mut i: usize = 0;
    assert(head + md_components(cs.take(0)) =~= head);
    while i < n
        invariant
            cs == ir.components.view(),
            n == cs.len(),
            i <= n,
            md@ == head + md_components(cs.take(i as int)),
        decreases n - i,
    {
        let key = ir.components.key_at(i);
        let comp = ir.components.value_at(i);
        let ghost before = md@;
        push_str(&mut md, "### ");
        push_str(&mut md, key.as_str());
        push_str(&mut md, "\n");
        push_str(&mut md, "- **File**: `");
        push_str(&mut md, comp.file_path.as_str());
        push_str(&mut md, "`\n");
        push_str(&mut md, "- **Functions**:\n");
        let ghost mid = md@;
        let ghost fks = keys_of(comp.functions.view());
        let m = comp.functions.len();
        let mut j: usize = 0;
        assert(mid + md_functions(fks.take(0)) =~= mid);
        while j < m
            invariant
                fks == keys_of(comp.functions.view()),
                m == fks.len(),
                j <= m,
                md@ == mid + md_functions(fks.take(j as int)),
            decreases m - j,
        {
            let fname = comp.functions.key_at(j);
            push_str(&mut md, "  - `");
            push_str(&mut md, fname.as_str());
            push_str(&mut md, "`\n");
            proof {
                assert(fks.take(j + 1).drop_last() =~= fks.take(j as int));
                assert(fks[j as int] == fname@);
                assert(md@ =~= mid + md_functions(fks.take(j + 1)));
            }
            j += 1;
        }
        push_str(&mut md, "\n");
        proof {
            assert(fks.take(m as int) =~= fks);
            assert(cs.take(i + 1).drop_last() =~= cs.take(i as int));
            assert(md@ =~= head + md_components(cs.take(i + 1)));
        }
        i += 1;
    }
    assert(cs.take(n as int) =~= cs);
    if ir.constraints.len() > 0 {
        push_str(&mut md, "## Constraints\n\n");
        let ghost head2 = md@;
        let ghost ks = ir.constraints@;
        let mut k: usize = 0;
        assert(head2 + md_constraints(ks.take(0)) =~= head2);
        while k < ir.constraints.len()
            invariant
                ks == ir.constraints@,
                k <= ks.len(),
                md@ == head2 + md_constraints(ks.take(k as int)),
            decreases ks.len() - k,
        {
            let c = &ir.constraints[k];
            push_str(&mut md, "- **");
            push_str(&mut md, c.kind.as_str());
            push_str(&mut md, "**: ");
            push_str(&mut md, c.target.as_str());
            push_str(&mut md, " (");
            push_str(&mut md, c.message.as_str());
            push_str(&mut md, ")\n");
            proof {
                assert(ks.take(k + 1).drop_last() =~= ks.take(k as int));
                assert(md@ =~= head2 + md_constraints(ks.take(k + 1)));
            }
            k += 1;
        }
        assert(ks.take(ks.len() as int) =~= ks);
    }
    proof {
        assert(md@ =~= markdown_of(*ir, title@));
    }
    string_of(&md)
}

} // verus!
