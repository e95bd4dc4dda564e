//! Building a project IR from an architecture document in Markdown. The
//! document carries its components (and optionally its constraints) as JSON
//! inside `<!-- AXON:SPEC:COMPONENTS ... -->` (`<!-- AXON:CONSTRAINTS ... -->`)
//! comments; the library finds those blocks, and turns the components read
//! from them into the IR.
use vstd::prelude::*;
use crate::canonicalizer::{canonical_key, canonicalize_path};
use crate::ordmap::{lookup, str_eq, StrMap, StrSet};
use crate::paths::{file_stem, path_file_stem};
use crate::schema::{
    Component, ComponentTier, ComponentType, Constraint, EntrypointType, FileAuthority, Function,
    Language, OwnershipMetadata, Platform, ProjectIR, RuntimeModel, Subsystem,
};
use crate::text::{
    chars_of, concat_strs, contains, find, find_chars, lowercase, owned, slice_chars, str_contains,
    string_of, to_lower, trim, trim_chars,
};

verus! {

/// The trimmed text after the first `tag` up to the next `-->`.
pub open spec fn block_after(md: Seq<char>, tag: Seq<char>) -> Option<Seq<char>> {
    match find(md, tag) {
        Some(s) => {
            let js = s + tag.len();
            match find(md.subrange(js, md.len() as int), "-->"@) {
                Some(e) => Some(trim(md.subrange(js, js + e))),
                None => None,
            }
        },
        None => None,
    }
}

/// The text of the block opened by `tag` (`"<!-- AXON:SPEC:COMPONENTS"` or
/// `"<!-- AXON:CONSTRAINTS"`), trimmed; `None` where the tag or the closing
/// `-->` after it is missing.
pub fn block_text(md: &str, tag: &str) -> (r: Option<String>)
    ensures
        match r {
            Some(s) => block_after(md@, tag@) == Some(s@),
            None => block_after(md@, tag@) is None,
        },
{
    let mv = chars_of(md);
    let tv = chars_of(tag);
    proof {
        crate::text::lemma_find(mv@, tv@);
    }
    match find_chars(&mv, &tv) {
        Some(s) => {
            assert(crate::text::occurs_at(mv@, s as int, tv@));
            assert(s + tv@.len() <= mv@.len());
            let n = mv.len();
            assert(n == mv@.len());
            let js = s + tv.len();
            let rest = slice_chars(&mv, js, mv.len());
            let close = chars_of("-->");
            proof {
                crate::text::lemma_find(rest@, close@);
            }
            match find_chars(&rest, &close) {
                Some(e) => {
                    let inner = slice_chars(&mv, js, js + e);
                    Some(string_of(&trim_chars(&inner)))
                },
                None => None,
            }
        },
        None => None,
    }
}

/// One component as the document declares it.
pub struct RawComponent {
    pub file: String,
    pub name: String,
    pub symbols: Vec<String>,
    pub kind: String,
    pub tier: ComponentTier,
    pub is_blocking: bool,
}

/// The component block of a document.
pub struct RawSpec {
    pub node_mapping: StrMap<String>,
    pub components: Vec<RawComponent>,
}

/// The declared type of a component, by its lowercase `type`.
pub open spec fn declared_type(kind: Seq<char>) -> ComponentType {
    let k = lowercase(kind);
    if k == "system_library"@ || k == "system"@ {
        ComponentType::SystemLibrary
    } else if k == "external_runtime"@ || k == "external"@ {
        ComponentType::ExternalRuntime
    } else {
        ComponentType::ProjectModule
    }
}

/// A Windows system library name.
pub open spec fn is_system_lib(n: Seq<char>) -> bool {
    n == "user32"@ || n == "gdi32"@ || n == "kernel32"@ || n == "shell32"@ || n == "comdlg32"@
        || n == "gdi"@
}

/// The file stem of the lowercase path, or nothing.
pub open spec fn base_name(file: Seq<char>) -> Seq<char> {
    match file_stem(lowercase(file)) {
        Some(s) => s,
        None => seq![],
    }
}

/// The type of a component: a system library where its file stem or its
/// name (in lowercase) is one, else what it declares.
pub open spec fn component_type_of(r: RawComponent) -> ComponentType {
    if is_system_lib(base_name(r.file@)) || is_system_lib(lowercase(r.name@)) {
        ComponentType::SystemLibrary
    } else {
        declared_type(r.kind@)
    }
}

/// The symbols of a raw component, as character sequences.
pub open spec fn symbol_set(r: RawComponent) -> Set<Seq<char>> {
    r.symbols@.map_values(|s: String| s@).to_set()
}

/// `c` is the component the document's entry `r` stands for: one function
/// `s()` per symbol `s`, no imports or includes, the tier and blocking flag
/// as declared, its type as `component_type_of` says, patchable by the
/// generator.
pub open spec fn built_from(c: Component, r: RawComponent) -> bool {
    &&& c.name@ == r.name@
    &&& c.file_path@ == r.file@
    &&& crate::ordmap::keys_of(c.functions.view()).to_set() == symbol_set(r)
    &&& forall|i: int|
        0 <= i < c.functions.view().len() ==> {
            let (k, f) = #[trigger] c.functions.view()[i];
            &&& f.name@ == k
            &&& f.signature@ == k + "()"@
            &&& f.dependencies.view().len() == 0
            &&& f.body_hash is None
            &&& !f.locked
        }
    &&& c.imports.view().len() == 0
    &&& c.associated_files@.len() == 0
    &&& !c.is_entrypoint
    &&& c.data_models@.len() == 0
    &&& c.metadata.view().len() == 0
    &&& c.allowed_includes.view().len() == 0
    &&& c.forbidden_includes.view().len() == 0
    &&& c.forbidden_symbols.view().len() == 0
    &&& c.tier == r.tier
    &&& c.is_blocking == r.is_blocking
    &&& !c.locked
    &&& c.component_type == component_type_of(r)
    &&& c.subsystem is None
    &&& c.dll_imports.view().len() == 0
    &&& c.ownership.authority == FileAuthority::GeneratorPatchable
    &&& !c.ownership.validator_locked
    &&& c.ownership.patchable_regions@.len() == 0
}

/// The position of the last entry whose canonical file key is `key`.
pub open spec fn last_with_key(rs: Seq<RawComponent>, key: Seq<char>) -> Option<int>
    decreases rs.len(),
{
    if rs.len() == 0 {
        None
    } else if canonical_key(rs.last().file@) == key {
        Some(rs.len() - 1)
    } else {
        last_with_key(rs.drop_last(), key)
    }
}

proof fn lemma_last_with_key(rs: Seq<RawComponent>, key: Seq<char>)
    ensures
        last_with_key(rs, key) matches Some(i) ==> 0 <= i < rs.len() && canonical_key(rs[i].file@) == key,
    decreases rs.len(),
{
    if rs.len() > 0 && canonical_key(rs.last().file@) != key {
        lemma_last_with_key(rs.drop_last(), key);
        if let Some(i) = last_with_key(rs.drop_last(), key) {
            assert(rs.drop_last()[i] == rs[i]);
        }
    }
}

/// The components registered from the entries `rs`: under each canonical
/// file key, the last entry with that key.
pub open spec fn components_from(cs: Seq<(Seq<char>, Component)>, rs: Seq<RawComponent>) -> bool {
    forall|key: Seq<char>|
        #![trigger lookup(cs, key)]
        match last_with_key(rs, key) {
            Some(i) => match lookup(cs, key) {
                Some(c) => built_from(c, rs[i]),
                None => false,
            },
            None => lookup(cs, key) is None,
        }
}

/// The document (in lowercase) names Rust, Python or C++, in that order.
pub open spec fn declared_language(ml: Seq<char>) -> Language {
    if contains(ml, "language: rust"@) || contains(ml, "language:rust"@) {
        Language::Rust
    } else if contains(ml, "language: python"@) || contains(ml, "language:python"@) {
        Language::Python
    } else if contains(ml, "language: cpp"@) || contains(ml, "language:cpp"@) {
        Language::Cpp
    } else {
        Language::C
    }
}

/// The document (in lowercase) targets Win32.
pub open spec fn targets_win32(ml: Seq<char>) -> bool {
    contains(ml, "platform: win32"@) || contains(ml, "platform:win32"@) || contains(
        ml,
        "subsystem: windows"@,
    ) || contains(ml, "subsystem:windows"@) || contains(ml, "win32"@)
}

/// A Win32 document that asks for a GUI.
pub open spec fn targets_win32_gui(ml: Seq<char>) -> bool {
    targets_win32(ml) && (contains(ml, "gui"@) || contains(ml, "winnt"@) || contains(ml, "winsdk"@))
}

/// The runtime declarations of a document: a Win32 GUI document is a C++
/// `wWinMain` GUI program; otherwise a console `main` program in the
/// declared language, on Win32 where the document names it.
pub open spec fn runtime_of(ml: Seq<char>) -> (Language, Platform, Subsystem, EntrypointType, RuntimeModel) {
    if targets_win32_gui(ml) {
        (Language::Cpp, Platform::Win32, Subsystem::WindowsGui, EntrypointType::WWinMain, RuntimeModel::Win32Gui)
    } else if targets_win32(ml) {
        (declared_language(ml), Platform::Win32, Subsystem::Console, EntrypointType::Main, RuntimeModel::Console)
    } else {
        (declared_language(ml), Platform::Generic, Subsystem::Console, EntrypointType::Main, RuntimeModel::Console)
    }
}

fn is_system_lib_exec(n: &str) -> (b: bool)
    ensures
        b == is_system_lib(n@),
{
    str_eq(n, "user32") || str_eq(n, "gdi32") || str_eq(n, "kernel32") || str_eq(n, "shell32")
        || str_eq(n, "comdlg32") || str_eq(n, "gdi")
}

fn component_type_exec(r: &RawComponent) -> (t: ComponentType)
    ensures
        t == component_type_of(*r),
{
    let k = to_lower(r.kind.as_str());
    let ks = k.as_str();
    let declared = if str_eq(ks, "system_library") || str_eq(ks, "system") {
        ComponentType::SystemLibrary
    } else if str_eq(ks, "external_runtime") || str_eq(ks, "external") {
        ComponentType::ExternalRuntime
    } else {
        ComponentType::ProjectModule
    };
    let file_lower = to_lower(r.file.as_str());
    let base = match path_file_stem(file_lower.as_str()) {
        Some(s) => s,
        None => owned(""),
    };
    proof {
        reveal_strlit("");
        assert(""@ =~= Seq::<char>::empty());
    }
    let name_lower = to_lower(r.name.as_str());
    if is_system_lib_exec(base.as_str()) || is_system_lib_exec(name_lower.as_str()) {
        ComponentType::SystemLibrary
    } else {
        declared
    }
}

fn build_component(r: &RawComponent) -> (c: Component)
    ensures
        built_from(c, *r),
{
    let mut functions: StrMap<Function> = StrMap::new();
    let ghost syms = r.symbols@.map_values(|s: String| s@);
    let mut i: usize = 0;
    while i < r.symbols.len()
        invariant
            syms == r.symbols@.map_values(|s: String| s@),
            i <= r.symbols@.len(),
            crate::ordmap::keys_of(functions.view()).to_set() == syms.take(i as int).to_set(),
            forall|j: int|
                0 <= j < functions.view().len() ==> {
                    let (k, f) = #[trigger] functions.view()[j];
                    &&& f.name@ == k
                    &&& f.signature@ == k + "()"@
                    &&& f.dependencies.view().len() == 0
                    &&& f.body_hash is None
                    &&& !f.locked
                },
        decreases r.symbols.len() - i,
    {
        let s = &r.symbols[i];
        let f = Function {
            name: s.clone(),
            signature: concat_strs(s.as_str(), "()"),
            dependencies: StrSet::new(),
            body_hash: None,
            locked: false,
        };
        functions.check_sorted();
        let ghost before = functions.view();
        let ghost fg = f;
        functions.insert(s.clone(), f);
        proof {
            let after = functions.view();
            assert(syms.take(i + 1) =~= syms.take(i as int).push(s@));
            assert forall|x: Seq<char>| crate::ordmap::keys_of(after).to_set().contains(x) == syms.take(i + 1).to_set().contains(x) by {
                crate::ordmap::lemma_keys_contains(after, x);
                crate::ordmap::lemma_keys_contains(before, x);
                assert(syms.take(i + 1).to_set().contains(x) == (syms.take(i as int).to_set().contains(x) || x == s@)) by {
                    let t = syms.take(i as int);
                    if t.push(s@).contains(x) {
                        let k = choose|k: int| 0 <= k < t.push(s@).len() && t.push(s@)[k] == x;
                        if k < t.len() {
                            assert(t[k] == x);
                        }
                    }
                    if t.contains(x) {
                        let k = choose|k: int| 0 <= k < t.len() && t[k] == x;
                        assert(t.push(s@)[k] == x);
                    }
                    if x == s@ {
                        assert(t.push(s@)[t.len() as int] == x);
                    }
                }
            }
            assert(crate::ordmap::keys_of(after).to_set() =~= syms.take(i + 1).to_set());
            assert forall|j: int| 0 <= j < after.len() implies {
                let (k, f) = #[trigger] after[j];
                &&& f.name@ == k
                &&& f.signature@ == k + "()"@
                &&& f.dependencies.view().len() == 0
                &&& f.body_hash is None
                &&& !f.locked
            } by {
                crate::ordmap::lemma_key_index_unique(after, after[j].0, j);
                crate::ordmap::lemma_key_index(before, after[j].0);
                assert(lookup(after, after[j].0) == Some(after[j].1));
                if after[j].0 != s@ {
                    assert(lookup(before, after[j].0) == Some(after[j].1));
                    let m = crate::ordmap::key_index(before, after[j].0)->0;
                    assert(before[m].1 == after[j].1);
                    assert(before[m].0 == after[j].0);
                } else {
                    assert(after[j].1 == fg);
                }
            }
        }
        i += 1;
    }
    assert(syms.take(r.symbols@.len() as int) =~= syms);
    let t = component_type_exec(r);
    Component {
        name: r.name.clone(),
        file_path: r.file.clone(),
        functions,
        imports: StrSet::new(),
        associated_files: Vec::new(),
        is_entrypoint: false,
        data_models: Vec::new(),
        metadata: StrMap::new(),
        allowed_includes: StrSet::new(),
        forbidden_includes: StrSet::new(),
        forbidden_symbols: StrSet::new(),
        tier: r.tier,
        is_blocking: r.is_blocking,
        locked: false,
        component_type: t,
        subsystem: None,
        dll_imports: StrSet::new(),
        ownership: OwnershipMetadata::generator_patchable(),
    }
}

fn runtime_exec(md: &str) -> (r: (Language, Platform, Subsystem, EntrypointType, RuntimeModel))
    ensures
        r == runtime_of(lowercase(md@)),
{
    let ml = to_lower(md);
    let m = ml.as_str();
    let language = if str_contains(m, "language: rust") || str_contains(m, "language:rust") {
        Language::Rust
    } else if str_contains(m, "language: python") || str_contains(m, "language:python") {
        Language::Python
    } else if str_contains(m, "language: cpp") || str_contains(m, "language:cpp") {
        Language::Cpp
    } else {
        Language::C
    };
    if str_contains(m, "platform: win32") || str_contains(m, "platform:win32") || str_contains(m, "subsystem: windows")
        || str_contains(m, "subsystem:windows") || str_contains(m, "win32") {
        if str_contains(m, "gui") || str_contains(m, "winnt") || str_contains(m, "winsdk") {
            return (Language::Cpp, Platform::Win32, Subsystem::WindowsGui, EntrypointType::WWinMain, RuntimeModel::Win32Gui);
        }
        return (language, Platform::Win32, Subsystem::Console, EntrypointType::Main, RuntimeModel::Console);
    }
    (language, Platform::Generic, Subsystem::Console, EntrypointType::Main, RuntimeModel::Console)
}

impl ProjectIR {
    /// The IR of a document whose component block read as `spec` (and whose
    /// constraint block, if any, as `constraints`): each entry becomes the
    /// component under its canonical file key, later entries replacing
    /// earlier ones; the runtime declarations come from the document's text.
    pub fn from_md_parts(md: &str, spec: RawSpec, constraints: Option<Vec<Constraint>>) -> (ir: ProjectIR)
        ensures
            ir.node_mapping.view() == spec.node_mapping.view(),
            components_from(ir.components.view(), spec.components@),
            ir.constraints@ == match constraints {
                Some(c) => c@,
                None => Seq::<Constraint>::empty(),
            },
            ir.constraint_ids@.len() == 0,
            ir.thought is None,
            (ir.language, ir.platform, ir.subsystem, ir.entrypoint_type, ir.runtime_model)
                == runtime_of(lowercase(md@)),
    {
        let mut components: StrMap<Component> = StrMap::new();
        let ghost rs = spec.components@;
        let mut i: usize = 0;
        while i < spec.components.len()
            invariant
                rs == spec.components@,
                i <= rs.len(),
                components_from(components.view(), rs.take(i as int)),
            decreases rs.len() - i,
        {
            let r = &spec.components[i];
            let c = build_component(r);
            let key = canonicalize_path(r.file.as_str());
            let ghost before = components.view();
            let ghost cg = c;
            let ghost kg = key@;
            components.insert(key, c);
            proof {
                let t = rs.take(i + 1);
                assert(t.drop_last() =~= rs.take(i as int));
                assert(t.last() == *r);
                assert forall|k: Seq<char>| #![trigger lookup(components.view(), k)]
                    match last_with_key(t, k) {
                        Some(j) => match lookup(components.view(), k) {
                            Some(c2) => built_from(c2, t[j]),
                            None => false,
                        },
                        None => lookup(components.view(), k) is None,
                    } by {
                    assert(lookup(components.view(), k) == if k == kg { Some(cg) } else { lookup(before, k) });
                    if k != canonical_key(r.file@) {
                        lemma_last_with_key(rs.take(i as int), k);
                        if let Some(j) = last_with_key(rs.take(i as int), k) {
                            assert(t[j] == rs.take(i as int)[j]);
                        }
                    }
                }
            }
            i += 1;
        }
        assert(rs.take(rs.len() as int) =~= rs);
        let rt = runtime_exec(md);
        ProjectIR {
            node_mapping: spec.node_mapping,
            components,
            constraints: match constraints {
                Some(c) => c,
                None => Vec::new(),
            },
            constraint_ids: Vec::new(),
            thought: None,
            language: rt.0,
            platform: rt.1,
            subsystem: rt.2,
            entrypoint_type: rt.3,
            runtime_model: rt.4,
        }
    }
}

} // verus!
