//! The semantic check of a specification: each language has a vocabulary
//! it forbids, the task kinds and build systems it allows; a specification
//! read from an agent's JSON is checked against the ontology of its language.
use vstd::prelude::*;
use crate::json::{json_result, member, parse_json_checked, str_member, JsonValue};
use crate::ordmap::str_eq;
use crate::paths::{extension, path_extension};
use crate::schema::Language;
use crate::text::{chars_of, contains, lowercase, owned, push_str, str_contains, string_of, to_lower};

verus! {

// ---------------------------------------------------------------------------
// Tokens and ontologies
// ---------------------------------------------------------------------------

/// The symbolic vocabulary of task kinds and build systems.
#[derive(Debug, Clone, Copy, PartialEq, Eq, Hash, Structural)]
pub enum SemanticToken {
    HeaderDecl,
    SourceImpl,
    ModuleDecl,
    ModuleImpl,
    Integrator,
    Package,
    Script,
    CMake,
    Cargo,
    Pip,
    Poetry,
}

impl SemanticToken {
    pub open spec fn spec_text(self) -> Seq<char> {
        match self {
            SemanticToken::HeaderDecl => "HeaderDecl"@,
            SemanticToken::SourceImpl => "SourceImpl"@,
            SemanticToken::ModuleDecl => "ModuleDecl"@,
            SemanticToken::ModuleImpl => "ModuleImpl"@,
            SemanticToken::Integrator => "Integrator"@,
            SemanticToken::Package => "Package"@,
            SemanticToken::Script => "Script"@,
            SemanticToken::CMake => "cmake"@,
            SemanticToken::Cargo => "cargo"@,
            SemanticToken::Pip => "pip"@,
            SemanticToken::Poetry => "poetry"@,
        }
    }

    /// The token's text.
    pub fn as_str(&self) -> (s: &'static str)
        ensures
            s@ == self.spec_text(),
    {
        match self {
            SemanticToken::HeaderDecl => "HeaderDecl",
            SemanticToken::SourceImpl => "SourceImpl",
            SemanticToken::ModuleDecl => "ModuleDecl",
            SemanticToken::ModuleImpl => "ModuleImpl",
            SemanticToken::Integrator => "Integrator",
            SemanticToken::Package => "Package",
            SemanticToken::Script => "Script",
            SemanticToken::CMake => "cmake",
            SemanticToken::Cargo => "cargo",
            SemanticToken::Pip => "pip",
            SemanticToken::Poetry => "poetry",
        }
    }
}

/// The words a language's specification must not use.
pub open spec fn forbidden_words(l: Language) -> Seq<Seq<char>> {
    match l {
        Language::Rust => seq![
            "HeaderDecl"@, "SourceImpl"@, "Integrator"@, "header"@, "source"@, "CMakeLists.txt"@,
            "cmake"@, "makefile"@, ".h"@, ".c"@,
        ],
        Language::C | Language::Cpp => seq![],
        Language::Python => seq![
            "HeaderDecl"@, "SourceImpl"@, "Integrator"@, "Cargo.toml"@, "cargo"@, "cmake"@,
            "CMakeLists.txt"@, "mod.rs"@, "lib.rs"@,
        ],
    }
}

/// The task kinds a language allows.
pub open spec fn task_words(l: Language) -> Seq<Seq<char>> {
    match l {
        Language::Rust => seq!["ModuleDecl"@, "ModuleImpl"@, "Integrator"@],
        Language::C | Language::Cpp => seq!["HeaderDecl"@, "SourceImpl"@, "Integrator"@],
        Language::Python => seq!["Module"@, "Package"@, "Script"@],
    }
}

/// The build systems a language allows.
pub open spec fn build_words(l: Language) -> Seq<Seq<char>> {
    match l {
        Language::Rust => seq!["cargo"@],
        Language::C => seq!["cmake"@, "make"@, "gcc"@, "clang"@],
        Language::Cpp => seq!["cmake"@, "make"@, "gcc"@, "clang"@, "g++"@, "clang++"@],
        Language::Python => seq!["python"@, "pip"@, "poetry"@, "pytest"@],
    }
}

/// The tokens a language forbids.
pub open spec fn forbidden_token_set(l: Language) -> Seq<SemanticToken> {
    match l {
        Language::Rust => seq![SemanticToken::HeaderDecl, SemanticToken::SourceImpl, SemanticToken::CMake],
        Language::C | Language::Cpp => seq![],
        Language::Python => seq![
            SemanticToken::HeaderDecl,
            SemanticToken::SourceImpl,
            SemanticToken::Integrator,
            SemanticToken::CMake,
            SemanticToken::Cargo,
        ],
    }
}

/// The tokens a language allows.
pub open spec fn allowed_token_set(l: Language) -> Seq<SemanticToken> {
    match l {
        Language::Rust => seq![
            SemanticToken::ModuleDecl,
            SemanticToken::ModuleImpl,
            SemanticToken::Integrator,
            SemanticToken::Cargo,
        ],
        Language::C | Language::Cpp => seq![
            SemanticToken::HeaderDecl,
            SemanticToken::SourceImpl,
            SemanticToken::Integrator,
            SemanticToken::CMake,
        ],
        Language::Python => seq![SemanticToken::Package, SemanticToken::Script, SemanticToken::Pip, SemanticToken::Poetry],
    }
}

/// The texts of a list of string slices.
pub open spec fn texts(v: Seq<&str>) -> Seq<Seq<char>> {
    v.map_values(|s: &str| s@)
}

/// What a language's specifications may and may not say.
pub trait SemanticOntology {
    /// The language this ontology is for.
    spec fn language(&self) -> Language;

    fn forbidden_vocabulary(&self) -> (r: Vec<&'static str>)
        ensures
            texts(r@) == forbidden_words(self.language());

    fn allowed_task_vocabulary(&self) -> (r: Vec<&'static str>)
        ensures
            texts(r@) == task_words(self.language());

    fn allowed_build_systems(&self) -> (r: Vec<&'static str>)
        ensures
            texts(r@) == build_words(self.language());

    fn forbidden_tokens(&self) -> (r: Vec<SemanticToken>)
        ensures
            r@ == forbidden_token_set(self.language());

    fn allowed_tokens(&self) -> (r: Vec<SemanticToken>)
        ensures
            r@ == allowed_token_set(self.language());
}

fn words_for(l: Language, which: u8) -> (r: Vec<&'static str>)
    requires
        which < 3,
    ensures
        which == 0 ==> texts(r@) == forbidden_words(l),
        which == 1 ==> texts(r@) == task_words(l),
        which == 2 ==> texts(r@) == build_words(l),
{
    let r: Vec<&'static str> = if which == 0 {
        match l {
            Language::Rust => vec![
                "HeaderDecl", "SourceImpl", "Integrator", "header", "source", "CMakeLists.txt", "cmake",
                "makefile", ".h", ".c",
            ],
            Language::C | Language::Cpp => vec![],
            Language::Python => vec![
                "HeaderDecl", "SourceImpl", "Integrator", "Cargo.toml", "cargo", "cmake", "CMakeLists.txt",
                "mod.rs", "lib.rs",
            ],
        }
    } else if which == 1 {
        match l {
            Language::Rust => vec!["ModuleDecl", "ModuleImpl", "Integrator"],
            Language::C | Language::Cpp => vec!["HeaderDecl", "SourceImpl", "Integrator"],
            Language::Python => vec!["Module", "Package", "Script"],
        }
    } else {
        match l {
            Language::Rust => vec!["cargo"],
            Language::C => vec!["cmake", "make", "gcc", "clang"],
            Language::Cpp => vec!["cmake", "make", "gcc", "clang", "g++", "clang++"],
            Language::Python => vec!["python", "pip", "poetry", "pytest"],
        }
    };
    assert(which == 0 ==> texts(r@) =~= forbidden_words(l));
    assert(which == 1 ==> texts(r@) =~= task_words(l));
    assert(which == 2 ==> texts(r@) =~= build_words(l));
    r
}

fn tokens_for(l: Language, allowed: bool) -> (r: Vec<SemanticToken>)
    ensures
        !allowed ==> r@ == forbidden_token_set(l),
        allowed ==> r@ == allowed_token_set(l),
{
    let r: Vec<SemanticToken> = if !allowed {
        match l {
            Language::Rust => vec![SemanticToken::HeaderDecl, SemanticToken::SourceImpl, SemanticToken::CMake],
            Language::C | Language::Cpp => vec![],
            Language::Python => vec![
                SemanticToken::HeaderDecl,
                SemanticToken::SourceImpl,
                SemanticToken::Integrator,
                SemanticToken::CMake,
                SemanticToken::Cargo,
            ],
        }
    } else {
        match l {
            Language::Rust => vec![
                SemanticToken::ModuleDecl,
                SemanticToken::ModuleImpl,
                SemanticToken::Integrator,
                SemanticToken::Cargo,
            ],
            Language::C | Language::Cpp => vec![
                SemanticToken::HeaderDecl,
                SemanticToken::SourceImpl,
                SemanticToken::Integrator,
                SemanticToken::CMake,
            ],
            Language::Python => vec![SemanticToken::Package, SemanticToken::Script, SemanticToken::Pip, SemanticToken::Poetry],
        }
    };
    assert(!allowed ==> r@ =~= forbidden_token_set(l));
    assert(allowed ==> r@ =~= allowed_token_set(l));
    r
}

/// The ontology of Rust.
pub struct RustOntology;

/// The ontology of C.
pub struct COntology;

/// The ontology of C++.
pub struct CppOntology;

/// The ontology of Python.
pub struct PythonOntology;

impl SemanticOntology for RustOntology {
    open spec fn language(&self) -> Language {
        Language::Rust
    }

    fn forbidden_vocabulary(&self) -> (r: Vec<&'static str>) {
        words_for(Language::Rust, 0)
    }

    fn allowed_task_vocabulary(&self) -> (r: Vec<&'static str>) {
        words_for(Language::Rust, 1)
    }

    fn allowed_build_systems(&self) -> (r: Vec<&'static str>) {
        words_for(Language::Rust, 2)
    }

    fn forbidden_tokens(&self) -> (r: Vec<SemanticToken>) {
        tokens_for(Language::Rust, false)
    }

    fn allowed_tokens(&self) -> (r: Vec<SemanticToken>) {
        tokens_for(Language::Rust, true)
    }
}

impl SemanticOntology for COntology {
    open spec fn language(&self) -> Language {
        Language::C
    }

    fn forbidden_vocabulary(&self) -> (r: Vec<&'static str>) {
        words_for(Language::C, 0)
    }

    fn allowed_task_vocabulary(&self) -> (r: Vec<&'static str>) {
        words_for(Language::C, 1)
    }

    fn allowed_build_systems(&self) -> (r: Vec<&'static str>) {
        words_for(Language::C, 2)
    }

    fn forbidden_tokens(&self) -> (r: Vec<SemanticToken>) {
        tokens_for(Language::C, false)
    }

    fn allowed_tokens(&self) -> (r: Vec<SemanticToken>) {
        tokens_for(Language::C, true)
    }
}

impl SemanticOntology for CppOntology {
    open spec fn language(&self) -> Language {
        Language::Cpp
    }

    fn forbidden_vocabulary(&self) -> (r: Vec<&'static str>) {
        words_for(Language::Cpp, 0)
    }

    fn allowed_task_vocabulary(&self) -> (r: Vec<&'static str>) {
        words_for(Language::Cpp, 1)
    }

    fn allowed_build_systems(&self) -> (r: Vec<&'static str>) {
        words_for(Language::Cpp, 2)
    }

    fn forbidden_tokens(&self) -> (r: Vec<SemanticToken>) {
        tokens_for(Language::Cpp, false)
    }

    fn allowed_tokens(&self) -> (r: Vec<SemanticToken>) {
        tokens_for(Language::Cpp, true)
    }
}

impl SemanticOntology for PythonOntology {
    open spec fn language(&self) -> Language {
        Language::Python
    }

    fn forbidden_vocabulary(&self) -> (r: Vec<&'static str>) {
        words_for(Language::Python, 0)
    }

    fn allowed_task_vocabulary(&self) -> (r: Vec<&'static str>) {
        words_for(Language::Python, 1)
    }

    fn allowed_build_systems(&self) -> (r: Vec<&'static str>) {
        words_for(Language::Python, 2)
    }

    fn forbidden_tokens(&self) -> (r: Vec<SemanticToken>) {
        tokens_for(Language::Python, false)
    }

    fn allowed_tokens(&self) -> (r: Vec<SemanticToken>) {
        tokens_for(Language::Python, true)
    }
}

/// The ontology of one of the languages.
pub enum AnyOntology {
    C(COntology),
    Cpp(CppOntology),
    Rust(RustOntology),
    Python(PythonOntology),
}

impl SemanticOntology for AnyOntology {
    open spec fn language(&self) -> Language {
        match self {
            AnyOntology::C(_) => Language::C,
            AnyOntology::Cpp(_) => Language::Cpp,
            AnyOntology::Rust(_) => Language::Rust,
            AnyOntology::Python(_) => Language::Python,
        }
    }

    fn forbidden_vocabulary(&self) -> (r: Vec<&'static str>) {
        words_for(self.lang(), 0)
    }

    fn allowed_task_vocabulary(&self) -> (r: Vec<&'static str>) {
        words_for(self.lang(), 1)
    }

    fn allowed_build_systems(&self) -> (r: Vec<&'static str>) {
        words_for(self.lang(), 2)
    }

    fn forbidden_tokens(&self) -> (r: Vec<SemanticToken>) {
        tokens_for(self.lang(), false)
    }

    fn allowed_tokens(&self) -> (r: Vec<SemanticToken>) {
        tokens_for(self.lang(), true)
    }
}

impl AnyOntology {
    fn lang(&self) -> (l: Language)
        ensures
            l == self.language(),
    {
        match self {
            AnyOntology::C(_) => Language::C,
            AnyOntology::Cpp(_) => Language::Cpp,
            AnyOntology::Rust(_) => Language::Rust,
            AnyOntology::Python(_) => Language::Python,
        }
    }
}

/// The ontology of a language.
pub fn get_ontology(language: Language) -> (o: AnyOntology)
    ensures
        o.language() == language,
{
    match language {
        Language::C => AnyOntology::C(COntology),
        Language::Cpp => AnyOntology::Cpp(CppOntology),
        Language::Rust => AnyOntology::Rust(RustOntology),
        Language::Python => AnyOntology::Python(PythonOntology),
    }
}

// ---------------------------------------------------------------------------
// Violations and diagnostics
// ---------------------------------------------------------------------------

/// Why a specification does not fit its language.
#[derive(Debug, Clone)]
pub enum SemanticViolation {
    ForbiddenVocabulary { term: String, language: Language },
    CrossLanguageContamination { detected: String, expected: Language },
    InvalidBuildSystem { system: String, language: Language },
    InvalidTaskVocabulary { task: String, language: Language },
}

/// A violation, as plain data: its kind (0 to 3 in declaration order), its
/// text and its language.
pub open spec fn violation_view(v: SemanticViolation) -> (int, Seq<char>, Language) {
    match v {
        SemanticViolation::ForbiddenVocabulary { term, language } => (0, term@, language),
        SemanticViolation::CrossLanguageContamination { detected, expected } => (1, detected@, expected),
        SemanticViolation::InvalidBuildSystem { system, language } => (2, system@, language),
        SemanticViolation::InvalidTaskVocabulary { task, language } => (3, task@, language),
    }
}

/// The message of a violation.
pub open spec fn violation_text(v: SemanticViolation) -> Seq<char> {
    match v {
        SemanticViolation::ForbiddenVocabulary { term, language } => "Forbidden vocabulary '"@ + term@
            + "' for language "@ + language.spec_name(),
        SemanticViolation::CrossLanguageContamination { detected, expected } => "Cross-language contamination: detected '"@
            + detected@ + "', expected "@ + expected.spec_name(),
        SemanticViolation::InvalidBuildSystem { system, language } => "Invalid build system '"@ + system@
            + "' for language "@ + language.spec_name(),
        SemanticViolation::InvalidTaskVocabulary { task, language } => "Invalid task vocabulary '"@ + task@
            + "' for language "@ + language.spec_name(),
    }
}

impl SemanticViolation {
    /// The violation's message.
    pub fn to_string(&self) -> (s: String)
        ensures
            s@ == violation_text(*self),
    {
        let (a, b, c, l) = match self {
            SemanticViolation::ForbiddenVocabulary { term, language } => (
                "Forbidden vocabulary '",
                term.as_str(),
                "' for language ",
                *language,
            ),
            SemanticViolation::CrossLanguageContamination { detected, expected } => (
                "Cross-language contamination: detected '",
                detected.as_str(),
                "', expected ",
                *expected,
            ),
            SemanticViolation::InvalidBuildSystem { system, language } => (
                "Invalid build system '",
                system.as_str(),
                "' for language ",
                *language,
            ),
            SemanticViolation::InvalidTaskVocabulary { task, language } => (
                "Invalid task vocabulary '",
                task.as_str(),
                "' for language ",
                *language,
            ),
        };
        let mut v = chars_of(a);
        push_str(&mut v, b);
        push_str(&mut v, c);
        push_str(&mut v, l.name());
        string_of(&v)
    }
}

/// How serious a diagnostic is.
#[derive(Debug, Clone, Copy, PartialEq, Eq, Structural)]
pub enum DiagnosticSeverity {
    Error,
    Warning,
    Information,
    Hint,
}

/// What a diagnostic is about.
#[derive(Debug, Clone, Copy, PartialEq, Eq, Structural)]
pub enum DiagnosticCategory {
    Syntax,
    TypeMismatch,
    MissingImport,
    ForbiddenPattern,
    FfiViolation,
    LanguageContamination,
    ContractViolation,
}

/// A diagnostic of a static analyser.
#[derive(Debug, Clone)]
pub struct SemanticDiagnostic {
    pub source: String,
    pub severity: DiagnosticSeverity,
    pub file: String,
    pub line: usize,
    pub column: usize,
    pub code: Option<String>,
    pub message: String,
    pub category: DiagnosticCategory,
}

/// What a static analyser can do.
#[derive(Debug, Clone, Copy)]
pub struct CapabilityLock {
    pub supports_diagnostics: bool,
    pub supports_semantic_tokens: bool,
    pub supports_code_action: bool,
}

// ---------------------------------------------------------------------------
// A specification read from JSON
// ---------------------------------------------------------------------------

/// What the semantic check reads of a specification.
#[derive(Debug, Clone)]
pub struct SemanticSpec {
    pub language: Language,
    pub extracted_terms: Vec<String>,
    pub component_names: Vec<String>,
    pub file_paths: Vec<String>,
    pub build_systems: Vec<String>,
    pub task_vocabulary: Vec<String>,
}

/// The language a specification names (C where it names none, or another).
pub open spec fn language_named(s: Option<Seq<char>>) -> Language {
    match s {
        Some(x) => if x == "c"@ || x == "C"@ {
            Language::C
        } else if x == "cpp"@ || x == "c++"@ || x == "Cpp"@ {
            Language::Cpp
        } else if x == "rust"@ || x == "Rust"@ {
            Language::Rust
        } else if x == "python"@ || x == "Python"@ {
            Language::Python
        } else {
            Language::C
        },
        None => Language::C,
    }
}

/// The string member `key` of each item, where it has one, in order.
pub open spec fn members_of(items: Seq<JsonValue>, key: Seq<char>) -> Seq<Seq<char>>
    decreases items.len(),
{
    if items.len() == 0 {
        seq![]
    } else {
        members_of(items.drop_last(), key) + match str_member(items.last(), key) {
            Some(s) => seq![s],
            None => seq![],
        }
    }
}

/// The terms a component contributes: its file and the file's extension
/// (with its dot), then its kind.
pub open spec fn component_terms(c: JsonValue) -> Seq<Seq<char>> {
    (match str_member(c, "file"@) {
        Some(f) => seq![f] + match extension(f) {
            Some(e) => seq!["."@ + e],
            None => seq![],
        },
        None => seq![],
    }) + match str_member(c, "kind"@) {
        Some(k) => seq![k],
        None => seq![],
    }
}

pub open spec fn components_terms(items: Seq<JsonValue>) -> Seq<Seq<char>>
    decreases items.len(),
{
    if items.len() == 0 {
        seq![]
    } else {
        components_terms(items.drop_last()) + component_terms(items.last())
    }
}

/// The terms of a node mapping: each key, then its value where it is a string.
pub open spec fn mapping_terms(ms: Seq<(String, JsonValue)>) -> Seq<Seq<char>>
    decreases ms.len(),
{
    if ms.len() == 0 {
        seq![]
    } else {
        mapping_terms(ms.drop_last()) + seq![ms.last().0@] + match ms.last().1 {
            JsonValue::Str(s) => seq![s@],
            _ => seq![],
        }
    }
}

/// The components array of a specification (none where it has none).
pub open spec fn components_of(v: JsonValue) -> Seq<JsonValue> {
    match member(v, "components"@) {
        Some(JsonValue::Array(items)) => items@,
        _ => seq![],
    }
}

/// The node mapping of a specification (none where it has none).
pub open spec fn mapping_of(v: JsonValue) -> Seq<(String, JsonValue)> {
    match member(v, "node_mapping"@) {
        Some(JsonValue::Object(ms)) => ms@,
        _ => seq![],
    }
}

/// A specification's content, as plain data: language, terms, component
/// names, file paths, build systems and task kinds.
pub open spec fn spec_view(s: SemanticSpec) -> (Language, Seq<Seq<char>>, Seq<Seq<char>>, Seq<Seq<char>>, Seq<Seq<char>>, Seq<Seq<char>>) {
    (
        s.language,
        s.extracted_terms.deep_view(),
        s.component_names.deep_view(),
        s.file_paths.deep_view(),
        s.build_systems.deep_view(),
        s.task_vocabulary.deep_view(),
    )
}

/// What a specification read from the JSON value `v` holds.
pub open spec fn spec_from_json(v: JsonValue) -> (Language, Seq<Seq<char>>, Seq<Seq<char>>, Seq<Seq<char>>, Seq<Seq<char>>, Seq<Seq<char>>) {
    let items = components_of(v);
    (
        language_named(str_member(v, "language"@)),
        components_terms(items) + mapping_terms(mapping_of(v)),
        members_of(items, "name"@),
        members_of(items, "file"@),
        match str_member(v, "build_system"@) {
            Some(b) => seq![b],
            None => seq![],
        },
        members_of(items, "kind"@),
    )
}

fn language_from(s: Option<String>) -> (l: Language)
    ensures
        l == language_named(match s {
            Some(x) => Some(x@),
            None => None,
        }),
{
    match s {
        Some(x) => {
            let t = x.as_str();
            if str_eq(t, "c") || str_eq(t, "C") {
                Language::C
            } else if str_eq(t, "cpp") || str_eq(t, "c++") || str_eq(t, "Cpp") {
                Language::Cpp
            } else if str_eq(t, "rust") || str_eq(t, "Rust") {
                Language::Rust
            } else if str_eq(t, "python") || str_eq(t, "Python") {
                Language::Python
            } else {
                Language::C
            }
        },
        None => Language::C,
    }
}

fn push_some(out: &mut Vec<String>, x: Option<String>)
    ensures
        final(out).deep_view() == old(out).deep_view() + match x {
            Some(s) => seq![s@],
            None => Seq::<Seq<char>>::empty(),
        },
{
    match x {
        Some(s) => crate::text::push_piece_string(out, s),
        None => {
            assert(out.deep_view() + Seq::<Seq<char>>::empty() =~= out.deep_view());
        },
    }
}

impl SemanticSpec {
    /// Reads a specification from an agent's JSON: its language, the terms
    /// to check (each component's file, the file's extension and its kind,
    /// then the node mapping's keys and string values), and its components'
    /// names, files and kinds, and its build system. The error is the JSON
    /// parser's.
    pub fn from_llm_json(json: &str) -> (r: Result<SemanticSpec, String>)
        ensures
            match r {
                Ok(s) => json_result(json@) matches Ok(v) && spec_view(s) == spec_from_json(v),
                Err(e) => json_result(json@) == Err::<JsonValue, Seq<char>>(e@),
            },
    {
        let value = match parse_json_checked(json) {
            Ok(v) => v,
            Err(e) => {
                return Err(e);
            },
        };
        let language = language_from(value.get_str("language"));
        let mut extracted_terms: Vec<String> = Vec::new();
        let mut component_names: Vec<String> = Vec::new();
        let mut file_paths: Vec<String> = Vec::new();
        let mut build_systems: Vec<String> = Vec::new();
        let mut task_vocabulary: Vec<String> = Vec::new();
        let empty: Vec<JsonValue> = Vec::new();
        let items: &Vec<JsonValue> = match value.get("components") {
            Some(JsonValue::Array(a)) => a,
            _ => &empty,
        };
        assert(items@ == components_of(value));
        let mut i: usize = 0;
        while i < items.len()
            invariant
                i <= items@.len(),
                extracted_terms.deep_view() == components_terms(items@.take(i as int)),
                component_names.deep_view() == members_of(items@.take(i as int), "name"@),
                file_paths.deep_view() == members_of(items@.take(i as int), "file"@),
                task_vocabulary.deep_view() == members_of(items@.take(i as int), "kind"@),
            decreases items.len() - i,
        {
            let comp = &items[i];
            assert(items@.take(i + 1).drop_last() =~= items@.take(i as int));
            assert(items@.take(i + 1).last() == *comp);
            push_some(&mut component_names, comp.get_str("name"));
            let ghost t0 = extracted_terms.deep_view();
            match comp.get_str("file") {
                Some(f) => {
                    crate::text::push_piece_string(&mut file_paths, owned(f.as_str()));
                    crate::text::push_piece_string(&mut extracted_terms, owned(f.as_str()));
                    match path_extension(f.as_str()) {
                        Some(e) => {
                            let mut d = chars_of(".");
                            push_str(&mut d, e.as_str());
                            crate::text::push_piece_string(&mut extracted_terms, string_of(&d));
                        },
                        None => {},
                    }
                },
                None => {},
            }
            let ghost t1 = extracted_terms.deep_view();
            let k = comp.get_str("kind");
            match k {
                Some(kind) => {
                    crate::text::push_piece_string(&mut task_vocabulary, owned(kind.as_str()));
                    crate::text::push_piece_string(&mut extracted_terms, kind);
                },
                None => {},
            }
            assert(extracted_terms.deep_view() =~= t0 + component_terms(*comp));
            assert(component_names.deep_view() =~= members_of(items@.take(i + 1), "name"@));
            assert(file_paths.deep_view() =~= members_of(items@.take(i + 1), "file"@));
            assert(task_vocabulary.deep_view() =~= members_of(items@.take(i + 1), "kind"@));
            i += 1;
        }
        assert(items@.take(items@.len() as int) =~= items@);
        push_some(&mut build_systems, value.get_str("build_system"));
        assert(build_systems.deep_view() =~= match str_member(value, "build_system"@) {
            Some(b) => seq![b],
            None => Seq::<Seq<char>>::empty(),
        });
        let ghost head = extracted_terms.deep_view();
        let no_members: Vec<(String, JsonValue)> = Vec::new();
        let ms: &Vec<(String, JsonValue)> = match value.get("node_mapping") {
            Some(JsonValue::Object(m)) => m,
            _ => &no_members,
        };
        assert(ms@ == mapping_of(value));
        let mut j: usize = 0;
        assert(head + mapping_terms(ms@.take(0)) =~= head);
        while j < ms.len()
            invariant
                j <= ms@.len(),
                extracted_terms.deep_view() == head + mapping_terms(ms@.take(j as int)),
            decreases ms.len() - j,
        {
            assert(ms@.take(j + 1).drop_last() =~= ms@.take(j as int));
            assert(ms@.take(j + 1).last() == ms@[j as int]);
            let ghost before = extracted_terms.deep_view();
            crate::text::push_piece_string(&mut extracted_terms, owned(ms[j].0.as_str()));
            match &ms[j].1 {
                JsonValue::Str(s) => crate::text::push_piece_string(&mut extracted_terms, owned(s.as_str())),
                _ => {},
            }
            assert(extracted_terms.deep_view() =~= head + mapping_terms(ms@.take(j + 1)));
            j += 1;
        }
        assert(ms@.take(ms@.len() as int) =~= ms@);
        Ok(SemanticSpec { language, extracted_terms, component_names, file_paths, build_systems, task_vocabulary })
    }
}

// ---------------------------------------------------------------------------
// The check
// ---------------------------------------------------------------------------

/// `text` contains one of the words, compared lowercased.
pub open spec fn mentions(text: Seq<char>, words: Seq<Seq<char>>) -> bool {
    exists|k: int| 0 <= k < words.len() && contains(lowercase(text), lowercase(#[trigger] words[k]))
}

/// The first term that mentions a forbidden word.
pub open spec fn first_mentioning(terms: Seq<Seq<char>>, words: Seq<Seq<char>>) -> Option<Seq<char>>
    decreases terms.len(),
{
    if terms.len() == 0 {
        None
    } else if mentions(terms[0], words) {
        Some(terms[0])
    } else {
        first_mentioning(terms.drop_first(), words)
    }
}

/// The first item that mentions none of the allowed words (none is checked
/// where nothing is listed as allowed).
pub open spec fn first_outside(items: Seq<Seq<char>>, allowed: Seq<Seq<char>>) -> Option<Seq<char>>
    decreases items.len(),
{
    if items.len() == 0 || allowed.len() == 0 {
        None
    } else if !mentions(items[0], allowed) {
        Some(items[0])
    } else {
        first_outside(items.drop_first(), allowed)
    }
}

/// The verdict on a specification: a forbidden term first, then a build
/// system, then a task kind the language does not allow.
pub open spec fn semantic_verdict(s: SemanticSpec) -> Result<(), (int, Seq<char>, Language)> {
    let l = s.language;
    match first_mentioning(s.extracted_terms.deep_view(), forbidden_words(l)) {
        Some(t) => Err((0, t, l)),
        None => match first_outside(s.build_systems.deep_view(), build_words(l)) {
            Some(b) => Err((2, b, l)),
            None => match first_outside(s.task_vocabulary.deep_view(), task_words(l)) {
                Some(k) => Err((3, k, l)),
                None => Ok(()),
            },
        },
    }
}

fn mentions_exec(text: &str, words: &Vec<&'static str>) -> (b: bool)
    ensures
        b == mentions(text@, texts(words@)),
{
    let t = to_lower(text);
    let mut k: usize = 0;
    while k < words.len()
        invariant
            k <= words@.len(),
            t@ == lowercase(text@),
            forall|j: int| 0 <= j < k ==> !contains(lowercase(text@), lowercase(#[trigger] texts(words@)[j])),
        decreases words.len() - k,
    {
        let w = to_lower(words[k]);
        if str_contains(t.as_str(), w.as_str()) {
            assert(contains(lowercase(text@), lowercase(texts(words@)[k as int])));
            return true;
        }
        k += 1;
    }
    false
}

fn first_mentioning_exec(terms: &Vec<String>, words: &Vec<&'static str>) -> (r: Option<String>)
    ensures
        match r {
            Some(s) => first_mentioning(terms.deep_view(), texts(words@)) == Some(s@),
            None => first_mentioning(terms.deep_view(), texts(words@)) is None,
        },
{
    let ghost tv = terms.deep_view();
    let mut i: usize = 0;
    assert(tv.skip(0) =~= tv);
    while i < terms.len()
        invariant
            tv == terms.deep_view(),
            i <= tv.len(),
            first_mentioning(tv, texts(words@)) == first_mentioning(tv.skip(i as int), texts(words@)),
        decreases terms.len() - i,
    {
        assert(tv.skip(i as int)[0] == terms@[i as int]@);
        assert(tv.skip(i as int).drop_first() =~= tv.skip(i + 1));
        if mentions_exec(terms[i].as_str(), words) {
            return Some(owned(terms[i].as_str()));
        }
        i += 1;
    }
    None
}

fn first_outside_exec(items: &Vec<String>, allowed: &Vec<&'static str>) -> (r: Option<String>)
    ensures
        match r {
            Some(s) => first_outside(items.deep_view(), texts(allowed@)) == Some(s@),
            None => first_outside(items.deep_view(), texts(allowed@)) is None,
        },
{
    if allowed.len() == 0 {
        return None;
    }
    let ghost iv = items.deep_view();
    let mut i: usize = 0;
    assert(iv.skip(0) =~= iv);
    while i < items.len()
        invariant
            iv == items.deep_view(),
            allowed@.len() > 0,
            i <= iv.len(),
            first_outside(iv, texts(allowed@)) == first_outside(iv.skip(i as int), texts(allowed@)),
        decreases items.len() - i,
    {
        assert(iv.skip(i as int)[0] == items@[i as int]@);
        assert(iv.skip(i as int).drop_first() =~= iv.skip(i + 1));
        if !mentions_exec(items[i].as_str(), allowed) {
            return Some(owned(items[i].as_str()));
        }
        i += 1;
    }
    None
}

/// Checks a specification against the ontology of its language.
pub struct SpecSemanticValidator;

impl SpecSemanticValidator {
    /// The first forbidden term, else the first build system, else the first
    /// task kind that the language does not allow, is the violation.
    pub fn validate(spec: &SemanticSpec) -> (r: Result<(), SemanticViolation>)
        ensures
            match r {
                Ok(()) => semantic_verdict(*spec) is Ok,
                Err(v) => semantic_verdict(*spec) == Err::<(), (int, Seq<char>, Language)>(violation_view(v)),
            },
    {
        let ontology = get_ontology(spec.language);
        let forbidden = ontology.forbidden_vocabulary();
        match first_mentioning_exec(&spec.extracted_terms, &forbidden) {
            Some(term) => {
                return Err(SemanticViolation::ForbiddenVocabulary { term, language: spec.language });
            },
            None => {},
        }
        let systems = ontology.allowed_build_systems();
        match first_outside_exec(&spec.build_systems, &systems) {
            Some(system) => {
                return Err(SemanticViolation::InvalidBuildSystem { system, language: spec.language });
            },
            None => {},
        }
        let tasks = ontology.allowed_task_vocabulary();
        match first_outside_exec(&spec.task_vocabulary, &tasks) {
            Some(task) => Err(SemanticViolation::InvalidTaskVocabulary { task, language: spec.language }),
            None => Ok(()),
        }
    }
}

} // verus!
