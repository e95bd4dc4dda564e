use axon::schema::Language;
use axon::semantic::{get_ontology, SemanticOntology, SemanticSpec, SemanticToken, SemanticViolation, SpecSemanticValidator};

#[test]
fn test_rust_forbids_header() {
    let json = r#"{
        "language": "rust",
        "components": [{"name": "foo", "kind": "HeaderDecl"}]
    }"#;
    let spec = SemanticSpec::from_llm_json(json).unwrap();
    let result = SpecSemanticValidator::validate(&spec);
    assert!(result.is_err());
}

#[test]
fn test_c_allows_header() {
    let json = r#"{
        "language": "c",
        "components": [{"name": "foo", "kind": "HeaderDecl"}]
    }"#;
    let spec = SemanticSpec::from_llm_json(json).unwrap();
    let result = SpecSemanticValidator::validate(&spec);
    assert!(result.is_ok());
}

#[test]
fn test_python_forbids_cargo() {
    let json = r#"{
        "language": "python",
        "build_system": "cargo",
        "components": []
    }"#;
    let spec = SemanticSpec::from_llm_json(json).unwrap();
    let result = SpecSemanticValidator::validate(&spec);
    assert!(result.is_err());
}

#[test]
fn rust_rejects_header_decl() {
    let json = r#"{
        "language": "rust",
        "components": [{"name": "foo", "kind": "HeaderDecl"}]
    }"#;
    let spec = SemanticSpec::from_llm_json(json).unwrap();
    let result = SpecSemanticValidator::validate(&spec);
    assert!(result.is_err(), "Rust should reject HeaderDecl vocabulary");
}

#[test]
fn rust_rejects_cmake() {
    let json = r#"{
        "language": "rust",
        "build_system": "cmake",
        "components": [{"name": "main", "file": "main.rs"}]
    }"#;
    let spec = SemanticSpec::from_llm_json(json).unwrap();
    let result = SpecSemanticValidator::validate(&spec);
    assert!(result.is_err(), "Rust should reject CMake build system");
}

#[test]
fn rust_rejects_c_header() {
    let json = r#"{
        "language": "rust",
        "components": [{"name": "header", "file": "include/foo.h"}]
    }"#;
    let spec = SemanticSpec::from_llm_json(json).unwrap();
    let result = SpecSemanticValidator::validate(&spec);
    assert!(result.is_err(), "Rust should reject .h files");
}

#[test]
fn rust_allows_module_decl() {
    let json = r#"{
        "language": "rust",
        "components": [{"name": "utils", "kind": "ModuleDecl"}]
    }"#;
    let spec = SemanticSpec::from_llm_json(json).unwrap();
    let result = SpecSemanticValidator::validate(&spec);
    assert!(result.is_ok(), "Rust should allow ModuleDecl vocabulary");
}

#[test]
fn rust_allows_cargo() {
    let json = r#"{
        "language": "rust",
        "build_system": "cargo",
        "components": [{"name": "main", "file": "main.rs"}]
    }"#;
    let spec = SemanticSpec::from_llm_json(json).unwrap();
    let result = SpecSemanticValidator::validate(&spec);
    assert!(result.is_ok(), "Rust should allow cargo build system");
}

#[test]
fn c_allows_header_decl() {
    let json = r#"{
        "language": "c",
        "components": [{"name": "foo", "kind": "HeaderDecl"}]
    }"#;
    let spec = SemanticSpec::from_llm_json(json).unwrap();
    let result = SpecSemanticValidator::validate(&spec);
    assert!(result.is_ok(), "C should allow HeaderDecl vocabulary (permissive baseline)");
}

#[test]
fn c_allows_cmake() {
    let json = r#"{
        "language": "c",
        "build_system": "cmake",
        "components": [{"name": "main", "file": "main.c"}]
    }"#;
    let spec = SemanticSpec::from_llm_json(json).unwrap();
    let result = SpecSemanticValidator::validate(&spec);
    assert!(result.is_ok(), "C should allow cmake build system");
}

#[test]
fn c_allows_c_header() {
    let json = r#"{
        "language": "c",
        "components": [{"name": "header", "file": "include/foo.h"}]
    }"#;
    let spec = SemanticSpec::from_llm_json(json).unwrap();
    let result = SpecSemanticValidator::validate(&spec);
    assert!(result.is_ok(), "C should allow .h files");
}

#[test]
fn python_rejects_cargo() {
    let json = r#"{
        "language": "python",
        "build_system": "cargo",
        "components": [{"name": "main", "file": "main.py"}]
    }"#;
    let spec = SemanticSpec::from_llm_json(json).unwrap();
    let result = SpecSemanticValidator::validate(&spec);
    assert!(result.is_err(), "Python should reject cargo build system");
}

#[test]
fn python_rejects_cmake() {
    let json = r#"{
        "language": "python",
        "build_system": "cmake",
        "components": [{"name": "main", "file": "main.py"}]
    }"#;
    let spec = SemanticSpec::from_llm_json(json).unwrap();
    let result = SpecSemanticValidator::validate(&spec);
    assert!(result.is_err(), "Python should reject cmake build system");
}

#[test]
fn python_rejects_header_decl() {
    let json = r#"{
        "language": "python",
        "components": [{"name": "foo", "kind": "HeaderDecl"}]
    }"#;
    let spec = SemanticSpec::from_llm_json(json).unwrap();
    let result = SpecSemanticValidator::validate(&spec);
    assert!(result.is_err(), "Python should reject C vocabulary");
}

#[test]
fn python_rejects_mod_rs() {
    let json = r#"{
        "language": "python",
        "components": [{"name": "module", "file": "mod.rs"}]
    }"#;
    let spec = SemanticSpec::from_llm_json(json).unwrap();
    let result = SpecSemanticValidator::validate(&spec);
    assert!(result.is_err(), "Python should reject mod.rs");
}

#[test]
fn python_allows_python() {
    let json = r#"{
        "language": "python",
        "build_system": "python",
        "components": [{"name": "main", "file": "main.py"}]
    }"#;
    let spec = SemanticSpec::from_llm_json(json).unwrap();
    let result = SpecSemanticValidator::validate(&spec);
    assert!(result.is_ok(), "Python should allow python build system");
}

#[test]
fn cpp_allows_cmake() {
    let json = r#"{
        "language": "cpp",
        "build_system": "cmake",
        "components": [{"name": "main", "file": "main.cpp"}]
    }"#;
    let spec = SemanticSpec::from_llm_json(json).unwrap();
    let result = SpecSemanticValidator::validate(&spec);
    assert!(result.is_ok(), "Cpp should allow cmake build system");
}

#[test]
fn cpp_allows_header() {
    let json = r#"{
        "language": "cpp",
        "components": [{"name": "foo", "kind": "HeaderDecl"}]
    }"#;
    let spec = SemanticSpec::from_llm_json(json).unwrap();
    let result = SpecSemanticValidator::validate(&spec);
    assert!(result.is_ok(), "Cpp should allow HeaderDecl vocabulary");
}

#[test]
fn spec_terms_come_from_files_kinds_and_mapping() {
    let json = r#"{
        "language": "Rust",
        "build_system": "cargo",
        "components": [{"name": "main", "file": "src/main.rs", "kind": "ModuleImpl"}, {"name": "loose"}],
        "node_mapping": {"A": "src/a.rs", "B": 3}
    }"#;
    let spec = SemanticSpec::from_llm_json(json).unwrap();
    assert_eq!(spec.language, Language::Rust);
    assert_eq!(spec.extracted_terms, vec!["src/main.rs", ".rs", "ModuleImpl", "A", "src/a.rs", "B"]);
    assert_eq!(spec.component_names, vec!["main", "loose"]);
    assert_eq!(spec.file_paths, vec!["src/main.rs"]);
    assert_eq!(spec.build_systems, vec!["cargo"]);
    assert_eq!(spec.task_vocabulary, vec!["ModuleImpl"]);
}

#[test]
fn unknown_language_is_c_and_bad_json_is_an_error() {
    let spec = SemanticSpec::from_llm_json(r#"{"language": "cobol"}"#).unwrap();
    assert_eq!(spec.language, Language::C);
    assert!(SemanticSpec::from_llm_json("{not json").is_err());
}

#[test]
fn violations_name_the_offending_term() {
    let spec = SemanticSpec::from_llm_json(r#"{"language": "rust", "components": [{"name": "x", "file": "include/foo.h"}]}"#).unwrap();
    match SpecSemanticValidator::validate(&spec) {
        Err(SemanticViolation::ForbiddenVocabulary { term, language }) => {
            assert_eq!(term, "include/foo.h");
            assert_eq!(language, Language::Rust);
        }
        _ => panic!("expected a forbidden term"),
    }
    let spec = SemanticSpec::from_llm_json(r#"{"language": "python", "build_system": "make"}"#).unwrap();
    let err = SpecSemanticValidator::validate(&spec).unwrap_err();
    assert_eq!(err.to_string(), "Invalid build system 'make' for language Python");
    let spec = SemanticSpec::from_llm_json(r#"{"language": "c", "components": [{"name": "x", "kind": "Widget"}]}"#).unwrap();
    let err = SpecSemanticValidator::validate(&spec).unwrap_err();
    assert_eq!(err.to_string(), "Invalid task vocabulary 'Widget' for language C");
}

#[test]
fn ontology_tokens_and_words() {
    let rust = get_ontology(Language::Rust);
    assert_eq!(rust.allowed_build_systems(), vec!["cargo"]);
    assert_eq!(rust.forbidden_tokens(), vec![SemanticToken::HeaderDecl, SemanticToken::SourceImpl, SemanticToken::CMake]);
    assert_eq!(SemanticToken::CMake.as_str(), "cmake");
    assert_eq!(SemanticToken::HeaderDecl.as_str(), "HeaderDecl");
    let c = get_ontology(Language::C);
    assert!(c.forbidden_vocabulary().is_empty());
    assert_eq!(get_ontology(Language::Cpp).allowed_build_systems().len(), 6);
}
