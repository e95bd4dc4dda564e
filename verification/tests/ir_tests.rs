use axon::canonicalizer::{canonical_ir_name, canonicalize_path};
use axon::linker::DependencyGraph;
use axon::ordmap::{StrMap, StrSet};
use axon::parser::to_markdown;
use axon::schema::{Component, ComponentTier, ComponentType, OwnershipMetadata, ProjectIR};
use axon::validator::validate_ir;
use axon::create_empty_ir;

fn component(name: &str, file_path: &str, imports: &[&str]) -> Component {
    let mut set = StrSet::new();
    for i in imports {
        set.insert(i.to_string());
    }
    Component {
        name: name.to_string(),
        file_path: file_path.to_string(),
        functions: StrMap::new(),
        imports: set,
        associated_files: Vec::new(),
        is_entrypoint: false,
        data_models: Vec::new(),
        metadata: StrMap::new(),
        allowed_includes: StrSet::new(),
        forbidden_includes: StrSet::new(),
        forbidden_symbols: StrSet::new(),
        tier: ComponentTier::Core,
        is_blocking: true,
        locked: false,
        component_type: ComponentType::ProjectModule,
        subsystem: None,
        dll_imports: StrSet::new(),
        ownership: OwnershipMetadata::generator_patchable(),
    }
}

#[test]
fn test_canonicalize_path() {
    assert_eq!(canonicalize_path("/main.c"), "main.c");
    assert_eq!(canonicalize_path("./main.c"), "main.c");
    assert_eq!(canonicalize_path("MAIN.C"), "main.c");
}

#[test]
fn test_canonical_ir_name() {
    assert_eq!(canonical_ir_name("database.c"), "database");
    assert_eq!(canonical_ir_name("path/to/calculator.cpp"), "calculator");
}

#[test]
fn test_create_empty_ir() {
    let ir = create_empty_ir();
    assert!(ir.components.is_empty());
}

#[test]
fn test_canonicalizer() {
    assert_eq!(canonicalize_path("/main.c"), "main.c");
    assert_eq!(canonical_ir_name("path/to/test.c"), "test");
}

#[test]
fn test_dependency_graph() {
    let mut ir = ProjectIR::new();
    ir.components.insert("a.c".to_string(), component("A", "a.c", &["b.c"]));
    ir.components.insert("b.c".to_string(), component("B", "b.c", &["a.c"]));

    let graph = DependencyGraph::from_ir(&ir);
    assert!(graph.nodes.contains("a.c"));
    assert!(graph.nodes.contains("b.c"));
}

#[test]
fn test_to_markdown() {
    let ir = ProjectIR::new();
    let md = to_markdown(&ir, "test-project");
    assert!(md.contains("test-project"));
}

#[test]
fn test_validate_empty_component() {
    let mut ir = ProjectIR::new();
    ir.components.insert("".to_string(), component("", "", &[]));
    let result = validate_ir(&ir);
    assert!(result.is_err());
}

#[test]
fn test_validate_empty_functions() {
    let mut ir = ProjectIR::new();
    ir.components.insert("test.c".to_string(), component("test", "test.c", &[]));
    let result = validate_ir(&ir);
    assert!(result.is_err());
}
