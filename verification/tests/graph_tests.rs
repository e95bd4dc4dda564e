use axon::linker::{link_dependencies, DependencyGraph};
use axon::ordmap::{StrMap, StrSet};
use axon::schema::{
    Component, ComponentTier, ComponentType, Function, Language, OwnershipMetadata, ProjectIR,
};
use axon::spec_parser::parse_spec;
use axon::topology::ProjectTopology;

fn set(items: &[&str]) -> StrSet {
    let mut s = StrSet::new();
    for i in items {
        s.insert(i.to_string());
    }
    s
}

fn component(file_path: &str, imports: &[&str], calls: &[&str], entry: bool) -> Component {
    let mut functions = StrMap::new();
    if !calls.is_empty() {
        functions.insert(
            "f".to_string(),
            Function {
                name: "f".to_string(),
                signature: "f()".to_string(),
                dependencies: set(calls),
                body_hash: None,
                locked: false,
            },
        );
    }
    Component {
        name: file_path.to_string(),
        file_path: file_path.to_string(),
        functions,
        imports: set(imports),
        associated_files: Vec::new(),
        is_entrypoint: entry,
        data_models: Vec::new(),
        metadata: StrMap::new(),
        allowed_includes: StrSet::new(),
        forbidden_includes: StrSet::new(),
        forbidden_symbols: StrSet::new(),
        tier: ComponentTier::Core,
        is_blocking: true,
        locked: false,
        component_type: ComponentType::ProjectModule,
        subsystem: None,
        dll_imports: StrSet::new(),
        ownership: OwnershipMetadata::generator_patchable(),
    }
}

fn chain_ir() -> ProjectIR {
    let mut ir = ProjectIR::new();
    ir.components.insert("a.c".to_string(), component("a.c", &[], &["b.c"], false));
    ir.components.insert("b.c".to_string(), component("b.c", &[], &["c.c"], false));
    ir.components.insert("c.c".to_string(), component("c.c", &[], &[], false));
    ir
}

#[test]
fn chain_links_and_sorts_dependents_first() {
    let ir = chain_ir();
    let graph = link_dependencies(&ir).unwrap();
    assert_eq!(graph.topological_sort(), vec!["a.c".to_string(), "b.c".to_string(), "c.c".to_string()]);
    assert!(graph.detect_cycles().is_none());
}

#[test]
fn impact_follows_dependencies() {
    let graph = DependencyGraph::from_ir(&chain_ir());
    let from_a = graph.compute_impact(vec!["a.c".to_string()]);
    assert_eq!(from_a.len(), 3);
    assert!(from_a.contains("a.c") && from_a.contains("b.c") && from_a.contains("c.c"));
    let from_c = graph.compute_impact(vec!["c.c".to_string()]);
    assert_eq!(from_c.len(), 1);
    assert!(from_c.contains("c.c"));
}

#[test]
fn cycle_is_refused_with_its_path() {
    let mut ir = ProjectIR::new();
    ir.components.insert("a.c".to_string(), component("a.c", &[], &["b.c"], false));
    ir.components.insert("b.c".to_string(), component("b.c", &[], &["a.c"], false));
    let err = match link_dependencies(&ir) {
        Ok(_) => panic!("a cycle must be refused"),
        Err(e) => e,
    };
    assert!(
        err == "Circular dependency detected: [\"a.c\", \"b.c\", \"a.c\"]"
            || err == "Circular dependency detected: [\"b.c\", \"a.c\", \"b.c\"]",
        "{}",
        err
    );
    let graph = DependencyGraph::from_ir(&ir);
    assert!(graph.topological_sort().is_empty());
}

fn rust_components() -> StrMap<Component> {
    let mut cs = StrMap::new();
    cs.insert("src/main.rs".to_string(), component("src/main.rs", &["src/util.rs"], &[], false));
    cs.insert("src/util.rs".to_string(), component("src/util.rs", &[], &[], false));
    cs.insert("src/loop.rs".to_string(), component("src/loop.rs", &["src/loop.rs"], &[], false));
    cs
}

#[test]
fn rust_topology_orders_leaves_first_and_reports_self_imports() {
    let t = ProjectTopology::from_components(&rust_components(), Language::Rust);
    assert_eq!(t.build_order, vec!["src/util.rs".to_string(), "src/main.rs".to_string()]);
    assert_eq!(t.cycles, vec![vec!["src/loop.rs".to_string()]]);
    let main = t.modules.get("src/main.rs").unwrap();
    assert!(main.meta.is_crate_entry);
    let util = t.modules.get("src/util.rs").unwrap();
    assert!(util.depended_by.contains("src/main.rs"));
    assert_eq!(
        t.validate_rust(),
        vec!["Rust topology: circular module dependencies detected: [[\"src/loop.rs\"]]".to_string()]
    );
}

#[test]
fn rust_topology_entry_count() {
    let mut none = StrMap::new();
    none.insert("src/util.rs".to_string(), component("src/util.rs", &[], &[], false));
    let t = ProjectTopology::from_components(&none, Language::Rust);
    assert_eq!(t.validate_rust(), vec!["Rust topology: no crate entry point (main.rs or lib.rs) found".to_string()]);

    let mut two = StrMap::new();
    two.insert("src/main.rs".to_string(), component("src/main.rs", &[], &[], false));
    two.insert("src/lib.rs".to_string(), component("src/lib.rs", &[], &[], false));
    let t = ProjectTopology::from_components(&two, Language::Rust);
    assert_eq!(
        t.validate_rust(),
        vec!["Rust topology: multiple crate entries detected: [\"src/lib.rs\", \"src/main.rs\"]".to_string()]
    );
}

#[test]
fn c_topology_owners_and_orphans() {
    let mut cs = StrMap::new();
    cs.insert("a.h".to_string(), component("a.h", &[], &[], false));
    cs.insert("a.c".to_string(), component("a.c", &["a.h"], &[], true));
    cs.insert("b.h".to_string(), component("b.h", &[], &[], false));
    let t = ProjectTopology::from_components(&cs, Language::C);
    assert_eq!(t.build_order, vec!["a.h".to_string(), "b.h".to_string(), "a.c".to_string()]);
    let ah = t.modules.get("a.h").unwrap();
    assert!(ah.meta.is_header);
    assert_eq!(ah.meta.owner_translation_unit.as_deref(), Some("a.c"));
    assert!(t.modules.get("a.c").unwrap().meta.is_compile_entry);
    assert_eq!(t.validate_c(), vec!["C topology: orphan header with no owner or consumer: b.h".to_string()]);
}

#[test]
fn spec_headings_name_components_and_language() {
    let ir = parse_spec("# C++ project\n\n## database.c module\n");
    assert_eq!(ir.language, Language::Cpp);
    assert_eq!(ir.nodes.len(), 1);
    assert_eq!(ir.nodes[0].id, "DATABASE");
    assert_eq!(ir.nodes[0].tier, "component");
    assert_eq!(ir.nodes[0].file_path, "database.c");
    assert_eq!(ir.nodes[0].description, "database.c module");
}

#[test]
fn flattened_mapping_table_is_read_by_pattern() {
    let ir = parse_spec("## Node Mapping\n\nNodeTypeTarget File DB_CHECKcoresrc/db.cx\n");
    assert_eq!(ir.nodes.len(), 1);
    assert_eq!(ir.nodes[0].id, "DB_CHECK");
    assert_eq!(ir.nodes[0].tier, "core");
    assert_eq!(ir.nodes[0].file_path, "src/db.c");
    assert_eq!(ir.nodes[0].description, "");
    assert_eq!(ir.interfaces.len(), 1);
    assert_eq!(ir.interfaces[0].node_id, "DB_CHECK");
    assert_eq!(ir.interfaces[0].symbol, "x");
    assert_eq!(ir.interfaces[0].signature, "x");
}

#[test]
fn mutual_imports_are_cycles_and_left_out_of_the_order() {
    let mut cs = StrMap::new();
    cs.insert("a.c".to_string(), component("a.c", &["b.c"], &[], false));
    cs.insert("b.c".to_string(), component("b.c", &["a.c"], &[], false));
    let t = ProjectTopology::from_components(&cs, Language::C);
    assert!(t.build_order.is_empty());
    assert_eq!(t.cycles, vec![vec!["a.c".to_string()], vec!["b.c".to_string()]]);
    assert_eq!(
        t.validate_c(),
        vec!["C topology: circular header dependencies detected: [[\"a.c\"], [\"b.c\"]]".to_string()]
    );
}

#[test]
fn allowed_includes_are_dependencies() {
    let mut cs = StrMap::new();
    let mut a = component("a.c", &[], &[], false);
    a.allowed_includes = set(&["b.h"]);
    cs.insert("a.c".to_string(), a);
    cs.insert("b.h".to_string(), component("b.h", &[], &[], false));
    let t = ProjectTopology::from_components(&cs, Language::C);
    assert!(t.modules.get("a.c").unwrap().depends_on.contains("b.h"));
    assert!(t.modules.get("b.h").unwrap().depended_by.contains("a.c"));
    assert_eq!(t.build_order, vec!["b.h".to_string(), "a.c".to_string()]);
}
