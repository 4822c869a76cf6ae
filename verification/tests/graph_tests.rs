use mako::module_graph::{Dependency, Module, ModuleGraph, ModuleId};

fn mid(s: &str) -> ModuleId {
    ModuleId { id: s.to_string() }
}

fn module(s: &str, is_entry: bool) -> Module {
    Module {
        id: mid(s),
        is_entry,
        ast: None,
    }
}

fn dep(source: &str, order: u64) -> Dependency {
    Dependency {
        source: source.to_string(),
        order,
    }
}

#[test]
fn graph_registration_and_lookup() {
    let mut g = ModuleGraph::new();
    g.add_module(module("a.js", true));
    g.add_module(module("b.js", false));
    assert!(g.has_module(&mid("a.js")));
    assert!(g.has_module(&mid("b.js")));
    assert!(!g.has_module(&mid("c.js")));
    let a = g.get_module(&mid("a.js")).unwrap();
    assert_eq!(a.id.id, "a.js");
    assert!(a.is_entry);
    assert!(g.get_module(&mid("c.js")).is_none());
    let ids: Vec<String> = g.get_module_ids().into_iter().map(|m| m.id).collect();
    assert_eq!(ids, vec!["a.js".to_string(), "b.js".to_string()]);
    let entries: Vec<String> = g.get_entry_modules().into_iter().map(|m| m.id).collect();
    assert_eq!(entries, vec!["a.js".to_string()]);
}

#[test]
fn graph_dependencies_sorted_by_order() {
    let mut g = ModuleGraph::new();
    g.add_module(module("a.js", true));
    g.add_module(module("b.js", false));
    g.add_module(module("c.js", false));
    g.add_module(module("d.js", false));
    g.add_dependency(&mid("a.js"), &mid("d.js"), dep("./d", 2)).unwrap();
    g.add_dependency(&mid("a.js"), &mid("b.js"), dep("./b", 0)).unwrap();
    g.add_dependency(&mid("a.js"), &mid("c.js"), dep("./c", 1)).unwrap();
    let deps = g.get_dependencies(&mid("a.js")).unwrap();
    let listed: Vec<(String, u64)> = deps
        .into_iter()
        .map(|(m, d)| (m.id, d.order))
        .collect();
    assert_eq!(
        listed,
        vec![
            ("b.js".to_string(), 0),
            ("c.js".to_string(), 1),
            ("d.js".to_string(), 2)
        ]
    );
    // Stable across repeated calls without intervening mutation.
    let again: Vec<(String, u64)> = g
        .get_dependencies(&mid("a.js"))
        .unwrap()
        .into_iter()
        .map(|(m, d)| (m.id, d.order))
        .collect();
    assert_eq!(
        again,
        vec![
            ("b.js".to_string(), 0),
            ("c.js".to_string(), 1),
            ("d.js".to_string(), 2)
        ]
    );
}

#[test]
fn graph_dependency_upsert_overwrites() {
    let mut g = ModuleGraph::new();
    g.add_module(module("a.js", false));
    g.add_module(module("b.js", false));
    g.add_dependency(&mid("a.js"), &mid("b.js"), dep("./b", 5)).unwrap();
    g.add_dependency(&mid("a.js"), &mid("b.js"), dep("./b2", 7)).unwrap();
    let deps = g.get_dependencies(&mid("a.js")).unwrap();
    assert_eq!(deps.len(), 1);
    assert_eq!(deps[0].1.source, "./b2");
    assert_eq!(deps[0].1.order, 7);
}

#[test]
fn graph_unknown_id_is_detectable_error() {
    let mut g = ModuleGraph::new();
    g.add_module(module("a.js", false));
    match g.add_dependency(&mid("a.js"), &mid("nope.js"), dep("./n", 0)) {
        Ok(_) => panic!("an unknown endpoint must be rejected"),
        Err(e) => assert_eq!(
            e.message(),
            "module id 'nope.js' not found in the module graph"
        ),
    }
    match g.get_dependencies(&mid("nope.js")) {
        Ok(_) => panic!("an unknown id must be rejected"),
        Err(e) => assert_eq!(
            e.message(),
            "module id 'nope.js' not found in the module graph"
        ),
    }
}

#[test]
fn graph_module_holds_syntax_tree() {
    let mut g = ModuleGraph::new();
    let ast = mako::parser::parse("log(1)").unwrap();
    g.add_module(Module {
        id: mid("a.js"),
        is_entry: false,
        ast: Some(ast),
    });
    let m = g.get_module(&mid("a.js")).unwrap();
    let printed = mako::printer::print_module(m.ast.as_ref().unwrap());
    assert_eq!(printed, "log(1);\n");
}

#[test]
fn graph_update_module_ast() {
    let mut g = ModuleGraph::new();
    g.add_module(module("a.js", false));
    let ast = mako::parser::parse("log(2)").unwrap();
    assert!(g.update_module_ast(&mid("a.js"), Some(ast)));
    assert!(!g.update_module_ast(&mid("missing.js"), None));
    let m = g.get_module(&mid("a.js")).unwrap();
    assert_eq!(
        mako::printer::print_module(m.ast.as_ref().unwrap()),
        "log(2);\n"
    );
}
