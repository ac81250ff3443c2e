use grafium_core::registry::{GraphRegistry, GraphType, RegisteredGraph, RegistryError};

fn graph(id: &str, cross: bool) -> RegisteredGraph {
    RegisteredGraph {
        id: id.to_string(),
        name: format!("Graph {id}"),
        path: format!("/graphs/{id}"),
        graph_type: GraphType::Reference,
        last_indexed: None,
        page_count: None,
        vector_count: None,
        cross_searchable: cross,
        description: None,
    }
}

#[test]
fn listing_returns_each_registered_graph_once() {
    let mut reg = GraphRegistry::new("/tmp/registry.json");
    assert!(reg.register(graph("a", true), true).is_ok());
    assert!(reg.register(graph("b", false), true).is_ok());
    assert!(reg.register(graph("c", true), true).is_ok());
    let mut again = graph("a", false);
    again.name = "Renamed".to_string();
    assert!(reg.register(again, true).is_ok());
    let ids: Vec<String> = reg.list().iter().map(|g| g.id.clone()).collect();
    assert_eq!(ids.len(), 3);
    for id in ["a", "b", "c"] {
        assert_eq!(ids.iter().filter(|x| x.as_str() == id).count(), 1);
    }
    assert_eq!(reg.get("a").unwrap().name, "Renamed");
}

#[test]
fn cross_search_takes_only_marked_graphs() {
    let mut reg = GraphRegistry::new("/tmp/registry.json");
    assert!(reg.register(graph("a", true), true).is_ok());
    assert!(reg.register(graph("b", false), true).is_ok());
    assert!(reg.register(graph("c", true), true).is_ok());
    let ids: Vec<String> = reg.cross_searchable_graphs().iter().map(|g| g.id.clone()).collect();
    assert_eq!(ids, vec!["a".to_string(), "c".to_string()]);
}

#[test]
fn a_missing_folder_is_refused() {
    let mut reg = GraphRegistry::new("/tmp/registry.json");
    let r = reg.register(graph("x", true), false);
    assert_eq!(
        r,
        Err(RegistryError::NotFound("Graph path does not exist: \"/graphs/x\"".to_string()))
    );
    assert!(reg.list().is_empty());
}
