use next_api::dynamic_imports::{classify_node, map_next_dynamic, DynamicImportEntriesMapType};
use next_api::module_graph::{Layer, SingleModuleGraph, SingleModuleGraphNode};

fn node(module: u64, layer: Option<&str>, entry: bool, reference: bool) -> SingleModuleGraphNode {
    SingleModuleGraphNode {
        module,
        layer: layer.map(String::from),
        next_dynamic_entry: entry,
        client_reference: reference,
    }
}

#[test]
fn layer_tags_map_into_the_enumeration() {
    assert_eq!(Layer::from_tag("client"), Layer::Client);
    assert_eq!(Layer::from_tag("app-client"), Layer::AppClient);
    assert_eq!(Layer::from_tag("app-rsc"), Layer::Other);
    assert_eq!(Layer::from_tag("Client"), Layer::Other);
    assert_eq!(Layer::from_tag(""), Layer::Other);
    assert!(Layer::Client.is_client());
    assert!(Layer::AppClient.is_client());
    assert!(!Layer::Other.is_client());
}

#[test]
fn lazy_target_in_a_client_layer_is_a_dynamic_entry() {
    assert_eq!(
        classify_node(&node(4, Some("client"), true, false)),
        Some(DynamicImportEntriesMapType::DynamicEntry(4))
    );
    assert_eq!(
        classify_node(&node(5, Some("app-client"), true, false)),
        Some(DynamicImportEntriesMapType::DynamicEntry(5))
    );
}

#[test]
fn lazy_target_outside_the_client_layers_has_no_tag() {
    assert_eq!(classify_node(&node(4, Some("app-rsc"), true, false)), None);
    assert_eq!(classify_node(&node(4, Some("ssr"), true, false)), None);
    assert_eq!(classify_node(&node(4, None, true, false)), None);
}

#[test]
fn plain_module_has_no_tag() {
    assert_eq!(classify_node(&node(4, Some("client"), false, false)), None);
    assert_eq!(classify_node(&node(4, None, false, false)), None);
}

#[test]
fn boundary_module_is_a_client_reference_in_any_layer() {
    assert_eq!(
        classify_node(&node(9, Some("app-rsc"), false, true)),
        Some(DynamicImportEntriesMapType::ClientReference(9))
    );
    assert_eq!(
        classify_node(&node(9, None, false, true)),
        Some(DynamicImportEntriesMapType::ClientReference(9))
    );
}

#[test]
fn boundary_comes_before_dynamic_entry() {
    assert_eq!(
        classify_node(&node(9, Some("client"), true, true)),
        Some(DynamicImportEntriesMapType::ClientReference(9))
    );
}

#[test]
fn graph_is_tagged_in_its_own_order() {
    let graph = SingleModuleGraph {
        nodes: vec![
            node(50, Some("app-rsc"), false, false),
            node(40, Some("app-client"), true, false),
            node(30, Some("app-rsc"), false, true),
            node(20, Some("ssr"), true, false),
            node(10, Some("client"), true, false),
        ],
    };
    let entries = map_next_dynamic(&graph);
    assert_eq!(entries.0.len(), 3);
    assert_eq!(
        entries.0.get_index(0),
        Some((40, &DynamicImportEntriesMapType::DynamicEntry(40)))
    );
    assert_eq!(
        entries.0.get_index(1),
        Some((30, &DynamicImportEntriesMapType::ClientReference(30)))
    );
    assert_eq!(
        entries.0.get_index(2),
        Some((10, &DynamicImportEntriesMapType::DynamicEntry(10)))
    );
    assert!(entries.0.get(50).is_none());
    assert!(entries.0.get(20).is_none());
}

#[test]
fn empty_graph_has_no_entries() {
    let entries = map_next_dynamic(&SingleModuleGraph { nodes: vec![] });
    assert_eq!(entries.0.len(), 0);
}

#[test]
fn module_met_twice_keeps_its_place_and_takes_the_later_tag() {
    let graph = SingleModuleGraph {
        nodes: vec![
            node(1, Some("client"), true, false),
            node(2, Some("client"), true, false),
            node(1, None, false, true),
        ],
    };
    let entries = map_next_dynamic(&graph);
    assert_eq!(entries.0.len(), 2);
    assert_eq!(
        entries.0.get_index(0),
        Some((1, &DynamicImportEntriesMapType::ClientReference(1)))
    );
    assert_eq!(entries.0.get_index(1), Some((2, &DynamicImportEntriesMapType::DynamicEntry(2))));
}
