use next_api::chunking::{
    async_loader_chunk_item, availability_info, primary_output_assets, AsyncLoader, ChunkError,
    ChunkScope, ChunkingContext, ClientReferencesChunks,
};
use next_api::dynamic_imports::collect_next_dynamic_chunks;
use next_api::module_map::ModuleMap;

fn files(paths: &[&str]) -> Vec<String> {
    paths.iter().map(|p| String::from(*p)).collect()
}

fn loader(module: u64, availability: ChunkScope, references: Vec<Vec<String>>) -> AsyncLoader {
    AsyncLoader { module, availability, references }
}

fn ids(pairs: &[(u64, &str)]) -> ModuleMap<String> {
    let mut map = ModuleMap::new();
    for (module, id) in pairs {
        map.insert(*module, String::from(*id));
    }
    map
}

fn boundary_chunks(pairs: &[(u64, ChunkScope)]) -> ClientReferencesChunks {
    let mut map = ModuleMap::new();
    for (module, scope) in pairs {
        map.insert(*module, *scope);
    }
    ClientReferencesChunks { client_component_client_chunks: map }
}

#[test]
fn entry_without_parent_is_loaded_under_the_root() {
    let chunks = boundary_chunks(&[(7, ChunkScope::Inherited(70))]);
    assert_eq!(availability_info(None, None), Ok(ChunkScope::Root));
    assert_eq!(availability_info(None, Some(&chunks)), Ok(ChunkScope::Root));
}

#[test]
fn entry_with_parent_is_loaded_under_the_parents_scope() {
    let chunks =
        boundary_chunks(&[(7, ChunkScope::Inherited(70)), (8, ChunkScope::Inherited(80))]);
    assert_eq!(availability_info(Some(7), Some(&chunks)), Ok(ChunkScope::Inherited(70)));
    assert_eq!(availability_info(Some(8), Some(&chunks)), Ok(ChunkScope::Inherited(80)));
}

#[test]
fn entries_with_one_parent_share_their_scope() {
    let chunks = boundary_chunks(&[(7, ChunkScope::Inherited(70))]);
    let first = availability_info(Some(7), Some(&chunks));
    let second = availability_info(Some(7), Some(&chunks));
    assert_eq!(first, second);
    assert_eq!(first, Ok(ChunkScope::Inherited(70)));
}

#[test]
fn parent_without_known_chunks_is_an_error() {
    let chunks = boundary_chunks(&[(7, ChunkScope::Inherited(70))]);
    assert_eq!(
        availability_info(Some(9), Some(&chunks)),
        Err(ChunkError::MissingClientReferenceChunks { client_reference: 9 })
    );
    assert_eq!(
        availability_info(Some(7), None),
        Err(ChunkError::MissingClientReferenceChunks { client_reference: 7 })
    );
}

#[test]
fn loader_is_found_by_module_and_scope() {
    let context = ChunkingContext {
        async_loaders: vec![
            loader(1, ChunkScope::Root, vec![files(&["a.js"])]),
            loader(1, ChunkScope::Inherited(70), vec![files(&["b.js"])]),
            loader(2, ChunkScope::Root, vec![files(&["c.js"])]),
            loader(1, ChunkScope::Root, vec![files(&["late.js"])]),
        ],
        chunk_item_ids: ids(&[]),
    };
    let found = async_loader_chunk_item(&context, 1, ChunkScope::Inherited(70)).unwrap();
    assert_eq!(found.references, vec![files(&["b.js"])]);
    let first = async_loader_chunk_item(&context, 1, ChunkScope::Root).unwrap();
    assert_eq!(first.references, vec![files(&["a.js"])]);
    assert!(async_loader_chunk_item(&context, 2, ChunkScope::Inherited(70)).is_none());
    assert!(async_loader_chunk_item(&context, 3, ChunkScope::Root).is_none());
}

#[test]
fn output_files_are_listed_by_reference_then_by_file() {
    let l = loader(
        1,
        ChunkScope::Root,
        vec![files(&["b.js", "a.js"]), files(&[]), files(&["c.js", "a.js"])],
    );
    assert_eq!(primary_output_assets(&l), files(&["b.js", "a.js", "c.js", "a.js"]));
    assert!(primary_output_assets(&loader(1, ChunkScope::Root, vec![])).is_empty());
}

#[test]
fn entries_are_aggregated_in_their_order() {
    let context = ChunkingContext {
        async_loaders: vec![
            loader(1, ChunkScope::Root, vec![files(&["out/one.js"])]),
            loader(2, ChunkScope::Inherited(70), vec![files(&["out/two.js"]), files(&["out/x.css"])]),
            loader(2, ChunkScope::Root, vec![files(&["out/two-root.js"])]),
        ],
        chunk_item_ids: ids(&[(1, "id-one"), (2, "id-two")]),
    };
    let chunks = boundary_chunks(&[(7, ChunkScope::Inherited(70))]);
    let collected =
        collect_next_dynamic_chunks(&context, &vec![(2, Some(7)), (1, None)], Some(&chunks))
            .unwrap();
    assert_eq!(collected.0.len(), 2);
    let (module, chunk) = collected.0.get_index(0).unwrap();
    assert_eq!(module, 2);
    assert_eq!(chunk.0, "id-two");
    assert_eq!(chunk.1, files(&["out/two.js", "out/x.css"]));
    let (module, chunk) = collected.0.get_index(1).unwrap();
    assert_eq!(module, 1);
    assert_eq!(chunk.0, "id-one");
    assert_eq!(chunk.1, files(&["out/one.js"]));
}

#[test]
fn no_entries_give_no_chunks() {
    let context = ChunkingContext { async_loaders: vec![], chunk_item_ids: ids(&[]) };
    let collected = collect_next_dynamic_chunks(&context, &vec![], None).unwrap();
    assert_eq!(collected.0.len(), 0);
}

#[test]
fn entry_without_loader_or_id_is_left_out() {
    let context = ChunkingContext {
        async_loaders: vec![
            loader(1, ChunkScope::Root, vec![files(&["out/one.js"])]),
            loader(3, ChunkScope::Root, vec![files(&["out/three.js"])]),
        ],
        chunk_item_ids: ids(&[(1, "id-one"), (2, "id-two")]),
    };
    let collected =
        collect_next_dynamic_chunks(&context, &vec![(2, None), (3, None), (1, None)], None)
            .unwrap();
    assert_eq!(collected.0.len(), 1);
    let (module, chunk) = collected.0.get_index(0).unwrap();
    assert_eq!(module, 1);
    assert_eq!(chunk.0, "id-one");
}

#[test]
fn unknown_parent_fails_the_whole_aggregation() {
    let context = ChunkingContext {
        async_loaders: vec![loader(1, ChunkScope::Root, vec![files(&["out/one.js"])])],
        chunk_item_ids: ids(&[(1, "id-one")]),
    };
    let chunks = boundary_chunks(&[(7, ChunkScope::Inherited(70))]);
    let result = collect_next_dynamic_chunks(
        &context,
        &vec![(1, None), (2, Some(8)), (3, Some(9))],
        Some(&chunks),
    );
    assert_eq!(
        result.err(),
        Some(ChunkError::MissingClientReferenceChunks { client_reference: 8 })
    );
    let result = collect_next_dynamic_chunks(&context, &vec![(1, Some(7))], None);
    assert_eq!(
        result.err(),
        Some(ChunkError::MissingClientReferenceChunks { client_reference: 7 })
    );
}

#[test]
fn entry_listed_twice_keeps_its_place_and_takes_the_later_scope() {
    let context = ChunkingContext {
        async_loaders: vec![
            loader(1, ChunkScope::Root, vec![files(&["out/root.js"])]),
            loader(1, ChunkScope::Inherited(70), vec![files(&["out/inherited.js"])]),
            loader(2, ChunkScope::Root, vec![files(&["out/two.js"])]),
        ],
        chunk_item_ids: ids(&[(1, "id-one"), (2, "id-two")]),
    };
    let chunks = boundary_chunks(&[(7, ChunkScope::Inherited(70))]);
    let collected = collect_next_dynamic_chunks(
        &context,
        &vec![(1, None), (2, None), (1, Some(7))],
        Some(&chunks),
    )
    .unwrap();
    assert_eq!(collected.0.len(), 2);
    let (module, chunk) = collected.0.get_index(0).unwrap();
    assert_eq!(module, 1);
    assert_eq!(chunk.1, files(&["out/inherited.js"]));
    assert_eq!(collected.0.get_index(1).unwrap().0, 2);
}
