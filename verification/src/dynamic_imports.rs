//! Lazy-load entries of a module graph.

use crate::ast::Node;
use crate::chunking::{
    aggregate, async_loader_chunk_item, availability_info, chunk_scope,
    lemma_same_answers_same_aggregate, primary_output_assets, same_answers, same_scopes,
    ChunkError, ChunkingContext, ClientReferencesChunks,
};
use crate::module_graph::{Layer, SingleModuleGraph, SingleModuleGraphNode};
use crate::module_map::ModuleMap;
use crate::ordered::{
    has_key, insert_entry, lemma_insert_members, lemma_insert_then_map, lookup, map_entries,
};
use crate::resolve::{esm_resolve, resolve_all, AssetContext};
use crate::text::texts;
use crate::visitor::{scan_program, DynamicImportVisitor};
use vstd::prelude::*;

verus! {

/// What parsing a module gave.
#[derive(Debug)]
pub enum ParseResult {
    /// The module parsed into a program.
    Parsed { program: Node },
    /// The module has syntax errors.
    Unparseable,
    /// The module has no source.
    NotFound,
}

/// The dynamic imports of a module that resolve: the literal of each, and
/// the module that it leads to.
pub type DynamicImportedModules = Vec<(String, u64)>;

/// Import literals, each with the output files that it needs.
pub type DynamicImportedOutputAssets = Vec<(String, Vec<String>)>;

/// The texts of the literals, each with its module.
pub open spec fn imported_modules_view(modules: Seq<(String, u64)>) -> Seq<(Seq<char>, u64)> {
    modules.map_values(|pair: (String, u64)| (pair.0@, pair.1))
}

/// A module and its dynamic imports that resolve.
pub struct DynamicImportsMap(pub (u64, DynamicImportedModules));

impl View for DynamicImportsMap {
    type V = (u64, Seq<(Seq<char>, u64)>);

    open spec fn view(&self) -> (u64, Seq<(Seq<char>, u64)>) {
        (self.0.0, imported_modules_view(self.0.1@))
    }
}

/// The dynamic imports of a module, if it has any.
pub struct OptionDynamicImportsMap(pub Option<DynamicImportsMap>);

impl View for OptionDynamicImportsMap {
    type V = Option<(u64, Seq<(Seq<char>, u64)>)>;

    open spec fn view(&self) -> Option<(u64, Seq<(Seq<char>, u64)>)> {
        match self.0 {
            Some(map) => Some(map@),
            None => None,
        }
    }
}

/// The dynamic imports of every module that has some, in the order in which
/// the modules were met.
pub struct DynamicImports(pub ModuleMap<DynamicImportedModules>);

/// The dynamic imports of a module. A module that is no script, did not
/// parse, or hands no import literal to the wrapper function has none. Any
/// other module has its handle and, for each literal of the scan that
/// resolves, the literal and its module, in source order.
pub open spec fn dynamic_imports_of(
    context: AssetContext,
    module: u64,
    parsed: Option<&ParseResult>,
) -> Option<(u64, Seq<(Seq<char>, u64)>)> {
    match parsed {
        Some(ParseResult::Parsed { program }) => {
            let sources = scan_program(*program);
            if sources.len() == 0 {
                None
            } else {
                Some((module, resolve_all(context, module, sources)))
            }
        },
        _ => None,
    }
}

/// Scans a module for the imports that it hands to the wrapper function and
/// resolves each of them from the module. `parsed` is `None` for a module
/// that is no script. An import that does not resolve is left out.
pub fn build_dynamic_imports_map_for_module(
    client_asset_context: &AssetContext,
    server_module: u64,
    parsed: Option<&ParseResult>,
) -> (map: OptionDynamicImportsMap)
    ensures
        map@ == dynamic_imports_of(*client_asset_context, server_module, parsed),
{
    let program = match parsed {
        Some(ParseResult::Parsed { program }) => program,
        _ => { return OptionDynamicImportsMap(None); },
    };
    let mut visitor = DynamicImportVisitor::new();
    visitor.visit_node(program);
    if visitor.import_sources.len() == 0 {
        return OptionDynamicImportsMap(None);
    }
    let ghost sources = texts(visitor.import_sources@);
    let mut import_sources: Vec<(String, u64)> = Vec::new();
    let mut i: usize = 0;
    assert(sources.take(0) =~= Seq::empty());
    while i < visitor.import_sources.len()
        invariant
            i <= visitor.import_sources@.len(),
            sources == texts(visitor.import_sources@),
            imported_modules_view(import_sources@) == resolve_all(
                *client_asset_context,
                server_module,
                sources.take(i as int),
            ),
        decreases visitor.import_sources@.len() - i,
    {
        let import = &visitor.import_sources[i];
        let ghost earlier = imported_modules_view(import_sources@);
        proof {
            assert(sources.take(i + 1).drop_last() =~= sources.take(i as int));
            assert(sources.take(i + 1).last() == import@);
        }
        if let Some(module) = esm_resolve(client_asset_context, server_module, import.as_str()) {
            import_sources.push((import.clone(), module));
            assert(imported_modules_view(import_sources@) =~= earlier.push((import@, module)));
        }
        i += 1;
    }
    assert(sources.take(i as int) =~= sources);
    OptionDynamicImportsMap(Some(DynamicImportsMap((server_module, import_sources))))
}

/// How the classifier tags a module.
#[derive(Clone, Copy, PartialEq, Eq, Debug, Structural)]
pub enum DynamicImportEntriesMapType {
    /// The module is loaded lazily from client code.
    DynamicEntry(u64),
    /// The module stands at the boundary between server and client.
    ClientReference(u64),
}

/// The tagged modules of a graph, in the graph's order.
pub struct DynamicImportEntries(pub ModuleMap<DynamicImportEntriesMapType>);

/// The tag of a node. A boundary module is a client reference whatever its
/// layer; a module that is none, was produced as a lazy-load target and
/// lies in the layer `client` or `app-client` is a dynamic entry; any other
/// node has no tag.
pub open spec fn classify(node: SingleModuleGraphNode) -> Option<DynamicImportEntriesMapType> {
    if node.client_reference {
        Some(DynamicImportEntriesMapType::ClientReference(node.module))
    } else if node.next_dynamic_entry && (node.layer matches Some(tag) && Layer::of_tag(
        tag@,
    ).on_client()) {
        Some(DynamicImportEntriesMapType::DynamicEntry(node.module))
    } else {
        None
    }
}

/// The tagged modules among the first `upto` nodes.
pub open spec fn classify_nodes(nodes: Seq<SingleModuleGraphNode>, upto: nat) -> Seq<
    (u64, DynamicImportEntriesMapType),
>
    decreases upto,
{
    if upto == 0 || upto > nodes.len() {
        Seq::empty()
    } else {
        let earlier = classify_nodes(nodes, (upto - 1) as nat);
        match classify(nodes[upto - 1]) {
            Some(kind) => insert_entry(earlier, nodes[upto - 1].module, kind),
            None => earlier,
        }
    }
}

/// Tags one node of the graph.
pub fn classify_node(node: &SingleModuleGraphNode) -> (kind: Option<DynamicImportEntriesMapType>)
    ensures
        kind == classify(*node),
{
    if node.client_reference {
        return Some(DynamicImportEntriesMapType::ClientReference(node.module));
    }
    if node.next_dynamic_entry {
        if let Some(tag) = &node.layer {
            if Layer::from_tag(tag.as_str()).is_client() {
                return Some(DynamicImportEntriesMapType::DynamicEntry(node.module));
            }
        }
    }
    None
}

/// Walks the graph once and tags its lazy-load entries and boundary
/// modules, in the graph's order.
pub fn map_next_dynamic(graph: &SingleModuleGraph) -> (entries: DynamicImportEntries)
    ensures
        entries.0@ == classify_nodes(graph.nodes@, graph.nodes@.len()),
{
    let mut actions: ModuleMap<DynamicImportEntriesMapType> = ModuleMap::new();
    let mut i: usize = 0;
    while i < graph.nodes.len()
        invariant
            i <= graph.nodes@.len(),
            actions@ == classify_nodes(graph.nodes@, i as nat),
        decreases graph.nodes@.len() - i,
    {
        let node = &graph.nodes[i];
        if let Some(kind) = classify_node(node) {
            actions.insert(node.module, kind);
        }
        i += 1;
    }
    DynamicImportEntries(actions)
}

/// For each lazy-load entry, the id of its compiled output and the paths of
/// the output files that loading it needs.
pub struct DynamicImportedChunks(pub ModuleMap<(String, Vec<String>)>);

impl View for DynamicImportedChunks {
    type V = Seq<(u64, (Seq<char>, Seq<Seq<char>>))>;

    open spec fn view(&self) -> Seq<(u64, (Seq<char>, Seq<Seq<char>>))> {
        map_entries(self.0@, |chunk: (String, Vec<String>)| (chunk.0@, texts(chunk.1@)))
    }
}

/// The aggregated entries of a build. Each entry is loaded under the scope
/// of its boundary module, or under the root if it has none; an entry for
/// which the chunking subsystem has a loader under that scope and an id is
/// set to that id and the loader's output files, in the order of the
/// entries, and any other entry is left out. Nothing is aggregated if some
/// entry names a boundary module whose chunks are not known: the first such
/// entry gives the error.
pub open spec fn collect_chunks(
    context: &ChunkingContext,
    entries: Seq<(u64, Option<u64>)>,
    client_reference_chunks: Option<&ClientReferencesChunks>,
) -> Result<Seq<(u64, (Seq<char>, Seq<Seq<char>>))>, ChunkError>
    decreases entries.len(),
{
    if entries.len() == 0 {
        Ok(Seq::empty())
    } else {
        let (module, parent) = entries.last();
        match collect_chunks(context, entries.drop_last(), client_reference_chunks) {
            Err(error) => Err(error),
            Ok(earlier) => match chunk_scope(parent, client_reference_chunks) {
                Err(error) => Err(error),
                Ok(scope) => match aggregate(context, module, scope) {
                    Some(chunk) => Ok(insert_entry(earlier, module, chunk)),
                    None => Ok(earlier),
                },
            },
        }
    }
}

/// Aggregates the lazy-load entries of a build: each entry comes with the
/// boundary module through which it was reached, if there is one.
pub fn collect_next_dynamic_chunks(
    chunking_context: &ChunkingContext,
    dynamic_import_entries: &Vec<(u64, Option<u64>)>,
    client_reference_chunks: Option<&ClientReferencesChunks>,
) -> (result: Result<DynamicImportedChunks, ChunkError>)
    ensures
        match result {
            Ok(chunks) => collect_chunks(
                chunking_context,
                dynamic_import_entries@,
                client_reference_chunks,
            ) == Ok::<_, ChunkError>(chunks@),
            Err(error) => collect_chunks(
                chunking_context,
                dynamic_import_entries@,
                client_reference_chunks,
            ) == Err::<Seq<(u64, (Seq<char>, Seq<Seq<char>>))>, _>(error),
        },
{
    let ghost entries = dynamic_import_entries@;
    let ghost view_of = |chunk: (String, Vec<String>)| (chunk.0@, texts(chunk.1@));
    let mut dynamic_import_chunks: ModuleMap<(String, Vec<String>)> = ModuleMap::new();
    let mut i: usize = 0;
    proof {
        assert(entries.take(0) =~= Seq::empty());
        assert(map_entries(dynamic_import_chunks@, view_of) =~= Seq::empty());
    }
    while i < dynamic_import_entries.len()
        invariant
            i <= entries.len(),
            entries == dynamic_import_entries@,
            view_of == |chunk: (String, Vec<String>)| (chunk.0@, texts(chunk.1@)),
            collect_chunks(chunking_context, entries.take(i as int), client_reference_chunks)
                == Ok::<_, ChunkError>(map_entries(dynamic_import_chunks@, view_of)),
        decreases entries.len() - i,
    {
        let (dynamic_entry, parent_client_reference) = dynamic_import_entries[i];
        proof {
            assert(entries.take(i + 1).drop_last() =~= entries.take(i as int));
            assert(entries.take(i + 1).last() == entries[i as int]);
        }
        let availability = match availability_info(
            parent_client_reference,
            client_reference_chunks,
        ) {
            Ok(scope) => scope,
            Err(error) => {
                proof {
                    lemma_collect_error_stays(
                        chunking_context,
                        entries,
                        (i + 1) as int,
                        client_reference_chunks,
                    );
                }
                return Err(error);
            },
        };
        if let Some(loader) = async_loader_chunk_item(chunking_context, dynamic_entry, availability) {
            if let Some(module_id) = chunking_context.chunk_item_ids.get(dynamic_entry) {
                let async_chunk_group = primary_output_assets(loader);
                let chunk = (module_id.clone(), async_chunk_group);
                proof {
                    lemma_insert_then_map(dynamic_import_chunks@, dynamic_entry, chunk, view_of);
                }
                dynamic_import_chunks.insert(dynamic_entry, chunk);
            }
        }
        i += 1;
    }
    proof {
        assert(entries.take(i as int) =~= entries);
    }
    Ok(DynamicImportedChunks(dynamic_import_chunks))
}

/// An error among the first `upto` entries is the error of all entries.
proof fn lemma_collect_error_stays(
    context: &ChunkingContext,
    entries: Seq<(u64, Option<u64>)>,
    upto: int,
    client_reference_chunks: Option<&ClientReferencesChunks>,
)
    requires
        0 <= upto <= entries.len(),
        collect_chunks(context, entries.take(upto), client_reference_chunks) is Err,
    ensures
        collect_chunks(context, entries, client_reference_chunks) == collect_chunks(
            context,
            entries.take(upto),
            client_reference_chunks,
        ),
    decreases entries.len() - upto,
{
    if upto < entries.len() {
        assert(entries.take(upto + 1).drop_last() =~= entries.take(upto));
        lemma_collect_error_stays(context, entries, upto + 1, client_reference_chunks);
    } else {
        assert(entries.take(upto) =~= entries);
    }
}

/// Every node that has a tag is in the result under its module, and every
/// module in the result is that of a node with a tag.
pub proof fn lemma_tagged_modules_are_kept(nodes: Seq<SingleModuleGraphNode>, module: u64)
    ensures
        has_key(classify_nodes(nodes, nodes.len()), module) <==> exists|i: int|
            0 <= i < nodes.len() && (#[trigger] nodes[i]).module == module && classify(nodes[i])
                is Some,
{
    lemma_tagged_among(nodes, nodes.len(), module);
}

proof fn lemma_tagged_among(nodes: Seq<SingleModuleGraphNode>, upto: nat, module: u64)
    requires
        upto <= nodes.len(),
    ensures
        has_key(classify_nodes(nodes, upto), module) <==> exists|i: int|
            0 <= i < upto && (#[trigger] nodes[i]).module == module && classify(nodes[i]) is Some,
    decreases upto,
{
    if upto > 0 {
        let earlier = classify_nodes(nodes, (upto - 1) as nat);
        let last = nodes[upto - 1];
        lemma_tagged_among(nodes, (upto - 1) as nat, module);
        if let Some(kind) = classify(last) {
            lemma_insert_members(earlier, last.module, kind);
        }
        if has_key(classify_nodes(nodes, upto), module) {
            if has_key(earlier, module) {
                let w = choose|i: int|
                    0 <= i < upto - 1 && (#[trigger] nodes[i]).module == module && classify(
                        nodes[i],
                    ) is Some;
                assert(0 <= w < upto && nodes[w].module == module && classify(nodes[w]) is Some);
            } else {
                assert(last.module == module && classify(last) is Some);
            }
        }
        if exists|i: int|
            0 <= i < upto && (#[trigger] nodes[i]).module == module && classify(nodes[i])
                is Some {
            let w = choose|i: int|
                0 <= i < upto && (#[trigger] nodes[i]).module == module && classify(nodes[i])
                    is Some;
            if w < upto - 1 {
                assert(has_key(earlier, module));
            }
        }
    } else {
        let none = classify_nodes(nodes, upto);
        if has_key(none, module) {
            let w = choose|i: int| 0 <= i < none.len() && (#[trigger] none[i]).0 == module;
        }
    }
}

/// Every aggregated entry carries the id that the chunking subsystem gave
/// to its module's compiled output: no id is made up on the way.
pub proof fn lemma_chunk_ids_are_assigned(
    context: &ChunkingContext,
    entries: Seq<(u64, Option<u64>)>,
    client_reference_chunks: Option<&ClientReferencesChunks>,
    index: int,
)
    requires
        collect_chunks(context, entries, client_reference_chunks) is Ok,
        0 <= index < collect_chunks(context, entries, client_reference_chunks)->Ok_0.len(),
    ensures
        ({
            let chunk = collect_chunks(context, entries, client_reference_chunks)->Ok_0[index];
            lookup(context.chunk_item_ids@, chunk.0) matches Some(id) && id@ == chunk.1.0
        }),
    decreases entries.len(),
{
    if entries.len() > 0 {
        let (module, parent) = entries.last();
        let earlier = collect_chunks(context, entries.drop_last(), client_reference_chunks)->Ok_0;
        let scope = chunk_scope(parent, client_reference_chunks)->Ok_0;
        match aggregate(context, module, scope) {
            Some(chunk) => {
                lemma_insert_members(earlier, module, chunk);
                if insert_entry(earlier, module, chunk)[index] != (module, chunk) {
                    lemma_chunk_ids_are_assigned(
                        context,
                        entries.drop_last(),
                        client_reference_chunks,
                        index,
                    );
                }
            },
            None => {
                lemma_chunk_ids_are_assigned(
                    context,
                    entries.drop_last(),
                    client_reference_chunks,
                    index,
                );
            },
        }
    }
}

/// Whether the chunking subsystem has a loader under the entry's scope and
/// an id for the entry.
pub open spec fn is_aggregated(
    context: &ChunkingContext,
    entry: (u64, Option<u64>),
    client_reference_chunks: Option<&ClientReferencesChunks>,
) -> bool {
    match chunk_scope(entry.1, client_reference_chunks) {
        Ok(scope) => aggregate(context, entry.0, scope) is Some,
        Err(_) => false,
    }
}

/// Where the aggregation succeeds, a module is in the result exactly when
/// it is the module of an entry for which the chunking subsystem has a
/// loader and an id: no such entry is lost, and no other module gets in.
pub proof fn lemma_aggregated_entries_are_kept(
    context: &ChunkingContext,
    entries: Seq<(u64, Option<u64>)>,
    client_reference_chunks: Option<&ClientReferencesChunks>,
    module: u64,
)
    requires
        collect_chunks(context, entries, client_reference_chunks) is Ok,
    ensures
        has_key(collect_chunks(context, entries, client_reference_chunks)->Ok_0, module)
            <==> exists|i: int|
            0 <= i < entries.len() && (#[trigger] entries[i]).0 == module && is_aggregated(
                context,
                entries[i],
                client_reference_chunks,
            ),
    decreases entries.len(),
{
    if entries.len() > 0 {
        let front = entries.drop_last();
        let (last_module, parent) = entries.last();
        let earlier = collect_chunks(context, front, client_reference_chunks)->Ok_0;
        let scope = chunk_scope(parent, client_reference_chunks)->Ok_0;
        lemma_aggregated_entries_are_kept(context, front, client_reference_chunks, module);
        if let Some(chunk) = aggregate(context, last_module, scope) {
            lemma_insert_members(earlier, last_module, chunk);
        }
        if has_key(collect_chunks(context, entries, client_reference_chunks)->Ok_0, module) {
            if has_key(earlier, module) {
                let w = choose|i: int|
                    0 <= i < front.len() && (#[trigger] front[i]).0 == module && is_aggregated(
                        context,
                        front[i],
                        client_reference_chunks,
                    );
                assert(entries[w] == front[w]);
            } else {
                assert(entries[entries.len() - 1].0 == module);
            }
        }
        if exists|i: int|
            0 <= i < entries.len() && (#[trigger] entries[i]).0 == module && is_aggregated(
                context,
                entries[i],
                client_reference_chunks,
            ) {
            let w = choose|i: int|
                0 <= i < entries.len() && (#[trigger] entries[i]).0 == module && is_aggregated(
                    context,
                    entries[i],
                    client_reference_chunks,
                );
            if w < entries.len() - 1 {
                assert(front[w] == entries[w]);
                assert(has_key(earlier, module));
            }
        }
    } else {
        let none = collect_chunks(context, entries, client_reference_chunks)->Ok_0;
        if has_key(none, module) {
            let w = choose|i: int| 0 <= i < none.len() && (#[trigger] none[i]).0 == module;
        }
    }
}

/// Two builds that get the same answers from the chunking subsystem, for
/// the same entries below the same boundary scopes, aggregate the same ids
/// and files in the same order, or fail with the same error.
pub proof fn lemma_same_answers_same_chunks(
    first: &ChunkingContext,
    second: &ChunkingContext,
    entries: Seq<(u64, Option<u64>)>,
    first_chunks: Option<&ClientReferencesChunks>,
    second_chunks: Option<&ClientReferencesChunks>,
)
    requires
        same_answers(first, second),
        same_scopes(first_chunks, second_chunks),
    ensures
        collect_chunks(first, entries, first_chunks) == collect_chunks(
            second,
            entries,
            second_chunks,
        ),
    decreases entries.len(),
{
    if entries.len() > 0 {
        let (module, parent) = entries.last();
        lemma_same_answers_same_chunks(
            first,
            second,
            entries.drop_last(),
            first_chunks,
            second_chunks,
        );
        assert(chunk_scope(parent, first_chunks) == chunk_scope(parent, second_chunks));
        if let Ok(scope) = chunk_scope(parent, first_chunks) {
            lemma_same_answers_same_aggregate(first, second, module, scope);
        }
    }
}

/// The tagged modules among the first `upto` nodes, one for each node that
/// has a tag, in the order of the nodes.
pub open spec fn tagged_nodes(nodes: Seq<SingleModuleGraphNode>, upto: nat) -> Seq<
    (u64, DynamicImportEntriesMapType),
>
    decreases upto,
{
    if upto == 0 || upto > nodes.len() {
        Seq::empty()
    } else {
        let earlier = tagged_nodes(nodes, (upto - 1) as nat);
        match classify(nodes[upto - 1]) {
            Some(kind) => earlier.push((nodes[upto - 1].module, kind)),
            None => earlier,
        }
    }
}

/// In a graph that enumerates no module twice, the result lists the nodes
/// that have a tag one by one, in the graph's order.
pub proof fn lemma_graph_order_is_kept(nodes: Seq<SingleModuleGraphNode>, upto: nat)
    requires
        upto <= nodes.len(),
        forall|i: int, j: int|
            0 <= i < j < nodes.len() ==> (#[trigger] nodes[i]).module != (#[trigger] nodes[j]).module,
    ensures
        classify_nodes(nodes, upto) == tagged_nodes(nodes, upto),
    decreases upto,
{
    if upto > 0 {
        lemma_graph_order_is_kept(nodes, (upto - 1) as nat);
        let last = nodes[upto - 1];
        if classify(last) is Some {
            lemma_tagged_among(nodes, (upto - 1) as nat, last.module);
            if has_key(classify_nodes(nodes, (upto - 1) as nat), last.module) {
                let w = choose|i: int|
                    0 <= i < upto - 1 && (#[trigger] nodes[i]).module == last.module && classify(
                        nodes[i],
                    ) is Some;
                assert(nodes[w].module != nodes[upto - 1].module);
            }
        }
    }
}

} // verus!
