//! What the chunking subsystem answers.
//!
//! Chunking itself is the bundler's work. The library reads a snapshot of its
//! answers: the loader that it generated for a module under a chunk scope,
//! with the output files of each chunk that the loader refers to, and the
//! id that it gave to each module's compiled output.

use crate::module_map::ModuleMap;
use crate::ordered::{lemma_map_keeps_keys, lookup, map_entries};
use crate::text::texts;
use vstd::prelude::*;

verus! {

/// The chunks that are known to be loaded where a lazy load starts.
#[derive(Clone, Copy, PartialEq, Eq, Debug, Structural)]
pub enum ChunkScope {
    /// No chunk is assumed to be there.
    Root,
    /// The chunks of the chunk group with this handle are there.
    Inherited(u64),
}

/// For each boundary module whose chunks were computed, the scope that its
/// chunk group gives to what is loaded from it.
pub struct ClientReferencesChunks {
    pub client_component_client_chunks: ModuleMap<ChunkScope>,
}

/// The asynchronous loader of a module under a chunk scope.
#[derive(Debug)]
pub struct AsyncLoader {
    pub module: u64,
    pub availability: ChunkScope,
    /// For each chunk that the loader refers to, in the loader's order, the
    /// paths of the chunk's primary output files.
    pub references: Vec<Vec<String>>,
}

/// The answers of the chunking subsystem that a build has at hand.
pub struct ChunkingContext {
    pub async_loaders: Vec<AsyncLoader>,
    /// The id of each module's compiled output.
    pub chunk_item_ids: ModuleMap<String>,
}

/// Why the lazy-load entries of a build could not be aggregated.
#[derive(Clone, Copy, PartialEq, Eq, Debug, Structural)]
pub enum ChunkError {
    /// An entry names a boundary module whose chunks are not known.
    MissingClientReferenceChunks { client_reference: u64 },
}

/// The scope under which an entry is loaded: that of its boundary module,
/// or the root for an entry without one. It is an error if the entry has a
/// boundary module whose chunks are not known.
pub open spec fn chunk_scope(
    parent_client_reference: Option<u64>,
    client_reference_chunks: Option<&ClientReferencesChunks>,
) -> Result<ChunkScope, ChunkError> {
    match parent_client_reference {
        None => Ok(ChunkScope::Root),
        Some(client_reference) => {
            let known = match client_reference_chunks {
                Some(chunks) => lookup(chunks.client_component_client_chunks@, client_reference),
                None => None,
            };
            match known {
                Some(scope) => Ok(scope),
                None => Err(ChunkError::MissingClientReferenceChunks { client_reference }),
            }
        },
    }
}

/// The first loader among the first `upto` that is one of `module` under
/// `scope`.
pub open spec fn loader_among(
    loaders: Seq<AsyncLoader>,
    upto: nat,
    module: u64,
    scope: ChunkScope,
) -> Option<AsyncLoader>
    decreases upto,
{
    if upto == 0 || upto > loaders.len() {
        None
    } else {
        match loader_among(loaders, (upto - 1) as nat, module, scope) {
            Some(loader) => Some(loader),
            None => if loaders[upto - 1].module == module && loaders[upto - 1].availability
                == scope {
                Some(loaders[upto - 1])
            } else {
                None
            },
        }
    }
}

/// The loader of `module` under `scope`, if the subsystem generated one.
pub open spec fn async_loader(context: &ChunkingContext, module: u64, scope: ChunkScope) -> Option<
    AsyncLoader,
> {
    loader_among(context.async_loaders@, context.async_loaders@.len(), module, scope)
}

/// The paths of the output files of each chunk reference.
pub open spec fn asset_groups(references: Seq<Vec<String>>) -> Seq<Seq<Seq<char>>> {
    references.map_values(|group: Vec<String>| texts(group@))
}

/// The output files that a loader needs: those of its first chunk reference
/// in their order, then those of the second, and so on. A file that several
/// references name occurs once for each.
pub open spec fn loader_assets(loader: AsyncLoader) -> Seq<Seq<char>> {
    asset_groups(loader.references@).flatten()
}

/// The id and the output files of a lazy-load entry under a scope, as far as
/// the subsystem has both a loader and an id for it.
pub open spec fn aggregate(context: &ChunkingContext, module: u64, scope: ChunkScope) -> Option<
    (Seq<char>, Seq<Seq<char>>),
> {
    match (async_loader(context, module, scope), lookup(context.chunk_item_ids@, module)) {
        (Some(loader), Some(id)) => Some((id@, loader_assets(loader))),
        _ => None,
    }
}

/// Decides the scope under which an entry is loaded.
pub fn availability_info(
    parent_client_reference: Option<u64>,
    client_reference_chunks: Option<&ClientReferencesChunks>,
) -> (scope: Result<ChunkScope, ChunkError>)
    ensures
        scope == chunk_scope(parent_client_reference, client_reference_chunks),
{
    match parent_client_reference {
        None => Ok(ChunkScope::Root),
        Some(client_reference) => {
            if let Some(chunks) = client_reference_chunks {
                if let Some(scope) = chunks.client_component_client_chunks.get(client_reference) {
                    return Ok(*scope);
                }
            }
            Err(ChunkError::MissingClientReferenceChunks { client_reference })
        },
    }
}

/// Finds the loader that the subsystem generated for `module` under `scope`.
pub fn async_loader_chunk_item<'a>(
    context: &'a ChunkingContext,
    module: u64,
    scope: ChunkScope,
) -> (loader: Option<&'a AsyncLoader>)
    ensures
        match loader {
            Some(found) => async_loader(context, module, scope) == Some(*found),
            None => async_loader(context, module, scope) is None,
        },
{
    let mut i: usize = 0;
    while i < context.async_loaders.len()
        invariant
            i <= context.async_loaders@.len(),
            loader_among(context.async_loaders@, i as nat, module, scope) is None,
        decreases context.async_loaders@.len() - i,
    {
        let loader = &context.async_loaders[i];
        if loader.module == module && loader.availability == scope {
            proof {
                assert(loader_among(context.async_loaders@, (i + 1) as nat, module, scope) == Some(
                    *loader,
                ));
                lemma_first_loader_stays(
                    context.async_loaders@,
                    (i + 1) as nat,
                    context.async_loaders@.len(),
                    module,
                    scope,
                );
            }
            return Some(loader);
        }
        i += 1;
    }
    None
}

/// Once a loader is found among the first `from`, later loaders do not
/// change it.
proof fn lemma_first_loader_stays(
    loaders: Seq<AsyncLoader>,
    from: nat,
    upto: nat,
    module: u64,
    scope: ChunkScope,
)
    requires
        from <= upto <= loaders.len(),
        loader_among(loaders, from, module, scope) is Some,
    ensures
        loader_among(loaders, upto, module, scope) == loader_among(loaders, from, module, scope),
    decreases upto,
{
    if from < upto {
        lemma_first_loader_stays(loaders, from, (upto - 1) as nat, module, scope);
    }
}

/// Lists the output files that a loader needs.
pub fn primary_output_assets(loader: &AsyncLoader) -> (assets: Vec<String>)
    ensures
        texts(assets@) == loader_assets(*loader),
{
    let ghost groups = asset_groups(loader.references@);
    let mut assets: Vec<String> = Vec::new();
    let mut i: usize = 0;
    proof {
        assert(groups.take(0) =~= Seq::empty());
        assert(texts(assets@) =~= Seq::empty());
    }
    while i < loader.references.len()
        invariant
            i <= loader.references@.len(),
            groups == asset_groups(loader.references@),
            texts(assets@) == groups.take(i as int).flatten(),
        decreases loader.references@.len() - i,
    {
        let group = &loader.references[i];
        let ghost earlier = texts(assets@);
        let mut j: usize = 0;
        while j < group.len()
            invariant
                j <= group@.len(),
                texts(assets@) == earlier + texts(group@).take(j as int),
            decreases group@.len() - j,
        {
            let ghost held = texts(assets@);
            assets.push(group[j].clone());
            proof {
                assert(texts(assets@) =~= held.push(group@[j as int]@));
                assert(texts(group@).take(j + 1) =~= texts(group@).take(j as int).push(
                    group@[j as int]@,
                ));
            }
            j += 1;
        }
        proof {
            assert(texts(group@).take(j as int) =~= texts(group@));
            assert(groups.take(i + 1) =~= groups.take(i as int).push(texts(group@)));
            groups.take(i as int).lemma_flatten_push(texts(group@));
        }
        i += 1;
    }
    proof {
        assert(groups.take(i as int) =~= groups);
    }
    assets
}

/// Entries that are reached through the same boundary module are loaded
/// under the same scope, and an entry that is reached through none is loaded
/// under the root.
pub proof fn lemma_scope_follows_parent(
    first: (u64, Option<u64>),
    second: (u64, Option<u64>),
    client_reference_chunks: Option<&ClientReferencesChunks>,
)
    ensures
        first.1 == second.1 ==> chunk_scope(first.1, client_reference_chunks) == chunk_scope(
            second.1,
            client_reference_chunks,
        ),
        first.1 is None ==> chunk_scope(first.1, client_reference_chunks) == Ok::<
            _,
            ChunkError,
        >(ChunkScope::Root),
{
}

/// What a loader says, with its files read as text.
pub open spec fn loader_view(loader: AsyncLoader) -> (u64, ChunkScope, Seq<Seq<Seq<char>>>) {
    (loader.module, loader.availability, asset_groups(loader.references@))
}

/// Whether two snapshots hold the same answers: the same loaders in the
/// same order, and the same ids for the same modules.
pub open spec fn same_answers(first: &ChunkingContext, second: &ChunkingContext) -> bool {
    &&& first.async_loaders@.map_values(|loader: AsyncLoader| loader_view(loader))
        == second.async_loaders@.map_values(|loader: AsyncLoader| loader_view(loader))
    &&& map_entries(first.chunk_item_ids@, |id: String| id@) == map_entries(
        second.chunk_item_ids@,
        |id: String| id@,
    )
}

/// Whether the same boundary modules have the same scopes in both.
pub open spec fn same_scopes(
    first: Option<&ClientReferencesChunks>,
    second: Option<&ClientReferencesChunks>,
) -> bool {
    match (first, second) {
        (Some(a), Some(b)) => a.client_component_client_chunks@
            == b.client_component_client_chunks@,
        (None, None) => true,
        _ => false,
    }
}

proof fn lemma_same_loaders(
    first: Seq<AsyncLoader>,
    second: Seq<AsyncLoader>,
    upto: nat,
    module: u64,
    scope: ChunkScope,
)
    requires
        first.map_values(|loader: AsyncLoader| loader_view(loader)) == second.map_values(
            |loader: AsyncLoader| loader_view(loader),
        ),
    ensures
        match (loader_among(first, upto, module, scope), loader_among(second, upto, module, scope)) {
            (Some(a), Some(b)) => loader_view(a) == loader_view(b),
            (None, None) => true,
            _ => false,
        },
    decreases upto,
{
    let views = |loader: AsyncLoader| loader_view(loader);
    assert(first.len() == first.map_values(views).len());
    assert(second.len() == second.map_values(views).len());
    if !(upto == 0 || upto > first.len()) {
        lemma_same_loaders(first, second, (upto - 1) as nat, module, scope);
        assert(first.map_values(views)[upto - 1] == loader_view(first[upto - 1]));
        assert(second.map_values(views)[upto - 1] == loader_view(second[upto - 1]));
    }
}

/// Two snapshots that hold the same answers give every entry the same id
/// and the same output files.
pub proof fn lemma_same_answers_same_aggregate(
    first: &ChunkingContext,
    second: &ChunkingContext,
    module: u64,
    scope: ChunkScope,
)
    requires
        same_answers(first, second),
    ensures
        aggregate(first, module, scope) == aggregate(second, module, scope),
{
    let views = |loader: AsyncLoader| loader_view(loader);
    assert(first.async_loaders@.len() == first.async_loaders@.map_values(views).len());
    assert(second.async_loaders@.len() == second.async_loaders@.map_values(views).len());
    lemma_same_loaders(
        first.async_loaders@,
        second.async_loaders@,
        first.async_loaders@.len(),
        module,
        scope,
    );
    lemma_map_keeps_keys(first.chunk_item_ids@, module, |id: String| id@);
    lemma_map_keeps_keys(second.chunk_item_ids@, module, |id: String| id@);
}

} // verus!
