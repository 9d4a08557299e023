//! The manifest that tells a client which files each lazy load needs.

use crate::dynamic_imports::DynamicImportedChunks;
use crate::json::{
    document_json, item_json, manifest_json, member_json, write_string, write_strings,
    ManifestError,
};
use crate::ordered::{
    distinct_keys, has_key, insert_entry, lemma_insert_keeps_distinct, lemma_insert_members,
    lemma_position_unique, lookup,
};
use crate::text::texts;
use vstd::prelude::*;
use vstd::string::StrSliceExecFns;

verus! {

/// The path of `inner` relative to the directory `root`. Below the empty
/// root every path is relative as it stands; below any other root a path is
/// relative if it starts with the root and a slash, and is what follows the
/// slash. A path outside the root has no relative path.
pub open spec fn path_to(root: Seq<char>, inner: Seq<char>) -> Option<Seq<char>> {
    if root.len() == 0 {
        Some(inner)
    } else if inner.len() > root.len() && inner.subrange(0, root.len() as int) == root
        && inner[root.len() as int] == '/' {
        Some(inner.subrange(root.len() as int + 1, inner.len() as int))
    } else {
        None
    }
}

/// The relative paths of the files that lie below the root, in the order of
/// the files. A file outside the root is left out.
pub open spec fn relative_files(root: Seq<char>, assets: Seq<Seq<char>>) -> Seq<Seq<char>>
    decreases assets.len(),
{
    if assets.len() == 0 {
        Seq::empty()
    } else {
        let earlier = relative_files(root, assets.drop_last());
        match path_to(root, assets.last()) {
            Some(path) => earlier.push(path),
            None => earlier,
        }
    }
}

/// The manifest of the aggregated entries: each entry, in order, sets the
/// item of its id to the relative paths of its files below the root. Where
/// two entries have one id, the later one's files stand at the earlier one's
/// place.
pub open spec fn manifest_of(
    chunks: Seq<(u64, (Seq<char>, Seq<Seq<char>>))>,
    root: Seq<char>,
) -> Seq<(Seq<char>, Seq<Seq<char>>)>
    decreases chunks.len(),
{
    if chunks.len() == 0 {
        Seq::empty()
    } else {
        let (id, assets) = chunks.last().1;
        insert_entry(manifest_of(chunks.drop_last(), root), id, relative_files(root, assets))
    }
}

/// Computes the path of `inner` relative to the directory `root`.
pub fn get_path_to(root: &str, inner: &str) -> (path: Option<String>)
    ensures
        match path {
            Some(relative) => path_to(root@, inner@) == Some(relative@),
            None => path_to(root@, inner@) is None,
        },
{
    let root_len = root.unicode_len();
    let inner_len = inner.unicode_len();
    if root_len == 0 {
        return Some(inner.to_owned());
    }
    if inner_len <= root_len {
        return None;
    }
    if inner.substring_char(0, root_len).to_owned() != root.to_owned() {
        return None;
    }
    if inner.get_char(root_len) != '/' {
        return None;
    }
    Some(inner.substring_char(root_len + 1, inner_len).to_owned())
}

/// Lists the relative paths of the files that lie below the root.
pub fn relative_paths(root: &str, assets: &Vec<String>) -> (files: Vec<String>)
    ensures
        texts(files@) == relative_files(root@, texts(assets@)),
{
    let ghost paths = texts(assets@);
    let mut files: Vec<String> = Vec::new();
    let mut i: usize = 0;
    proof {
        assert(paths.take(0) =~= Seq::empty());
        assert(texts(files@) =~= Seq::empty());
    }
    while i < assets.len()
        invariant
            i <= assets@.len(),
            paths == texts(assets@),
            texts(files@) == relative_files(root@, paths.take(i as int)),
        decreases assets@.len() - i,
    {
        let ghost earlier = texts(files@);
        proof {
            assert(paths.take(i + 1).drop_last() =~= paths.take(i as int));
            assert(paths.take(i + 1).last() == assets@[i as int]@);
        }
        if let Some(path) = get_path_to(root, assets[i].as_str()) {
            files.push(path);
            assert(texts(files@) =~= earlier.push(path@));
        }
        i += 1;
    }
    proof {
        assert(paths.take(i as int) =~= paths);
    }
    files
}

/// What a client has to fetch for one lazy load.
#[derive(Debug)]
pub struct LoadableManifest {
    /// The id of the loaded module's compiled output.
    pub id: String,
    /// The paths of the files, relative to the client's root.
    pub files: Vec<String>,
}

impl View for LoadableManifest {
    type V = (Seq<char>, Seq<Seq<char>>);

    open spec fn view(&self) -> (Seq<char>, Seq<Seq<char>>) {
        (self.id@, texts(self.files@))
    }
}

/// The manifest: the items of all lazy loads, one for each id, in the order
/// in which the ids first arrived.
pub struct ReactLoadableManifest {
    items: Vec<LoadableManifest>,
}

impl View for ReactLoadableManifest {
    type V = Seq<(Seq<char>, Seq<Seq<char>>)>;

    closed spec fn view(&self) -> Seq<(Seq<char>, Seq<Seq<char>>)> {
        self.items@.map_values(|item: LoadableManifest| item@)
    }
}

impl ReactLoadableManifest {
    #[verifier::type_invariant]
    spec fn well_formed(self) -> bool {
        distinct_keys(self@)
    }

    /// A manifest without items.
    pub fn new() -> (manifest: Self)
        ensures
            manifest@ == Seq::<(Seq<char>, Seq<Seq<char>>)>::empty(),
    {
        let manifest = ReactLoadableManifest { items: Vec::new() };
        assert(manifest@ =~= Seq::empty());
        manifest
    }

    /// The items in order. No two of them have the same id.
    pub fn items(&self) -> (items: &Vec<LoadableManifest>)
        ensures
            items@.map_values(|item: LoadableManifest| item@) == self@,
            distinct_keys(self@),
    {
        proof {
            use_type_invariant(self);
        }
        &self.items
    }

    /// The item of an id, if the manifest has one.
    pub fn get(&self, id: &str) -> (found: Option<&LoadableManifest>)
        ensures
            match found {
                Some(item) => item.id@ == id@ && lookup(self@, id@) == Some(texts(item.files@)),
                None => lookup(self@, id@) is None,
            },
    {
        proof {
            use_type_invariant(self);
        }
        match find_id(&self.items, &id.to_owned()) {
            Some(index) => {
                proof {
                    assert(self@[index as int] == self.items@[index as int]@);
                    lemma_position_unique(self@, id@, index as int);
                }
                Some(&self.items[index])
            },
            None => None,
        }
    }

    /// Writes the manifest as a JSON document.
    pub fn to_json(&self) -> (json: Result<String, ManifestError>)
        ensures
            json matches Ok(document) && document@ == manifest_json(self@),
    {
        let mut members: Vec<String> = Vec::new();
        let mut i: usize = 0;
        while i < self.items.len()
            invariant
                i <= self.items@.len(),
                members@.len() == i,
                forall|j: int| 0 <= j < i ==> (#[trigger] members@[j])@ == item_json(self@[j]),
            decreases self.items@.len() - i,
        {
            let item = &self.items[i];
            let id = match write_string(item.id.as_str()) {
                Ok(id) => id,
                Err(error) => { return Err(error); },
            };
            let files = match write_strings(&item.files) {
                Ok(files) => files,
                Err(error) => { return Err(error); },
            };
            members.push(member_json(id.as_str(), &files));
            i += 1;
        }
        proof {
            assert(texts(members@) =~= self@.map_values(
                |item: (Seq<char>, Seq<Seq<char>>)| item_json(item),
            ));
        }
        Ok(document_json(&members))
    }

    /// Sets the item of the new item's id and returns the item that the id
    /// had before.
    pub fn insert(&mut self, item: LoadableManifest) -> (previous: Option<LoadableManifest>)
        ensures
            final(self)@ == insert_entry(old(self)@, item.id@, texts(item.files@)),
            match previous {
                Some(held) => held.id@ == item.id@ && lookup(old(self)@, item.id@) == Some(
                    texts(held.files@),
                ),
                None => lookup(old(self)@, item.id@) is None,
            },
    {
        // A vector may unwind while it grows, so it is updated outside `self`.
        let mut taken = ReactLoadableManifest::new();
        std::mem::swap(self, &mut taken);
        proof {
            use_type_invariant(&taken);
            lemma_insert_keeps_distinct(taken@, item.id@, texts(item.files@));
        }
        let ghost before = taken@;
        let ReactLoadableManifest { mut items } = taken;
        let previous = match find_id(&items, &item.id) {
            Some(index) => {
                proof {
                    assert(before[index as int] == items@[index as int]@);
                    lemma_position_unique(before, item.id@, index as int);
                }
                let mut slot = item;
                std::mem::swap(&mut items[index], &mut slot);
                proof {
                    assert(items@.map_values(|item: LoadableManifest| item@) =~= before.update(
                        index as int,
                        item@,
                    ));
                }
                Some(slot)
            },
            None => {
                items.push(item);
                proof {
                    assert(items@.map_values(|item: LoadableManifest| item@) =~= before.push(
                        item@,
                    ));
                }
                None
            },
        };
        *self = ReactLoadableManifest { items };
        previous
    }
}

/// Finds the item with the id.
fn find_id(items: &Vec<LoadableManifest>, id: &String) -> (found: Option<usize>)
    ensures
        match found {
            Some(index) => index < items@.len() && items@[index as int].id@ == id@,
            None => !has_key(items@.map_values(|item: LoadableManifest| item@), id@),
        },
{
    let ghost entries = items@.map_values(|item: LoadableManifest| item@);
    let mut i: usize = 0;
    while i < items.len()
        invariant
            i <= items@.len(),
            entries == items@.map_values(|item: LoadableManifest| item@),
            forall|j: int| 0 <= j < i ==> (#[trigger] entries[j]).0 != id@,
        decreases items@.len() - i,
    {
        if items[i].id == *id {
            return Some(i);
        }
        assert(entries[i as int].0 == items@[i as int].id@);
        i += 1;
    }
    None
}

/// The manifest as an output file of the build.
pub struct LoadableManifestAsset {
    /// Where the manifest is written.
    pub path: String,
    /// The items of the manifest.
    pub manifest: ReactLoadableManifest,
    /// What is written: the manifest as a JSON document.
    pub content: String,
}

/// Makes the manifest of the aggregated entries.
pub fn loadable_manifest(
    dynamic_import_entries: &DynamicImportedChunks,
    client_relative_path: &str,
) -> (manifest: ReactLoadableManifest)
    ensures
        manifest@ == manifest_of(dynamic_import_entries@, client_relative_path@),
{
    let ghost chunks = dynamic_import_entries@;
    let mut loadable_manifest = ReactLoadableManifest::new();
    let count = dynamic_import_entries.0.len();
    let mut i: usize = 0;
    proof {
        assert(chunks.take(0) =~= Seq::empty());
    }
    while i < count
        invariant
            i <= count,
            count == chunks.len(),
            chunks == dynamic_import_entries@,
            loadable_manifest@ == manifest_of(chunks.take(i as int), client_relative_path@),
        decreases count - i,
    {
        proof {
            assert(chunks.take(i + 1).drop_last() =~= chunks.take(i as int));
            assert(chunks.take(i + 1).last() == chunks[i as int]);
        }
        if let Some((_, chunk)) = dynamic_import_entries.0.get_index(i) {
            let files = relative_paths(client_relative_path, &chunk.1);
            let manifest_item = LoadableManifest { id: chunk.0.clone(), files };
            loadable_manifest.insert(manifest_item);
        }
        i += 1;
    }
    proof {
        assert(chunks.take(i as int) =~= chunks);
    }
    loadable_manifest
}

/// Makes the manifest file of the aggregated entries: the item of an entry
/// has the entry's id and those of its files that lie below the client's
/// root, each as a path relative to that root, and the file holds the items
/// as a JSON document.
pub fn create_react_loadable_manifest(
    dynamic_import_entries: &DynamicImportedChunks,
    client_relative_path: &str,
    output_path: String,
) -> (result: Result<LoadableManifestAsset, ManifestError>)
    ensures
        result matches Ok(asset) && {
            &&& asset.path == output_path
            &&& asset.manifest@ == manifest_of(dynamic_import_entries@, client_relative_path@)
            &&& asset.content@ == manifest_json(asset.manifest@)
        },
{
    let manifest = loadable_manifest(dynamic_import_entries, client_relative_path);
    match manifest.to_json() {
        Ok(content) => Ok(LoadableManifestAsset { path: output_path, manifest, content }),
        Err(error) => Err(error),
    }
}

/// The relative paths of a list of files are those of its front followed by
/// those of its back.
pub proof fn lemma_relative_files_concat(
    root: Seq<char>,
    front: Seq<Seq<char>>,
    back: Seq<Seq<char>>,
)
    ensures
        relative_files(root, front + back) == relative_files(root, front) + relative_files(
            root,
            back,
        ),
    decreases back.len(),
{
    if back.len() == 0 {
        assert(front + back =~= front);
        assert(relative_files(root, front) + relative_files(root, back) =~= relative_files(
            root,
            front,
        ));
    } else {
        lemma_relative_files_concat(root, front, back.drop_last());
        assert((front + back).drop_last() =~= front + back.drop_last());
        assert((front + back).last() == back.last());
        match path_to(root, back.last()) {
            Some(path) => {
                assert((relative_files(root, front) + relative_files(
                    root,
                    back.drop_last(),
                )).push(path) =~= relative_files(root, front) + relative_files(
                    root,
                    back.drop_last(),
                ).push(path));
            },
            None => {},
        }
    }
}

/// A file outside the root leaves no path and takes none away: the files
/// before and after it are listed as they are without it.
pub proof fn lemma_outside_file_is_dropped(
    root: Seq<char>,
    before: Seq<Seq<char>>,
    file: Seq<char>,
    after: Seq<Seq<char>>,
)
    requires
        path_to(root, file) is None,
    ensures
        relative_files(root, before + seq![file] + after) == relative_files(root, before)
            + relative_files(root, after),
{
    lemma_relative_files_concat(root, before + seq![file], after);
    assert((before + seq![file]).drop_last() =~= before);
}

/// Every listed path is the relative path of one of the files, so a file
/// outside the root is never listed.
pub proof fn lemma_listed_files_lie_below_root(root: Seq<char>, assets: Seq<Seq<char>>, index: int)
    requires
        0 <= index < relative_files(root, assets).len(),
    ensures
        exists|a: int|
            0 <= a < assets.len() && path_to(root, #[trigger] assets[a]) == Some(
                relative_files(root, assets)[index],
            ),
    decreases assets.len(),
{
    if assets.len() > 0 {
        let earlier = relative_files(root, assets.drop_last());
        if index < earlier.len() {
            lemma_listed_files_lie_below_root(root, assets.drop_last(), index);
            let a = choose|a: int|
                0 <= a < assets.drop_last().len() && path_to(
                    root,
                    #[trigger] assets.drop_last()[a],
                ) == Some(earlier[index]);
            assert(assets[a] == assets.drop_last()[a]);
        } else {
            assert(path_to(root, assets[assets.len() - 1]) == Some(
                relative_files(root, assets)[index],
            ));
        }
    }
}

/// Every aggregated entry has an item under its id, whether or not any of
/// its files lies below the root.
pub proof fn lemma_every_entry_has_an_item(
    chunks: Seq<(u64, (Seq<char>, Seq<Seq<char>>))>,
    root: Seq<char>,
    index: int,
)
    requires
        0 <= index < chunks.len(),
    ensures
        has_key(manifest_of(chunks, root), chunks[index].1.0),
    decreases chunks.len(),
{
    let (id, assets) = chunks.last().1;
    lemma_insert_members(manifest_of(chunks.drop_last(), root), id, relative_files(root, assets));
    if index < chunks.len() - 1 {
        lemma_every_entry_has_an_item(chunks.drop_last(), root, index);
        assert(chunks.drop_last()[index] == chunks[index]);
    }
}

/// Every item of the manifest has the id of an aggregated entry and lists
/// the relative paths of that entry's files below the root, nothing else.
pub proof fn lemma_items_come_from_entries(
    chunks: Seq<(u64, (Seq<char>, Seq<Seq<char>>))>,
    root: Seq<char>,
    index: int,
)
    requires
        0 <= index < manifest_of(chunks, root).len(),
    ensures
        exists|c: int|
            0 <= c < chunks.len() && manifest_of(chunks, root)[index] == ((#[trigger] chunks[c]).1.0, relative_files(
                root,
                chunks[c].1.1,
            )),
    decreases chunks.len(),
{
    if chunks.len() > 0 {
        let (id, assets) = chunks.last().1;
        let earlier = manifest_of(chunks.drop_last(), root);
        lemma_insert_members(earlier, id, relative_files(root, assets));
        if manifest_of(chunks, root)[index] == (id, relative_files(root, assets)) {
            let c = chunks.len() - 1;
            assert(manifest_of(chunks, root)[index] == (chunks[c].1.0, relative_files(
                root,
                chunks[c].1.1,
            )));
        } else {
            lemma_items_come_from_entries(chunks.drop_last(), root, index);
            let c = choose|c: int|
                0 <= c < chunks.drop_last().len() && earlier[index] == ((
                #[trigger] chunks.drop_last()[c]).1.0, relative_files(
                    root,
                    chunks.drop_last()[c].1.1,
                ));
            assert(chunks[c] == chunks.drop_last()[c]);
        }
    }
}

/// The manifest is a function of what was aggregated and of the root: two
/// builds that aggregate the same ids and files under the same root make
/// the same manifest, item for item and in the same order, and write the
/// same document, character for character.
pub proof fn lemma_same_entries_same_manifest(
    first: &DynamicImportedChunks,
    second: &DynamicImportedChunks,
    first_root: &str,
    second_root: &str,
)
    requires
        first@ == second@,
        first_root@ == second_root@,
    ensures
        manifest_of(first@, first_root@) == manifest_of(second@, second_root@),
        manifest_json(manifest_of(first@, first_root@)) == manifest_json(
            manifest_of(second@, second_root@),
        ),
{
}

} // verus!
