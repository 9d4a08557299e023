use next_api::dynamic_imports::DynamicImportedChunks;
use next_api::json::{
    document_json, files_json, member_json, string_or_error, write_string, write_strings,
    ManifestError,
};
use next_api::loadable_manifest::{
    create_react_loadable_manifest, get_path_to, loadable_manifest, relative_paths,
    LoadableManifest, ReactLoadableManifest,
};
use next_api::module_map::ModuleMap;

fn text(s: &str) -> String {
    String::from(s)
}

fn files(paths: &[&str]) -> Vec<String> {
    paths.iter().map(|p| String::from(*p)).collect()
}

fn chunks(entries: &[(u64, &str, &[&str])]) -> DynamicImportedChunks {
    let mut map = ModuleMap::new();
    for (module, id, assets) in entries {
        map.insert(*module, (text(id), files(assets)));
    }
    DynamicImportedChunks(map)
}

fn listed(manifest: &ReactLoadableManifest) -> Vec<(String, Vec<String>)> {
    manifest.items().iter().map(|item| (item.id.clone(), item.files.clone())).collect()
}

#[test]
fn path_below_the_root_is_what_follows_the_slash() {
    assert_eq!(
        get_path_to(".next", ".next/static/chunks/a.js"),
        Some(text("static/chunks/a.js"))
    );
    assert_eq!(get_path_to("a/b", "a/b/c"), Some(text("c")));
    assert_eq!(get_path_to("a", "a/"), Some(text("")));
}

#[test]
fn path_outside_the_root_has_no_relative_path() {
    assert_eq!(get_path_to(".next", "public/a.js"), None);
    assert_eq!(get_path_to(".next", ".next"), None);
    assert_eq!(get_path_to(".next", ".nextra/a.js"), None);
    assert_eq!(get_path_to(".next", ".nex"), None);
    assert_eq!(get_path_to(".next", ""), None);
    assert_eq!(get_path_to(".next/", ".next/a.js"), None);
}

#[test]
fn every_path_lies_below_the_empty_root() {
    assert_eq!(get_path_to("", "static/a.js"), Some(text("static/a.js")));
    assert_eq!(get_path_to("", ""), Some(text("")));
}

#[test]
fn paths_are_measured_in_characters() {
    assert_eq!(get_path_to("dépôt", "dépôt/clé.js"), Some(text("clé.js")));
    assert_eq!(get_path_to("dépôt", "depot/clé.js"), None);
}

#[test]
fn files_outside_the_root_are_left_out_in_order() {
    assert_eq!(
        relative_paths("out",
            &files(&["out/b.js", "src/x.js", "out/a.js", "out", "out/b.js"])
        ),
        files(&["b.js", "a.js", "b.js"])
    );
    assert!(relative_paths("out", &files(&[])).is_empty());
}

#[test]
fn manifest_has_one_item_for_each_entry() {
    let entries = chunks(&[
        (1, "id-one", &["out/static/one.js", "out/static/one.css"]),
        (2, "id-two", &["out/static/two.js"]),
    ]);
    let asset = create_react_loadable_manifest(&entries, "out", text("loadable.json")).unwrap();
    assert_eq!(asset.path, "loadable.json");
    assert_eq!(
        listed(&asset.manifest),
        vec![
            (text("id-one"), files(&["static/one.js", "static/one.css"])),
            (text("id-two"), files(&["static/two.js"])),
        ]
    );
}

#[test]
fn entry_whose_files_all_lie_outside_keeps_its_item() {
    let entries = chunks(&[
        (1, "id-one", &["elsewhere/one.js"]),
        (2, "id-two", &["out/two.js", "elsewhere/two.css"]),
        (3, "id-three", &[]),
    ]);
    let asset = create_react_loadable_manifest(&entries, "out", text("m.json")).unwrap();
    assert_eq!(
        listed(&asset.manifest),
        vec![
            (text("id-one"), files(&[])),
            (text("id-two"), files(&["two.js"])),
            (text("id-three"), files(&[])),
        ]
    );
}

#[test]
fn later_entry_with_the_same_id_overwrites_the_earlier() {
    let entries = chunks(&[
        (1, "shared", &["out/first.js"]),
        (2, "other", &["out/other.js"]),
        (3, "shared", &["out/second.js"]),
    ]);
    let asset = create_react_loadable_manifest(&entries, "out", text("m.json")).unwrap();
    assert_eq!(
        listed(&asset.manifest),
        vec![(text("shared"), files(&["second.js"])), (text("other"), files(&["other.js"]))]
    );
}

#[test]
fn no_entries_give_an_empty_manifest() {
    let asset = create_react_loadable_manifest(&chunks(&[]), "out", text("m.json")).unwrap();
    assert!(asset.manifest.items().is_empty());
}

#[test]
fn same_entries_give_the_same_manifest_twice() {
    let build = || {
        let entries = chunks(&[
            (8, "b", &["out/b.js", "out/shared.js"]),
            (3, "a", &["out/a.js", "out/shared.js"]),
        ]);
        listed(&create_react_loadable_manifest(&entries, "out", text("m.json")).unwrap().manifest)
    };
    assert_eq!(build(), build());
}

#[test]
fn manifest_insert_returns_what_the_id_had() {
    let mut manifest = ReactLoadableManifest::new();
    assert!(manifest
        .insert(LoadableManifest { id: text("a"), files: files(&["1.js"]) })
        .is_none());
    assert!(manifest
        .insert(LoadableManifest { id: text("b"), files: files(&["2.js"]) })
        .is_none());
    let previous =
        manifest.insert(LoadableManifest { id: text("a"), files: files(&["3.js"]) }).unwrap();
    assert_eq!(previous.id, "a");
    assert_eq!(previous.files, files(&["1.js"]));
    assert_eq!(manifest.get("a").unwrap().files, files(&["3.js"]));
    assert_eq!(manifest.get("b").unwrap().files, files(&["2.js"]));
    assert!(manifest.get("c").is_none());
    assert_eq!(manifest.items().len(), 2);
}

fn reference_document(items: &[(&str, &[&str])]) -> String {
    let mut document = serde_json::Map::new();
    for (id, paths) in items {
        let mut item = serde_json::Map::new();
        item.insert(text("id"), serde_json::Value::String(text(id)));
        item.insert(
            text("files"),
            serde_json::Value::Array(
                paths.iter().map(|path| serde_json::Value::String(text(path))).collect(),
            ),
        );
        document.insert(text(id), serde_json::Value::Object(item));
    }
    serde_json::to_string_pretty(&serde_json::Value::Object(document)).unwrap()
}

#[test]
fn strings_are_written_with_quotes_and_escapes() {
    assert_eq!(write_string("static/a.js").unwrap(), "\"static/a.js\"");
    assert_eq!(write_string("").unwrap(), "\"\"");
    assert_eq!(write_string("a\"b\\c\nd").unwrap(), "\"a\\\"b\\\\c\\nd\"");
    assert_eq!(write_string("clé\u{1}").unwrap(), "\"clé\\u0001\"");
    assert_eq!(
        write_strings(&files(&["a", "b\tc"])).unwrap(),
        vec![text("\"a\""), text("\"b\\tc\"")]
    );
    assert!(write_strings(&files(&[])).unwrap().is_empty());
}

#[test]
fn files_are_laid_out_one_on_each_line() {
    assert_eq!(files_json(&files(&[])), "[]");
    assert_eq!(files_json(&files(&["\"a\""])), "[\n      \"a\"\n    ]");
    assert_eq!(
        files_json(&files(&["\"a\"", "\"b\"", "\"c\""])),
        "[\n      \"a\",\n      \"b\",\n      \"c\"\n    ]"
    );
}

#[test]
fn member_holds_id_and_files() {
    assert_eq!(
        member_json("\"x\"", &files(&["\"a\""])),
        "  \"x\": {\n    \"id\": \"x\",\n    \"files\": [\n      \"a\"\n    ]\n  }"
    );
    assert_eq!(
        member_json("\"x\"", &files(&[])),
        "  \"x\": {\n    \"id\": \"x\",\n    \"files\": []\n  }"
    );
}

#[test]
fn document_holds_the_members_in_order() {
    assert_eq!(document_json(&files(&[])), "{}");
    assert_eq!(document_json(&files(&["  one"])), "{\n  one\n}");
    assert_eq!(document_json(&files(&["  one", "  two"])), "{\n  one,\n  two\n}");
}

#[test]
fn empty_manifest_is_an_empty_object() {
    let asset = create_react_loadable_manifest(&chunks(&[]), "out", text("m.json")).unwrap();
    assert_eq!(asset.content, "{}");
    assert_eq!(ReactLoadableManifest::new().to_json().unwrap(), "{}");
}

#[test]
fn manifest_is_written_as_pretty_json() {
    let entries = chunks(&[
        (1, "id-one", &["out/static/one.js", "out/static/one.css"]),
        (2, "id-two", &["elsewhere/two.js"]),
    ]);
    let asset = create_react_loadable_manifest(&entries, "out", text("m.json")).unwrap();
    let expected = "{
  \"id-one\": {
    \"id\": \"id-one\",
    \"files\": [
      \"static/one.js\",
      \"static/one.css\"
    ]
  },
  \"id-two\": {
    \"id\": \"id-two\",
    \"files\": []
  }
}";
    assert_eq!(asset.content, expected);
    assert_eq!(asset.manifest.to_json().unwrap(), expected);
}

#[test]
fn document_reads_as_serde_json_writes_it() {
    let items: &[(&str, &[&str])] = &[
        ("[project]/a \"quoted\".js [client] (ecmascript)", &["static/a\\b.js", "static/é\n.js"]),
        ("", &[]),
        ("z", &["", "\u{7f}\u{1f}", "static/chunks/z.js"]),
        ("a", &["static/chunks/a.js"]),
    ];
    let mut manifest = ReactLoadableManifest::new();
    for (id, paths) in items {
        manifest.insert(LoadableManifest { id: text(id), files: files(paths) });
    }
    assert_eq!(manifest.to_json().unwrap(), reference_document(items));
}

#[test]
fn same_entries_are_written_the_same_twice() {
    let build = || {
        let entries = chunks(&[
            (8, "b", &["out/b.js", "out/shared.js"]),
            (3, "a", &["out/a.js", "out/shared.js"]),
        ]);
        create_react_loadable_manifest(&entries, "out", text("m.json")).unwrap().content
    };
    assert_eq!(build(), build());
}

#[test]
fn manifest_without_the_file_has_the_same_items() {
    let entries = chunks(&[(1, "id-one", &["out/one.js", "away/one.css"])]);
    let manifest = loadable_manifest(&entries, "out");
    assert_eq!(listed(&manifest), vec![(text("id-one"), files(&["one.js"]))]);
}

#[test]
fn written_string_is_passed_on_and_failure_is_reported() {
    assert_eq!(string_or_error(Ok(text("\"a\""))).unwrap(), "\"a\"");
    assert_eq!(string_or_error(Ok(text(""))).unwrap(), "");
    let failure = serde_json::from_str::<u8>("no number").unwrap_err();
    let message = failure.to_string();
    let ManifestError::Json(reported) = string_or_error(Err(failure)).unwrap_err();
    assert_eq!(reported.to_string(), message);
}

fn parsed(content: &str) -> serde_json::Value {
    serde_json::from_str(content).unwrap()
}

fn expected_item(id: &str, paths: &[&str]) -> serde_json::Value {
    let mut item = serde_json::Map::new();
    item.insert(text("id"), serde_json::Value::String(text(id)));
    item.insert(
        text("files"),
        serde_json::Value::Array(
            paths.iter().map(|path| serde_json::Value::String(text(path))).collect(),
        ),
    );
    serde_json::Value::Object(item)
}

#[test]
fn entry_with_only_an_outside_file_is_written_without_files() {
    let entries = chunks(&[(5, "7", &["elsewhere/b.js"])]);
    let asset = create_react_loadable_manifest(&entries, "out", text("m.json")).unwrap();
    assert_eq!(asset.content, "{\n  \"7\": {\n    \"id\": \"7\",\n    \"files\": []\n  }\n}");
    let mut expected = serde_json::Map::new();
    expected.insert(text("7"), expected_item("7", &[]));
    assert_eq!(parsed(&asset.content), serde_json::Value::Object(expected));
}

#[test]
fn two_entries_with_one_id_are_written_as_the_later_one() {
    let entries = chunks(&[(1, "1", &["out/a.js"]), (2, "1", &["out/b.js"])]);
    let asset = create_react_loadable_manifest(&entries, "out", text("m.json")).unwrap();
    let mut expected = serde_json::Map::new();
    expected.insert(text("1"), expected_item("1", &["b.js"]));
    assert_eq!(parsed(&asset.content), serde_json::Value::Object(expected));
    assert_eq!(
        asset.content,
        "{\n  \"1\": {\n    \"id\": \"1\",\n    \"files\": [\n      \"b.js\"\n    ]\n  }\n}"
    );
}

#[test]
fn equal_inputs_give_equal_path_and_content() {
    let build = || {
        let entries = chunks(&[
            (1, "one", &["out/a.js", "out/a.css"]),
            (2, "two \"quoted\"", &["out/b\\c.js"]),
            (3, "three", &[]),
        ]);
        create_react_loadable_manifest(&entries, "out", text("server/loadable.json")).unwrap()
    };
    let (first, second) = (build(), build());
    assert_eq!(first.path, second.path);
    assert_eq!(first.content, second.content);
    assert_eq!(first.content.as_bytes(), second.content.as_bytes());
}
