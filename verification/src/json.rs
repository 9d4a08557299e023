//! The manifest as a JSON document.
//!
//! How a text is written as a JSON string is `serde_json`'s business and
//! is trusted. The document around the strings is laid out here: an object
//! with one member for each item, indented by two spaces for each level.

use crate::text::texts;
use vstd::prelude::*;
use vstd::string::StringExecFns;

verus! {

/// `serde_json::Error`. The verifier sees nothing inside it.
#[verifier::external_type_specification]
#[verifier::external_body]
pub struct ExJsonError(serde_json::Error);

/// The JSON string that `serde_json` writes for a text: the text between
/// double quotes, with its quotes, its backslashes and its characters below
/// U+0020 escaped.
pub uninterp spec fn json_string(text: Seq<char>) -> Seq<char>;

/// Whether the text holds nothing that JSON escapes: no double quote, no
/// backslash and no character below U+0020.
pub open spec fn is_plain(text: Seq<char>) -> bool {
    forall|i: int|
        0 <= i < text.len() ==> {
            &&& #[trigger] text[i] != '"'
            &&& text[i] != '\\'
            &&& text[i] as u32 >= 0x20
        }
}

/// The text between two double quotes.
pub open spec fn quoted(text: Seq<char>) -> Seq<char> {
    seq!['"'] + text + seq!['"']
}

/// A text as a JSON string: a plain text between double quotes as it
/// stands, any other text as `serde_json` escapes it.
pub open spec fn written_string(text: Seq<char>) -> Seq<char> {
    if is_plain(text) {
        quoted(text)
    } else {
        json_string(text)
    }
}

/// `serde_json::to_string` on a string slice. It gives the JSON string of
/// the text, which for a plain text is the text between double quotes. It
/// does not fail on a string slice: a string has no way to refuse, and the
/// only other error is the writer's, which here is a byte vector in memory.
#[verifier::external_body]
fn to_string(text: &str) -> (written: Result<String, serde_json::Error>)
    ensures
        written is Ok,
        written matches Ok(json) ==> json@ == json_string(text@),
        written matches Ok(json) ==> (is_plain(text@) ==> json@ == quoted(text@)),
{
    serde_json::to_string(text)
}

/// Why a manifest could not be written.
#[derive(Debug)]
pub enum ManifestError {
    /// A string could not be written as JSON.
    Json(serde_json::Error),
}

/// The lines with a comma and a line break between each two.
pub open spec fn joined(lines: Seq<Seq<char>>) -> Seq<char>
    decreases lines.len(),
{
    if lines.len() == 0 {
        Seq::empty()
    } else if lines.len() == 1 {
        lines[0]
    } else {
        joined(lines.drop_last()) + ",\n"@ + lines.last()
    }
}

/// Each line behind the indentation.
pub open spec fn indented(indentation: Seq<char>, lines: Seq<Seq<char>>) -> Seq<Seq<char>> {
    lines.map_values(|line: Seq<char>| indentation + line)
}

/// The array of an item's files, given as JSON strings: `[]` if there is
/// none, else one file on each line.
pub open spec fn files_layout(files: Seq<Seq<char>>) -> Seq<char> {
    if files.len() == 0 {
        "[]"@
    } else {
        "[\n"@ + joined(indented("      "@, files)) + "\n    ]"@
    }
}

/// The member of an item, its id and files given as JSON strings: the id,
/// and behind it the object with the members `id` and `files`.
pub open spec fn item_layout(id: Seq<char>, files: Seq<Seq<char>>) -> Seq<char> {
    "  "@ + id + ": {\n    \"id\": "@ + id + ",\n    \"files\": "@ + files_layout(files)
        + "\n  }"@
}

/// The object of all members: `{}` if there is none, else one member after
/// the other.
pub open spec fn document_layout(members: Seq<Seq<char>>) -> Seq<char> {
    if members.len() == 0 {
        "{}"@
    } else {
        "{\n"@ + joined(members) + "\n}"@
    }
}

/// The member of a manifest item.
pub open spec fn item_json(item: (Seq<char>, Seq<Seq<char>>)) -> Seq<char> {
    item_layout(
        written_string(item.0),
        item.1.map_values(|file: Seq<char>| written_string(file)),
    )
}

/// The document of a manifest: its items in order, each under its id.
pub open spec fn manifest_json(manifest: Seq<(Seq<char>, Seq<Seq<char>>)>) -> Seq<char> {
    document_layout(manifest.map_values(|item: (Seq<char>, Seq<Seq<char>>)| item_json(item)))
}

/// Writes a text as a JSON string.
pub fn write_string(text: &str) -> (written: Result<String, ManifestError>)
    ensures
        written matches Ok(json) && json@ == written_string(text@),
{
    string_or_error(to_string(text))
}

/// Reports what `serde_json` gave for a string: the JSON string where it
/// wrote one, and its error as the manifest's error where it did not.
pub fn string_or_error(written: Result<String, serde_json::Error>) -> (reported: Result<
    String,
    ManifestError,
>)
    ensures
        reported == match written {
            Ok(json) => Ok::<String, ManifestError>(json),
            Err(error) => Err::<String, ManifestError>(ManifestError::Json(error)),
        },
{
    match written {
        Ok(json) => Ok(json),
        Err(error) => Err(ManifestError::Json(error)),
    }
}

/// Writes each text as a JSON string, in the order of the texts.
pub fn write_strings(list: &Vec<String>) -> (written: Result<Vec<String>, ManifestError>)
    ensures
        written matches Ok(json) && texts(json@) == texts(list@).map_values(
            |text: Seq<char>| written_string(text),
        ),
{
    let mut json: Vec<String> = Vec::new();
    let mut i: usize = 0;
    while i < list.len()
        invariant
            i <= list@.len(),
            json@.len() == i,
            forall|j: int| 0 <= j < i ==> (#[trigger] json@[j])@ == written_string(list@[j]@),
        decreases list@.len() - i,
    {
        match write_string(list[i].as_str()) {
            Ok(string) => json.push(string),
            Err(error) => { return Err(error); },
        }
        i += 1;
    }
    assert(texts(json@) =~= texts(list@).map_values(|text: Seq<char>| written_string(text)));
    Ok(json)
}

/// Puts the lines behind `indentation`, with a comma and a line break
/// between each two, at the end of `out`.
fn append_joined(out: &mut String, indentation: &str, lines: &Vec<String>)
    ensures
        final(out)@ == old(out)@ + joined(indented(indentation@, texts(lines@))),
{
    let ghost all = indented(indentation@, texts(lines@));
    let mut i: usize = 0;
    proof {
        assert(all.take(0) =~= Seq::empty());
        assert(out@ =~= old(out)@ + joined(all.take(0)));
    }
    while i < lines.len()
        invariant
            i <= lines@.len(),
            all == indented(indentation@, texts(lines@)),
            out@ == old(out)@ + joined(all.take(i as int)),
        decreases lines@.len() - i,
    {
        let ghost before = out@;
        if i > 0 {
            out.append(",\n");
        }
        out.append(indentation);
        out.append(lines[i].as_str());
        proof {
            let line = indentation@ + lines@[i as int]@;
            assert(all[i as int] == line);
            assert(all.take(i + 1).drop_last() =~= all.take(i as int));
            assert(all.take(i + 1).last() == line);
            if i == 0 {
                assert(joined(all.take(0)) =~= Seq::empty());
                assert(out@ =~= old(out)@ + joined(all.take(1)));
            } else {
                assert(out@ =~= old(out)@ + joined(all.take(i + 1)));
            }
        }
        i += 1;
    }
    proof {
        assert(all.take(i as int) =~= all);
    }
}

/// Lays out the array of an item's files, given as JSON strings.
pub fn files_json(files: &Vec<String>) -> (json: String)
    ensures
        json@ == files_layout(texts(files@)),
{
    if files.len() == 0 {
        return String::from_str("[]");
    }
    let mut json = String::from_str("[\n");
    append_joined(&mut json, "      ", files);
    json.append("\n    ]");
    json
}

/// Lays out the member of an item, its id and files given as JSON strings.
pub fn member_json(id: &str, files: &Vec<String>) -> (json: String)
    ensures
        json@ == item_layout(id@, texts(files@)),
{
    let mut json = String::from_str("  ");
    json.append(id);
    json.append(": {\n    \"id\": ");
    json.append(id);
    json.append(",\n    \"files\": ");
    json.append(files_json(files).as_str());
    json.append("\n  }");
    json
}

/// Lays out the object of all members.
pub fn document_json(members: &Vec<String>) -> (json: String)
    ensures
        json@ == document_layout(texts(members@)),
{
    if members.len() == 0 {
        return String::from_str("{}");
    }
    let mut json = String::from_str("{\n");
    append_joined(&mut json, "", members);
    json.append("\n}");
    proof {
        reveal_strlit("");
        assert(indented(""@, texts(members@)) =~= texts(members@)) by {
            assert forall|i: int| 0 <= i < members@.len() implies indented(
                ""@,
                texts(members@),
            )[i] == texts(members@)[i] by {
                assert(""@ + texts(members@)[i] =~= texts(members@)[i]);
            }
        }
    }
    json
}

} // verus!
