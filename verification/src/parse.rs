//! The catalog response parser: from the text of a catalog's answer to the
//! version records that can be downloaded, in the catalog's order.

use crate::assoc::{lemma_position, lemma_position_is, lookup, position, Text};
use crate::json::{found_text, parse_json, parsed_text, Json, JsonView};
use crate::types::{record_views, ExtVersion, ExtVersionView};
use vstd::prelude::*;

verus! {

/// The asset type of an extension's package among the files of a version.
pub const PACKAGE_ASSET_TYPE: &'static str = "Microsoft.VisualStudio.Services.VSIXPackage";

/// Why a catalog response gave no records.
#[derive(Debug, Clone, Copy, PartialEq, Eq, Structural)]
pub enum ParseError {
    /// The text is no JSON document.
    MalformedResponse,
    /// The text is JSON, but a version in it lacks what every version has:
    /// its array of files, the asset type of a file, or, for a version with a
    /// package, its version string or the package's source.
    UnknownSchema,
}

impl ParseError {
    /// What went wrong, in words.
    pub fn message(&self) -> (text: String)
        ensures
            text@ == (match self {
                ParseError::MalformedResponse => "the catalog's response is not JSON"@,
                ParseError::UnknownSchema => "a version of the catalog cannot be read"@,
            }),
    {
        match self {
            ParseError::MalformedResponse => "the catalog's response is not JSON".to_owned(),
            ParseError::UnknownSchema => "a version of the catalog cannot be read".to_owned(),
        }
    }
}

/// The member `key` of `object`, where it is a string.
pub open spec fn text_member(object: JsonView, key: Text) -> Option<Text> {
    match object.get(key) {
        Some(value) => value.as_str(),
        None => None,
    }
}

/// Every file has an asset type.
pub open spec fn tags_readable(files: Seq<JsonView>) -> bool {
    forall|i: int| 0 <= i < files.len() ==> text_member(#[trigger] files[i], "assetType"@) is Some
}

/// The files of a version as pairs: a file's asset type, and its source where
/// it has one.
pub open spec fn asset_entries(files: Seq<JsonView>) -> Seq<(Text, Option<Text>)> {
    Seq::new(
        files.len(),
        |i: int|
            (
                match text_member(files[i], "assetType"@) {
                    Some(tag) => tag,
                    None => Seq::empty(),
                },
                text_member(files[i], "source"@),
            ),
    )
}

/// What one version object of the catalog gives: a record, where its first
/// file of the package's asset type has a source; nothing, where it has no
/// such file; an error, where it is not made as a version is.
pub open spec fn version_record(item: JsonView) -> Result<Option<ExtVersionView>, ParseError> {
    match item.get("files"@) {
        Some(JsonView::Array(files)) => if !tags_readable(files) {
            Err(ParseError::UnknownSchema)
        } else {
            match lookup(asset_entries(files), PACKAGE_ASSET_TYPE@) {
                None => Ok(None),
                Some(source) => match (text_member(item, "version"@), source) {
                    (Some(version), Some(file_source)) => Ok(
                        Some(
                            ExtVersionView {
                                version,
                                target_platform: text_member(item, "targetPlatform"@),
                                file_source,
                            },
                        ),
                    ),
                    _ => Err(ParseError::UnknownSchema),
                },
            }
        },
        _ => Err(ParseError::UnknownSchema),
    }
}

/// The records of a sequence of version objects: the record of each object
/// that gives one, in the objects' order; an error where any object gives one.
pub open spec fn version_records(items: Seq<JsonView>) -> Result<Seq<ExtVersionView>, ParseError>
    decreases items.len(),
{
    if items.len() == 0 {
        Ok(Seq::empty())
    } else {
        match (version_records(items.drop_last()), version_record(items.last())) {
            (Ok(records), Ok(Some(record))) => Ok(records.push(record)),
            (Ok(records), Ok(None)) => Ok(records),
            _ => Err(ParseError::UnknownSchema),
        }
    }
}

/// The version objects of a catalog response: the array under `versions` of
/// the first extension of the first result, where there is one.
pub open spec fn version_items(root: JsonView) -> Option<Seq<JsonView>> {
    match root.get("results"@) {
        Some(results) => match results.at(0) {
            Some(result) => match result.get("extensions"@) {
                Some(extensions) => match extensions.at(0) {
                    Some(extension) => match extension.get("versions"@) {
                        Some(versions) => versions.as_array(),
                        None => None,
                    },
                    None => None,
                },
                None => None,
            },
            None => None,
        },
        None => None,
    }
}

/// The records of a catalog response that was read as JSON. A response
/// without the array of versions has none.
pub open spec fn catalog_records(root: JsonView) -> Result<Seq<ExtVersionView>, ParseError> {
    match version_items(root) {
        Some(items) => version_records(items),
        None => Ok(Seq::empty()),
    }
}

/// The records of a catalog response, from its text.
pub open spec fn response_records(text: Text) -> Result<Seq<ExtVersionView>, ParseError> {
    match parsed_text(text) {
        Some(root) => catalog_records(root),
        None => Err(ParseError::MalformedResponse),
    }
}

/// The value of one version object's outcome.
pub open spec fn outcome_view(outcome: Result<Option<ExtVersion>, ParseError>) -> Result<
    Option<ExtVersionView>,
    ParseError,
> {
    match outcome {
        Ok(Some(record)) => Ok(Some(record@)),
        Ok(None) => Ok(None),
        Err(e) => Err(e),
    }
}

/// The value of a parser's result.
pub open spec fn parsed_view(parsed: Result<Vec<ExtVersion>, ParseError>) -> Result<
    Seq<ExtVersionView>,
    ParseError,
> {
    match parsed {
        Ok(records) => Ok(record_views(records@)),
        Err(e) => Err(e),
    }
}

/// The member `key` of `object`, where it is a string.
pub fn text_of<'a>(object: &'a Json, key: &str) -> (text: Option<&'a String>)
    ensures
        found_text(text) == text_member(object@, key@),
{
    match object.get(key) {
        Some(value) => value.as_str(),
        None => None,
    }
}

/// Reads one version object of the catalog.
pub fn read_version(item: &Json) -> (outcome: Result<Option<ExtVersion>, ParseError>)
    ensures
        outcome_view(outcome) == version_record(item@),
{
    let files = match item.get("files") {
        Some(value) => match value.as_array() {
            Some(files) => files,
            None => {
                return Err(ParseError::UnknownSchema);
            },
        },
        None => {
            return Err(ParseError::UnknownSchema);
        },
    };
    let ghost file_views = Seq::new(files@.len(), |i: int| files@[i]@);
    let ghost entries = asset_entries(file_views);
    let package = PACKAGE_ASSET_TYPE.to_owned();
    let mut first: Option<usize> = None;
    let mut i: usize = 0;
    while i < files.len()
        invariant
            i <= files@.len(),
            item@.get("files"@) == Some(JsonView::Array(file_views)),
            file_views == Seq::new(files@.len(), |i: int| files@[i]@),
            entries == asset_entries(file_views),
            package@ == PACKAGE_ASSET_TYPE@,
            forall|j: int|
                0 <= j < i ==> text_member(#[trigger] file_views[j], "assetType"@) is Some,
            match first {
                Some(k) => k < i && entries[k as int].0 == PACKAGE_ASSET_TYPE@ && forall|j: int|
                    0 <= j < k ==> (#[trigger] entries[j]).0 != PACKAGE_ASSET_TYPE@,
                None => forall|j: int|
                    0 <= j < i ==> (#[trigger] entries[j]).0 != PACKAGE_ASSET_TYPE@,
            },
        decreases files@.len() - i,
    {
        assert(file_views[i as int] == files@[i as int]@);
        match text_of(&files[i], "assetType") {
            Some(tag) => {
                if first.is_none() && *tag == package {
                    first = Some(i);
                }
            },
            None => {
                assert(!tags_readable(file_views));
                return Err(ParseError::UnknownSchema);
            },
        }
        i += 1;
    }
    assert(tags_readable(file_views));
    match first {
        None => {
            proof {
                lemma_position(entries, PACKAGE_ASSET_TYPE@);
            }
            Ok(None)
        },
        Some(k) => {
            proof {
                lemma_position_is(entries, PACKAGE_ASSET_TYPE@, k as int);
            }
            assert(file_views[k as int] == files@[k as int]@);
            let version = match text_of(item, "version") {
                Some(version) => version.clone(),
                None => {
                    return Err(ParseError::UnknownSchema);
                },
            };
            let file_source = match text_of(&files[k], "source") {
                Some(source) => source.clone(),
                None => {
                    return Err(ParseError::UnknownSchema);
                },
            };
            let target_platform = match text_of(item, "targetPlatform") {
                Some(platform) => Some(platform.clone()),
                None => None,
            };
            Ok(Some(ExtVersion { version, target_platform, file_source }))
        },
    }
}

/// The records of a catalog response that was read as JSON: one for each
/// version that has a package, in the catalog's order.
pub fn extension_versions(root: &Json) -> (parsed: Result<Vec<ExtVersion>, ParseError>)
    ensures
        parsed_view(parsed) == catalog_records(root@),
{
    let mut records: Vec<ExtVersion> = Vec::new();
    let items = match version_array(root) {
        Some(items) => items,
        None => {
            assert(record_views(records@) =~= Seq::empty());
            return Ok(records);
        },
    };
    let ghost item_views = Seq::new(items@.len(), |i: int| items@[i]@);
    let mut i: usize = 0;
    assert(item_views.take(0) =~= Seq::empty());
    assert(record_views(records@) =~= Seq::empty());
    while i < items.len()
        invariant
            i <= items@.len(),
            version_items(root@) == Some(item_views),
            item_views == Seq::new(items@.len(), |i: int| items@[i]@),
            version_records(item_views.take(i as int)) == Ok::<Seq<ExtVersionView>, ParseError>(
                record_views(records@),
            ),
        decreases items@.len() - i,
    {
        let ghost before = item_views.take(i as int);
        let ghost upto = item_views.take(i as int + 1);
        let ghost held = record_views(records@);
        assert(upto.drop_last() =~= before);
        assert(upto.last() == items@[i as int]@);
        match read_version(&items[i]) {
            Ok(Some(record)) => {
                records.push(record);
                assert(record_views(records@) =~= held.push(record@));
            },
            Ok(None) => {},
            Err(_) => {
                proof {
                    assert(item_views[i as int] == items@[i as int]@);
                    lemma_records_fail(item_views, i as int);
                }
                return Err(ParseError::UnknownSchema);
            },
        }
        i += 1;
    }
    assert(item_views.take(i as int) =~= item_views);
    Ok(records)
}

/// The array of version objects of a catalog response.
fn version_array(root: &Json) -> (items: Option<&Vec<Json>>)
    ensures
        match items {
            Some(v) => version_items(root@) == Some(Seq::new(v@.len(), |i: int| v@[i]@)),
            None => version_items(root@).is_none(),
        },
{
    let results = match root.get("results") {
        Some(results) => results,
        None => {
            return None;
        },
    };
    let result = match results.at(0) {
        Some(result) => result,
        None => {
            return None;
        },
    };
    let extensions = match result.get("extensions") {
        Some(extensions) => extensions,
        None => {
            return None;
        },
    };
    let extension = match extensions.at(0) {
        Some(extension) => extension,
        None => {
            return None;
        },
    };
    match extension.get("versions") {
        Some(versions) => versions.as_array(),
        None => None,
    }
}

/// Where one version object gives an error, so does every sequence that
/// holds it.
pub proof fn lemma_records_fail(items: Seq<JsonView>, k: int)
    requires
        0 <= k < items.len(),
        version_record(items[k]) is Err,
    ensures
        version_records(items) == Err::<Seq<ExtVersionView>, ParseError>(ParseError::UnknownSchema),
    decreases items.len(),
{
    if k < items.len() - 1 {
        lemma_records_fail(items.drop_last(), k);
    }
}

/// Parses the text of a catalog response into its version records.
///
/// The text is read as JSON by `serde_json`; where that fails, so does the
/// parser. The records are then those of [`extension_versions`].
pub fn parse_extension_query_data(raw_text: String) -> (parsed: Result<
    Vec<ExtVersion>,
    ParseError,
>)
    ensures
        parsed_view(parsed) == response_records(raw_text@),
{
    match parse_json(raw_text.as_str()) {
        Some(root) => extension_versions(&root),
        None => Err(ParseError::MalformedResponse),
    }
}

/// The files of the version object hold no file of the package's asset type.
pub open spec fn lacks_package(item: JsonView) -> bool {
    match item.get("files"@) {
        Some(JsonView::Array(files)) => forall|i: int|
            0 <= i < files.len() ==> text_member(#[trigger] files[i], "assetType"@) != Some(
                PACKAGE_ASSET_TYPE@,
            ),
        _ => false,
    }
}

/// Parsing is a function of the text: two results for one text hold the same
/// records in the same order, or the same error.
pub proof fn lemma_reparse(
    text: Text,
    first: Result<Vec<ExtVersion>, ParseError>,
    second: Result<Vec<ExtVersion>, ParseError>,
)
    requires
        parsed_view(first) == response_records(text),
        parsed_view(second) == response_records(text),
    ensures
        parsed_view(first) == parsed_view(second),
{
}

/// The parser keeps the catalog's order: the records of two sequences of
/// version objects, one after the other, are the records of the first
/// followed by those of the second.
pub proof fn lemma_records_concat(first: Seq<JsonView>, second: Seq<JsonView>)
    ensures
        version_records(first + second) == (match (
            version_records(first),
            version_records(second),
        ) {
            (Ok(head), Ok(tail)) => Ok::<Seq<ExtVersionView>, ParseError>(head + tail),
            _ => Err(ParseError::UnknownSchema),
        }),
    decreases second.len(),
{
    let both = first + second;
    if second.len() == 0 {
        assert(both =~= first);
        if let Ok(head) = version_records(first) {
            assert(head + Seq::<ExtVersionView>::empty() =~= head);
        } else {
            lemma_records_error(first);
        }
    } else {
        assert(both.drop_last() =~= first + second.drop_last());
        assert(both.last() == second.last());
        lemma_records_concat(first, second.drop_last());
        if let (Ok(head), Ok(tail)) = (
            version_records(first),
            version_records(second.drop_last()),
        ) {
            if let Ok(Some(record)) = version_record(second.last()) {
                assert((head + tail).push(record) =~= head + tail.push(record));
            }
        }
    }
}

/// The parser has one error for version objects.
pub proof fn lemma_records_error(items: Seq<JsonView>)
    ensures
        version_records(items) is Err ==> version_records(items) == Err::<
            Seq<ExtVersionView>,
            ParseError,
        >(ParseError::UnknownSchema),
    decreases items.len(),
{
    if items.len() > 0 {
        lemma_records_error(items.drop_last());
    }
}

/// A version object without a file of the package's asset type gives no
/// record.
pub proof fn lemma_lacking_gives_none(item: JsonView)
    requires
        lacks_package(item),
    ensures
        version_record(item) is Err || version_record(item) == Ok::<
            Option<ExtVersionView>,
            ParseError,
        >(None),
{
    let files = item.get("files"@)->0->Array_0;
    let entries = asset_entries(files);
    if tags_readable(files) {
        lemma_position(entries, PACKAGE_ASSET_TYPE@);
        if let Some(k) = position(entries, PACKAGE_ASSET_TYPE@) {
            assert(text_member(files[k], "assetType"@) is Some);
        }
    }
}

/// A version without a file of the package's asset type never appears in the
/// records: they are what they would be without that version object.
pub proof fn lemma_lacking_excluded(items: Seq<JsonView>, k: int)
    requires
        0 <= k < items.len(),
        lacks_package(items[k]),
        version_records(items) is Ok,
    ensures
        version_records(items) == version_records(items.remove(k)),
{
    let head = items.take(k);
    let one = seq![items[k]];
    let tail = items.skip(k + 1);
    assert(items =~= head + one + tail);
    assert(items.remove(k) =~= head + tail);
    lemma_lacking_gives_none(items[k]);
    lemma_records_concat(head + one, tail);
    lemma_records_concat(head, one);
    lemma_records_concat(head, tail);
    assert(one.drop_last() =~= Seq::<JsonView>::empty());
    assert(one.last() == items[k]);
    assert(version_records(one.drop_last()) == Ok::<Seq<ExtVersionView>, ParseError>(
        Seq::empty(),
    ));
    if let Ok(records) = version_records(head) {
        assert(records + Seq::<ExtVersionView>::empty() =~= records);
    }
}

} // verus!
