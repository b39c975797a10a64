//! The selection resolver: from what the caller asks for to the location of
//! one package, by way of the picks that are needed in between.
//!
//! The resolver never asks anybody itself. Where a version or a platform has
//! to be picked, it hands out the candidates; the pick comes back as an
//! explicit version, or goes to [`platform_source`].

use crate::assoc::{distinct_keys, keys, lemma_position, lemma_position_is, lookup, position, Text};
use crate::index::{
    grouped_index, index_distinct, index_get, index_keys, index_view, indexed_source,
    lemma_grouped_distinct, lemma_grouped_version_origin, lemma_index_put_source, IndexView,
    VersionMap,
};
use crate::types::{record_views, texts, ExtVersion, ExtVersionView, SelectMode, SelectModeView};
use vstd::prelude::*;

verus! {

/// How far a selection has come.
#[derive(Debug, Clone, PartialEq, Eq)]
pub enum Resolution {
    /// The selection is settled: the package is at this location.
    Found(String),
    /// Nothing in the catalog matches the version that was asked for.
    NotFound,
    /// One of these versions has to be picked.
    ChooseVersion(Vec<String>),
    /// One of these platforms of the version has to be picked.
    ChoosePlatform(String, Vec<String>),
}

/// The mathematical value of a [`Resolution`].
pub enum ResolutionView {
    Found(Text),
    NotFound,
    ChooseVersion(Seq<Text>),
    ChoosePlatform(Text, Seq<Text>),
}

impl View for Resolution {
    type V = ResolutionView;

    open spec fn view(&self) -> ResolutionView {
        match self {
            Resolution::Found(location) => ResolutionView::Found(location@),
            Resolution::NotFound => ResolutionView::NotFound,
            Resolution::ChooseVersion(versions) => ResolutionView::ChooseVersion(texts(versions@)),
            Resolution::ChoosePlatform(version, platforms) => ResolutionView::ChoosePlatform(
                version@,
                texts(platforms@),
            ),
        }
    }
}

/// The first `n` of `items`, or all of them where they are fewer.
pub open spec fn first_n<T>(items: Seq<T>, n: nat) -> Seq<T> {
    if n <= items.len() {
        items.take(n as int)
    } else {
        items
    }
}

/// The records as pairs of version and source.
pub open spec fn flat_entries(records: Seq<ExtVersionView>) -> Seq<(Text, Text)> {
    Seq::new(records.len(), |i: int| (records[i].version, records[i].file_source))
}

/// What a selection comes to in a catalog without platforms. An explicit
/// version is settled by the first record that has it; a window offers the
/// versions of its records.
pub open spec fn flat_resolution(
    records: Seq<ExtVersionView>,
    mode: SelectModeView,
) -> ResolutionView {
    match mode {
        SelectModeView::SpecVersion(version) => match lookup(flat_entries(records), version) {
            Some(source) => ResolutionView::Found(source),
            None => ResolutionView::NotFound,
        },
        SelectModeView::NLatest(n) => ResolutionView::ChooseVersion(
            first_n(keys(flat_entries(records)), n),
        ),
    }
}

/// What a selection comes to in a catalog with platforms. An explicit
/// version that the index has asks for one of its platforms; a window offers
/// the first versions of the index.
pub open spec fn grouped_resolution(index: IndexView, mode: SelectModeView) -> ResolutionView {
    match mode {
        SelectModeView::SpecVersion(version) => match lookup(index, version) {
            Some(platforms) => ResolutionView::ChoosePlatform(version, keys(platforms)),
            None => ResolutionView::NotFound,
        },
        SelectModeView::NLatest(n) => ResolutionView::ChooseVersion(first_n(keys(index), n)),
    }
}

/// The text of an optional string.
pub open spec fn text_view(text: Option<String>) -> Option<Text> {
    match text {
        Some(s) => Some(s@),
        None => None,
    }
}

/// Resolves a selection in a catalog whose versions have no platforms.
pub fn handle_without_platform(
    query_data: &Vec<ExtVersion>,
    select_mode: SelectMode,
) -> (resolution: Resolution)
    ensures
        resolution@ == flat_resolution(record_views(query_data@), select_mode@),
{
    let ghost entries = flat_entries(record_views(query_data@));
    match select_mode {
        SelectMode::SpecVersion(sv) => {
            let mut i: usize = 0;
            while i < query_data.len()
                invariant
                    i <= query_data@.len(),
                    entries == flat_entries(record_views(query_data@)),
                    select_mode@ == SelectModeView::SpecVersion(sv@),
                    forall|j: int| 0 <= j < i ==> (#[trigger] entries[j]).0 != sv@,
                decreases query_data@.len() - i,
            {
                if query_data[i].version == sv {
                    proof {
                        lemma_position_is(entries, sv@, i as int);
                    }
                    return Resolution::Found(query_data[i].file_source.clone());
                }
                i += 1;
            }
            proof {
                lemma_position(entries, sv@);
            }
            Resolution::NotFound
        },
        SelectMode::NLatest(latest) => {
            let mut versions: Vec<String> = Vec::new();
            let mut i: usize = 0;
            while i < query_data.len() && i < latest
                invariant
                    i <= query_data@.len(),
                    i <= latest,
                    entries == flat_entries(record_views(query_data@)),
                    versions@.len() == i,
                    forall|j: int| 0 <= j < i ==> (#[trigger] versions@[j])@ == entries[j].0,
                decreases query_data@.len() - i,
            {
                versions.push(query_data[i].version.clone());
                i += 1;
            }
            assert(texts(versions@) =~= first_n(keys(entries), latest as nat));
            Resolution::ChooseVersion(versions)
        },
    }
}

/// Resolves a selection in a catalog whose versions come in platform
/// variants, as far as it goes without a pick.
pub fn handle_with_platform(
    grouped_query_data: &VersionMap,
    select_mode: SelectMode,
) -> (resolution: Resolution)
    ensures
        resolution@ == grouped_resolution(index_view(*grouped_query_data), select_mode@),
{
    let ghost index = index_view(*grouped_query_data);
    match select_mode {
        SelectMode::SpecVersion(sv) => {
            match index_get(grouped_query_data, sv.as_str()) {
                Some(tv) => {
                    let platform_options = tv.keys();
                    Resolution::ChoosePlatform(sv, platform_options)
                },
                None => Resolution::NotFound,
            }
        },
        SelectMode::NLatest(latest) => {
            let mut versions = index_keys(grouped_query_data);
            if latest < versions.len() {
                versions.truncate(latest);
            }
            assert(texts(versions@) =~= first_n(keys(index), latest as nat));
            Resolution::ChooseVersion(versions)
        },
    }
}

/// The source of the package of `platform` of `version`: what the index
/// holds under the two, or nothing where it does not have them.
pub fn platform_source(
    grouped_query_data: &VersionMap,
    version: &str,
    platform: &str,
) -> (source: Option<String>)
    ensures
        text_view(source) == indexed_source(index_view(*grouped_query_data), version@, platform@),
{
    match index_get(grouped_query_data, version) {
        Some(platforms) => match platforms.get(platform) {
            Some(source) => Some(source.clone()),
            None => None,
        },
        None => None,
    }
}

/// The versions of the records, in order.
pub open spec fn versions_of(records: Seq<ExtVersionView>) -> Seq<Text> {
    keys(flat_entries(records))
}

/// The number of versions that the records have, each counted once.
pub open spec fn distinct_versions(records: Seq<ExtVersionView>) -> nat {
    versions_of(records).to_set().len()
}

/// The versions that a resolution offers.
pub open spec fn offered_versions(resolution: ResolutionView) -> Seq<Text> {
    match resolution {
        ResolutionView::ChooseVersion(versions) => versions,
        _ => Seq::empty(),
    }
}

/// An explicit version that no record has is not found.
pub proof fn lemma_flat_unmatched(records: Seq<ExtVersionView>, version: Text)
    requires
        forall|i: int| 0 <= i < records.len() ==> (#[trigger] records[i]).version != version,
    ensures
        flat_resolution(records, SelectModeView::SpecVersion(version)) == ResolutionView::NotFound,
{
    let entries = flat_entries(records);
    lemma_position(entries, version);
    if let Some(i) = position(entries, version) {
        assert(records[i].version != version);
    }
}

/// An explicit version that the index does not have is not found.
pub proof fn lemma_grouped_unmatched(index: IndexView, version: Text)
    requires
        forall|i: int| 0 <= i < index.len() ==> (#[trigger] index[i]).0 != version,
    ensures
        grouped_resolution(index, SelectModeView::SpecVersion(version)) == ResolutionView::NotFound,
{
    lemma_position(index, version);
}

/// An explicit version comes to the source of the first record that has it.
pub proof fn lemma_flat_round_trip(records: Seq<ExtVersionView>, i: int)
    requires
        0 <= i < records.len(),
        forall|k: int| 0 <= k < i ==> (#[trigger] records[k]).version != records[i].version,
    ensures
        flat_resolution(records, SelectModeView::SpecVersion(records[i].version))
            == ResolutionView::Found(records[i].file_source),
{
    let entries = flat_entries(records);
    assert forall|k: int| 0 <= k < i implies (#[trigger] entries[k]).0 != records[i].version by {
        assert(records[k].version != records[i].version);
    }
    lemma_position_is(entries, records[i].version, i);
}

/// A version of the index asks for one of its platforms, and a pick among
/// them comes to the source that the index holds under the two.
pub proof fn lemma_grouped_round_trip(index: IndexView, i: int, j: int)
    requires
        index_distinct(index),
        0 <= i < index.len(),
        0 <= j < index[i].1.len(),
    ensures
        grouped_resolution(index, SelectModeView::SpecVersion(index[i].0))
            == ResolutionView::ChoosePlatform(index[i].0, keys(index[i].1)),
        keys(index[i].1)[j] == index[i].1[j].0,
        indexed_source(index, index[i].0, index[i].1[j].0) == Some(index[i].1[j].1),
{
    let platforms = index[i].1;
    lemma_position_is(index, index[i].0, i);
    lemma_position_is(platforms, platforms[j].0, j);
}

/// A window never offers more versions than it is wide, nor more than the
/// index has.
pub proof fn lemma_index_offer_bound(index: IndexView, n: nat)
    requires
        distinct_keys(index),
    ensures
        offered_versions(grouped_resolution(index, SelectModeView::NLatest(n))).len() <= n,
        offered_versions(grouped_resolution(index, SelectModeView::NLatest(n))).len() <= keys(
            index,
        ).to_set().len(),
{
    let versions = keys(index);
    assert(versions.no_duplicates());
    versions.unique_seq_to_set();
}

/// With platforms, a window never offers more versions than it is wide, nor
/// more than the records have distinct versions.
pub proof fn lemma_grouped_offer_bound(records: Seq<ExtVersionView>, n: nat)
    ensures
        offered_versions(
            grouped_resolution(grouped_index(records), SelectModeView::NLatest(n)),
        ).len() <= n,
        offered_versions(
            grouped_resolution(grouped_index(records), SelectModeView::NLatest(n)),
        ).len() <= distinct_versions(records),
{
    let index = grouped_index(records);
    let versions = keys(index);
    lemma_grouped_distinct(records);
    lemma_index_offer_bound(index, n);
    assert forall|v: Text| versions.to_set().contains(v) implies versions_of(
        records,
    ).to_set().contains(v) by {
        let q = choose|q: int| 0 <= q < versions.len() && versions[q] == v;
        lemma_position(index, v);
        assert(index[q].0 == v);
        let i = lemma_grouped_version_origin(records, v);
        assert(versions_of(records)[i] == v);
    }
    vstd::set_lib::lemma_len_subset(versions.to_set(), versions_of(records).to_set());
}

/// Without platforms, a window never offers more versions than it is wide,
/// nor more than the records have distinct versions, where no version
/// occurs twice or the window is no wider than the distinct versions.
pub proof fn lemma_flat_offer_bound(records: Seq<ExtVersionView>, n: nat)
    requires
        n <= distinct_versions(records) || versions_of(records).no_duplicates(),
    ensures
        offered_versions(flat_resolution(records, SelectModeView::NLatest(n))).len() <= n,
        offered_versions(flat_resolution(records, SelectModeView::NLatest(n))).len()
            <= distinct_versions(records),
{
    if versions_of(records).no_duplicates() {
        versions_of(records).unique_seq_to_set();
    }
}

/// A location that is found without platforms is the source of a record:
/// of the first record that has the version.
pub proof fn lemma_flat_found_is_held(records: Seq<ExtVersionView>, version: Text) -> (i: int)
    requires
        flat_resolution(records, SelectModeView::SpecVersion(version)) is Found,
    ensures
        0 <= i < records.len(),
        records[i].version == version,
        forall|k: int| 0 <= k < i ==> (#[trigger] records[k]).version != version,
        flat_resolution(records, SelectModeView::SpecVersion(version)) == ResolutionView::Found(
            records[i].file_source,
        ),
{
    let entries = flat_entries(records);
    lemma_position(entries, version);
    let i = position(entries, version)->0;
    assert forall|k: int| 0 <= k < i implies (#[trigger] records[k]).version != version by {
        assert(entries[k].0 != version);
    }
    i
}

/// A source that the index of some records holds under a version and a
/// platform is the source of a record with that version and platform.
pub proof fn lemma_grouped_found_is_held(
    records: Seq<ExtVersionView>,
    version: Text,
    platform: Text,
) -> (i: int)
    requires
        indexed_source(grouped_index(records), version, platform) is Some,
    ensures
        0 <= i < records.len(),
        records[i].version == version,
        records[i].target_platform == Some(platform),
        indexed_source(grouped_index(records), version, platform) == Some(records[i].file_source),
    decreases records.len(),
{
    if records.len() == 0 {
        0
    } else {
        let shorter = records.drop_last();
        let record = records.last();
        match record.target_platform {
            Some(last_platform) => {
                lemma_index_put_source(
                    grouped_index(shorter),
                    record.version,
                    last_platform,
                    record.file_source,
                    version,
                    platform,
                );
                if record.version == version && last_platform == platform {
                    records.len() - 1
                } else {
                    lemma_grouped_found_is_held(shorter, version, platform)
                }
            },
            None => lemma_grouped_found_is_held(shorter, version, platform),
        }
    }
}

} // verus!
