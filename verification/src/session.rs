//! One run, from the records of a catalog to the package to download: which
//! shape the catalog has, what is asked of the caller, and what a pick leads to.
//!
//! A run alternates between this module and its caller. [`Catalog::begin`]
//! and [`Catalog::answer`] say what comes next; the caller puts the question
//! to whoever picks, and hands the pick back.

use crate::assoc::{keys, lemma_position, lookup, Text};
use crate::index::{
    group_by_version, grouped_index, index_view, indexed_source, lemma_grouped_has_version,
    IndexView, VersionMap,
};
use crate::resolve::{
    flat_entries, flat_resolution, grouped_resolution, handle_with_platform,
    handle_without_platform, offered_versions, platform_source, Resolution, ResolutionView,
};
use crate::types::{record_views, ExtVersion, ExtVersionView, SelectMode, SelectModeView};
use vstd::prelude::*;

verus! {

/// The records of a catalog, in the shape that its first record has.
#[derive(Debug)]
pub enum Catalog {
    /// Versions without platforms: the records as they came.
    Flat(Vec<ExtVersion>),
    /// Versions in platform variants: the index of the records.
    Grouped(VersionMap),
}

/// The mathematical value of a [`Catalog`].
pub enum CatalogView {
    Flat(Seq<ExtVersionView>),
    Grouped(IndexView),
}

impl View for Catalog {
    type V = CatalogView;

    open spec fn view(&self) -> CatalogView {
        match self {
            Catalog::Flat(records) => CatalogView::Flat(record_views(records@)),
            Catalog::Grouped(index) => CatalogView::Grouped(index_view(*index)),
        }
    }
}

/// The catalog of a sequence of records: none where there is no record; the
/// index of the records where the first record has a platform; else the
/// records themselves.
pub open spec fn catalog_of(records: Seq<ExtVersionView>) -> Option<CatalogView> {
    if records.len() == 0 {
        None
    } else if records[0].target_platform is Some {
        Some(CatalogView::Grouped(grouped_index(records)))
    } else {
        Some(CatalogView::Flat(records))
    }
}

/// What a selection comes to in a catalog, before any pick.
pub open spec fn begun(catalog: CatalogView, mode: SelectModeView) -> ResolutionView {
    match catalog {
        CatalogView::Flat(records) => flat_resolution(records, mode),
        CatalogView::Grouped(index) => grouped_resolution(index, mode),
    }
}

/// What a pick leads to. A picked version is resolved as an explicit version.
/// A picked platform is settled by the source that the index holds under the
/// version and the platform. A settled resolution stays as it is.
pub open spec fn answered(
    catalog: CatalogView,
    pending: ResolutionView,
    pick: Text,
) -> ResolutionView {
    match pending {
        ResolutionView::ChooseVersion(_) => begun(catalog, SelectModeView::SpecVersion(pick)),
        ResolutionView::ChoosePlatform(version, _) => match catalog {
            CatalogView::Grouped(index) => match indexed_source(index, version, pick) {
                Some(source) => ResolutionView::Found(source),
                None => ResolutionView::NotFound,
            },
            CatalogView::Flat(_) => ResolutionView::NotFound,
        },
        ResolutionView::Found(_) => pending,
        ResolutionView::NotFound => pending,
    }
}

/// Nothing is left to pick.
pub open spec fn settled(resolution: ResolutionView) -> bool {
    resolution is Found || resolution is NotFound
}

/// The value of an optional catalog.
pub open spec fn catalog_view(catalog: Option<Catalog>) -> Option<CatalogView> {
    match catalog {
        Some(c) => Some(c@),
        None => None,
    }
}

impl Catalog {
    /// Puts the records of a catalog into the shape that the first record
    /// has. Without records there is no catalog: the extension was not found.
    /// An index that comes out of this has a version: no resolution starts
    /// from an empty index.
    pub fn from_records(records: Vec<ExtVersion>) -> (catalog: Option<Catalog>)
        ensures
            catalog_view(catalog) == catalog_of(record_views(records@)),
            catalog_view(catalog) matches Some(CatalogView::Grouped(index)) ==> index.len() > 0,
    {
        if records.len() == 0 {
            return None;
        }
        assert(record_views(records@)[0] == records@[0]@);
        if records[0].target_platform.is_some() {
            proof {
                lemma_grouped_catalog_has_versions(record_views(records@));
            }
            Some(Catalog::Grouped(group_by_version(records)))
        } else {
            Some(Catalog::Flat(records))
        }
    }

    /// Starts the resolution of a selection.
    pub fn begin(&self, mode: SelectMode) -> (resolution: Resolution)
        ensures
            resolution@ == begun(self@, mode@),
    {
        match self {
            Catalog::Flat(records) => handle_without_platform(records, mode),
            Catalog::Grouped(index) => handle_with_platform(index, mode),
        }
    }

    /// Goes on with the resolution after `pick` was picked from what
    /// `pending` offered.
    pub fn answer(&self, pending: Resolution, pick: String) -> (resolution: Resolution)
        ensures
            resolution@ == answered(self@, pending@, pick@),
    {
        match pending {
            Resolution::ChooseVersion(_) => self.begin(SelectMode::SpecVersion(pick)),
            Resolution::ChoosePlatform(version, _) => match self {
                Catalog::Grouped(index) => match platform_source(
                    index,
                    version.as_str(),
                    pick.as_str(),
                ) {
                    Some(source) => Resolution::Found(source),
                    None => Resolution::NotFound,
                },
                Catalog::Flat(_) => Resolution::NotFound,
            },
            Resolution::Found(location) => Resolution::Found(location),
            Resolution::NotFound => Resolution::NotFound,
        }
    }
}

/// The name of the file that the package of an extension is written to: the
/// extension's identifier, followed by `.vsix`.
pub fn package_file_name(ext_id: &str) -> (name: String)
    ensures
        name@ == ext_id@ + ".vsix"@,
{
    let mut name = ext_id.to_owned();
    name.append(".vsix");
    name
}

/// A resolution is settled after two picks at most.
pub proof fn lemma_settles(catalog: CatalogView, mode: SelectModeView, first: Text, second: Text)
    ensures
        settled(answered(catalog, answered(catalog, begun(catalog, mode), first), second)),
{
}

/// A first record with a platform makes the catalog an index that has the
/// record's version: there is a version to offer.
pub proof fn lemma_grouped_catalog_has_versions(records: Seq<ExtVersionView>)
    requires
        records.len() > 0,
        records[0].target_platform is Some,
    ensures
        catalog_of(records) == Some(CatalogView::Grouped(grouped_index(records))),
        grouped_index(records).len() > 0,
{
    lemma_grouped_has_version(records, 0);
    lemma_position(grouped_index(records), records[0].version);
}

/// A version that was picked from what a window offered is never missing:
/// without platforms it is found, with platforms it asks for its platform.
pub proof fn lemma_offered_version_resolves(catalog: CatalogView, n: nat, k: int)
    requires
        0 <= k < offered_versions(begun(catalog, SelectModeView::NLatest(n))).len(),
    ensures
        ({
            let pending = begun(catalog, SelectModeView::NLatest(n));
            let next = answered(catalog, pending, offered_versions(pending)[k]);
            match catalog {
                CatalogView::Flat(_) => next is Found,
                CatalogView::Grouped(_) => next is ChoosePlatform,
            }
        }),
{
    let pending = begun(catalog, SelectModeView::NLatest(n));
    let pick = offered_versions(pending)[k];
    match catalog {
        CatalogView::Flat(records) => {
            let entries = flat_entries(records);
            assert(entries[k].0 == pick);
            lemma_position(entries, pick);
        },
        CatalogView::Grouped(index) => {
            assert(index[k].0 == pick);
            lemma_position(index, pick);
        },
    }
}

/// A platform that was picked from what a version offered is never missing:
/// it is found.
pub proof fn lemma_offered_platform_resolves(index: IndexView, version: Text, k: int)
    requires
        grouped_resolution(index, SelectModeView::SpecVersion(version)) is ChoosePlatform,
        0 <= k < grouped_resolution(
            index,
            SelectModeView::SpecVersion(version),
        )->ChoosePlatform_1.len(),
    ensures
        ({
            let pending = grouped_resolution(index, SelectModeView::SpecVersion(version));
            answered(CatalogView::Grouped(index), pending, pending->ChoosePlatform_1[k]) is Found
        }),
{
    let platforms = lookup(index, version)->0;
    let pick = keys(platforms)[k];
    assert(platforms[k].0 == pick);
    lemma_position(platforms, pick);
}

} // verus!
