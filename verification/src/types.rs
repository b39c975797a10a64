//! The records of a catalog and the way a version is asked for.

use crate::assoc::Text;
use vstd::prelude::*;

verus! {

/// One published version of an extension: a version of the catalog that has
/// a package to download.
#[derive(Debug, Clone, PartialEq, Eq)]
pub struct ExtVersion {
    /// The version's identifier. Platform variants of one version share it.
    pub version: String,
    /// The platform that this record is a variant for, if it is one.
    pub target_platform: Option<String>,
    /// Where the package of this record is downloaded from.
    pub file_source: String,
}

/// The mathematical value of an [`ExtVersion`].
pub struct ExtVersionView {
    pub version: Text,
    pub target_platform: Option<Text>,
    pub file_source: Text,
}

impl View for ExtVersion {
    type V = ExtVersionView;

    open spec fn view(&self) -> ExtVersionView {
        ExtVersionView {
            version: self.version@,
            target_platform: match self.target_platform {
                Some(p) => Some(p@),
                None => None,
            },
            file_source: self.file_source@,
        }
    }
}

/// How the caller asks for a version.
#[derive(Debug, Clone, PartialEq, Eq)]
pub enum SelectMode {
    /// This very version.
    SpecVersion(String),
    /// One of the first so many versions of the catalog, to be picked.
    NLatest(usize),
}

/// The mathematical value of a [`SelectMode`].
pub enum SelectModeView {
    SpecVersion(Text),
    NLatest(nat),
}

impl View for SelectMode {
    type V = SelectModeView;

    open spec fn view(&self) -> SelectModeView {
        match self {
            SelectMode::SpecVersion(v) => SelectModeView::SpecVersion(v@),
            SelectMode::NLatest(n) => SelectModeView::NLatest(*n as nat),
        }
    }
}

/// The values of a sequence of records.
pub open spec fn record_views(records: Seq<ExtVersion>) -> Seq<ExtVersionView> {
    Seq::new(records.len(), |i: int| records[i]@)
}

/// The texts of a sequence of strings.
pub open spec fn texts(strings: Seq<String>) -> Seq<Text> {
    Seq::new(strings.len(), |i: int| strings[i]@)
}

} // verus!
