//! The options that the caller gives, and the selection they stand for.

use crate::assoc::Text;
use crate::types::{SelectMode, SelectModeView};
use vstd::prelude::*;

verus! {

/// The width of the window where the caller gives none.
pub const DEFAULT_LATEST: usize = 10;

/// What the caller gives: the extension, and how to select its version.
#[derive(Debug, Clone, PartialEq, Eq)]
pub struct VscerCli {
    /// The extension's identifier, such as `charliermarsh.ruff`.
    pub ext_id: String,
    /// How the version is selected.
    pub mode: Opt,
    /// The directory that the package is written to; the current one where
    /// none is given.
    pub output_dir: Option<String>,
}

/// How the version is selected: by a window, by an explicit version, or by
/// neither. The two are not given together.
#[derive(Debug, Clone, PartialEq, Eq)]
pub struct Opt {
    /// The number of latest versions to choose from.
    pub n_latest: Option<u16>,
    /// The version to download.
    pub spec_version: Option<String>,
}

/// The selection that the options stand for: the window that is given alone,
/// the version that is given alone, and else the window of
/// [`DEFAULT_LATEST`].
pub open spec fn selected_mode(
    n_latest: Option<u16>,
    spec_version: Option<Text>,
) -> SelectModeView {
    match (n_latest, spec_version) {
        (Some(n), None) => SelectModeView::NLatest(n as nat),
        (None, Some(version)) => SelectModeView::SpecVersion(version),
        _ => SelectModeView::NLatest(DEFAULT_LATEST as nat),
    }
}

impl Opt {
    /// The text of the version that is given.
    pub open spec fn version_text(&self) -> Option<Text> {
        match self.spec_version {
            Some(version) => Some(version@),
            None => None,
        }
    }

    /// The selection that the options stand for.
    pub fn select_mode(self) -> (mode: SelectMode)
        ensures
            mode@ == selected_mode(self.n_latest, self.version_text()),
    {
        match (self.n_latest, self.spec_version) {
            (Some(n), None) => SelectMode::NLatest(n as usize),
            (None, Some(version)) => SelectMode::SpecVersion(version),
            _ => SelectMode::NLatest(DEFAULT_LATEST),
        }
    }
}

} // verus!
