//! Modes of the browser and their names.

use vstd::prelude::*;

verus! {

/// Which image a selection is for.
#[derive(Debug, Clone, Copy, PartialEq, Eq, Structural)]
pub enum Slot {
    /// The reference.
    Reference,
    /// A distorted image.
    Distorted,
}

impl Slot {
    /// The other slot.
    pub open spec fn other(self) -> Slot {
        match self {
            Slot::Reference => Slot::Distorted,
            Slot::Distorted => Slot::Reference,
        }
    }

    /// Name of the slot.
    pub open spec fn name(self) -> Seq<char> {
        match self {
            Slot::Reference => "reference"@,
            Slot::Distorted => "distorted"@,
        }
    }

    /// Returns the other slot.
    pub fn toggle(self) -> (other: Self)
        ensures
            other == self.other(),
    {
        match self {
            Slot::Reference => Slot::Distorted,
            Slot::Distorted => Slot::Reference,
        }
    }

    /// Returns the name of the slot.
    pub fn label(self) -> (text: &'static str)
        ensures
            text@ == self.name(),
    {
        match self {
            Slot::Reference => "reference",
            Slot::Distorted => "distorted",
        }
    }
}

/// Order of the file list.
#[derive(Debug, Clone, Copy, PartialEq, Eq, Structural)]
pub enum SortMode {
    /// By name.
    Name,
    /// By kind of file.
    Kind,
    /// By extension.
    Extension,
    /// Newest first.
    Modified,
}

impl SortMode {
    /// The following order.
    pub open spec fn following(self) -> SortMode {
        match self {
            SortMode::Name => SortMode::Kind,
            SortMode::Kind => SortMode::Extension,
            SortMode::Extension => SortMode::Modified,
            SortMode::Modified => SortMode::Name,
        }
    }

    /// Name of the order.
    pub open spec fn name(self) -> Seq<char> {
        match self {
            SortMode::Name => "name"@,
            SortMode::Kind => "kind"@,
            SortMode::Extension => "ext"@,
            SortMode::Modified => "modified"@,
        }
    }

    /// Returns the following order.
    pub fn next(self) -> (following: Self)
        ensures
            following == self.following(),
    {
        match self {
            SortMode::Name => SortMode::Kind,
            SortMode::Kind => SortMode::Extension,
            SortMode::Extension => SortMode::Modified,
            SortMode::Modified => SortMode::Name,
        }
    }

    /// Returns the name of the order.
    pub fn label(self) -> (text: &'static str)
        ensures
            text@ == self.name(),
    {
        match self {
            SortMode::Name => "name",
            SortMode::Kind => "kind",
            SortMode::Extension => "ext",
            SortMode::Modified => "modified",
        }
    }
}

/// What the preview panel shows.
#[derive(Debug, Clone, Copy, PartialEq, Eq, Structural)]
pub enum PreviewMode {
    /// The selected file.
    Current,
    /// Reference and target next to each other.
    SideBySide,
    /// The difference of reference and target.
    Diff,
}

impl PreviewMode {
    /// The following mode.
    pub open spec fn following(self) -> PreviewMode {
        match self {
            PreviewMode::Current => PreviewMode::SideBySide,
            PreviewMode::SideBySide => PreviewMode::Diff,
            PreviewMode::Diff => PreviewMode::Current,
        }
    }

    /// Name of the mode.
    pub open spec fn name(self) -> Seq<char> {
        match self {
            PreviewMode::Current => "current"@,
            PreviewMode::SideBySide => "side"@,
            PreviewMode::Diff => "diff"@,
        }
    }

    /// Returns the following mode.
    pub fn next(self) -> (following: Self)
        ensures
            following == self.following(),
    {
        match self {
            PreviewMode::Current => PreviewMode::SideBySide,
            PreviewMode::SideBySide => PreviewMode::Diff,
            PreviewMode::Diff => PreviewMode::Current,
        }
    }

    /// Returns the name of the mode.
    pub fn label(self) -> (text: &'static str)
        ensures
            text@ == self.name(),
    {
        match self {
            PreviewMode::Current => "current",
            PreviewMode::SideBySide => "side",
            PreviewMode::Diff => "diff",
        }
    }
}

/// How a preview fills its area.
#[derive(Debug, Clone, Copy, PartialEq, Eq, Structural)]
pub enum FitMode {
    /// The whole image is shown.
    Contain,
    /// The area is covered.
    Cover,
    /// The image is stretched.
    Stretch,
}

impl FitMode {
    /// The following fit.
    pub open spec fn following(self) -> FitMode {
        match self {
            FitMode::Contain => FitMode::Cover,
            FitMode::Cover => FitMode::Stretch,
            FitMode::Stretch => FitMode::Contain,
        }
    }

    /// Name of the fit.
    pub open spec fn name(self) -> Seq<char> {
        match self {
            FitMode::Contain => "contain"@,
            FitMode::Cover => "cover"@,
            FitMode::Stretch => "stretch"@,
        }
    }

    /// Returns the following fit.
    pub fn next(self) -> (following: Self)
        ensures
            following == self.following(),
    {
        match self {
            FitMode::Contain => FitMode::Cover,
            FitMode::Cover => FitMode::Stretch,
            FitMode::Stretch => FitMode::Contain,
        }
    }
}

/// Returns the name of a fit.
pub fn fit_label(fit: FitMode) -> (text: &'static str)
    ensures
        text@ == fit.name(),
{
    match fit {
        FitMode::Contain => "contain",
        FitMode::Cover => "cover",
        FitMode::Stretch => "stretch",
    }
}

/// What keys are taken as.
#[derive(Debug, Clone, Copy, PartialEq, Eq, Structural)]
pub enum InputMode {
    /// Commands.
    Normal,
    /// Characters of the name filter.
    Filter,
}

/// Toggling a slot twice changes nothing.
pub proof fn law_slot_toggles_back(slot: Slot)
    ensures
        slot.other().other() == slot,
        slot.other() != slot,
{
}

/// Stepping through the orders, the modes, or the fits goes from one to the next and
/// comes back to the start after each was seen.
pub proof fn law_modes_cycle(sort: SortMode, preview: PreviewMode, fit: FitMode)
    ensures
        sort.following().following().following().following() == sort,
        sort.following() != sort,
        sort.following().following() != sort,
        preview.following().following().following() == preview,
        preview.following() != preview,
        fit.following().following().following() == fit,
        fit.following() != fit,
        SortMode::Name.following() is Kind,
        SortMode::Kind.following() is Extension,
        SortMode::Extension.following() is Modified,
        PreviewMode::Current.following() is SideBySide,
        FitMode::Contain.following() is Cover,
{
}

/// Word for a switch.
pub fn on_off(value: bool) -> (text: &'static str)
    ensures
        text@ == if value {
            "on"@
        } else {
            "off"@
        },
{
    if value {
        "on"
    } else {
        "off"
    }
}

/// A bar of ten cells with the first `filled` of them set.
pub fn bar_text(filled: usize) -> (bar: String)
    requires
        filled <= 10,
    ensures
        bar@ == "["@ + crate::strings::repeated('#', filled as nat) + crate::strings::repeated(
            '.',
            (10 - filled) as nat,
        ) + "]"@,
{
    crate::text::concat4(
        "[",
        crate::strings::repeat('#', filled).as_str(),
        crate::strings::repeat('.', 10 - filled).as_str(),
        "]",
    )
}

} // verus!
