//! Error kinds for layout and focus operations.
//!
//! Every kind is local and recoverable by the caller; none is fatal to
//! the library itself.

use vstd::prelude::*;

verus! {

/// What went wrong in a layout, focus or session operation.
#[derive(Clone, Copy, Debug, PartialEq, Eq, Structural)]
pub enum SerpentError {
    /// More than one menu was declared in a single page.
    MultipleMenus,
    /// A split ratio lay outside the open interval (0, 1).
    SplitOutOfBounds,
    /// A split would have given a child partition zero width or height.
    SplitTooSmall,
    /// The terminal's dimensions could not be determined.
    TerminalSizeError,
    /// An operation referenced a partition slot that does not exist.
    InvalidPartitionIndex,
    /// Focus was requested on a partition that owns no element.
    NoElementInPartition,
    /// Focus was requested with the wrong element class (lazy vs live).
    FocusTypeIncorrect,
    /// A partition handle outlived its partition: the slot was re-split.
    StalePartitionHandle,
}

impl SerpentError {
    /// A short human-readable description of the error.
    pub fn message(&self) -> (r: &'static str)
        ensures
            r@.len() > 0,
    {
        let r = match self {
            SerpentError::MultipleMenus => "MultipleMenus, only one menu is allowed per window.",
            SerpentError::SplitOutOfBounds => "SplitOutOfBounds, a split was given a ratio outside of the range (0.0, 1.0).",
            SerpentError::SplitTooSmall => "SplitTooSmall, splitting caused a partition to have 0 internal area",
            SerpentError::TerminalSizeError => "TerminalSizeError, issue finding the size of the terminal.",
            SerpentError::InvalidPartitionIndex => "InvalidPartitionIndex, partition does not exist at the given index",
            SerpentError::NoElementInPartition => "NoElementInPartition, this partition does not own an element",
            SerpentError::FocusTypeIncorrect => "FocusTypeIncorrect, the element's class does not match the focus kind",
            SerpentError::StalePartitionHandle => "StalePartitionHandle, the partition was replaced by a split",
        };
        proof {
            reveal_strlit("MultipleMenus, only one menu is allowed per window.");
            reveal_strlit(
                "SplitOutOfBounds, a split was given a ratio outside of the range (0.0, 1.0).",
            );
            reveal_strlit("SplitTooSmall, splitting caused a partition to have 0 internal area");
            reveal_strlit("TerminalSizeError, issue finding the size of the terminal.");
            reveal_strlit("InvalidPartitionIndex, partition does not exist at the given index");
            reveal_strlit("NoElementInPartition, this partition does not own an element");
            reveal_strlit(
                "FocusTypeIncorrect, the element's class does not match the focus kind",
            );
            reveal_strlit("StalePartitionHandle, the partition was replaced by a split");
        }
        r
    }
}

} // verus!
