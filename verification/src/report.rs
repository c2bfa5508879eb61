//! The five numbers that a run reports.

use crate::engine::MediaDeduplicator;
use crate::rename::rename_candidates;
use crate::suffix::SuffixRules;
use vstd::prelude::*;

verus! {

/// The counts of a run, as plain integers.
#[derive(Clone, Copy, Debug, PartialEq, Eq)]
pub struct Summary {
    /// Files recorded.
    pub total_files: usize,
    /// Distinct contents among them.
    pub unique_files: usize,
    /// Files that repeat an earlier file of their own directory.
    pub same_dir_dupes: usize,
    /// Files that repeat an earlier file of another directory.
    pub cross_dir_dupes: usize,
    /// Files that qualify for a rename.
    pub rename_candidates: usize,
}

impl MediaDeduplicator {
    /// The counts of everything observed so far.
    pub fn summary(&self, rules: &SuffixRules) -> (counts: Summary)
        ensures
            counts.total_files == self@.total_files,
            counts.unique_files == self@.unique_files,
            counts.same_dir_dupes == self@.same_dir_dupes,
            counts.cross_dir_dupes == self@.cross_dir_dupes,
            counts.rename_candidates == rename_candidates(self@.groups).len(),
    {
        let candidates = self.rename_candidates(rules);
        Summary {
            total_files: self.total_files(),
            unique_files: self.unique_files(),
            same_dir_dupes: self.same_dir_dupes(),
            cross_dir_dupes: self.cross_dir_dupes(),
            rename_candidates: candidates.len(),
        }
    }
}

} // verus!
