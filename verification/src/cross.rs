//! Duplicates that span directories. They are listed for a person to look at and
//! never decided on.

use crate::engine::{file_models, group_models, ChecksumGroup, MediaDeduplicator};
use crate::fingerprint::Fingerprint;
use crate::model::GroupModel;
use crate::paths::{FileModel, MediaFile};
use vstd::prelude::*;

verus! {

/// A group with a member outside its representative's directory.
pub struct CrossDirectorySet {
    /// The fingerprint that the members share.
    pub digest: Fingerprint,
    /// The representative: the first file observed with this fingerprint.
    pub first: MediaFile,
    /// Every later member of the group, in the order of observation.
    pub others: Vec<MediaFile>,
}

/// What a `CrossDirectorySet` stands for.
pub struct CrossSetModel {
    pub digest: Fingerprint,
    pub first: FileModel,
    pub others: Seq<FileModel>,
}

impl View for CrossDirectorySet {
    type V = CrossSetModel;

    open spec fn view(&self) -> CrossSetModel {
        CrossSetModel {
            digest: self.digest,
            first: self.first@,
            others: file_models(self.others@),
        }
    }
}

/// What a list of cross-directory sets stands for.
pub open spec fn cross_models(sets: Seq<CrossDirectorySet>) -> Seq<CrossSetModel> {
    sets.map_values(|s: CrossDirectorySet| s@)
}

/// The cross-directory set of a group, where some member lies in another
/// directory than the representative.
pub open spec fn cross_set_of(g: GroupModel) -> Option<CrossSetModel> {
    if g.has_cross_duplicates() {
        Some(CrossSetModel { digest: g.digest, first: g.files[0], others: g.files.skip(1) })
    } else {
        None
    }
}

/// The cross-directory sets of `groups`, in the order of the groups.
pub open spec fn cross_sets(groups: Seq<GroupModel>) -> Seq<CrossSetModel>
    decreases groups.len(),
{
    if groups.len() == 0 {
        Seq::empty()
    } else {
        match cross_set_of(groups.last()) {
            Some(set) => cross_sets(groups.drop_last()).push(set),
            None => cross_sets(groups.drop_last()),
        }
    }
}

/// All of `files` but the first, in their order.
pub fn all_but_first(files: &Vec<MediaFile>) -> (rest: Vec<MediaFile>)
    ensures
        files.len() > 0 ==> file_models(rest@) == file_models(files@).skip(1),
        files.len() == 0 ==> rest@.len() == 0,
{
    let mut rest: Vec<MediaFile> = Vec::new();
    let mut i: usize = 1;
    while i < files.len()
        invariant
            files.len() == 0 ==> rest@.len() == 0,
            files.len() > 0 ==> 1 <= i <= files.len() && file_models(rest@) == file_models(
                files@,
            ).subrange(1, i as int),
        decreases files.len() - i,
    {
        let ghost before = file_models(rest@);
        rest.push(files[i].duplicate());
        assert(file_models(rest@) =~= before.push(files[i as int]@));
        i = i + 1;
    }
    rest
}

/// The cross-directory set of one group, or `None` where all its members lie
/// in the representative's directory.
pub fn cross_directory_set(group: &ChecksumGroup) -> (set: Option<CrossDirectorySet>)
    ensures
        set is Some <==> cross_set_of(group@) is Some,
        set matches Some(s) ==> Some(s@) == cross_set_of(group@),
{
    if group.has_cross_duplicates() {
        Some(
            CrossDirectorySet {
                digest: group.digest,
                first: group.files[0].duplicate(),
                others: all_but_first(&group.files),
            },
        )
    } else {
        None
    }
}

impl MediaDeduplicator {
    /// The cross-directory sets of everything observed so far, in the order
    /// in which the fingerprints first appeared.
    pub fn analyze_cross_directory_duplicates(&self) -> (sets: Vec<CrossDirectorySet>)
        ensures
            cross_models(sets@) == cross_sets(self@.groups),
    {
        let groups = self.groups();
        let ghost all = group_models(groups@);
        let mut sets: Vec<CrossDirectorySet> = Vec::new();
        let mut i: usize = 0;
        while i < groups.len()
            invariant
                i <= groups.len(),
                all == group_models(groups@),
                cross_models(sets@) == cross_sets(all.take(i as int)),
            decreases groups.len() - i,
        {
            let ghost seen = all.take(i + 1);
            assert(seen.drop_last() =~= all.take(i as int));
            match cross_directory_set(&groups[i]) {
                Some(set) => {
                    sets.push(set);
                },
                None => {},
            }
            i = i + 1;
        }
        assert(all.take(groups.len() as int) =~= all);
        sets
    }
}

} // verus!
