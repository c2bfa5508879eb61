//! The classification engine as mathematics: checksum groups, their
//! counters, and what one observation does to them.

use crate::fingerprint::Fingerprint;
use crate::paths::FileModel;
use vstd::prelude::*;

verus! {

/// All files seen with one fingerprint, in the order in which they were seen.
/// The first of them is the representative of the group.
pub struct GroupModel {
    pub digest: Fingerprint,
    pub files: Seq<FileModel>,
}

/// How one observation was classified.
#[derive(Clone, Copy, Debug, PartialEq, Eq, Structural)]
pub enum Outcome {
    /// The fingerprint was new: the file founded a group and represents it.
    Unique,
    /// The fingerprint was known and the file lies in the directory of the
    /// group's representative.
    SameDirectory,
    /// The fingerprint was known and the file lies in another directory than
    /// the group's representative.
    CrossDirectory,
    /// The path had been observed before: nothing was recorded.
    AlreadyObserved,
}

/// One step of the stream that the engine consumes.
pub struct Observation {
    pub file: FileModel,
    pub digest: Fingerprint,
}

/// Sums over a sequence of groups.
pub struct Tally {
    pub files: nat,
    pub same_dir: nat,
    pub cross_dir: nat,
}

/// The state of the engine: the groups in the order in which their
/// fingerprints first appeared, and the four counters.
pub struct EngineModel {
    pub groups: Seq<GroupModel>,
    pub total_files: nat,
    pub unique_files: nat,
    pub same_dir_dupes: nat,
    pub cross_dir_dupes: nat,
}

/// The files of `files` that lie in directory `dir`, in their order.
pub open spec fn in_dir(files: Seq<FileModel>, dir: Seq<char>) -> Seq<FileModel>
    decreases files.len(),
{
    if files.len() == 0 {
        Seq::empty()
    } else if files.last().dir == dir {
        in_dir(files.drop_last(), dir).push(files.last())
    } else {
        in_dir(files.drop_last(), dir)
    }
}

impl GroupModel {
    /// The first file seen with this fingerprint.
    pub open spec fn representative(self) -> FileModel {
        self.files[0]
    }

    /// The members that lie in the representative's directory, the
    /// representative among them.
    pub open spec fn home_members(self) -> Seq<FileModel> {
        in_dir(self.files, self.representative().dir)
    }

    /// How many members after the representative lie in its directory.
    pub open spec fn same_dir_count(self) -> nat {
        (self.home_members().len() - 1) as nat
    }

    /// How many members lie in another directory than the representative.
    pub open spec fn cross_dir_count(self) -> nat {
        (self.files.len() - self.home_members().len()) as nat
    }

    /// Whether the group has a same-directory duplicate set: at least two of
    /// its members lie in the representative's directory.
    pub open spec fn has_home_duplicates(self) -> bool {
        self.files.len() > 0 && self.home_members().len() > 1
    }

    /// Whether some member of the group lies in another directory than the
    /// representative.
    pub open spec fn has_cross_duplicates(self) -> bool {
        self.files.len() > 0 && self.cross_dir_count() > 0
    }

    /// The group after `file` joined it.
    pub open spec fn with(self, file: FileModel) -> GroupModel {
        GroupModel { digest: self.digest, files: self.files.push(file) }
    }
}

/// The sums of the sizes, of the same-directory duplicates and of the
/// cross-directory duplicates of `groups`.
pub open spec fn tally(groups: Seq<GroupModel>) -> Tally
    decreases groups.len(),
{
    if groups.len() == 0 {
        Tally { files: 0, same_dir: 0, cross_dir: 0 }
    } else {
        let rest = tally(groups.drop_last());
        let g = groups.last();
        Tally {
            files: rest.files + g.files.len(),
            same_dir: rest.same_dir + g.same_dir_count(),
            cross_dir: rest.cross_dir + g.cross_dir_count(),
        }
    }
}

/// No two groups share a fingerprint.
pub open spec fn digests_distinct(groups: Seq<GroupModel>) -> bool {
    forall|i: int, j: int|
        0 <= i < groups.len() && 0 <= j < groups.len() && i != j ==> #[trigger] groups[i].digest
            != #[trigger] groups[j].digest
}

/// A path occurs in one group only, and once in it.
pub open spec fn paths_distinct(groups: Seq<GroupModel>) -> bool {
    forall|i: int, k: int, j: int, l: int|
        #![trigger groups[i].files[k], groups[j].files[l]]
        0 <= i < groups.len() && 0 <= k < groups[i].files.len() && 0 <= j < groups.len() && 0 <= l
            < groups[j].files.len() && (i != j || k != l) ==> groups[i].files[k].path
            != groups[j].files[l].path
}

/// Whether some group of `groups` holds a file with this path.
pub open spec fn holds_path(groups: Seq<GroupModel>, path: Seq<char>) -> bool {
    exists|i: int, k: int|
        0 <= i < groups.len() && 0 <= k < groups[i].files.len() && (
        #[trigger] groups[i].files[k]).path == path
}

/// Whether the group holds a file with this path.
pub open spec fn group_holds(g: GroupModel, path: Seq<char>) -> bool {
    exists|k: int| 0 <= k < g.files.len() && (#[trigger] g.files[k]).path == path
}

/// Whether group `i` is the first group of `groups` that holds a file with
/// this path.
pub open spec fn first_holder(groups: Seq<GroupModel>, path: Seq<char>, i: int) -> bool {
    &&& 0 <= i < groups.len()
    &&& exists|k: int|
        0 <= k < groups[i].files.len() && (#[trigger] groups[i].files[k]).path == path
    &&& forall|j: int, k: int|
        0 <= j < i && 0 <= k < groups[j].files.len() ==> (#[trigger] groups[j].files[k]).path
            != path
}

/// Whether some group of `groups` has this fingerprint.
pub open spec fn holds_digest(groups: Seq<GroupModel>, digest: Fingerprint) -> bool {
    exists|i: int| 0 <= i < groups.len() && (#[trigger] groups[i]).digest == digest
}

/// The place of the group with this fingerprint.
pub open spec fn digest_index(groups: Seq<GroupModel>, digest: Fingerprint) -> int {
    choose|i: int| 0 <= i < groups.len() && (#[trigger] groups[i]).digest == digest
}

impl EngineModel {
    /// The state before anything was observed.
    pub open spec fn empty() -> EngineModel {
        EngineModel {
            groups: Seq::empty(),
            total_files: 0,
            unique_files: 0,
            same_dir_dupes: 0,
            cross_dir_dupes: 0,
        }
    }

    /// The invariant of the engine: every group has a representative, no
    /// fingerprint has two groups, no path was recorded twice, and the
    /// counters are the sums that their names promise.
    pub open spec fn wf(self) -> bool {
        &&& forall|i: int|
            0 <= i < self.groups.len() ==> (#[trigger] self.groups[i]).files.len() > 0
        &&& digests_distinct(self.groups)
        &&& paths_distinct(self.groups)
        &&& self.unique_files == self.groups.len()
        &&& self.total_files == tally(self.groups).files
        &&& self.same_dir_dupes == tally(self.groups).same_dir
        &&& self.cross_dir_dupes == tally(self.groups).cross_dir
    }

    /// How an observation of `file` with `digest` is classified in this
    /// state: against the representative of its group, not against all members.
    pub open spec fn classify(self, file: FileModel, digest: Fingerprint) -> Outcome {
        if holds_path(self.groups, file.path) {
            Outcome::AlreadyObserved
        } else if !holds_digest(self.groups, digest) {
            Outcome::Unique
        } else if self.groups[digest_index(self.groups, digest)].representative().dir == file.dir {
            Outcome::SameDirectory
        } else {
            Outcome::CrossDirectory
        }
    }

    /// The state after an observation of `file` with `digest`.
    pub open spec fn observe(self, file: FileModel, digest: Fingerprint) -> EngineModel {
        match self.classify(file, digest) {
            Outcome::AlreadyObserved => self,
            Outcome::Unique => EngineModel {
                groups: self.groups.push(GroupModel { digest: digest, files: seq![file] }),
                total_files: self.total_files + 1,
                unique_files: self.unique_files + 1,
                ..self
            },
            Outcome::SameDirectory => {
                let i = digest_index(self.groups, digest);
                EngineModel {
                    groups: self.groups.update(i, self.groups[i].with(file)),
                    total_files: self.total_files + 1,
                    same_dir_dupes: self.same_dir_dupes + 1,
                    ..self
                }
            },
            Outcome::CrossDirectory => {
                let i = digest_index(self.groups, digest);
                EngineModel {
                    groups: self.groups.update(i, self.groups[i].with(file)),
                    total_files: self.total_files + 1,
                    cross_dir_dupes: self.cross_dir_dupes + 1,
                    ..self
                }
            },
        }
    }

    /// Whether `digest` stands in the duplicate index under `dir`: its group
    /// is represented in `dir` and has a later member there.
    pub open spec fn in_directory_index(self, dir: Seq<char>, digest: Fingerprint) -> bool {
        exists|i: int|
            0 <= i < self.groups.len() && (#[trigger] self.groups[i]).digest == digest
                && self.groups[i].representative().dir == dir
                && self.groups[i].has_home_duplicates()
    }

    /// Whether `digest` is in the cross-directory set: some member of its
    /// group lies in another directory than the representative.
    pub open spec fn in_cross_directory_set(self, digest: Fingerprint) -> bool {
        exists|i: int|
            0 <= i < self.groups.len() && (#[trigger] self.groups[i]).digest == digest
                && self.groups[i].has_cross_duplicates()
    }
}

/// The state that a stream of observations leaves, taken in order from the
/// empty state.
pub open spec fn replay(stream: Seq<Observation>) -> EngineModel
    decreases stream.len(),
{
    if stream.len() == 0 {
        EngineModel::empty()
    } else {
        replay(stream.drop_last()).observe(stream.last().file, stream.last().digest)
    }
}

/// `in_dir` keeps no more files than it was given.
pub proof fn lemma_in_dir_len(files: Seq<FileModel>, dir: Seq<char>)
    ensures
        in_dir(files, dir).len() <= files.len(),
    decreases files.len(),
{
    if files.len() > 0 {
        lemma_in_dir_len(files.drop_last(), dir);
    }
}

/// `in_dir` keeps the first file where that file lies in `dir`.
pub proof fn lemma_in_dir_first(files: Seq<FileModel>, dir: Seq<char>)
    requires
        files.len() > 0,
        files[0].dir == dir,
    ensures
        in_dir(files, dir).len() >= 1,
        in_dir(files, dir)[0] == files[0],
    decreases files.len(),
{
    let front = files.drop_last();
    if files.len() > 1 {
        lemma_in_dir_first(front, dir);
    } else {
        assert(in_dir(front, dir) =~= Seq::<FileModel>::empty());
    }
}

/// What joining does to the counts of a group: the size grows by one, and
/// so does the count on the side on which the new file lies.
pub proof fn lemma_with_counts(g: GroupModel, file: FileModel)
    requires
        g.files.len() > 0,
    ensures
        g.with(file).representative() == g.representative(),
        g.with(file).files.len() == g.files.len() + 1,
        g.with(file).same_dir_count() == g.same_dir_count() + (if file.dir
            == g.representative().dir {
            1nat
        } else {
            0nat
        }),
        g.with(file).cross_dir_count() == g.cross_dir_count() + (if file.dir
            == g.representative().dir {
            0nat
        } else {
            1nat
        }),
{
    let grown = g.files.push(file);
    assert(grown.drop_last() =~= g.files);
    lemma_in_dir_first(g.files, g.representative().dir);
    lemma_in_dir_len(g.files, g.representative().dir);
}

/// In a group with a representative, the representative and the two kinds of
/// duplicates make up the whole group.
pub proof fn lemma_group_balance(g: GroupModel)
    requires
        g.files.len() > 0,
    ensures
        1 + g.same_dir_count() + g.cross_dir_count() == g.files.len(),
{
    lemma_in_dir_first(g.files, g.representative().dir);
    lemma_in_dir_len(g.files, g.representative().dir);
}

/// Where every group has a representative, the groups and the two kinds of
/// duplicates account for every file.
pub proof fn lemma_tally_balance(groups: Seq<GroupModel>)
    requires
        forall|i: int| 0 <= i < groups.len() ==> (#[trigger] groups[i]).files.len() > 0,
    ensures
        tally(groups).files == groups.len() + tally(groups).same_dir + tally(groups).cross_dir,
    decreases groups.len(),
{
    if groups.len() > 0 {
        let front = groups.drop_last();
        lemma_tally_balance(front);
        lemma_group_balance(groups.last());
    }
}

/// The tally after one more group.
pub proof fn lemma_tally_push(groups: Seq<GroupModel>, g: GroupModel)
    ensures
        tally(groups.push(g)).files == tally(groups).files + g.files.len(),
        tally(groups.push(g)).same_dir == tally(groups).same_dir + g.same_dir_count(),
        tally(groups.push(g)).cross_dir == tally(groups).cross_dir + g.cross_dir_count(),
{
    assert(groups.push(g).drop_last() =~= groups);
}

/// The tally after one group was replaced.
pub proof fn lemma_tally_update(groups: Seq<GroupModel>, i: int, g: GroupModel)
    requires
        0 <= i < groups.len(),
    ensures
        tally(groups.update(i, g)).files + groups[i].files.len() == tally(groups).files
            + g.files.len(),
        tally(groups.update(i, g)).same_dir + groups[i].same_dir_count() == tally(
            groups,
        ).same_dir + g.same_dir_count(),
        tally(groups.update(i, g)).cross_dir + groups[i].cross_dir_count() == tally(
            groups,
        ).cross_dir + g.cross_dir_count(),
    decreases groups.len(),
{
    let updated = groups.update(i, g);
    if i == groups.len() - 1 {
        assert(updated.drop_last() =~= groups.drop_last());
    } else {
        lemma_tally_update(groups.drop_last(), i, g);
        assert(updated.drop_last() =~= groups.drop_last().update(i, g));
    }
}

/// Under the invariant a fingerprint has one place only.
pub proof fn lemma_digest_index(groups: Seq<GroupModel>, i: int)
    requires
        digests_distinct(groups),
        0 <= i < groups.len(),
    ensures
        holds_digest(groups, groups[i].digest),
        digest_index(groups, groups[i].digest) == i,
{
}

/// An observation keeps the invariant.
pub proof fn lemma_observe_wf(m: EngineModel, file: FileModel, digest: Fingerprint)
    requires
        m.wf(),
    ensures
        m.observe(file, digest).wf(),
{
    match m.classify(file, digest) {
        Outcome::AlreadyObserved => {},
        Outcome::Unique => {
            let g = GroupModel { digest: digest, files: seq![file] };
            lemma_tally_push(m.groups, g);
            lemma_group_balance(g);
        },
        _ => {
            let p = digest_index(m.groups, digest);
            let g = m.groups[p];
            lemma_tally_update(m.groups, p, g.with(file));
            lemma_with_counts(g, file);
        },
    }
}

} // verus!
