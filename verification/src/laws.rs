//! What holds of the engine whatever it is fed.

use crate::cross::cross_set_of;
use crate::fingerprint::Fingerprint;
use crate::keeper::{
    duplicate_set_of, duplicate_sets, keeper_index, lemma_first_clean, lemma_keeper_in_range,
    lemma_keeper_not_removed, lemma_longest, name_len, noise_flags, without_path,
};
use crate::model::{
    digest_index, holds_digest, holds_path, in_dir, lemma_digest_index, lemma_in_dir_first,
    lemma_observe_wf, lemma_tally_balance, lemma_with_counts, replay, tally, EngineModel,
    GroupModel, Observation, Outcome,
};
use crate::paths::FileModel;
use crate::rename::{noisy_among, rename_candidates};
use crate::suffix::is_noisy;
use vstd::prelude::*;

verus! {

/// No two observations of `stream` name the same path.
pub open spec fn stream_paths_distinct(stream: Seq<Observation>) -> bool {
    forall|i: int, j: int|
        0 <= i < stream.len() && 0 <= j < stream.len() && i != j ==> (
        #[trigger] stream[i]).file.path != (#[trigger] stream[j]).file.path
}

/// Whether some observation of `stream` names `path`.
pub open spec fn stream_names(stream: Seq<Observation>, path: Seq<char>) -> bool {
    exists|i: int| 0 <= i < stream.len() && (#[trigger] stream[i]).file.path == path
}

/// After an observation the engine holds the paths it held before and the
/// path observed, and no other.
pub proof fn lemma_observe_paths(
    m: EngineModel,
    file: FileModel,
    digest: Fingerprint,
    path: Seq<char>,
)
    requires
        m.wf(),
    ensures
        holds_path(m.observe(file, digest).groups, path) <==> (holds_path(m.groups, path) || path
            == file.path),
{
    let after = m.observe(file, digest);
    match m.classify(file, digest) {
        Outcome::AlreadyObserved => {},
        Outcome::Unique => {
            let n = m.groups.len() as int;
            assert(after.groups[n].files[0] == file);
            if holds_path(m.groups, path) {
                let (i, k) = choose|i: int, k: int|
                    0 <= i < m.groups.len() && 0 <= k < m.groups[i].files.len() && (
                    #[trigger] m.groups[i].files[k]).path == path;
                assert(after.groups[i].files[k].path == path);
            }
        },
        _ => {
            let p = digest_index(m.groups, digest);
            let last = m.groups[p].files.len() as int;
            assert(after.groups[p].files[last] == file);
            if holds_path(m.groups, path) {
                let (i, k) = choose|i: int, k: int|
                    0 <= i < m.groups.len() && 0 <= k < m.groups[i].files.len() && (
                    #[trigger] m.groups[i].files[k]).path == path;
                assert(after.groups[i].files[k].path == path);
            }
        },
    }
}

/// An observation leaves every group in its place, with its fingerprint and
/// its representative, and with its earlier members in their order: a
/// representative is fixed when its group is founded and never replaced.
pub proof fn lemma_representatives_stay(m: EngineModel, file: FileModel, digest: Fingerprint)
    requires
        m.wf(),
    ensures
        m.observe(file, digest).groups.len() >= m.groups.len(),
        forall|i: int|
            0 <= i < m.groups.len() ==> {
                let before = #[trigger] m.groups[i];
                let after = m.observe(file, digest).groups[i];
                &&& after.digest == before.digest
                &&& after.representative() == before.representative()
                &&& after.files.len() >= before.files.len()
                &&& after.files.take(before.files.len() as int) == before.files
            },
{
}

/// What an observation enters into the two indexes: a same-directory
/// duplicate puts its fingerprint under its directory, a cross-directory
/// duplicate puts it into the cross-directory set.
pub proof fn lemma_observe_indexes(m: EngineModel, file: FileModel, digest: Fingerprint)
    requires
        m.wf(),
    ensures
        m.classify(file, digest) == Outcome::SameDirectory ==> m.observe(
            file,
            digest,
        ).in_directory_index(file.dir, digest),
        m.classify(file, digest) == Outcome::CrossDirectory ==> m.observe(
            file,
            digest,
        ).in_cross_directory_set(digest),
{
    let after = m.observe(file, digest);
    let outcome = m.classify(file, digest);
    if outcome == Outcome::SameDirectory || outcome == Outcome::CrossDirectory {
        let p = digest_index(m.groups, digest);
        lemma_with_counts(m.groups[p], file);
        lemma_in_dir_first(m.groups[p].files, m.groups[p].representative().dir);
        assert(after.groups[p].digest == digest);
    }
}

/// A fingerprint stands under a directory only where at least two members of
/// its group lie there, and it stands under one directory at most: that of
/// its representative.
pub proof fn lemma_directory_index(m: EngineModel, dir: Seq<char>, digest: Fingerprint)
    requires
        m.wf(),
        m.in_directory_index(dir, digest),
    ensures
        holds_digest(m.groups, digest),
        m.groups[digest_index(m.groups, digest)].representative().dir == dir,
        in_dir(m.groups[digest_index(m.groups, digest)].files, dir).len() >= 2,
{
    let i = choose|i: int|
        0 <= i < m.groups.len() && (#[trigger] m.groups[i]).digest == digest
            && m.groups[i].representative().dir == dir && m.groups[i].has_home_duplicates();
    lemma_digest_index(m.groups, i);
}

/// Every stream of observations leaves the engine in a state that meets its
/// invariant.
pub proof fn lemma_replay_wf(stream: Seq<Observation>)
    ensures
        replay(stream).wf(),
    decreases stream.len(),
{
    if stream.len() > 0 {
        lemma_replay_wf(stream.drop_last());
        lemma_observe_wf(replay(stream.drop_last()), stream.last().file, stream.last().digest);
    }
}

/// No more files are recorded than were observed.
pub proof fn lemma_replay_bound(stream: Seq<Observation>)
    ensures
        replay(stream).total_files <= stream.len(),
    decreases stream.len(),
{
    if stream.len() > 0 {
        lemma_replay_bound(stream.drop_last());
    }
}

/// The engine holds exactly the paths that the stream named.
pub proof fn lemma_replay_paths(stream: Seq<Observation>, path: Seq<char>)
    ensures
        holds_path(replay(stream).groups, path) <==> stream_names(stream, path),
    decreases stream.len(),
{
    if stream.len() > 0 {
        let front = stream.drop_last();
        lemma_replay_wf(front);
        lemma_replay_paths(front, path);
        lemma_observe_paths(replay(front), stream.last().file, stream.last().digest, path);
        if stream_names(stream, path) {
            let i = choose|i: int|
                0 <= i < stream.len() && (#[trigger] stream[i]).file.path == path;
            if i < front.len() {
                assert(front[i].file.path == path);
            }
        }
    }
}

/// Whatever was observed, the sizes of the groups add up to the number of
/// files recorded, and there are as many groups as unique files.
pub proof fn lemma_group_sizes_add_up(stream: Seq<Observation>)
    ensures
        tally(replay(stream).groups).files == replay(stream).total_files,
        replay(stream).groups.len() == replay(stream).unique_files,
{
    lemma_replay_wf(stream);
}

/// Where no path is observed twice, every observation is recorded: the sizes
/// of the groups add up to the length of the stream.
pub proof fn lemma_every_file_is_counted(stream: Seq<Observation>)
    requires
        stream_paths_distinct(stream),
    ensures
        replay(stream).total_files == stream.len(),
        tally(replay(stream).groups).files == stream.len(),
    decreases stream.len(),
{
    lemma_replay_wf(stream);
    if stream.len() > 0 {
        let front = stream.drop_last();
        lemma_every_file_is_counted(front);
        lemma_replay_paths(front, stream.last().file.path);
    }
}

/// Every file recorded is a unique file, a same-directory duplicate or a
/// cross-directory duplicate, and only one of them.
pub proof fn lemma_counters_balance(m: EngineModel)
    requires
        m.wf(),
    ensures
        m.unique_files + m.same_dir_dupes + m.cross_dir_dupes == m.total_files,
{
    lemma_tally_balance(m.groups);
}

/// In every same-directory duplicate set the keeper is a member of the
/// group, and it is not among the files to remove.
pub proof fn lemma_keeper_is_spared(groups: Seq<GroupModel>, i: int)
    requires
        0 <= i < duplicate_sets(groups).len(),
    ensures
        forall|k: int|
            0 <= k < duplicate_sets(groups)[i].removals.len() ==> (#[trigger] duplicate_sets(
                groups,
            )[i].removals[k]).path != duplicate_sets(groups)[i].keeper.path,
    decreases groups.len(),
{
    if groups.len() > 0 {
        let front = groups.drop_last();
        lemma_keeper_not_removed(groups.last());
        if i < duplicate_sets(front).len() {
            lemma_keeper_is_spared(front, i);
        }
    }
}

/// Where some file of a set has no noise suffix, the first such file is
/// kept, whatever the lengths of the names.
pub proof fn lemma_first_clean_name_wins(files: Seq<FileModel>, i: int)
    requires
        0 <= i < files.len(),
        !is_noisy(files[i].name),
        forall|j: int| 0 <= j < i ==> is_noisy((#[trigger] files[j]).name),
    ensures
        keeper_index(files) == i,
{
    let noisy = noise_flags(files);
    lemma_first_clean(noisy);
    assert(!noisy[i]);
}

/// Where every file of a set has a noise suffix, the longest name is kept,
/// and of several longest names the first.
pub proof fn lemma_longest_name_wins(files: Seq<FileModel>, i: int)
    requires
        0 <= i < files.len(),
        forall|j: int| 0 <= j < files.len() ==> is_noisy((#[trigger] files[j]).name),
        forall|j: int|
            0 <= j < files.len() ==> name_len((#[trigger] files[j]).name) <= name_len(
                files[i].name,
            ),
        forall|j: int|
            0 <= j < i ==> name_len((#[trigger] files[j]).name) < name_len(files[i].name),
    ensures
        keeper_index(files) == i,
{
    let noisy = noise_flags(files);
    lemma_first_clean(noisy);
    lemma_longest(files);
}

/// A group has a same-directory duplicate set exactly where it counts a
/// same-directory duplicate, and a cross-directory set exactly where it
/// counts a cross-directory duplicate.
pub proof fn lemma_sets_follow_counts(g: GroupModel)
    requires
        g.files.len() > 0,
    ensures
        duplicate_set_of(g) is Some <==> g.same_dir_count() > 0,
        cross_set_of(g) is Some <==> g.cross_dir_count() > 0,
{
    lemma_in_dir_first(g.files, g.representative().dir);
}

/// What an observation of a new path does to the groups, seen from any
/// fingerprint `other`: the fingerprint observed has a group afterwards, no
/// other fingerprint gains or loses one, and a group that was there keeps its
/// representative, while a group that was founded is represented by the file
/// observed.
pub proof fn lemma_observe_representative(
    m: EngineModel,
    file: FileModel,
    digest: Fingerprint,
    other: Fingerprint,
)
    requires
        m.wf(),
        !holds_path(m.groups, file.path),
    ensures
        holds_digest(m.observe(file, digest).groups, other) <==> (holds_digest(m.groups, other)
            || other == digest),
        holds_digest(m.groups, other) ==> m.observe(file, digest).groups[digest_index(
            m.observe(file, digest).groups,
            other,
        )].representative() == m.groups[digest_index(m.groups, other)].representative(),
        !holds_digest(m.groups, other) && other == digest ==> m.observe(
            file,
            digest,
        ).groups[digest_index(m.observe(file, digest).groups, other)].representative() == file,
{
    let after = m.observe(file, digest);
    lemma_observe_wf(m, file, digest);
    if holds_digest(m.groups, other) {
        let i = digest_index(m.groups, other);
        lemma_digest_index(after.groups, i);
    } else if other == digest {
        let n = m.groups.len() as int;
        lemma_digest_index(after.groups, n);
    }
}

/// The counters do not depend on the order in which the files of one
/// directory are observed: two observations of different paths in the same
/// directory can change places without changing any of the four counters.
pub proof fn lemma_order_within_directory(m: EngineModel, a: Observation, b: Observation)
    requires
        m.wf(),
        a.file.dir == b.file.dir,
        a.file.path != b.file.path,
    ensures
        ({
            let ab = m.observe(a.file, a.digest).observe(b.file, b.digest);
            let ba = m.observe(b.file, b.digest).observe(a.file, a.digest);
            &&& ab.total_files == ba.total_files
            &&& ab.unique_files == ba.unique_files
            &&& ab.same_dir_dupes == ba.same_dir_dupes
            &&& ab.cross_dir_dupes == ba.cross_dir_dupes
        }),
{
    lemma_observe_wf(m, a.file, a.digest);
    lemma_observe_wf(m, b.file, b.digest);
    lemma_observe_paths(m, a.file, a.digest, b.file.path);
    lemma_observe_paths(m, b.file, b.digest, a.file.path);
    if !holds_path(m.groups, a.file.path) {
        lemma_observe_representative(m, a.file, a.digest, b.digest);
    }
    if !holds_path(m.groups, b.file.path) {
        lemma_observe_representative(m, b.file, b.digest, a.digest);
    }
}

/// The files that `in_dir` keeps lie in the directory asked for and are
/// files of the list it was given.
pub proof fn lemma_in_dir_members(files: Seq<FileModel>, dir: Seq<char>)
    ensures
        forall|i: int|
            0 <= i < in_dir(files, dir).len() ==> (#[trigger] in_dir(files, dir)[i]).dir == dir
                && files.contains(in_dir(files, dir)[i]),
    decreases files.len(),
{
    if files.len() > 0 {
        let front = files.drop_last();
        lemma_in_dir_members(front, dir);
        let kept = in_dir(files, dir);
        assert forall|i: int| 0 <= i < kept.len() implies (#[trigger] kept[i]).dir == dir
            && files.contains(kept[i]) by {
            if i < in_dir(front, dir).len() {
                let j = front.index_of(kept[i]);
                assert(files[j] == kept[i]);
            } else {
                assert(files[files.len() - 1] == kept[i]);
            }
        }
    }
}

/// The candidates among `files` carry a noise suffix and the fingerprint
/// given, and are files of the list.
pub proof fn lemma_noisy_among(files: Seq<FileModel>, digest: Fingerprint)
    ensures
        forall|i: int|
            0 <= i < noisy_among(files, digest).len() ==> {
                let c = #[trigger] noisy_among(files, digest)[i];
                &&& c.digest == digest
                &&& is_noisy(c.file.name)
                &&& files.contains(c.file)
            },
    decreases files.len(),
{
    if files.len() > 0 {
        let front = files.drop_last();
        lemma_noisy_among(front, digest);
        let found = noisy_among(files, digest);
        assert forall|i: int| 0 <= i < found.len() implies {
            let c = #[trigger] found[i];
            &&& c.digest == digest
            &&& is_noisy(c.file.name)
            &&& files.contains(c.file)
        } by {
            if i < noisy_among(front, digest).len() {
                let j = front.index_of(found[i].file);
                assert(files[j] == found[i].file);
            } else {
                assert(files[files.len() - 1] == found[i].file);
            }
        }
    }
}

/// Every rename candidate carries a noise suffix, and its fingerprint stands
/// in the duplicate index under the candidate's own directory.
pub proof fn lemma_candidates_qualify(m: EngineModel, i: int)
    requires
        m.wf(),
        0 <= i < rename_candidates(m.groups).len(),
    ensures
        is_noisy(rename_candidates(m.groups)[i].file.name),
        m.in_directory_index(
            rename_candidates(m.groups)[i].file.dir,
            rename_candidates(m.groups)[i].digest,
        ),
{
    lemma_candidate_origin(m.groups, i);
}

/// Every rename candidate comes from a group with its fingerprint, lies in
/// the directory of that group's representative, which holds at least two
/// members of the group, and carries a noise suffix.
pub proof fn lemma_candidate_origin(groups: Seq<GroupModel>, i: int)
    requires
        0 <= i < rename_candidates(groups).len(),
    ensures
        exists|j: int|
            0 <= j < groups.len() && (#[trigger] groups[j]).digest == rename_candidates(
                groups,
            )[i].digest && groups[j].representative().dir == rename_candidates(groups)[i].file.dir
                && groups[j].has_home_duplicates() && is_noisy(
                rename_candidates(groups)[i].file.name,
            ),
    decreases groups.len(),
{
    let front = groups.drop_last();
    if i < rename_candidates(front).len() {
        lemma_candidate_origin(front, i);
    } else {
        let g = groups.last();
        lemma_noisy_among(g.home_members(), g.digest);
        lemma_in_dir_members(g.files, g.representative().dir);
    }
}

/// Leaving out a path that no file has leaves the list as it is.
pub proof fn lemma_without_absent_path(files: Seq<FileModel>, path: Seq<char>)
    requires
        forall|i: int| 0 <= i < files.len() ==> (#[trigger] files[i]).path != path,
    ensures
        without_path(files, path) == files,
    decreases files.len(),
{
    if files.len() > 0 {
        let front = files.drop_last();
        lemma_without_absent_path(front, path);
    }
}

/// No two files of `files` have the same path.
pub open spec fn distinct_paths(files: Seq<FileModel>) -> bool {
    forall|i: int, j: int|
        0 <= i < files.len() && 0 <= j < files.len() && i != j ==> (#[trigger] files[i]).path != (
        #[trigger] files[j]).path
}

/// Where the paths of `files` are all different, leaving out the path of one
/// file leaves out that file and no other.
pub proof fn lemma_removals_complete(files: Seq<FileModel>, k: int)
    requires
        0 <= k < files.len(),
        distinct_paths(files),
    ensures
        without_path(files, files[k].path) == files.remove(k),
    decreases files.len(),
{
    let front = files.drop_last();
    let path = files[k].path;
    if k == files.len() - 1 {
        lemma_without_absent_path(front, path);
    } else {
        lemma_removals_complete(front, k);
    }
}

/// Files chosen by directory from files with different paths have different
/// paths.
pub proof fn lemma_in_dir_distinct(files: Seq<FileModel>, dir: Seq<char>)
    requires
        distinct_paths(files),
    ensures
        distinct_paths(in_dir(files, dir)),
    decreases files.len(),
{
    if files.len() > 0 {
        let front = files.drop_last();
        lemma_in_dir_distinct(front, dir);
        lemma_in_dir_members(front, dir);
        let kept = in_dir(files, dir);
        assert forall|i: int, j: int|
            0 <= i < kept.len() && 0 <= j < kept.len() && i != j implies (#[trigger] kept[i]).path
            != (#[trigger] kept[j]).path by {
            let earlier = in_dir(front, dir);
            if i >= earlier.len() {
                let l = front.index_of(earlier[j]);
                assert(files[l] == earlier[j]);
            } else if j >= earlier.len() {
                let l = front.index_of(earlier[i]);
                assert(files[l] == earlier[i]);
            }
        }
    }
}

/// Under the invariant, the files to remove from a same-directory duplicate
/// set are all its members but the keeper, in their order.
pub proof fn lemma_removals_are_the_others(m: EngineModel, i: int)
    requires
        m.wf(),
        0 <= i < m.groups.len(),
        m.groups[i].has_home_duplicates(),
    ensures
        ({
            let home = m.groups[i].home_members();
            let set = duplicate_set_of(m.groups[i])->Some_0;
            let k = keeper_index(home);
            &&& 0 <= k < home.len()
            &&& set.keeper == home[k]
            &&& set.removals == home.remove(k)
        }),
{
    let g = m.groups[i];
    let home = g.home_members();
    assert(distinct_paths(g.files)) by {
        assert forall|k: int, l: int|
            0 <= k < g.files.len() && 0 <= l < g.files.len() && k != l implies (
        #[trigger] g.files[k]).path != (#[trigger] g.files[l]).path by {
            assert(m.groups[i].files[k].path != m.groups[i].files[l].path);
        }
    }
    lemma_in_dir_distinct(g.files, g.representative().dir);
    lemma_keeper_in_range(home, noise_flags(home));
    lemma_removals_complete(home, keeper_index(home));
}

} // verus!
