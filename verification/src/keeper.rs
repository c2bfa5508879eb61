//! Which copy of a same-directory duplicate set is kept, and which copies
//! are left for backup and removal.

use crate::engine::{file_models, group_models, ChecksumGroup, MediaDeduplicator};
use crate::filename::same_text;
use crate::fingerprint::Fingerprint;
use crate::model::GroupModel;
use crate::paths::{FileModel, MediaFile};
use crate::suffix::{is_noisy, SuffixRules};
use vstd::prelude::*;

verus! {

/// The length of a file name, counted in bytes of UTF-8.
pub open spec fn name_len(name: Seq<char>) -> nat {
    vstd::utf8::encode_utf8(name).len()
}

/// The place of the first `false` in `noisy`; the length of `noisy` where it
/// holds none.
pub open spec fn first_clean(noisy: Seq<bool>) -> int
    decreases noisy.len(),
{
    if noisy.len() == 0 {
        0
    } else {
        let earlier = first_clean(noisy.drop_last());
        if earlier < noisy.len() - 1 {
            earlier
        } else if !noisy.last() {
            noisy.len() - 1
        } else {
            noisy.len() as int
        }
    }
}

/// The place of the longest file name; of the first of them where several
/// are as long. Zero for no files.
pub open spec fn longest(files: Seq<FileModel>) -> int
    decreases files.len(),
{
    if files.len() <= 1 {
        0
    } else {
        let earlier = longest(files.drop_last());
        if name_len(files.last().name) > name_len(files[earlier].name) {
            files.len() - 1
        } else {
            earlier
        }
    }
}

/// The place of the file to keep among `files`, of which `noisy` says one by
/// one whether the name carries a noise suffix: the first file without one,
/// or, where all have one, the first of the longest names.
pub open spec fn keeper_among(files: Seq<FileModel>, noisy: Seq<bool>) -> int {
    if first_clean(noisy) < noisy.len() {
        first_clean(noisy)
    } else {
        longest(files)
    }
}

/// For each of `files`, whether its name carries a noise suffix.
pub open spec fn noise_flags(files: Seq<FileModel>) -> Seq<bool> {
    files.map_values(|f: FileModel| is_noisy(f.name))
}

/// The place of the file to keep among `files`.
pub open spec fn keeper_index(files: Seq<FileModel>) -> int {
    keeper_among(files, noise_flags(files))
}

/// The files of `files` whose path is not `path`, in their order.
pub open spec fn without_path(files: Seq<FileModel>, path: Seq<char>) -> Seq<FileModel>
    decreases files.len(),
{
    if files.len() == 0 {
        Seq::empty()
    } else if files.last().path != path {
        without_path(files.drop_last(), path).push(files.last())
    } else {
        without_path(files.drop_last(), path)
    }
}

/// A set of identical files in one directory, with the decision on it.
pub struct DuplicateSet {
    /// The directory that holds all members of the set.
    pub dir: String,
    /// The fingerprint that the members share.
    pub digest: Fingerprint,
    /// The member that stays.
    pub keeper: MediaFile,
    /// The members to back up and remove, in the order of observation.
    pub removals: Vec<MediaFile>,
}

/// What a `DuplicateSet` stands for.
pub struct DuplicateSetModel {
    pub dir: Seq<char>,
    pub digest: Fingerprint,
    pub keeper: FileModel,
    pub removals: Seq<FileModel>,
}

impl View for DuplicateSet {
    type V = DuplicateSetModel;

    open spec fn view(&self) -> DuplicateSetModel {
        DuplicateSetModel {
            dir: self.dir@,
            digest: self.digest,
            keeper: self.keeper@,
            removals: file_models(self.removals@),
        }
    }
}

/// What a list of duplicate sets stands for.
pub open spec fn set_models(sets: Seq<DuplicateSet>) -> Seq<DuplicateSetModel> {
    sets.map_values(|s: DuplicateSet| s@)
}

/// The same-directory duplicate set of a group: the members in the
/// representative's directory, where there are at least two of them.
pub open spec fn duplicate_set_of(g: GroupModel) -> Option<DuplicateSetModel> {
    let members = g.home_members();
    if g.has_home_duplicates() {
        let keeper = members[keeper_index(members)];
        Some(
            DuplicateSetModel {
                dir: g.representative().dir,
                digest: g.digest,
                keeper: keeper,
                removals: without_path(members, keeper.path),
            },
        )
    } else {
        None
    }
}

/// The same-directory duplicate sets of `groups`, in the order of the groups.
pub open spec fn duplicate_sets(groups: Seq<GroupModel>) -> Seq<DuplicateSetModel>
    decreases groups.len(),
{
    if groups.len() == 0 {
        Seq::empty()
    } else {
        match duplicate_set_of(groups.last()) {
            Some(set) => duplicate_sets(groups.drop_last()).push(set),
            None => duplicate_sets(groups.drop_last()),
        }
    }
}

/// `first_clean` finds the first `false`: nothing before it is `false`, and
/// what it finds is.
pub proof fn lemma_first_clean(noisy: Seq<bool>)
    ensures
        0 <= first_clean(noisy) <= noisy.len(),
        forall|i: int| 0 <= i < first_clean(noisy) ==> #[trigger] noisy[i],
        first_clean(noisy) < noisy.len() ==> !noisy[first_clean(noisy)],
    decreases noisy.len(),
{
    if noisy.len() > 0 {
        let front = noisy.drop_last();
        lemma_first_clean(front);
        assert forall|i: int| 0 <= i < first_clean(noisy) implies #[trigger] noisy[i] by {
            if i < front.len() {
                assert(front[i] == noisy[i]);
            }
        }
    }
}

/// `longest` finds a name that none exceeds and that every earlier name
/// falls short of.
pub proof fn lemma_longest(files: Seq<FileModel>)
    requires
        files.len() > 0,
    ensures
        0 <= longest(files) < files.len(),
        forall|i: int|
            0 <= i < files.len() ==> name_len((#[trigger] files[i]).name) <= name_len(
                files[longest(files)].name,
            ),
        forall|i: int|
            0 <= i < longest(files) ==> name_len((#[trigger] files[i]).name) < name_len(
                files[longest(files)].name,
            ),
    decreases files.len(),
{
    if files.len() > 1 {
        let front = files.drop_last();
        lemma_longest(front);
        assert forall|i: int| 0 <= i < files.len() implies name_len((#[trigger] files[i]).name)
            <= name_len(files[longest(files)].name) by {
            if i < front.len() {
                assert(front[i] == files[i]);
            }
        }
        assert forall|i: int| 0 <= i < longest(files) implies name_len(
            (#[trigger] files[i]).name,
        ) < name_len(files[longest(files)].name) by {
            if i < front.len() {
                assert(front[i] == files[i]);
            }
        }
    }
}

/// The keeper is a member of the set it was chosen from.
pub proof fn lemma_keeper_in_range(files: Seq<FileModel>, noisy: Seq<bool>)
    requires
        files.len() > 0,
        noisy.len() == files.len(),
    ensures
        0 <= keeper_among(files, noisy) < files.len(),
{
    lemma_first_clean(noisy);
    lemma_longest(files);
}

/// The removal list never names the path that is kept.
pub proof fn lemma_without_path(files: Seq<FileModel>, path: Seq<char>)
    ensures
        without_path(files, path).len() <= files.len(),
        forall|i: int|
            0 <= i < without_path(files, path).len() ==> (#[trigger] without_path(
                files,
                path,
            )[i]).path != path,
        forall|i: int|
            0 <= i < without_path(files, path).len() ==> files.contains(
                #[trigger] without_path(files, path)[i],
            ),
    decreases files.len(),
{
    if files.len() > 0 {
        let front = files.drop_last();
        lemma_without_path(front, path);
    }
}

/// In every duplicate set the keeper is not among the files to remove.
pub proof fn lemma_keeper_not_removed(g: GroupModel)
    ensures
        match duplicate_set_of(g) {
            Some(set) => forall|i: int|
                0 <= i < set.removals.len() ==> (#[trigger] set.removals[i]).path
                    != set.keeper.path,
            None => true,
        },
{
    if let Some(set) = duplicate_set_of(g) {
        lemma_without_path(g.home_members(), set.keeper.path);
    }
}

/// The files of `files` whose path is not `path`.
pub fn others_than(files: &Vec<MediaFile>, path: &String) -> (others: Vec<MediaFile>)
    ensures
        file_models(others@) == without_path(file_models(files@), path@),
{
    let mut others: Vec<MediaFile> = Vec::new();
    let mut i: usize = 0;
    while i < files.len()
        invariant
            i <= files.len(),
            file_models(others@) == without_path(file_models(files@).take(i as int), path@),
        decreases files.len() - i,
    {
        let ghost seen = file_models(files@).take(i + 1);
        assert(seen.drop_last() =~= file_models(files@).take(i as int));
        if !same_text(&files[i].path, path) {
            others.push(files[i].duplicate());
        }
        i = i + 1;
    }
    assert(file_models(files@).take(files.len() as int) =~= file_models(files@));
    others
}

/// For each of `files`, asks the suffix rules whether its name carries a
/// noise suffix.
pub fn noise_flags_of(rules: &SuffixRules, files: &Vec<MediaFile>) -> (noisy: Vec<bool>)
    ensures
        noisy@ == noise_flags(file_models(files@)),
{
    let mut noisy: Vec<bool> = Vec::new();
    let mut i: usize = 0;
    while i < files.len()
        invariant
            i <= files.len(),
            noisy@.len() == i,
            forall|j: int| 0 <= j < i ==> noisy@[j] == is_noisy(files[j]@.name),
        decreases files.len() - i,
    {
        noisy.push(rules.has_noise_suffix(files[i].name.as_str()));
        i = i + 1;
    }
    noisy
}

/// Chooses the file to keep among `files`, which are the members of one
/// same-directory duplicate set in the order of observation, and of which
/// `noisy` says one by one whether the name carries a noise suffix: the
/// first file without one; where every name has one, the longest name, the
/// earlier one of two that are as long.
pub fn choose_keeper(files: &Vec<MediaFile>, noisy: &Vec<bool>) -> (keeper: usize)
    requires
        noisy.len() == files.len(),
    ensures
        keeper == keeper_among(file_models(files@), noisy@),
        files.len() > 0 ==> keeper < files.len(),
{
    let ghost all = file_models(files@);
    let mut best: usize = 0;
    let mut best_len: usize = 0;
    let mut i: usize = 0;
    while i < files.len()
        invariant
            i <= files.len(),
            noisy.len() == files.len(),
            all == file_models(files@),
            first_clean(noisy@.take(i as int)) == i,
            best == longest(all.take(i as int)),
            i > 0 ==> best < i && best_len == name_len(all[best as int].name),
        decreases files.len() - i,
    {
        let ghost seen = all.take(i + 1);
        assert(seen.drop_last() =~= all.take(i as int));
        assert(noisy@.take(i + 1).drop_last() =~= noisy@.take(i as int));
        if !noisy[i] {
            proof {
                lemma_extends_first_clean(noisy@, i + 1);
            }
            return i;
        }
        let len = files[i].name.as_str().as_bytes().len();
        if i == 0 || len > best_len {
            best = i;
            best_len = len;
        }
        i = i + 1;
    }
    assert(all.take(files.len() as int) =~= all);
    assert(noisy@.take(files.len() as int) =~= noisy@);
    proof {
        if files.len() > 0 {
            lemma_longest(all);
        }
    }
    best
}

/// Chooses the file to keep among `files`, the members of one same-directory
/// duplicate set in the order of observation.
pub fn select_keeper(rules: &SuffixRules, files: &Vec<MediaFile>) -> (keeper: usize)
    ensures
        keeper == keeper_index(file_models(files@)),
        files.len() > 0 ==> keeper < files.len(),
{
    let noisy = noise_flags_of(rules, files);
    choose_keeper(files, &noisy)
}

/// A `false` found in a prefix of `noisy` is the first `false` of all of it.
proof fn lemma_extends_first_clean(noisy: Seq<bool>, n: int)
    requires
        0 <= n <= noisy.len(),
        first_clean(noisy.take(n)) < n,
    ensures
        first_clean(noisy) == first_clean(noisy.take(n)),
    decreases noisy.len() - n,
{
    if n < noisy.len() {
        assert(noisy.take(n + 1).drop_last() =~= noisy.take(n));
        lemma_extends_first_clean(noisy, n + 1);
    } else {
        assert(noisy.take(n) =~= noisy);
    }
}

/// The decision on one group: its same-directory duplicate set with the
/// keeper and the removals, or `None` where the group has fewer than two
/// members in its representative's directory.
pub fn duplicate_set(rules: &SuffixRules, group: &ChecksumGroup) -> (set: Option<DuplicateSet>)
    ensures
        set is Some <==> duplicate_set_of(group@) is Some,
        set matches Some(s) ==> Some(s@) == duplicate_set_of(group@),
{
    if group.has_home_duplicates() {
        let members = group.home_members();
        let k = select_keeper(rules, &members);
        let keeper = members[k].duplicate();
        let removals = others_than(&members, &keeper.path);
        Some(
            DuplicateSet {
                dir: group.files[0].dir.clone(),
                digest: group.digest,
                keeper: keeper,
                removals: removals,
            },
        )
    } else {
        None
    }
}

impl MediaDeduplicator {
    /// The same-directory duplicate sets of everything observed so far, one
    /// for each group that has two or more members in its representative's
    /// directory, in the order in which the fingerprints first appeared.
    pub fn analyze_within_directory_duplicates(
        &self,
        rules: &SuffixRules,
    ) -> (sets: Vec<DuplicateSet>)
        ensures
            set_models(sets@) == duplicate_sets(self@.groups),
    {
        let groups = self.groups();
        let ghost all = group_models(groups@);
        let mut sets: Vec<DuplicateSet> = Vec::new();
        let mut i: usize = 0;
        while i < groups.len()
            invariant
                i <= groups.len(),
                all == group_models(groups@),
                set_models(sets@) == duplicate_sets(all.take(i as int)),
            decreases groups.len() - i,
        {
            let ghost seen = all.take(i + 1);
            assert(seen.drop_last() =~= all.take(i as int));
            match duplicate_set(rules, &groups[i]) {
                Some(set) => {
                    sets.push(set);
                },
                None => {},
            }
            i = i + 1;
        }
        assert(all.take(groups.len() as int) =~= all);
        sets
    }
}

} // verus!
