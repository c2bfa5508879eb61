//! The classification engine: it takes observations one by one and keeps the
//! checksum groups and the counters.
//!
//! The groups stand in a list, in the order in which their fingerprints first
//! appeared. Two hash maps beside the list say in which group a fingerprint
//! and a path are found, so that an observation costs no search.

use crate::filename::same_text;
use crate::fingerprint::Fingerprint;
use crate::laws::{lemma_observe_paths, lemma_observe_representative, lemma_replay_bound};
use crate::model::{
    digest_index, first_holder, group_holds, holds_digest, holds_path, in_dir,
    lemma_digest_index, lemma_in_dir_len,
    lemma_observe_wf, lemma_tally_balance, replay, EngineModel, GroupModel, Observation, Outcome,
};
use crate::paths::{located, FileModel, MediaFile};
use std::collections::HashMap;
use vstd::hash_map::StringHashMap;
use vstd::prelude::*;

verus! {

broadcast use vstd::std_specs::hash::group_hash_axioms;

/// The files that share one fingerprint, in the order in which they were
/// observed. The first one is the representative.
pub struct ChecksumGroup {
    pub digest: Fingerprint,
    pub files: Vec<MediaFile>,
}

/// What a list of media files stands for.
pub open spec fn file_models(files: Seq<MediaFile>) -> Seq<FileModel> {
    files.map_values(|f: MediaFile| f@)
}

/// What a list of checksum groups stands for.
pub open spec fn group_models(groups: Seq<ChecksumGroup>) -> Seq<GroupModel> {
    groups.map_values(|g: ChecksumGroup| g@)
}

impl View for ChecksumGroup {
    type V = GroupModel;

    open spec fn view(&self) -> GroupModel {
        GroupModel { digest: self.digest, files: file_models(self.files@) }
    }
}

impl ChecksumGroup {
    /// The members that lie in the representative's directory, the
    /// representative among them. None for a group without members.
    pub fn home_members(&self) -> (members: Vec<MediaFile>)
        ensures
            file_models(members@) == self@.home_members(),
    {
        if self.files.len() == 0 {
            let members: Vec<MediaFile> = Vec::new();
            members
        } else {
            members_in(&self.files, &self.files[0].dir)
        }
    }

    /// Whether at least two members lie in the representative's directory.
    pub fn has_home_duplicates(&self) -> (found: bool)
        ensures
            found == self@.has_home_duplicates(),
    {
        let members = self.home_members();
        assert(members@.len() == file_models(members@).len());
        members.len() > 1
    }

    /// Whether some member lies in another directory than the representative.
    pub fn has_cross_duplicates(&self) -> (found: bool)
        ensures
            found == self@.has_cross_duplicates(),
    {
        let members = self.home_members();
        proof {
            if self.files.len() > 0 {
                lemma_in_dir_len(self@.files, self@.files[0].dir);
            }
        }
        members.len() < self.files.len()
    }

    /// Whether a file with this path is a member of the group.
    pub fn holds_path(&self, path: &String) -> (known: bool)
        ensures
            known == group_holds(self@, path@),
    {
        let mut k: usize = 0;
        while k < self.files.len()
            invariant
                k <= self.files.len(),
                forall|l: int| 0 <= l < k ==> (#[trigger] self@.files[l]).path != path@,
            decreases self.files.len() - k,
        {
            if same_text(&self.files[k].path, path) {
                assert(self@.files[k as int].path == path@);
                return true;
            }
            k = k + 1;
        }
        false
    }
}

/// The files of `files` that lie in directory `dir`.
pub fn members_in(files: &Vec<MediaFile>, dir: &String) -> (members: Vec<MediaFile>)
    ensures
        file_models(members@) == in_dir(file_models(files@), dir@),
{
    let mut members: Vec<MediaFile> = Vec::new();
    let mut i: usize = 0;
    while i < files.len()
        invariant
            i <= files.len(),
            file_models(members@) == in_dir(file_models(files@).take(i as int), dir@),
        decreases files.len() - i,
    {
        let ghost seen = file_models(files@).take(i + 1);
        assert(seen.drop_last() =~= file_models(files@).take(i as int));
        if same_text(&files[i].dir, dir) {
            members.push(files[i].duplicate());
        }
        i = i + 1;
    }
    assert(file_models(files@).take(files.len() as int) =~= file_models(files@));
    members
}

/// A file found during a run, with the fingerprint computed for it.
pub struct Observed {
    pub file: MediaFile,
    pub digest: Fingerprint,
}

impl View for Observed {
    type V = Observation;

    open spec fn view(&self) -> Observation {
        Observation { file: self.file@, digest: self.digest }
    }
}

/// What a list of observed files stands for.
pub open spec fn observations(stream: Seq<Observed>) -> Seq<Observation> {
    stream.map_values(|o: Observed| o@)
}

/// The engine. It is fed one observation per discovered media file and can
/// be asked at any time for its groups and counters.
pub struct MediaDeduplicator {
    groups: Vec<ChecksumGroup>,
    by_digest: HashMap<Fingerprint, usize>,
    by_path: StringHashMap<usize>,
    total_files: usize,
    unique_files: usize,
    same_dir_dupes: usize,
    cross_dir_dupes: usize,
}

impl View for MediaDeduplicator {
    type V = EngineModel;

    closed spec fn view(&self) -> EngineModel {
        EngineModel {
            groups: group_models(self.groups@),
            total_files: self.total_files as nat,
            unique_files: self.unique_files as nat,
            same_dir_dupes: self.same_dir_dupes as nat,
            cross_dir_dupes: self.cross_dir_dupes as nat,
        }
    }
}

impl MediaDeduplicator {
    /// The two look-up tables agree with the groups: a fingerprint has an
    /// entry exactly where it has a group, and the entry is the place of that
    /// group; a path has an entry exactly where a group holds it, and the
    /// entry is the place of a group that does.
    pub closed spec fn indexed(&self) -> bool {
        &&& forall|d: Fingerprint| #[trigger]
            self.by_digest@.contains_key(d) <==> holds_digest(self@.groups, d)
        &&& forall|d: Fingerprint| #[trigger]
            self.by_digest@.contains_key(d) ==> self.by_digest@[d] < self@.groups.len()
                && self@.groups[self.by_digest@[d] as int].digest == d
        &&& forall|p: Seq<char>| #[trigger]
            self.by_path@.contains_key(p) <==> holds_path(self@.groups, p)
        &&& forall|p: Seq<char>| #[trigger]
            self.by_path@.contains_key(p) ==> self.by_path@[p] < self@.groups.len()
                && group_holds(self@.groups[self.by_path@[p] as int], p)
    }

    /// The invariant of the engine: that of its state, and the agreement of
    /// the look-up tables with it.
    pub open spec fn wf(&self) -> bool {
        self@.wf() && self.indexed()
    }

    /// An engine that has observed nothing.
    pub fn new() -> (engine: MediaDeduplicator)
        ensures
            engine@ == EngineModel::empty(),
            engine.wf(),
    {
        let engine = MediaDeduplicator {
            groups: Vec::new(),
            by_digest: HashMap::new(),
            by_path: StringHashMap::new(),
            total_files: 0,
            unique_files: 0,
            same_dir_dupes: 0,
            cross_dir_dupes: 0,
        };
        assert(engine@.groups =~= Seq::<GroupModel>::empty());
        engine
    }

    /// The engine after a whole stream of observations, taken in order.
    pub fn classify(stream: &Vec<Observed>) -> (engine: MediaDeduplicator)
        ensures
            engine@ == replay(observations(stream@)),
            engine.wf(),
    {
        let ghost all = observations(stream@);
        let mut engine = MediaDeduplicator::new();
        let mut i: usize = 0;
        while i < stream.len()
            invariant
                i <= stream.len(),
                all == observations(stream@),
                engine@ == replay(all.take(i as int)),
                engine.wf(),
            decreases stream.len() - i,
        {
            proof {
                lemma_replay_bound(all.take(i as int));
                assert(all.take(i + 1).drop_last() =~= all.take(i as int));
            }
            engine.observe(stream[i].file.duplicate(), stream[i].digest);
            i = i + 1;
        }
        assert(all.take(stream.len() as int) =~= all);
        engine
    }

    /// The groups, in the order in which their fingerprints first appeared.
    pub fn groups(&self) -> (groups: &Vec<ChecksumGroup>)
        ensures
            group_models(groups@) == self@.groups,
    {
        &self.groups
    }

    /// Number of observations recorded.
    pub fn total_files(&self) -> (n: usize)
        ensures
            n == self@.total_files,
    {
        self.total_files
    }

    /// Number of groups, which is the number of distinct contents.
    pub fn unique_files(&self) -> (n: usize)
        ensures
            n == self@.unique_files,
    {
        self.unique_files
    }

    /// Number of files observed in the directory of an earlier file with the
    /// same content.
    pub fn same_dir_dupes(&self) -> (n: usize)
        ensures
            n == self@.same_dir_dupes,
    {
        self.same_dir_dupes
    }

    /// Number of files observed in another directory than the first file
    /// with the same content.
    pub fn cross_dir_dupes(&self) -> (n: usize)
        ensures
            n == self@.cross_dir_dupes,
    {
        self.cross_dir_dupes
    }

    /// Whether a file with this path has been recorded.
    pub fn knows_path(&self, path: &String) -> (known: bool)
        requires
            self.wf(),
        ensures
            known == holds_path(self@.groups, path@),
    {
        self.by_path.contains_key(path.as_str())
    }

    /// The place of the group with this fingerprint, if there is one.
    pub fn find_group(&self, digest: Fingerprint) -> (place: Option<usize>)
        requires
            self.wf(),
        ensures
            place is Some <==> holds_digest(self@.groups, digest),
            place matches Some(i) ==> i < self@.groups.len() && self@.groups[i as int].digest
                == digest && digest_index(self@.groups, digest) == i,
    {
        match self.by_digest.get(&digest) {
            Some(i) => {
                proof {
                    lemma_digest_index(self@.groups, *i as int);
                }
                Some(*i)
            },
            None => None,
        }
    }

    /// Records one observation: `file` was found to have fingerprint `digest`.
    ///
    /// A new fingerprint founds a group with `file` as its representative.
    /// A known one has `file` join its group; the file counts as a
    /// same-directory duplicate where it lies in the representative's
    /// directory and as a cross-directory duplicate where it does not. A path
    /// that was recorded before changes nothing.
    pub fn observe(&mut self, file: MediaFile, digest: Fingerprint) -> (outcome: Outcome)
        requires
            old(self).wf(),
            old(self)@.total_files < usize::MAX,
        ensures
            final(self).wf(),
            final(self)@ == old(self)@.observe(file@, digest),
            outcome == old(self)@.classify(file@, digest),
    {
        proof {
            lemma_observe_wf(self@, file@, digest);
            lemma_tally_balance(self@.groups);
        }
        if self.knows_path(&file.path) {
            return Outcome::AlreadyObserved;
        }
        proof {
            assert forall|p: Seq<char>|
                holds_path(#[trigger] old(self)@.observe(file@, digest).groups, p) <==> (
                holds_path(old(self)@.groups, p) || p == file@.path) by {
                lemma_observe_paths(old(self)@, file@, digest, p);
            }
            assert forall|d: Fingerprint|
                holds_digest(#[trigger] old(self)@.observe(file@, digest).groups, d) <==> (
                holds_digest(old(self)@.groups, d) || d == digest) by {
                lemma_observe_representative(old(self)@, file@, digest, d);
            }
        }
        let path = file.path.clone();
        match self.find_group(digest) {
            None => {
                let place = self.groups.len();
                let mut files: Vec<MediaFile> = Vec::new();
                files.push(file);
                let group = ChecksumGroup { digest: digest, files: files };
                assert(group@.files =~= seq![file@]);
                self.groups.push(group);
                self.by_digest.insert(digest, place);
                self.by_path.insert(path, place);
                self.total_files = self.total_files + 1;
                self.unique_files = self.unique_files + 1;
                assert(self@.groups =~= old(self)@.groups.push(
                    GroupModel { digest: digest, files: seq![file@] },
                ));
                Outcome::Unique
            },
            Some(i) => {
                let same = same_text(&self.groups[i].files[0].dir, &file.dir);
                self.groups[i].files.push(file);
                self.by_path.insert(path, i);
                self.total_files = self.total_files + 1;
                assert(self@.groups =~= old(self)@.groups.update(
                    i as int,
                    old(self)@.groups[i as int].with(file@),
                )) by {
                    assert(self.groups[i as int]@.files =~= old(self).groups[i as int]@.files.push(
                        file@,
                    ));
                }
                if same {
                    self.same_dir_dupes = self.same_dir_dupes + 1;
                    Outcome::SameDirectory
                } else {
                    self.cross_dir_dupes = self.cross_dir_dupes + 1;
                    Outcome::CrossDirectory
                }
            },
        }
    }

    /// Whether `digest` stands in the duplicate index under `dir`.
    pub fn in_directory_index(&self, dir: &String, digest: Fingerprint) -> (listed: bool)
        requires
            self.wf(),
        ensures
            listed == self@.in_directory_index(dir@, digest),
    {
        match self.find_group(digest) {
            Some(i) => {
                let group = &self.groups[i];
                group.has_home_duplicates() && same_text(&group.files[0].dir, dir)
            },
            None => false,
        }
    }

    /// Whether `digest` is in the cross-directory set.
    pub fn in_cross_directory_set(&self, digest: Fingerprint) -> (listed: bool)
        requires
            self.wf(),
        ensures
            listed == self@.in_cross_directory_set(digest),
    {
        match self.find_group(digest) {
            Some(i) => {
                self.groups[i].has_cross_duplicates()
            },
            None => false,
        }
    }

    /// Records the file at `path`, as a run rooted at `root` sees it, with
    /// its fingerprint `digest`.
    pub fn observe_path(
        &mut self,
        root: &str,
        path: &str,
        digest: Fingerprint,
    ) -> (outcome: Outcome)
        requires
            old(self).wf(),
            old(self)@.total_files < usize::MAX,
        ensures
            final(self).wf(),
            final(self)@ == old(self)@.observe(located(root@, path@), digest),
            outcome == old(self)@.classify(located(root@, path@), digest),
    {
        self.observe(MediaFile::locate(root, path), digest)
    }

    /// The place of the group that holds a file with this path.
    pub fn group_of_path(&self, path: &String) -> (place: Option<usize>)
        requires
            self.wf(),
        ensures
            place is Some <==> holds_path(self@.groups, path@),
            place matches Some(i) ==> first_holder(self@.groups, path@, i as int),
    {
        match self.by_path.get(path.as_str()) {
            Some(i) => Some(*i),
            None => None,
        }
    }

    /// The fingerprint under which the file with this path was recorded.
    pub fn checksum_of(&self, path: &String) -> (digest: Option<Fingerprint>)
        requires
            self.wf(),
        ensures
            digest is Some <==> holds_path(self@.groups, path@),
            digest matches Some(d) ==> exists|i: int|
                first_holder(self@.groups, path@, i) && (#[trigger] self@.groups[i]).digest == d,
    {
        match self.group_of_path(path) {
            Some(i) => {
                Some(self.groups[i].digest)
            },
            None => None,
        }
    }
}

} // verus!
