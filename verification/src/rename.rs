//! The rename planner: which files get their noise suffix stripped, and what
//! they are called afterwards.
//!
//! A file qualifies where it is a member of a same-directory duplicate set
//! and its name carries a noise suffix. It is planned to receive its clean
//! name. Where that name is taken, by an earlier entry of the plan or by an
//! entry of the directory other than the file itself, the first eight digits
//! of the file's fingerprint go between stem and extension. Where that name
//! is taken too, or is the name the file has, the file is reported as
//! ambiguous and left alone; the files after it are planned as usual.
//! Nothing is ever planned onto a name that is in use.

use crate::engine::{
    file_models, group_models, observations, ChecksumGroup, MediaDeduplicator, Observed,
};
use crate::filename::same_text;
use crate::fingerprint::Fingerprint;
use crate::model::{GroupModel, Observation};
use crate::paths::{FileModel, MediaFile};
use crate::suffix::{clean_name, create_hashed_filename, hashed_name, is_noisy, SuffixRules};
use vstd::prelude::*;

verus! {

/// What a list of names stands for.
pub open spec fn texts(names: Seq<String>) -> Seq<Seq<char>> {
    names.map_values(|s: String| s@)
}

/// Why a name cannot be given to a file.
#[derive(Clone, Copy, Debug, PartialEq, Eq, Structural)]
pub enum Conflict {
    /// The name is free.
    Free,
    /// An earlier entry of the plan receives the name.
    PlannedName,
    /// The directory holds an entry of that name which is not the file itself.
    ExistingEntry,
}

/// The decision on one file.
pub struct RenamePlanEntry {
    /// The file to rename.
    pub file: MediaFile,
    /// The fingerprint of the file.
    pub digest: Fingerprint,
    /// The name of the file without its noise suffixes.
    pub clean_name: String,
    /// The clean name with the fingerprint prefix in it; present exactly
    /// where the clean name is taken.
    pub hashed_name: Option<String>,
    /// What stands in the way of the clean name.
    pub conflict: Conflict,
}

/// What a `RenamePlanEntry` stands for.
pub struct RenameEntryModel {
    pub file: FileModel,
    pub digest: Fingerprint,
    pub clean_name: Seq<char>,
    pub hashed_name: Option<Seq<char>>,
    pub conflict: Conflict,
}

impl RenameEntryModel {
    /// The name that the file is to receive.
    pub open spec fn target(self) -> Seq<char> {
        match self.hashed_name {
            Some(name) => name,
            None => self.clean_name,
        }
    }
}

impl View for RenamePlanEntry {
    type V = RenameEntryModel;

    open spec fn view(&self) -> RenameEntryModel {
        RenameEntryModel {
            file: self.file@,
            digest: self.digest,
            clean_name: self.clean_name@,
            hashed_name: match self.hashed_name {
                Some(name) => Some(name@),
                None => None,
            },
            conflict: self.conflict,
        }
    }
}

/// The clean name of a file is taken, and the name with its fingerprint in
/// it is taken too or is the name the file has: the file cannot be renamed.
pub struct AmbiguousRenameError {
    /// The path of the file.
    pub path: String,
    /// The name with the fingerprint in it, which could not be given.
    pub target: String,
}

/// What an `AmbiguousRenameError` stands for.
pub struct AmbiguousRename {
    pub path: Seq<char>,
    pub target: Seq<char>,
}

impl View for AmbiguousRenameError {
    type V = AmbiguousRename;

    open spec fn view(&self) -> AmbiguousRename {
        AmbiguousRename { path: self.path@, target: self.target@ }
    }
}

/// The decision on one file: the rename planned for it, or the report that
/// it cannot be told apart.
pub type RenameDecision = Result<RenamePlanEntry, AmbiguousRenameError>;

/// What a `RenameDecision` stands for.
pub type Decision = Result<RenameEntryModel, AmbiguousRename>;

/// What the decision on one file stands for.
pub open spec fn decision_model(decision: RenameDecision) -> Decision {
    match decision {
        Ok(entry) => Ok(entry@),
        Err(e) => Err(e@),
    }
}

/// What a plan stands for.
pub open spec fn plan_models(plan: Seq<RenameDecision>) -> Seq<Decision> {
    plan.map_values(|d: RenameDecision| decision_model(d))
}

/// The names that the decisions of a plan hand out, in their order. A file
/// reported as ambiguous is handed none.
pub open spec fn handed_out(plan: Seq<Decision>) -> Seq<Seq<char>>
    decreases plan.len(),
{
    if plan.len() == 0 {
        Seq::empty()
    } else {
        match plan.last() {
            Ok(entry) => handed_out(plan.drop_last()).push(entry.target()),
            Err(_) => handed_out(plan.drop_last()),
        }
    }
}

/// The files of `files` whose names carry a noise suffix, each with `digest`.
pub open spec fn noisy_among(files: Seq<FileModel>, digest: Fingerprint) -> Seq<Observation>
    decreases files.len(),
{
    if files.len() == 0 {
        Seq::empty()
    } else if is_noisy(files.last().name) {
        noisy_among(files.drop_last(), digest).push(
            Observation { file: files.last(), digest: digest },
        )
    } else {
        noisy_among(files.drop_last(), digest)
    }
}

/// The rename candidates of one group: where it has a same-directory
/// duplicate set, the members of that set with a noise suffix.
pub open spec fn group_candidates(g: GroupModel) -> Seq<Observation> {
    if g.has_home_duplicates() {
        noisy_among(g.home_members(), g.digest)
    } else {
        Seq::empty()
    }
}

/// The rename candidates of `groups`: group by group, and in each group in
/// the order of observation.
pub open spec fn rename_candidates(groups: Seq<GroupModel>) -> Seq<Observation>
    decreases groups.len(),
{
    if groups.len() == 0 {
        Seq::empty()
    } else {
        rename_candidates(groups.drop_last()) + group_candidates(groups.last())
    }
}

/// The candidates of `candidates` that lie in directory `dir`.
pub open spec fn candidates_in(candidates: Seq<Observation>, dir: Seq<char>) -> Seq<Observation>
    decreases candidates.len(),
{
    if candidates.len() == 0 {
        Seq::empty()
    } else if candidates.last().file.dir == dir {
        candidates_in(candidates.drop_last(), dir).push(candidates.last())
    } else {
        candidates_in(candidates.drop_last(), dir)
    }
}

/// What stands in the way of giving the clean name `target` to the file
/// called `own_name`: it must not be handed out already, and the directory
/// must not hold it, unless it is the file's own name.
pub open spec fn name_conflict(
    target: Seq<char>,
    own_name: Seq<char>,
    planned: Seq<Seq<char>>,
    listing: Seq<Seq<char>>,
) -> Conflict {
    if planned.contains(target) {
        Conflict::PlannedName
    } else if listing.contains(target) && target != own_name {
        Conflict::ExistingEntry
    } else {
        Conflict::Free
    }
}

/// Whether the name `hashed`, with the fingerprint in it, can be given to the
/// file called `own_name`: it is not handed out, the directory does not hold
/// it, and it is not the name the file has.
pub open spec fn hashed_name_free(
    hashed: Seq<char>,
    own_name: Seq<char>,
    planned: Seq<Seq<char>>,
    listing: Seq<Seq<char>>,
) -> bool {
    !planned.contains(hashed) && !listing.contains(hashed) && hashed != own_name
}

/// The decision on candidate `c`, whose clean name is `clean`, when the names
/// in `planned` are handed out and the directory holds `listing`.
pub open spec fn resolve(
    c: Observation,
    clean: Seq<char>,
    planned: Seq<Seq<char>>,
    listing: Seq<Seq<char>>,
) -> Decision {
    let first = name_conflict(clean, c.file.name, planned, listing);
    let hashed = hashed_name(clean, c.digest);
    if first == Conflict::Free {
        Ok(
            RenameEntryModel {
                file: c.file,
                digest: c.digest,
                clean_name: clean,
                hashed_name: None,
                conflict: Conflict::Free,
            },
        )
    } else if hashed_name_free(hashed, c.file.name, planned, listing) {
        Ok(
            RenameEntryModel {
                file: c.file,
                digest: c.digest,
                clean_name: clean,
                hashed_name: Some(hashed),
                conflict: first,
            },
        )
    } else {
        Err(AmbiguousRename { path: c.file.path, target: hashed })
    }
}

/// The plan for `candidates`, which lie in one directory that holds
/// `listing`: one decision for each candidate, in order, each taken against
/// the names handed out before it.
pub open spec fn rename_plan(candidates: Seq<Observation>, listing: Seq<Seq<char>>) -> Seq<Decision>
    decreases candidates.len(),
{
    if candidates.len() == 0 {
        Seq::empty()
    } else {
        let earlier = rename_plan(candidates.drop_last(), listing);
        let c = candidates.last();
        earlier.push(resolve(c, clean_name(c.file.name), handed_out(earlier), listing))
    }
}

/// A plan has one decision for each candidate, and the plan for the first
/// candidates is the beginning of the plan for all.
pub proof fn lemma_plan_shape(candidates: Seq<Observation>, listing: Seq<Seq<char>>)
    ensures
        rename_plan(candidates, listing).len() == candidates.len(),
        forall|n: int|
            0 <= n <= candidates.len() ==> #[trigger] rename_plan(candidates.take(n), listing)
                == rename_plan(candidates, listing).take(n),
    decreases candidates.len(),
{
    let plan = rename_plan(candidates, listing);
    if candidates.len() > 0 {
        let front = candidates.drop_last();
        lemma_plan_shape(front, listing);
        assert forall|n: int| 0 <= n <= candidates.len() implies #[trigger] rename_plan(
            candidates.take(n),
            listing,
        ) == plan.take(n) by {
            if n < candidates.len() {
                assert(candidates.take(n) =~= front.take(n));
            } else {
                assert(candidates.take(n) =~= candidates);
            }
        }
    }
}

/// Each decision of a plan is the decision on its candidate against the names
/// handed out by the decisions before it.
pub proof fn lemma_plan_step(candidates: Seq<Observation>, listing: Seq<Seq<char>>, i: int)
    requires
        0 <= i < candidates.len(),
    ensures
        rename_plan(candidates, listing).len() == candidates.len(),
        rename_plan(candidates, listing)[i] == resolve(
            candidates[i],
            clean_name(candidates[i].file.name),
            handed_out(rename_plan(candidates, listing).take(i)),
            listing,
        ),
{
    let plan = rename_plan(candidates, listing);
    lemma_plan_shape(candidates, listing);
    let upto = candidates.take(i + 1);
    assert(upto.drop_last() =~= candidates.take(i));
    assert(rename_plan(upto, listing) == plan.take(i + 1));
    assert(rename_plan(candidates.take(i), listing) == plan.take(i));
    assert(plan.take(i + 1)[i] == plan[i]);
}

/// A name is handed out by a plan exactly where one of its decisions gives
/// that name to a file.
pub proof fn lemma_handed_out(plan: Seq<Decision>, name: Seq<char>)
    ensures
        handed_out(plan).contains(name) <==> exists|j: int|
            0 <= j < plan.len() && (#[trigger] plan[j]) is Ok && plan[j]->Ok_0.target() == name,
    decreases plan.len(),
{
    if plan.len() > 0 {
        let front = plan.drop_last();
        lemma_handed_out(front, name);
        let names = handed_out(plan);
        if handed_out(front).contains(name) {
            let k = handed_out(front).index_of(name);
            assert(names[k] == name);
        }
        if plan.last() is Ok && plan.last()->Ok_0.target() == name {
            assert(names[names.len() - 1] == name);
        }
        if names.contains(name) && !handed_out(front).contains(name) {
            let k = names.index_of(name);
            assert(k == names.len() - 1);
        }
        if exists|j: int|
            0 <= j < plan.len() && (#[trigger] plan[j]) is Ok && plan[j]->Ok_0.target() == name {
            let j = choose|j: int|
                0 <= j < plan.len() && (#[trigger] plan[j]) is Ok && plan[j]->Ok_0.target()
                    == name;
            if j < front.len() {
                assert(front[j] == plan[j]);
            }
        }
    }
}

/// Each decision is about its own candidate: a planned rename carries the
/// candidate's file and fingerprint, the clean name of the file, and, where
/// that name was taken, the clean name with the first eight digits of the
/// file's own fingerprint in it; a report names the candidate's path and the
/// name with the fingerprint in it.
pub proof fn lemma_plan_entries(candidates: Seq<Observation>, listing: Seq<Seq<char>>, i: int)
    requires
        0 <= i < candidates.len(),
    ensures
        rename_plan(candidates, listing).len() == candidates.len(),
        match rename_plan(candidates, listing)[i] {
            Ok(e) => {
                &&& e.file == candidates[i].file
                &&& e.digest == candidates[i].digest
                &&& e.clean_name == clean_name(e.file.name)
                &&& e.conflict == Conflict::Free <==> e.hashed_name is None
                &&& e.hashed_name matches Some(name) ==> name == hashed_name(
                    e.clean_name,
                    e.digest,
                )
            },
            Err(a) => {
                &&& a.path == candidates[i].file.path
                &&& a.target == hashed_name(
                    clean_name(candidates[i].file.name),
                    candidates[i].digest,
                )
            },
        },
{
    lemma_plan_step(candidates, listing, i);
}

/// No file is given a name that the directory holds, unless the clean name
/// is the name it has; no file is given the name it has with a fingerprint
/// in it; and no two files are given the same name.
pub proof fn lemma_plan_targets_free(candidates: Seq<Observation>, listing: Seq<Seq<char>>)
    ensures
        ({
            let plan = rename_plan(candidates, listing);
            &&& forall|i: int|
                0 <= i < plan.len() && (#[trigger] plan[i]) is Ok && listing.contains(
                    plan[i]->Ok_0.target(),
                ) ==> plan[i]->Ok_0.hashed_name is None && plan[i]->Ok_0.target()
                    == plan[i]->Ok_0.file.name
            &&& forall|i: int|
                0 <= i < plan.len() && (#[trigger] plan[i]) is Ok && plan[i]->Ok_0.hashed_name
                    is Some ==> plan[i]->Ok_0.target() != plan[i]->Ok_0.file.name
            &&& forall|i: int, j: int|
                0 <= i < j < plan.len() && (#[trigger] plan[i]) is Ok && (#[trigger] plan[j])
                    is Ok ==> plan[i]->Ok_0.target() != plan[j]->Ok_0.target()
        }),
{
    let plan = rename_plan(candidates, listing);
    lemma_plan_shape(candidates, listing);
    assert forall|i: int|
        0 <= i < plan.len() && (#[trigger] plan[i]) is Ok && listing.contains(
            plan[i]->Ok_0.target(),
        ) implies plan[i]->Ok_0.hashed_name is None && plan[i]->Ok_0.target()
        == plan[i]->Ok_0.file.name by {
        lemma_plan_step(candidates, listing, i);
    }
    assert forall|i: int|
        0 <= i < plan.len() && (#[trigger] plan[i]) is Ok && plan[i]->Ok_0.hashed_name
            is Some implies plan[i]->Ok_0.target() != plan[i]->Ok_0.file.name by {
        lemma_plan_step(candidates, listing, i);
    }
    assert forall|i: int, j: int|
        0 <= i < j < plan.len() && (#[trigger] plan[i]) is Ok && (#[trigger] plan[j])
            is Ok implies plan[i]->Ok_0.target() != plan[j]->Ok_0.target() by {
        lemma_plan_step(candidates, listing, j);
        lemma_handed_out(plan.take(j), plan[i]->Ok_0.target());
        assert(plan.take(j)[i] == plan[i]);
    }
}

/// The first candidate of a directory to strip to a clean name receives that
/// name, and no other file does, where the directory holds no entry of that
/// name and no earlier candidate was sent to it as its name with a
/// fingerprint.
pub proof fn lemma_first_claim(candidates: Seq<Observation>, listing: Seq<Seq<char>>, i: int)
    requires
        0 <= i < candidates.len(),
        !listing.contains(clean_name(candidates[i].file.name)),
        forall|j: int|
            0 <= j < i ==> clean_name((#[trigger] candidates[j]).file.name) != clean_name(
                candidates[i].file.name,
            ),
        forall|j: int|
            0 <= j < i ==> hashed_name(
                clean_name((#[trigger] candidates[j]).file.name),
                candidates[j].digest,
            ) != clean_name(candidates[i].file.name),
    ensures
        ({
            let plan = rename_plan(candidates, listing);
            let clean = clean_name(candidates[i].file.name);
            &&& plan.len() == candidates.len()
            &&& plan[i] is Ok
            &&& plan[i]->Ok_0.hashed_name is None
            &&& plan[i]->Ok_0.target() == clean
            &&& forall|j: int|
                0 <= j < plan.len() && j != i && (#[trigger] plan[j]) is Ok
                    ==> plan[j]->Ok_0.target() != clean
        }),
{
    let plan = rename_plan(candidates, listing);
    let clean = clean_name(candidates[i].file.name);
    lemma_plan_step(candidates, listing, i);
    lemma_handed_out(plan.take(i), clean);
    assert forall|j: int| 0 <= j < i && (#[trigger] plan[j]) is Ok implies plan[j]->Ok_0.target()
        != clean by {
        lemma_plan_entries(candidates, listing, j);
    }
    lemma_plan_targets_free(candidates, listing);
}

/// Whether `name` is one of `names`.
pub fn contains_name(names: &Vec<String>, name: &String) -> (found: bool)
    ensures
        found == texts(names@).contains(name@),
{
    let mut i: usize = 0;
    while i < names.len()
        invariant
            i <= names.len(),
            forall|j: int| 0 <= j < i ==> texts(names@)[j] != name@,
        decreases names.len() - i,
    {
        if same_text(&names[i], name) {
            assert(texts(names@)[i as int] == name@);
            return true;
        }
        i = i + 1;
    }
    false
}

/// Checks whether `target` can be given to the file called `own_name`.
pub fn check_conflict(
    target: &String,
    own_name: &String,
    planned: &Vec<String>,
    listing: &Vec<String>,
) -> (conflict: Conflict)
    ensures
        conflict == name_conflict(target@, own_name@, texts(planned@), texts(listing@)),
{
    if contains_name(planned, target) {
        Conflict::PlannedName
    } else if contains_name(listing, target) && !same_text(target, own_name) {
        Conflict::ExistingEntry
    } else {
        Conflict::Free
    }
}

/// Checks whether the name `hashed`, with the fingerprint in it, can be given
/// to the file called `own_name`.
pub fn hashed_name_is_free(
    hashed: &String,
    own_name: &String,
    planned: &Vec<String>,
    listing: &Vec<String>,
) -> (free: bool)
    ensures
        free == hashed_name_free(hashed@, own_name@, texts(planned@), texts(listing@)),
{
    !contains_name(planned, hashed) && !contains_name(listing, hashed) && !same_text(
        hashed,
        own_name,
    )
}

/// Decides on one candidate whose clean name is `clean`: the clean name where
/// it is free, the name with the fingerprint prefix where only that is free,
/// and a report where neither is.
pub fn resolve_rename(
    candidate: &Observed,
    clean: String,
    planned: &Vec<String>,
    listing: &Vec<String>,
) -> (decision: RenameDecision)
    ensures
        decision_model(decision) == resolve(candidate@, clean@, texts(planned@), texts(listing@)),
{
    let first = check_conflict(&clean, &candidate.file.name, planned, listing);
    match first {
        Conflict::Free => Ok(
            RenamePlanEntry {
                file: candidate.file.duplicate(),
                digest: candidate.digest,
                clean_name: clean,
                hashed_name: None,
                conflict: Conflict::Free,
            },
        ),
        _ => {
            let hashed = create_hashed_filename(clean.as_str(), candidate.digest);
            if hashed_name_is_free(&hashed, &candidate.file.name, planned, listing) {
                Ok(
                    RenamePlanEntry {
                        file: candidate.file.duplicate(),
                        digest: candidate.digest,
                        clean_name: clean,
                        hashed_name: Some(hashed),
                        conflict: first,
                    },
                )
            } else {
                Err(AmbiguousRenameError { path: candidate.file.path.clone(), target: hashed })
            }
        },
    }
}

/// The name that a decision hands out, if it hands out one.
pub fn target_of(decision: &RenameDecision) -> (target: Option<String>)
    ensures
        match decision_model(*decision) {
            Ok(entry) => target is Some && target->Some_0@ == entry.target(),
            Err(_) => target is None,
        },
{
    match decision {
        Ok(entry) => match &entry.hashed_name {
            Some(name) => Some(name.clone()),
            None => Some(entry.clean_name.clone()),
        },
        Err(_) => None,
    }
}

/// Plans the renames of `candidates`, which lie in one directory, against
/// the names in `listing` that the directory holds: one decision for each
/// candidate, in order.
pub fn plan_renames(
    rules: &SuffixRules,
    candidates: &Vec<Observed>,
    listing: &Vec<String>,
) -> (plan: Vec<RenameDecision>)
    ensures
        plan_models(plan@) == rename_plan(observations(candidates@), texts(listing@)),
{
    let ghost all = observations(candidates@);
    let ghost held = texts(listing@);
    let mut plan: Vec<RenameDecision> = Vec::new();
    let mut planned: Vec<String> = Vec::new();
    let mut i: usize = 0;
    while i < candidates.len()
        invariant
            i <= candidates.len(),
            all == observations(candidates@),
            held == texts(listing@),
            plan_models(plan@) == rename_plan(all.take(i as int), held),
            texts(planned@) == handed_out(plan_models(plan@)),
        decreases candidates.len() - i,
    {
        let ghost seen = all.take(i + 1);
        assert(seen.drop_last() =~= all.take(i as int));
        let clean = rules.strip_noise_suffix(candidates[i].file.name.as_str());
        let decision = resolve_rename(&candidates[i], clean, &planned, listing);
        let ghost before = plan_models(plan@);
        match target_of(&decision) {
            Some(target) => {
                planned.push(target);
            },
            None => {},
        }
        plan.push(decision);
        assert(plan_models(plan@).drop_last() =~= before);
        i = i + 1;
    }
    assert(all.take(candidates.len() as int) =~= all);
    plan
}

/// The rename candidates of one group.
pub fn candidates_of_group(
    rules: &SuffixRules,
    group: &ChecksumGroup,
) -> (candidates: Vec<Observed>)
    ensures
        observations(candidates@) == group_candidates(group@),
{
    let mut candidates: Vec<Observed> = Vec::new();
    if !group.has_home_duplicates() {
        return candidates;
    }
    let members = group.home_members();
    let ghost home = file_models(members@);
    let mut i: usize = 0;
    while i < members.len()
        invariant
            i <= members.len(),
            home == file_models(members@),
            observations(candidates@) == noisy_among(home.take(i as int), group.digest),
        decreases members.len() - i,
    {
        let ghost seen = home.take(i + 1);
        assert(seen.drop_last() =~= home.take(i as int));
        if rules.has_noise_suffix(members[i].name.as_str()) {
            let candidate = Observed { file: members[i].duplicate(), digest: group.digest };
            candidates.push(candidate);
        }
        i = i + 1;
    }
    assert(home.take(members.len() as int) =~= home);
    candidates
}

/// The candidates of `candidates` that lie in directory `dir`.
pub fn candidates_in_dir(candidates: &Vec<Observed>, dir: &String) -> (chosen: Vec<Observed>)
    ensures
        observations(chosen@) == candidates_in(observations(candidates@), dir@),
{
    let ghost all = observations(candidates@);
    let mut chosen: Vec<Observed> = Vec::new();
    let mut i: usize = 0;
    while i < candidates.len()
        invariant
            i <= candidates.len(),
            all == observations(candidates@),
            observations(chosen@) == candidates_in(all.take(i as int), dir@),
        decreases candidates.len() - i,
    {
        let ghost seen = all.take(i + 1);
        assert(seen.drop_last() =~= all.take(i as int));
        if same_text(&candidates[i].file.dir, dir) {
            let candidate = Observed {
                file: candidates[i].file.duplicate(),
                digest: candidates[i].digest,
            };
            chosen.push(candidate);
        }
        i = i + 1;
    }
    assert(all.take(candidates.len() as int) =~= all);
    chosen
}

impl MediaDeduplicator {
    /// Every file that qualifies for a rename: the members of same-directory
    /// duplicate sets whose names carry a noise suffix.
    pub fn rename_candidates(&self, rules: &SuffixRules) -> (candidates: Vec<Observed>)
        ensures
            observations(candidates@) == rename_candidates(self@.groups),
    {
        let groups = self.groups();
        let ghost all = group_models(groups@);
        let mut candidates: Vec<Observed> = Vec::new();
        let mut i: usize = 0;
        while i < groups.len()
            invariant
                i <= groups.len(),
                all == group_models(groups@),
                observations(candidates@) == rename_candidates(all.take(i as int)),
            decreases groups.len() - i,
        {
            let ghost seen = all.take(i + 1);
            assert(seen.drop_last() =~= all.take(i as int));
            let mut found = candidates_of_group(rules, &groups[i]);
            candidates.append(&mut found);
            i = i + 1;
        }
        assert(all.take(groups.len() as int) =~= all);
        candidates
    }

    /// Plans the renames in directory `dir`, which holds the entries named in
    /// `listing`: every qualifying file of that directory is given its clean
    /// name, or its clean name with the fingerprint prefix where the clean
    /// name is taken, or is reported where that cannot be given either.
    pub fn analyze_rename_candidates(
        &self,
        rules: &SuffixRules,
        dir: &String,
        listing: &Vec<String>,
    ) -> (plan: Vec<RenameDecision>)
        ensures
            plan_models(plan@) == rename_plan(
                candidates_in(rename_candidates(self@.groups), dir@),
                texts(listing@),
            ),
    {
        let all = self.rename_candidates(rules);
        let chosen = candidates_in_dir(&all, dir);
        plan_renames(rules, &chosen, listing)
    }
}

} // verus!
