use media_dedup::engine::{ChecksumGroup, MediaDeduplicator, Observed};
use media_dedup::paths::MediaFile;
use media_dedup::rename::{
    candidates_in_dir, candidates_of_group, check_conflict, contains_name, hashed_name_is_free,
    plan_renames, resolve_rename, target_of, Conflict, RenameDecision, RenamePlanEntry,
};
use media_dedup::suffix::SuffixRules;

fn rules() -> SuffixRules {
    SuffixRules::new().expect("the suffix patterns compile")
}

fn file(dir: &str, name: &str) -> MediaFile {
    MediaFile::new(&format!("/r/{}/{}", dir, name), dir, name)
}

fn candidate(dir: &str, name: &str, digest: u64) -> Observed {
    Observed { file: file(dir, name), digest }
}

fn strings(names: &[&str]) -> Vec<String> {
    names.iter().map(|n| n.to_string()).collect()
}

fn target(entry: &RenamePlanEntry) -> &str {
    match &entry.hashed_name {
        Some(name) => name,
        None => &entry.clean_name,
    }
}

fn planned(decision: &RenameDecision) -> &RenamePlanEntry {
    decision.as_ref().ok().expect("a rename is planned")
}

fn all_planned(plan: &[RenameDecision]) -> Vec<&RenamePlanEntry> {
    plan.iter().map(planned).collect()
}

const DIGEST: u64 = 0xa1b2c3d4_e5f60718;

#[test]
fn two_files_that_strip_to_one_name_get_two_names() {
    let cands = vec![candidate("d", "show-01.mp4", DIGEST), candidate("d", "show-02.mp4", DIGEST)];
    let listing = strings(&["show-01.mp4", "show-02.mp4"]);
    let plan = plan_renames(&rules(), &cands, &listing);
    let plan = all_planned(&plan);
    assert_eq!(plan.len(), 2);
    assert_eq!(plan[0].file.name, "show-01.mp4");
    assert_eq!(plan[0].clean_name, "show.mp4");
    assert_eq!(plan[0].hashed_name, None);
    assert_eq!(plan[0].conflict, Conflict::Free);
    assert_eq!(plan[1].file.name, "show-02.mp4");
    assert_eq!(plan[1].clean_name, "show.mp4");
    assert_eq!(plan[1].hashed_name.as_deref(), Some("show_a1b2c3d4.mp4"));
    assert_eq!(plan[1].conflict, Conflict::PlannedName);
    assert_eq!(plan[1].digest, DIGEST);
    let with_clean_name = plan.iter().filter(|e| target(e) == "show.mp4").count();
    assert_eq!(with_clean_name, 1);
}

#[test]
fn the_prefix_is_that_of_the_files_own_fingerprint() {
    let cands = vec![candidate("d", "show-01.mp4", 0x1111111122222222), candidate(
        "d",
        "show_2.mp4",
        0x33333333_44444444,
    )];
    let plan = plan_renames(&rules(), &cands, &Vec::new());
    assert_eq!(target(planned(&plan[0])), "show.mp4");
    assert_eq!(target(planned(&plan[1])), "show_33333333.mp4");
    assert_eq!(target_of(&plan[1]).as_deref(), Some("show_33333333.mp4"));
}

#[test]
fn a_name_that_exists_in_the_directory_is_not_planned() {
    let cands = vec![candidate("d", "show-01.mp4", DIGEST)];
    let listing = strings(&["show-01.mp4", "show.mp4"]);
    let plan = plan_renames(&rules(), &cands, &listing);
    let plan = all_planned(&plan);
    assert_eq!(plan[0].conflict, Conflict::ExistingEntry);
    assert_eq!(target(plan[0]), "show_a1b2c3d4.mp4");
    assert!(!listing.contains(&target(plan[0]).to_string()));
}

#[test]
fn no_target_is_a_name_in_use() {
    let cands = vec![
        candidate("d", "a-01.mp4", 1 << 32),
        candidate("d", "a-02.mp4", 2 << 32),
        candidate("d", "b_1.mp4", 3 << 32),
        candidate("d", "c12.mp4", 4 << 32),
        candidate("d", "a_3.mp4", 5 << 32),
    ];
    let listing =
        strings(&["a-01.mp4", "a-02.mp4", "b_1.mp4", "c12.mp4", "a_3.mp4", "b.mp4", "notes.txt"]);
    let plan = plan_renames(&rules(), &cands, &listing);
    let plan = all_planned(&plan);
    let targets: Vec<&str> = plan.iter().map(|e| target(e)).collect();
    assert_eq!(
        targets,
        ["a.mp4", "a_00000002.mp4", "b_00000003.mp4", "c.mp4", "a_00000005.mp4"]
    );
    for (i, entry) in plan.iter().enumerate() {
        let t = target(entry).to_string();
        assert!(!listing.contains(&t) || t == entry.file.name);
        for later in &plan[i + 1..] {
            assert_ne!(t, target(later));
        }
        assert_ne!(t, entry.file.name);
    }
}

#[test]
fn a_second_collision_is_reported() {
    let cands = vec![
        candidate("d", "show-01.mp4", DIGEST),
        candidate("d", "show-02.mp4", DIGEST),
        candidate("d", "show-03.mp4", DIGEST),
    ];
    let listing = strings(&["show-01.mp4", "show-02.mp4", "show-03.mp4"]);
    let plan = plan_renames(&rules(), &cands, &listing);
    assert_eq!(plan.len(), 3);
    assert_eq!(target(planned(&plan[0])), "show.mp4");
    assert_eq!(target(planned(&plan[1])), "show_a1b2c3d4.mp4");
    let e = plan[2].as_ref().err().expect("the third name is taken twice");
    assert_eq!(e.path, "/r/d/show-03.mp4");
    assert_eq!(e.target, "show_a1b2c3d4.mp4");
    assert_eq!(target_of(&plan[2]), None);
}

#[test]
fn a_file_that_cannot_be_told_apart_does_not_stop_the_others() {
    // show.mp4 stays; its two copies both strip to its name
    let cands = vec![
        candidate("d", "show-01.mp4", DIGEST),
        candidate("d", "show-02.mp4", DIGEST),
        candidate("d", "other_1.mp4", 5 << 32),
    ];
    let listing = strings(&["show.mp4", "show-01.mp4", "show-02.mp4", "other_1.mp4"]);
    let plan = plan_renames(&rules(), &cands, &listing);
    assert_eq!(plan.len(), 3);
    assert_eq!(target(planned(&plan[0])), "show_a1b2c3d4.mp4");
    assert_eq!(planned(&plan[0]).conflict, Conflict::ExistingEntry);
    let e = plan[1].as_ref().err().expect("the hashed name is handed out");
    assert_eq!(e.path, "/r/d/show-02.mp4");
    assert_eq!(e.target, "show_a1b2c3d4.mp4");
    assert_eq!(target(planned(&plan[2])), "other.mp4");
}

#[test]
fn a_file_is_not_planned_onto_the_name_it_has() {
    // the name with the fingerprint in it is the name the file has already
    let cands = vec![candidate("d", "show_12345678.mp4", 0x12345678_00000000)];
    let listing = strings(&["show.mp4", "show_12345678.mp4"]);
    let plan = plan_renames(&rules(), &cands, &listing);
    let e = plan[0].as_ref().err().expect("only its own name is left");
    assert_eq!(e.path, "/r/d/show_12345678.mp4");
    assert_eq!(e.target, "show_12345678.mp4");
    // and so where the directory listing does not name the file
    let plan = plan_renames(&rules(), &cands, &strings(&["show.mp4"]));
    assert!(plan[0].is_err());
    let own = "show_12345678.mp4".to_string();
    assert!(!hashed_name_is_free(&own, &own, &Vec::new(), &Vec::new()));
    assert!(hashed_name_is_free(&"x.mp4".to_string(), &own, &Vec::new(), &Vec::new()));
    assert!(!hashed_name_is_free(&"x.mp4".to_string(), &own, &strings(&["x.mp4"]), &Vec::new()));
    assert!(!hashed_name_is_free(&"x.mp4".to_string(), &own, &Vec::new(), &strings(&["x.mp4"])));
}

#[test]
fn the_first_file_to_strip_to_a_name_receives_it() {
    let cands = vec![
        candidate("d", "b-1.mp4", 1 << 32),
        candidate("d", "a-01.mp4", 2 << 32),
        candidate("d", "a-02.mp4", 3 << 32),
        candidate("d", "a_7.mp4", 4 << 32),
    ];
    let listing = strings(&["b-1.mp4", "a-01.mp4", "a-02.mp4", "a_7.mp4"]);
    let plan = plan_renames(&rules(), &cands, &listing);
    let targets: Vec<&str> = plan.iter().map(|d| target(planned(d))).collect();
    assert_eq!(targets, ["b.mp4", "a.mp4", "a_00000003.mp4", "a_00000004.mp4"]);
    assert_eq!(targets.iter().filter(|t| **t == "a.mp4").count(), 1);
}

#[test]
fn an_earlier_hashed_name_can_take_a_clean_name() {
    let cands = vec![
        candidate("d", "a-01.mp4", 0x1234abcd_00000000),
        candidate("d", "a-02.mp4", 0x1234abcd_00000000),
        candidate("d", "a_1234abcd-1.mp4", 7 << 32),
    ];
    let plan = plan_renames(&rules(), &cands, &Vec::new());
    let targets: Vec<&str> = plan.iter().map(|d| target(planned(d))).collect();
    assert_eq!(targets, ["a.mp4", "a_1234abcd.mp4", "a_1234abcd_00000007.mp4"]);
    assert_eq!(planned(&plan[2]).clean_name, "a_1234abcd.mp4");
    assert_eq!(planned(&plan[2]).conflict, Conflict::PlannedName);
}

#[test]
fn a_hashed_name_that_exists_is_reported() {
    let cands = vec![candidate("d", "show-01.mp4", DIGEST)];
    let listing = strings(&["show-01.mp4", "show.mp4", "show_a1b2c3d4.mp4"]);
    let plan = plan_renames(&rules(), &cands, &listing);
    let e = plan[0].as_ref().err().expect("both names exist");
    assert_eq!(e.path, "/r/d/show-01.mp4");
    assert_eq!(e.target, "show_a1b2c3d4.mp4");
}

#[test]
fn an_empty_plan_for_no_candidates() {
    let plan = plan_renames(&rules(), &Vec::new(), &strings(&["a.mp4"]));
    assert!(plan.is_empty());
}

#[test]
fn a_name_is_looked_up_exactly() {
    let names = strings(&["a.mp4", "b.mp4"]);
    assert!(contains_name(&names, &"a.mp4".to_string()));
    assert!(contains_name(&names, &"b.mp4".to_string()));
    assert!(!contains_name(&names, &"A.mp4".to_string()));
    assert!(!contains_name(&names, &"".to_string()));
    assert!(!contains_name(&Vec::new(), &"a.mp4".to_string()));
}

#[test]
fn a_planned_name_outranks_an_existing_one() {
    let planned = strings(&["x.mp4"]);
    let listing = strings(&["x.mp4", "y.mp4", "own.mp4"]);
    let own = "own.mp4".to_string();
    assert_eq!(check_conflict(&"x.mp4".to_string(), &own, &planned, &listing), Conflict::PlannedName);
    assert_eq!(
        check_conflict(&"y.mp4".to_string(), &own, &planned, &listing),
        Conflict::ExistingEntry
    );
    assert_eq!(check_conflict(&"z.mp4".to_string(), &own, &planned, &listing), Conflict::Free);
    // the file's own name does not stand in its way
    assert_eq!(check_conflict(&"own.mp4".to_string(), &own, &planned, &listing), Conflict::Free);
}

#[test]
fn one_candidate_is_decided_against_the_names_given() {
    let c = candidate("d", "show-01.mp4", DIGEST);
    let free = resolve_rename(&c, "show.mp4".to_string(), &Vec::new(), &Vec::new());
    let free = free.ok().expect("nothing is taken");
    assert_eq!(free.clean_name, "show.mp4");
    assert_eq!(free.hashed_name, None);
    assert_eq!(free.conflict, Conflict::Free);
    assert_eq!(free.file.path, "/r/d/show-01.mp4");

    let taken = resolve_rename(&c, "show.mp4".to_string(), &strings(&["show.mp4"]), &Vec::new());
    let taken = taken.ok().expect("the hashed name is free");
    assert_eq!(taken.clean_name, "show.mp4");
    assert_eq!(taken.hashed_name.as_deref(), Some("show_a1b2c3d4.mp4"));
    assert_eq!(taken.conflict, Conflict::PlannedName);

    let both = resolve_rename(
        &c,
        "show.mp4".to_string(),
        &strings(&["show.mp4"]),
        &strings(&["show_a1b2c3d4.mp4"]),
    );
    let both = both.err().expect("both names are taken");
    assert_eq!(both.target, "show_a1b2c3d4.mp4");
    assert_eq!(both.path, "/r/d/show-01.mp4");
}

#[test]
fn only_noisy_members_of_a_duplicate_set_qualify() {
    let r = rules();
    let mut members = vec![file("d1", "a-01.mp4"), file("d1", "a.mp4"), file("d2", "a-02.mp4")];
    members.push(file("d1", "a_3.mp4"));
    let group = ChecksumGroup { digest: 7, files: members };
    let found = candidates_of_group(&r, &group);
    let names: Vec<&str> = found.iter().map(|c| c.file.name.as_str()).collect();
    assert_eq!(names, ["a-01.mp4", "a_3.mp4"]);
    assert!(found.iter().all(|c| c.digest == 7));

    let single = ChecksumGroup { digest: 7, files: vec![file("d1", "a-01.mp4")] };
    assert!(candidates_of_group(&r, &single).is_empty());
    let spread =
        ChecksumGroup { digest: 7, files: vec![file("d1", "a-01.mp4"), file("d2", "a-02.mp4")] };
    assert!(candidates_of_group(&r, &spread).is_empty());
}

#[test]
fn candidates_are_planned_directory_by_directory() {
    let r = rules();
    let mut engine = MediaDeduplicator::new();
    engine.observe(file("d1", "show-01.mp4"), DIGEST);
    engine.observe(file("d2", "film_1.mkv"), 0x00000001_00000000);
    engine.observe(file("d1", "show-02.mp4"), DIGEST);
    engine.observe(file("d2", "film_2.mkv"), 0x00000001_00000000);
    engine.observe(file("d2", "show-03.mp4"), DIGEST);
    engine.observe(file("d3", "alone-01.mp4"), 3);

    let all = engine.rename_candidates(&r);
    let names: Vec<&str> = all.iter().map(|c| c.file.name.as_str()).collect();
    assert_eq!(names, ["show-01.mp4", "show-02.mp4", "film_1.mkv", "film_2.mkv"]);
    let in_d2 = candidates_in_dir(&all, &"d2".to_string());
    let names: Vec<&str> = in_d2.iter().map(|c| c.file.name.as_str()).collect();
    assert_eq!(names, ["film_1.mkv", "film_2.mkv"]);

    let listing = strings(&["show-01.mp4", "show-02.mp4"]);
    let plan = engine.analyze_rename_candidates(&r, &"d1".to_string(), &listing);
    let targets: Vec<&str> = plan.iter().map(|d| target(planned(d))).collect();
    assert_eq!(targets, ["show.mp4", "show_a1b2c3d4.mp4"]);

    let listing = strings(&["film_1.mkv", "film_2.mkv", "show-03.mp4"]);
    let plan = engine.analyze_rename_candidates(&r, &"d2".to_string(), &listing);
    let targets: Vec<&str> = plan.iter().map(|d| target(planned(d))).collect();
    assert_eq!(targets, ["film.mkv", "film_00000001.mkv"]);
    assert_eq!(planned(&plan[0]).conflict, Conflict::Free);
    assert_eq!(planned(&plan[1]).conflict, Conflict::PlannedName);

    // with film.mkv in the directory both files are sent to the hashed name
    let listing = strings(&["film_1.mkv", "film_2.mkv", "show-03.mp4", "film.mkv"]);
    let plan = engine.analyze_rename_candidates(&r, &"d2".to_string(), &listing);
    assert_eq!(target(planned(&plan[0])), "film_00000001.mkv");
    let e = plan[1].as_ref().err().expect("the hashed name is planned already");
    assert_eq!(e.path, "/r/d2/film_2.mkv");
    assert_eq!(e.target, "film_00000001.mkv");

    let plan =
        engine.analyze_rename_candidates(&r, &"d3".to_string(), &strings(&["alone-01.mp4"]));
    assert!(plan.is_empty());
}
