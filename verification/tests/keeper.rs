use media_dedup::cross::{all_but_first, cross_directory_set};
use media_dedup::engine::{members_in, ChecksumGroup, MediaDeduplicator};
use media_dedup::keeper::{
    choose_keeper, duplicate_set, noise_flags_of, others_than, select_keeper,
};
use media_dedup::paths::MediaFile;
use media_dedup::suffix::SuffixRules;

fn rules() -> SuffixRules {
    SuffixRules::new().expect("the suffix patterns compile")
}

fn file(dir: &str, name: &str) -> MediaFile {
    MediaFile::new(&format!("/r/{}/{}", dir, name), dir, name)
}

fn files(dir: &str, names: &[&str]) -> Vec<MediaFile> {
    names.iter().map(|n| file(dir, n)).collect()
}

fn names(files: &[MediaFile]) -> Vec<&str> {
    files.iter().map(|f| f.name.as_str()).collect()
}

#[test]
fn the_file_without_a_suffix_is_kept() {
    let set = files("d", &["a-01.mp4", "b.mp4", "c-02.mp4"]);
    assert_eq!(select_keeper(&rules(), &set), 1);
}

#[test]
fn the_file_without_a_suffix_is_kept_wherever_it_stands() {
    let r = rules();
    assert_eq!(select_keeper(&r, &files("d", &["b.mp4", "a-01.mp4", "c-02.mp4"])), 0);
    assert_eq!(select_keeper(&r, &files("d", &["a-01.mp4", "c-02.mp4", "b.mp4"])), 2);
    assert_eq!(
        select_keeper(&r, &files("d", &["a-very-long-name-01.mp4", "c-02.mp4", "b.mp4"])),
        2
    );
}

#[test]
fn the_first_of_two_clean_names_is_kept() {
    let set = files("d", &["a-01.mp4", "b.mp4", "c.mp4"]);
    assert_eq!(select_keeper(&rules(), &set), 1);
}

#[test]
fn the_longer_name_is_kept_where_all_have_a_suffix() {
    let set = files("d", &["x-01.mp4", "xxx-1.mp4"]);
    assert_eq!(select_keeper(&rules(), &set), 1);
    let set = files("d", &["xx-01.mp4", "x-1.mp4"]);
    assert_eq!(select_keeper(&rules(), &set), 0);
    let set = files("d", &["x-1.mp4", "xx-1.mp4", "x-2.mp4"]);
    assert_eq!(select_keeper(&rules(), &set), 1);
}

#[test]
fn names_of_one_length_keep_the_first() {
    // eight bytes each
    let set = files("d", &["x-01.mp4", "xx-1.mp4"]);
    assert_eq!(select_keeper(&rules(), &set), 0);
    let set = files("d", &["xx-1.mp4", "x-01.mp4"]);
    assert_eq!(select_keeper(&rules(), &set), 0);
}

#[test]
fn the_earlier_of_two_longest_names_is_kept() {
    let set = files("d", &["a-1.mp4", "bb-1.mp4", "cc-2.mp4", "d-3.mp4"]);
    assert_eq!(select_keeper(&rules(), &set), 1);
    let set = files("d", &["a-1.mp4", "b-2.mp4"]);
    assert_eq!(select_keeper(&rules(), &set), 0);
}

#[test]
fn length_is_counted_in_bytes() {
    // three characters of two bytes each against five of one byte
    let set = files("d", &["\u{00e9}\u{00e9}\u{00e9}-1", "abcd-1"]);
    assert_eq!(select_keeper(&rules(), &set), 0);
}

#[test]
fn the_keeper_follows_from_names_and_flags() {
    let set = files("d", &["aaaa", "bb", "cccccc", "dd"]);
    assert_eq!(choose_keeper(&set, &vec![true, false, true, false]), 1);
    assert_eq!(choose_keeper(&set, &vec![false, false, false, false]), 0);
    assert_eq!(choose_keeper(&set, &vec![true, true, true, false]), 3);
    assert_eq!(choose_keeper(&set, &vec![true, true, true, true]), 2);
    let set = files("d", &["aa", "bb", "c"]);
    assert_eq!(choose_keeper(&set, &vec![true, true, true]), 0);
    let set = files("d", &["", ""]);
    assert_eq!(choose_keeper(&set, &vec![true, true]), 0);
}

#[test]
fn every_name_is_put_to_the_suffix_rules() {
    let set = files("d", &["a-01.mp4", "b.mp4", "c_2.mp4", "d12.mp4", "e1.mp4"]);
    assert_eq!(noise_flags_of(&rules(), &set), [true, false, true, true, false]);
    assert!(noise_flags_of(&rules(), &Vec::new()).is_empty());
}

#[test]
fn nothing_to_choose_from_gives_zero() {
    assert_eq!(select_keeper(&rules(), &Vec::new()), 0);
}

#[test]
fn members_are_picked_by_directory() {
    let mut all = files("d1", &["a.mp4", "b.mp4"]);
    all.push(file("d2", "c.mp4"));
    all.push(file("d1", "d.mp4"));
    assert_eq!(names(&members_in(&all, &"d1".to_string())), ["a.mp4", "b.mp4", "d.mp4"]);
    assert_eq!(names(&members_in(&all, &"d2".to_string())), ["c.mp4"]);
    assert!(members_in(&all, &"d3".to_string()).is_empty());
    assert_eq!(names(&others_than(&all, &"/r/d1/b.mp4".to_string())), ["a.mp4", "c.mp4", "d.mp4"]);
    assert_eq!(names(&all_but_first(&all)), ["b.mp4", "c.mp4", "d.mp4"]);
    assert!(all_but_first(&all[..1].iter().map(|f| f.duplicate()).collect()).is_empty());
    assert!(all_but_first(&Vec::new()).is_empty());
}

#[test]
fn the_keeper_is_not_removed() {
    let group = ChecksumGroup { digest: 5, files: files("d", &["a-01.mp4", "b.mp4", "c-02.mp4"]) };
    let set = duplicate_set(&rules(), &group).expect("three members in one directory");
    assert_eq!(set.dir, "d");
    assert_eq!(set.digest, 5);
    assert_eq!(set.keeper.name, "b.mp4");
    assert_eq!(names(&set.removals), ["a-01.mp4", "c-02.mp4"]);
    assert!(set.removals.iter().all(|f| f.path != set.keeper.path));
}

#[test]
fn only_the_members_in_the_representatives_directory_form_the_set() {
    let mut members = files("d1", &["a-1.mp4"]);
    members.push(file("d2", "b.mp4"));
    members.push(file("d1", "cc-1.mp4"));
    members.push(file("d2", "d.mp4"));
    let group = ChecksumGroup { digest: 5, files: members };
    let set = duplicate_set(&rules(), &group).expect("two members in d1");
    assert_eq!(set.dir, "d1");
    assert_eq!(set.keeper.name, "cc-1.mp4");
    assert_eq!(names(&set.removals), ["a-1.mp4"]);
    let cross = cross_directory_set(&group).expect("members in d2");
    assert_eq!(cross.digest, 5);
    assert_eq!(cross.first.name, "a-1.mp4");
    assert_eq!(names(&cross.others), ["b.mp4", "cc-1.mp4", "d.mp4"]);
}

#[test]
fn a_group_without_duplicates_has_no_sets() {
    let r = rules();
    let single = ChecksumGroup { digest: 1, files: files("d", &["a.mp4"]) };
    assert!(duplicate_set(&r, &single).is_none());
    assert!(cross_directory_set(&single).is_none());
    let empty = ChecksumGroup { digest: 1, files: Vec::new() };
    assert!(duplicate_set(&r, &empty).is_none());
    assert!(cross_directory_set(&empty).is_none());
    let mut spread = files("d1", &["a.mp4"]);
    spread.push(file("d2", "b.mp4"));
    let spread = ChecksumGroup { digest: 1, files: spread };
    assert!(duplicate_set(&r, &spread).is_none());
    assert!(cross_directory_set(&spread).is_some());
    let home = ChecksumGroup { digest: 1, files: files("d1", &["a.mp4", "b.mp4"]) };
    assert!(duplicate_set(&r, &home).is_some());
    assert!(cross_directory_set(&home).is_none());
}

#[test]
fn the_engine_lists_its_sets_in_group_order() {
    let r = rules();
    let mut engine = MediaDeduplicator::new();
    engine.observe(file("d1", "one-01.mp4"), 1);
    engine.observe(file("d1", "two.mp4"), 2);
    engine.observe(file("d2", "one.mp4"), 1);
    engine.observe(file("d1", "two-01.mp4"), 2);
    engine.observe(file("d1", "one-02.mp4"), 1);
    engine.observe(file("d3", "three.mp4"), 3);
    let within = engine.analyze_within_directory_duplicates(&r);
    assert_eq!(within.len(), 2);
    assert_eq!((within[0].digest, within[0].dir.as_str()), (1, "d1"));
    assert_eq!(within[0].keeper.name, "one-01.mp4");
    assert_eq!(names(&within[0].removals), ["one-02.mp4"]);
    assert_eq!((within[1].digest, within[1].dir.as_str()), (2, "d1"));
    assert_eq!(within[1].keeper.name, "two.mp4");
    assert_eq!(names(&within[1].removals), ["two-01.mp4"]);
    for set in &within {
        assert!(set.removals.iter().all(|f| f.path != set.keeper.path));
    }
    let cross = engine.analyze_cross_directory_duplicates();
    assert_eq!(cross.len(), 1);
    assert_eq!(cross[0].digest, 1);
    assert_eq!(cross[0].first.name, "one-01.mp4");
    assert_eq!(names(&cross[0].others), ["one.mp4", "one-02.mp4"]);
}
