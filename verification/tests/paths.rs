use media_dedup::paths::{
    display_name, get_dir_path, get_file_name, get_relative_path, is_media_path, is_video_format,
    MediaFile,
};

#[test]
fn directory_is_relative_to_the_root() {
    assert_eq!(get_dir_path("/media", "/media/shows/a.mp4"), "shows");
    assert_eq!(get_dir_path("/media", "/media/shows/s1/a.mp4"), "shows/s1");
    assert_eq!(get_dir_path("/media", "/media/a.mp4"), "");
}

#[test]
fn a_path_outside_the_root_keeps_its_whole_directory() {
    assert_eq!(get_dir_path("/media", "/other/x.mp4"), "/other");
    assert_eq!(get_dir_path("/media", "x.mp4"), "");
}

#[test]
fn relative_path_is_empty_outside_the_root() {
    assert_eq!(get_relative_path("/media", "/media/shows"), "shows");
    assert_eq!(get_relative_path("/media", "/media"), "");
    assert_eq!(get_relative_path("/media", "/other"), "");
}

#[test]
fn file_name_is_the_last_component() {
    assert_eq!(get_file_name("/media/shows/a.mp4"), "a.mp4");
    assert_eq!(get_file_name("a.mp4"), "a.mp4");
    assert_eq!(get_file_name("/media/shows/.."), "");
    assert_eq!(get_file_name("/"), "");
}

#[test]
fn the_root_is_shown_as_root() {
    assert_eq!(display_name(""), "root");
    assert_eq!(display_name("shows"), "shows");
}

#[test]
fn the_eleven_formats_are_media() {
    for ext in ["mp4", "flv", "mkv", "avi", "mov", "wmv", "webm", "m4v", "mpg", "mpeg", "ts"] {
        assert!(is_video_format(ext), "{}", ext);
    }
    assert!(!is_video_format("txt"));
    assert!(!is_video_format("MP4"));
    assert!(!is_video_format(""));
    assert!(!is_video_format("mp"));
    assert!(!is_video_format(".mp4"));
}

#[test]
fn the_extension_is_compared_in_lower_case() {
    assert!(is_media_path("/media/a.mp4"));
    assert!(is_media_path("/media/a.MP4"));
    assert!(is_media_path("/media/a.Mkv"));
    assert!(is_media_path("a.b.webm"));
    assert!(!is_media_path("/media/a.txt"));
    assert!(!is_media_path("/media/mp4"));
    assert!(!is_media_path("/media/.mp4"));
    assert!(!is_media_path(""));
}

#[test]
fn a_file_is_located_below_the_root() {
    let f = MediaFile::locate("/media", "/media/shows/a-01.mp4");
    assert_eq!(f.path, "/media/shows/a-01.mp4");
    assert_eq!(f.dir, "shows");
    assert_eq!(f.name, "a-01.mp4");
    let g = f.duplicate();
    assert_eq!(g.path, f.path);
    assert_eq!(g.dir, f.dir);
    assert_eq!(g.name, f.name);
    let h = MediaFile::new("p", "d", "n");
    assert_eq!((h.path.as_str(), h.dir.as_str(), h.name.as_str()), ("p", "d", "n"));
}
