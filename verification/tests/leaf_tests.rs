use leafsweep::classify::{count_image_files, image_dominant, is_image_file};
use leafsweep::clean::{clean_selection, clean_should_remove_dir, should_delete_file, FileStat};
use leafsweep::compress::compress_leaf;
use leafsweep::text::{join_path, resolve_archive_name, temp_path_for, u64_to_dec, zip_candidate_name};
use leafsweep::tree::SweepMode;
use leafsweep::{parse_mode, root_check, RootError};

fn stat(name: &str, size: Option<u64>) -> FileStat {
    FileStat { name: String::from(name), size }
}

#[test]
fn image_extensions_recognized() {
    assert!(is_image_file("a.jpg"));
    assert!(is_image_file("b.jpeg"));
    assert!(is_image_file("c.png"));
    assert!(is_image_file("d.gif"));
    assert!(is_image_file("e.bmp"));
    assert!(is_image_file("f.webp"));
    assert!(is_image_file("g.tiff"));
    assert!(is_image_file("h.avif"));
    assert!(is_image_file("i.heic"));
    assert!(is_image_file("j.svg"));
}

#[test]
fn image_extensions_case_insensitive() {
    assert!(is_image_file("a.JPG"));
    assert!(is_image_file("b.JpEg"));
    assert!(is_image_file("c.PNG"));
}

#[test]
fn image_extension_is_last_dot_segment() {
    assert!(is_image_file("photo.tar.jpg"));
    assert!(!is_image_file("photo.jpg.txt"));
}

#[test]
fn non_images_rejected() {
    assert!(!is_image_file("notes.txt"));
    assert!(!is_image_file("noext"));
    assert!(!is_image_file(""));
    assert!(!is_image_file("a."));
    assert!(!is_image_file("jpg"));
}

#[test]
fn leading_dot_is_no_extension() {
    assert!(!is_image_file(".jpg"));
    assert!(!is_image_file(".hidden"));
}

#[test]
fn image_counting_and_dominance() {
    let names = vec![
        String::from("a.jpg"),
        String::from("b.png"),
        String::from("c.txt"),
    ];
    assert_eq!(count_image_files(&names), 2);
    assert!(image_dominant(&names));
    let tied = vec![String::from("a.jpg"), String::from("c.txt")];
    assert!(!image_dominant(&tied));
    let empty: Vec<String> = Vec::new();
    assert!(!image_dominant(&empty));
}

#[test]
fn decimal_rendering() {
    assert_eq!(u64_to_dec(0), "0");
    assert_eq!(u64_to_dec(7), "7");
    assert_eq!(u64_to_dec(10), "10");
    assert_eq!(u64_to_dec(123), "123");
    assert_eq!(u64_to_dec(18446744073709551615), "18446744073709551615");
}

#[test]
fn path_joining() {
    assert_eq!(join_path("a", "b"), "a/b");
    assert_eq!(join_path("/root/photos", "x.jpg"), "/root/photos/x.jpg");
}

#[test]
fn temp_path_is_suffixed_and_distinct() {
    let t = temp_path_for("out/photos.zip");
    assert_eq!(t, "out/photos.zip.tmp");
    assert_ne!(t, "out/photos.zip");
}

#[test]
fn collision_names_increment() {
    assert_eq!(zip_candidate_name("photos", 0), "photos.zip");
    assert_eq!(zip_candidate_name("photos", 1), "photos(1).zip");
    assert_eq!(zip_candidate_name("photos", 2), "photos(2).zip");
}

#[test]
fn smallest_free_archive_name_is_chosen() {
    let none_taken: Vec<String> = Vec::new();
    let first = resolve_archive_name("photos", &none_taken).expect("a free name");
    assert_eq!(first.0, 0);
    assert_eq!(first.1, "photos.zip");

    let taken = vec![
        String::from("photos.zip"),
        String::from("photos(1).zip"),
        String::from("other.txt"),
    ];
    let chosen = resolve_archive_name("photos", &taken).expect("a free name");
    assert_eq!(chosen.0, 2);
    assert_eq!(chosen.1, "photos(2).zip");

    let gap = vec![String::from("photos(1).zip")];
    let zero = resolve_archive_name("photos", &gap).expect("a free name");
    assert_eq!(zero.0, 0);
    assert_eq!(zero.1, "photos.zip");
}

#[test]
fn compress_accepts_image_dominant_leaf() {
    let files = vec![
        stat("a.jpg", Some(3)),
        stat("b.png", Some(4)),
        stat("c.txt", Some(5)),
    ];
    let action = compress_leaf(
        &String::from("/tree/photos"),
        &String::from("/tree"),
        &String::from("photos"),
        &files,
        &Vec::new(),
    );
    let action = action.expect("an image-dominant leaf must be archived");
    assert_eq!(action.dir_path, "/tree/photos");
    assert_eq!(action.parent, "/tree");
    assert_eq!(action.stem, "photos");
    assert_eq!(action.entry_names, vec!["a.jpg", "b.png", "c.txt"]);
}

#[test]
fn compress_declines_minority_images() {
    let files = vec![
        stat("a.jpg", Some(3)),
        stat("b.txt", Some(4)),
        stat("c.txt", Some(5)),
    ];
    let action = compress_leaf(
        &String::from("/tree/photos"),
        &String::from("/tree"),
        &String::from("photos"),
        &files,
        &Vec::new(),
    );
    assert!(action.is_none());
}

#[test]
fn compress_declines_a_directory_with_subdirectories() {
    let files = vec![stat("a.jpg", Some(3)), stat("b.png", Some(4))];
    let subdirs = vec![String::from("inner")];
    let action = compress_leaf(
        &String::from("/tree/photos"),
        &String::from("/tree"),
        &String::from("photos"),
        &files,
        &subdirs,
    );
    assert!(action.is_none());
}

#[test]
fn compress_declines_empty_leaf() {
    let files: Vec<FileStat> = Vec::new();
    let action = compress_leaf(
        &String::from("/tree/photos"),
        &String::from("/tree"),
        &String::from("photos"),
        &files,
        &Vec::new(),
    );
    assert!(action.is_none());
}

#[test]
fn clean_deletes_empty_and_hidden_keeps_rest() {
    let files = vec![
        stat("empty.txt", Some(0)),
        stat(".hidden", Some(5)),
        stat("data.txt", Some(5)),
    ];
    let deletions = clean_selection(&files);
    assert_eq!(deletions, vec!["empty.txt", ".hidden"]);
    assert!(!clean_should_remove_dir(deletions.len(), files.len()));
}

#[test]
fn clean_removes_directory_once_exhausted() {
    let files = vec![stat("empty1.txt", Some(0)), stat(".h", Some(0))];
    let deletions = clean_selection(&files);
    assert_eq!(deletions, vec!["empty1.txt", ".h"]);
    assert!(clean_should_remove_dir(deletions.len(), files.len()));
}

#[test]
fn clean_removes_directory_with_no_files() {
    let files: Vec<FileStat> = Vec::new();
    let deletions = clean_selection(&files);
    assert_eq!(deletions.len(), 0);
    assert!(clean_should_remove_dir(0, 0));
}

#[test]
fn clean_skips_files_without_metadata() {
    let f = stat(".hidden", None);
    assert!(!should_delete_file(&f));
    let files = vec![stat("empty.txt", None), stat("ok.txt", Some(3))];
    assert_eq!(clean_selection(&files).len(), 0);
}

#[test]
fn clean_twice_is_a_no_op() {
    let files = vec![
        stat("empty.txt", Some(0)),
        stat(".hidden", Some(5)),
        stat("data.txt", Some(5)),
        stat("more.txt", Some(9)),
    ];
    let first = clean_selection(&files);
    assert_eq!(first.len(), 2);
    let kept: Vec<FileStat> = files
        .into_iter()
        .filter(|f| !first.contains(&f.name))
        .collect();
    let second = clean_selection(&kept);
    assert_eq!(second.len(), 0);
    assert!(!clean_should_remove_dir(second.len(), kept.len()));
}

#[test]
fn mode_parsing() {
    assert_eq!(
        parse_mode(&String::from("compress")),
        Some(SweepMode::Compress)
    );
    assert_eq!(parse_mode(&String::from("clean")), Some(SweepMode::Clean));
    assert_eq!(parse_mode(&String::from("archive")), None);
    assert_eq!(parse_mode(&String::from("")), None);
}

#[test]
fn root_check_outcomes() {
    assert_eq!(root_check(true, true), Ok(()));
    assert_eq!(root_check(false, false), Err(RootError::DoesNotExist));
    assert_eq!(root_check(false, true), Err(RootError::DoesNotExist));
    assert_eq!(root_check(true, false), Err(RootError::NotADirectory));
}
