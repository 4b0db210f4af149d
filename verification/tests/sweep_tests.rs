use leafsweep::archive::{build_archive, ArchiveEntry};
use leafsweep::clean::FileStat;
use leafsweep::tree::{plan_sweep, DirTree, LeafAction, SweepMode, TreeReadError};

fn stat(name: &str, size: Option<u64>) -> FileStat {
    FileStat { name: String::from(name), size }
}

fn leaf(name: &str, files: Vec<FileStat>) -> DirTree {
    DirTree { name: String::from(name), readable: true, files, subdirs: Vec::new() }
}

fn dir(name: &str, files: Vec<FileStat>, subdirs: Vec<DirTree>) -> DirTree {
    DirTree { name: String::from(name), readable: true, files, subdirs }
}

fn plan(t: &DirTree, mode: SweepMode) -> leafsweep::tree::SweepPlan {
    plan_sweep(t, &String::from("/tree"), &String::from("/"), mode).expect("readable root")
}

#[test]
fn unreadable_root_is_an_error() {
    let t = DirTree {
        name: String::from("tree"),
        readable: false,
        files: Vec::new(),
        subdirs: Vec::new(),
    };
    let r = plan_sweep(&t, &String::from("/tree"), &String::from("/"), SweepMode::Compress);
    assert!(matches!(r, Err(TreeReadError::Unreadable)));
}

#[test]
fn leaf_root_visits_its_files_once() {
    let t = leaf("tree", vec![stat("a.jpg", Some(1)), stat("b.txt", Some(2))]);
    let p = plan(&t, SweepMode::Clean);
    assert_eq!(p.visited, vec!["/tree/a.jpg", "/tree/b.txt"]);
    assert_eq!(p.actions.len(), 1);
}

#[test]
fn visited_count_matches_total_files_at_leaves() {
    let t = dir(
        "tree",
        Vec::new(),
        vec![
            leaf("one", vec![stat("a.jpg", Some(1)), stat("b.png", Some(2))]),
            leaf("two", vec![stat("c.txt", Some(3))]),
            leaf("three", Vec::new()),
        ],
    );
    let p = plan(&t, SweepMode::Compress);
    assert_eq!(p.visited.len(), 3);
    assert_eq!(
        p.visited,
        vec!["/tree/one/a.jpg", "/tree/one/b.png", "/tree/two/c.txt"]
    );
    assert_eq!(p.actions.len(), 3);
}

#[test]
fn files_of_inner_directories_are_not_visited() {
    let t = dir(
        "tree",
        vec![stat("stray.txt", Some(4))],
        vec![leaf("one", vec![stat("a.jpg", Some(1))])],
    );
    let p = plan(&t, SweepMode::Compress);
    assert_eq!(p.visited, vec!["/tree/one/a.jpg"]);
    assert_eq!(p.actions.len(), 1);
}

#[test]
fn unreadable_subtree_contributes_nothing() {
    let broken = DirTree {
        name: String::from("broken"),
        readable: false,
        files: vec![stat("lost.txt", Some(1))],
        subdirs: Vec::new(),
    };
    let t = dir("tree", Vec::new(), vec![broken, leaf("ok", vec![stat("kept.txt", Some(1))])]);
    let p = plan(&t, SweepMode::Clean);
    assert_eq!(p.visited, vec!["/tree/ok/kept.txt"]);
    assert_eq!(p.actions.len(), 1);
}

#[test]
fn compress_plan_archives_only_image_dominant_leaves() {
    let t = dir(
        "tree",
        Vec::new(),
        vec![
            leaf("album", vec![stat("a.jpg", Some(1)), stat("b.png", Some(2)), stat("c.txt", Some(3))]),
            leaf("docs", vec![stat("a.txt", Some(1)), stat("b.txt", Some(2))]),
        ],
    );
    let p = plan(&t, SweepMode::Compress);
    assert_eq!(p.actions.len(), 2);
    match &p.actions[0] {
        LeafAction::Archive(a) => {
            assert_eq!(a.dir_path, "/tree/album");
            assert_eq!(a.parent, "/tree");
            assert_eq!(a.stem, "album");
            assert_eq!(a.entry_names, vec!["a.jpg", "b.png", "c.txt"]);
        },
        _ => panic!("the image-dominant leaf must be archived"),
    }
    match &p.actions[1] {
        LeafAction::Keep(path) => assert_eq!(path.as_str(), "/tree/docs"),
        _ => panic!("a leaf without image majority must be kept"),
    }
}

#[test]
fn clean_plan_selects_per_leaf() {
    let t = dir(
        "tree",
        Vec::new(),
        vec![
            leaf("a", vec![stat("empty.txt", Some(0)), stat("data.txt", Some(5))]),
            leaf("b", vec![stat(".h", Some(0))]),
        ],
    );
    let p = plan(&t, SweepMode::Clean);
    assert_eq!(p.actions.len(), 2);
    match &p.actions[0] {
        LeafAction::Clean(c) => {
            assert_eq!(c.dir_path, "/tree/a");
            assert_eq!(c.delete_names, vec!["empty.txt"]);
            assert_eq!(c.total, 2);
        },
        _ => panic!("clean mode must clean every leaf"),
    }
    match &p.actions[1] {
        LeafAction::Clean(c) => {
            assert_eq!(c.dir_path, "/tree/b");
            assert_eq!(c.delete_names, vec![".h"]);
            assert_eq!(c.total, 1);
        },
        _ => panic!("clean mode must clean every leaf"),
    }
}

#[test]
fn built_archive_round_trips_through_the_container() {
    let entries = vec![
        ArchiveEntry { name: String::from("a.jpg"), data: b"jpeg bytes".to_vec() },
        ArchiveEntry { name: String::from("c.txt"), data: b"notes".to_vec() },
    ];
    let bytes = build_archive(&entries).expect("in-memory archive");
    let mut ar = zip::ZipArchive::new(std::io::Cursor::new(bytes)).expect("valid container");
    assert_eq!(ar.len(), 2);
    let mut names: Vec<String> = Vec::new();
    let mut contents: Vec<Vec<u8>> = Vec::new();
    for i in 0..ar.len() {
        let mut f = ar.by_index(i).expect("entry");
        names.push(f.name().to_string());
        let mut buf: Vec<u8> = Vec::new();
        std::io::Read::read_to_end(&mut f, &mut buf).expect("entry bytes");
        contents.push(buf);
    }
    assert_eq!(names, vec!["a.jpg", "c.txt"]);
    assert_eq!(contents, vec![b"jpeg bytes".to_vec(), b"notes".to_vec()]);
}

#[test]
fn duplicate_entry_names_are_refused_by_the_container() {
    let entries = vec![
        ArchiveEntry { name: String::from("a.jpg"), data: b"one".to_vec() },
        ArchiveEntry { name: String::from("a.jpg"), data: b"two".to_vec() },
    ];
    assert!(build_archive(&entries).is_err());
}

#[test]
fn empty_archive_is_still_a_container() {
    let entries: Vec<ArchiveEntry> = Vec::new();
    let bytes = build_archive(&entries).expect("in-memory archive");
    let ar = zip::ZipArchive::new(std::io::Cursor::new(bytes)).expect("valid container");
    assert_eq!(ar.len(), 0);
}

#[test]
fn clean_plan_on_cleaned_tree_is_a_no_op() {
    let t = dir(
        "tree",
        Vec::new(),
        vec![
            leaf("a", vec![stat("data.txt", Some(5)), stat("notes.txt", Some(1))]),
            leaf("b", vec![stat("kept.bin", Some(9))]),
        ],
    );
    let p = plan(&t, SweepMode::Clean);
    assert_eq!(p.actions.len(), 2);
    for action in &p.actions {
        match action {
            LeafAction::Clean(c) => {
                assert_eq!(c.delete_names.len(), 0);
                assert!(c.total > 0);
                assert!(!leafsweep::clean::clean_should_remove_dir(0, c.total));
            }
            _ => panic!("clean mode must clean every leaf"),
        }
    }
}

#[test]
fn deeper_trees_are_reduced_to_their_leaves() {
    let inner = dir("mid", Vec::new(), vec![
        leaf("deep", vec![stat("x.gif", Some(1)), stat("y.gif", Some(2))]),
    ]);
    let t = dir("tree", Vec::new(), vec![inner, leaf("flat", vec![stat("z.txt", Some(3))])]);
    let p = plan(&t, SweepMode::Compress);
    assert_eq!(p.visited, vec!["/tree/mid/deep/x.gif", "/tree/mid/deep/y.gif", "/tree/flat/z.txt"]);
    assert_eq!(p.actions.len(), 2);
    assert!(matches!(&p.actions[0], LeafAction::Archive(_)));
    assert!(matches!(&p.actions[1], LeafAction::Keep(_)));
}
