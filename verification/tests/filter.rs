use rediff::git::filter::{apply_path_filter, apply_stub_filter};
use rediff::model::{Changeset, DiffFile, FileStatus, FileStub, Side};

fn stub(path: &str) -> FileStub {
    FileStub {
        path: path.into(),
        previous_path: None,
        status: FileStatus::Modified,
        staged: false,
        language: None,
        old: Side::Absent,
        new: Side::Absent,
    }
}

fn renamed(path: &str, previous: &str) -> FileStub {
    FileStub {
        previous_path: Some(previous.into()),
        status: FileStatus::Renamed,
        ..stub(path)
    }
}

fn paths(stubs: &[FileStub]) -> Vec<&str> {
    stubs.iter().map(|s| s.path.as_str()).collect()
}

#[test]
fn empty_filter_keeps_everything() {
    let mut stubs = vec![stub("src/a.rs"), stub("README.md")];
    apply_stub_filter(&mut stubs, &[]);
    assert_eq!(paths(&stubs), ["src/a.rs", "README.md"]);
}

#[test]
fn exact_path_match_survives_others_removed() {
    let mut stubs = vec![stub("src/a.rs"), stub("src/b.rs"), stub("README.md")];
    apply_stub_filter(&mut stubs, &["src/a.rs".to_string()]);
    assert_eq!(paths(&stubs), ["src/a.rs"]);
}

#[test]
fn directory_prefix_keeps_subtree_only() {
    let mut stubs = vec![
        stub("src/a.rs"),
        stub("src/tui/app.rs"),
        stub("lib/b.rs"),
        stub("src2/c.rs"),
    ];
    apply_stub_filter(&mut stubs, &["src/".to_string()]);
    assert_eq!(paths(&stubs), ["src/a.rs", "src/tui/app.rs"]);
}

#[test]
fn rename_matches_on_previous_path() {
    let mut stubs = vec![renamed("new/here.rs", "old/there.rs"), stub("unrelated.rs")];
    apply_stub_filter(&mut stubs, &["old".to_string()]);
    assert_eq!(paths(&stubs), ["new/here.rs"]);
}

#[test]
fn no_match_removes_all() {
    let mut stubs = vec![stub("src/a.rs"), stub("src/b.rs")];
    apply_stub_filter(&mut stubs, &["docs".to_string()]);
    assert!(stubs.is_empty());
}

fn changeset(paths: &[(&str, Option<&str>)]) -> Changeset {
    Changeset {
        source: "wt".into(),
        files: paths
            .iter()
            .map(|(p, prev)| {
                DiffFile::stub(
                    (*p).to_string(),
                    prev.map(|s| s.to_string()),
                    FileStatus::Modified,
                    false,
                    None,
                )
            })
            .collect(),
    }
}

#[test]
fn path_filter_keeps_matching_files_and_the_source() {
    let mut cs = changeset(&[("src/a.rs", None), ("docs/x.md", None), ("new.rs", Some("src/old.rs"))]);
    assert_eq!(apply_path_filter(&mut cs, &["src".to_string()]), 1, "one file removed");
    let kept: Vec<&str> = cs.files.iter().map(|f| f.path.as_str()).collect();
    assert_eq!(kept, ["src/a.rs", "new.rs"]);
    assert_eq!(cs.source, "wt");
}

#[test]
fn path_filter_is_idempotent_and_empty_is_identity() {
    let mut cs = changeset(&[("src/a.rs", None), ("b.rs", None)]);
    assert_eq!(apply_path_filter(&mut cs, &[]), 0);
    assert_eq!(cs.files.len(), 2);
    let filters = vec!["src/a.rs".to_string()];
    apply_path_filter(&mut cs, &filters);
    let once: Vec<String> = cs.files.iter().map(|f| f.path.clone()).collect();
    apply_path_filter(&mut cs, &filters);
    let twice: Vec<String> = cs.files.iter().map(|f| f.path.clone()).collect();
    assert_eq!(once, twice);
    assert_eq!(once, vec!["src/a.rs".to_string()]);
}

#[test]
fn trailing_slashes_on_a_spec_are_all_ignored() {
    let mut stubs = vec![stub("src"), stub("src/a.rs"), stub("srcx")];
    apply_stub_filter(&mut stubs, &["src//".to_string()]);
    assert_eq!(paths(&stubs), ["src", "src/a.rs"]);
}

#[test]
fn stub_filter_twice_keeps_what_once_keeps() {
    let mut stubs = vec![stub("src/a.rs"), renamed("x.rs", "src/y.rs"), stub("b.rs")];
    let filters = vec!["src".to_string()];
    apply_stub_filter(&mut stubs, &filters);
    let once: Vec<String> = stubs.iter().map(|s| s.path.clone()).collect();
    apply_stub_filter(&mut stubs, &filters);
    let twice: Vec<String> = stubs.iter().map(|s| s.path.clone()).collect();
    assert_eq!(once, twice);
    assert_eq!(once, vec!["src/a.rs".to_string(), "x.rs".to_string()]);
}
