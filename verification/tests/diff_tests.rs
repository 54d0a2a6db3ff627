use mcupdate::diff::{Diff, FileEntry};
use mcupdate::version_meta::FileChange;

fn file(parent: &str, name: &str, hash: &str, modified: u64) -> FileEntry {
    FileEntry {
        name: name.to_owned(),
        path: if parent.is_empty() { name.to_owned() } else { format!("{parent}/{name}") },
        is_dir: false,
        len: hash.len() as u64,
        modified,
        hash: hash.to_owned(),
        visible: true,
        children: Vec::new(),
    }
}

fn dir(parent: &str, name: &str, children: Vec<FileEntry>) -> FileEntry {
    FileEntry {
        name: name.to_owned(),
        path: if parent.is_empty() { name.to_owned() } else { format!("{parent}/{name}") },
        is_dir: true,
        len: 0,
        modified: 0,
        hash: String::new(),
        visible: true,
        children,
    }
}

fn root(children: Vec<FileEntry>) -> FileEntry {
    FileEntry {
        name: String::new(),
        path: String::new(),
        is_dir: true,
        len: 0,
        modified: 0,
        hash: String::new(),
        visible: true,
        children,
    }
}

#[test]
fn identical_trees_have_no_difference() {
    let a = root(vec![dir("", "mods", vec![file("mods", "a.jar", "h1", 1)])]);
    let b = root(vec![dir("", "mods", vec![file("mods", "a.jar", "h1", 1)])]);
    let d = Diff::diff(&a, &b);
    assert!(!d.has_diff());
    assert!(d.to_file_changes().is_empty());
}

#[test]
fn added_missing_and_modified_entries_are_found() {
    let newer = root(vec![
        dir("", "mods", vec![file("mods", "a.jar", "h2", 2), file("mods", "new.jar", "h3", 1)]),
        dir("", "config", vec![file("config", "c.toml", "h4", 1)]),
    ]);
    let older = root(vec![
        dir("", "mods", vec![file("mods", "a.jar", "h1", 1), file("mods", "gone.jar", "h5", 1)]),
        dir("", "logs", vec![file("logs", "1.log", "h6", 1)]),
    ]);
    let d = Diff::diff(&newer, &older);
    assert!(d.has_diff());
    let changes = d.to_file_changes();
    let names: Vec<String> = changes
        .iter()
        .map(|c| match c {
            FileChange::DeleteFile { path } => format!("delete {path}"),
            FileChange::CreateFolder { path } => format!("mkdir {path}"),
            FileChange::MoveFile { from, to } => format!("move {from} {to}"),
            FileChange::UpdateFile { path, .. } => format!("write {path}"),
            FileChange::DeleteFolder { path } => format!("rmdir {path}"),
        })
        .collect();
    assert_eq!(
        names,
        vec![
            "delete mods/gone.jar",
            "delete logs/1.log",
            "mkdir config",
            "write mods/new.jar",
            "write config/c.toml",
            "write mods/a.jar",
            "rmdir logs",
        ]
    );
}

#[test]
fn a_file_with_unique_content_that_changed_place_is_a_move() {
    let newer = root(vec![file("", "b.jar", "same", 1)]);
    let older = root(vec![file("", "a.jar", "same", 1)]);
    let d = Diff::diff(&newer, &older);
    assert_eq!(d.renamed_files.len(), 1);
    assert!(d.added_files.is_empty());
    assert!(d.missing_files.is_empty());
    assert!(matches!(&d.to_file_changes()[0], FileChange::MoveFile { from, to } if from == "a.jar" && to == "b.jar"));
}

#[test]
fn only_the_time_changed_is_no_modification() {
    let newer = root(vec![file("", "a.jar", "h", 5)]);
    let older = root(vec![file("", "a.jar", "h", 1)]);
    let d = Diff::diff(&newer, &older);
    assert!(!d.has_diff());
    assert_eq!(d.mtime_fix.len(), 1);
}

#[test]
fn excluded_entries_are_not_added() {
    let mut hidden = file("", "secret.txt", "h", 1);
    hidden.visible = false;
    let newer = root(vec![hidden]);
    let older = root(Vec::new());
    let d = Diff::diff(&newer, &older);
    assert!(!d.has_diff());
}

#[test]
fn a_difference_describes_itself() {
    let old = root(vec![file("", "a.txt", "aa", 1), file("", "gone.txt", "zz", 1)]);
    let new = root(vec![
        file("", "a.txt", "ab", 2),
        dir("", "mods", vec![file("mods", "b.jar", "bb", 3)]),
    ]);
    let d = Diff::diff(&new, &old);
    assert_eq!(
        d.summary(),
        "Diff (创建目录: 1, 更新文件: 1, 修改文件: 1, 删除目录: 0, 删除文件: 1, 移动文件: 0)"
    );
    assert_eq!(
        d.listing(),
        "删除文件: gone.txt\n创建目录: mods\n更新文件: mods/b.jar\n修改文件: a.txt"
    );
    assert_eq!(Diff::empty().listing(), "");
}

#[test]
fn a_tree_against_itself_has_no_difference() {
    let tree = root(vec![
        file("", "a.txt", "aa", 1),
        dir("", "mods", vec![file("mods", "b.jar", "bb", 3), dir("mods", "empty", Vec::new())]),
    ]);
    let d = Diff::diff(&tree, &tree);
    assert!(!d.has_diff());
    assert!(d.to_file_changes().is_empty());
}
