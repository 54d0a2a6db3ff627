use mcupdate::one_shot::{one_shot_hash_deletions, persistent_emitted, plan_with_one_shot};
use mcupdate::pack::{check_pack_selection, previewed_file_changed};
use mcupdate::pending_changes::PendingChanges;
use mcupdate::version_meta::{ClientHashDeletion, FileChange};

fn deletion(path: &str, sha256: &str, len: u64) -> ClientHashDeletion {
    ClientHashDeletion {
        path: path.to_owned(),
        sha256: sha256.to_owned(),
        len,
    }
}

#[test]
fn one_shot_hash_deletion_manifest_is_normalized_and_validated() {
    let deletions = one_shot_hash_deletions(
        1,
        &vec![deletion(".minecraft\\mods\\old.jar", &"A".repeat(64), 42)],
    )
    .unwrap();
    assert_eq!(deletions.len(), 1);
    assert_eq!(deletions[0].path, ".minecraft/mods/old.jar");
    assert_eq!(deletions[0].sha256, "a".repeat(64));
    assert_eq!(deletions[0].len, 42);

    assert!(one_shot_hash_deletions(1, &vec![deletion("../old.jar", &"a".repeat(64), 42)]).is_err());
}

#[test]
fn one_shot_lists_need_schema_one_and_entries() {
    assert_eq!(
        one_shot_hash_deletions(2, &vec![deletion("a.jar", &"a".repeat(64), 1)]).unwrap_err(),
        "不支持的一次性哈希删除清单版本: 2"
    );
    assert_eq!(
        one_shot_hash_deletions(1, &Vec::new()).unwrap_err(),
        "一次性哈希删除清单不能为空"
    );
}

#[test]
fn one_shot_lists_refuse_repeated_paths_and_come_out_sorted() {
    let repeated = one_shot_hash_deletions(
        1,
        &vec![
            deletion("mods/B.jar", &"b".repeat(64), 2),
            deletion("mods\\b.jar", &"c".repeat(64), 3),
        ],
    );
    assert_eq!(
        repeated.unwrap_err(),
        "一次性哈希删除清单包含重复路径: mods\\b.jar"
    );

    let sorted = one_shot_hash_deletions(
        1,
        &vec![
            deletion("mods/z.jar", &"b".repeat(64), 2),
            deletion(" mods/a.jar ", &"c".repeat(64), 3),
        ],
    )
    .unwrap();
    assert_eq!(sorted.len(), 2);
    assert_eq!(sorted[0].path, "mods/a.jar");
    assert_eq!(sorted[0].len, 3);
    assert_eq!(sorted[1].path, "mods/z.jar");

    assert_eq!(
        one_shot_hash_deletions(1, &vec![deletion("mods/a.jar", "xyz", 1)]).unwrap_err(),
        "客户端删除哈希必须是 64 位 SHA-256"
    );
}

#[test]
fn planning_adds_one_shot_entries_without_touching_lasting_rules() {
    let mut pending = PendingChanges::default();
    pending.add_forced_deletion("mods/forced.jar").unwrap();
    pending
        .add_hash_deletion("mods/lasting.jar", &"d".repeat(64), 9, None)
        .unwrap();

    let planned = plan_with_one_shot(
        pending.clone(),
        &vec![deletion("mods/once.jar", &"e".repeat(64), 5)],
    )
    .unwrap();
    assert_eq!(planned.forced_deletions.len(), 1);
    assert_eq!(planned.hash_deletions.len(), 2);
    assert_eq!(planned.hash_deletions[0].path, "mods/lasting.jar");
    assert_eq!(planned.hash_deletions[1].path, "mods/once.jar");
    assert!(planned.hash_deletions[1].pending);

    let conflict = plan_with_one_shot(
        pending.clone(),
        &vec![deletion("MODS/FORCED.JAR", &"e".repeat(64), 5)],
    );
    assert_eq!(
        conflict.unwrap_err(),
        "一次性哈希删除与长期待处理规则冲突: MODS/FORCED.JAR"
    );
    let repeated = plan_with_one_shot(
        pending.clone(),
        &vec![
            deletion("mods/once.jar", &"e".repeat(64), 5),
            deletion("mods/ONCE.jar", &"f".repeat(64), 6),
        ],
    );
    assert_eq!(
        repeated.unwrap_err(),
        "一次性哈希删除与长期待处理规则冲突: mods/ONCE.jar"
    );
    assert_eq!(
        plan_with_one_shot(pending, &vec![deletion("/abs.jar", &"e".repeat(64), 5)]).unwrap_err(),
        "客户端路径必须是相对路径"
    );
}

#[test]
fn only_lasting_hash_deletions_are_marked_after_packing() {
    let mut pending = PendingChanges::default();
    pending
        .add_hash_deletion("mods/lasting.jar", &"d".repeat(64), 9, None)
        .unwrap();
    let emitted = vec!["mods/once.jar".to_owned(), "MODS/LASTING.JAR".to_owned()];
    assert_eq!(
        persistent_emitted(&emitted, &pending),
        vec!["MODS/LASTING.JAR".to_owned()]
    );
}

#[test]
fn selections_need_a_new_label_and_something_to_pack() {
    let change = FileChange::DeleteFile {
        path: "a.txt".to_owned(),
    };
    let existing = vec!["v1".to_owned()];
    assert_eq!(
        check_pack_selection(" v2 ", &existing, &vec![change], &Vec::new()).unwrap(),
        "v2"
    );
    assert_eq!(
        check_pack_selection("v1", &existing, &Vec::new(), &vec![deletion("a", "b", 1)])
            .unwrap_err(),
        "版本号已经存在: v1"
    );
    assert_eq!(
        check_pack_selection("v3", &existing, &Vec::new(), &Vec::new()).unwrap_err(),
        "目前没有任何已选择的文件修改"
    );
    assert_eq!(
        check_pack_selection("v 3", &existing, &Vec::new(), &Vec::new()).unwrap_err(),
        "版本号不能包含内部空白字符"
    );
}

#[test]
fn files_changed_after_the_preview_are_refused() {
    assert_eq!(previewed_file_changed("a.txt", 3, "h", 3, "h"), None);
    assert_eq!(
        previewed_file_changed("a.txt", 3, "h", 4, "h").unwrap(),
        "预览后文件发生变化，请重新确认: a.txt"
    );
    assert!(previewed_file_changed("a.txt", 3, "h", 3, "g").is_some());
}
