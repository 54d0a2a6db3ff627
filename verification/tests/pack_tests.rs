use mcupdate::pack::{
    build_pack_plan, change_id, change_sort_key, change_touches_path, count_changes,
    fingerprint, is_safe_updater_entry, new_version_label, normalize_version_label, order_changes,
    preview_change,
    select_pack_changes, startlist_content, startlist_entries, versioned_updater_name,
    HistoryEntry, PackChangeCounts, PackPlan, PackPreview, UPDATER_SOURCE_PATH,
    UPDATER_STARTLIST_PATH,
};
use mcupdate::pack_api::{decide_pack, updater_pack_logs, PackDecision};
use mcupdate::pending_changes::PendingChanges;
use mcupdate::version_meta::{ClientHashDeletion, FileChange};

fn update_file(path: &str, hash: &str) -> FileChange {
    FileChange::UpdateFile {
        path: path.to_owned(),
        hash: hash.to_owned(),
        len: 1,
        modified: 0,
        offset: 0,
        external_source: None,
    }
}

#[test]
fn change_ids_are_stable_and_operation_specific() {
    let delete = FileChange::DeleteFile {
        path: ".minecraft/mods/old.jar".to_owned(),
    };
    let create = FileChange::CreateFolder {
        path: ".minecraft/mods/old.jar".to_owned(),
    };
    assert_eq!(change_id(&delete), change_id(&delete));
    assert_ne!(change_id(&delete), change_id(&create));
}

#[test]
fn fingerprint_covers_release_text_and_changes() {
    let changes = vec![FileChange::DeleteFile {
        path: ".minecraft/mods/old.jar".to_owned(),
    }];
    assert_ne!(
        fingerprint("v1", "first", &changes, &vec![]),
        fingerprint("v1", "second", &changes, &vec![])
    );
}

#[test]
fn fingerprint_covers_hash_deletion_metadata() {
    let first = ClientHashDeletion {
        path: ".minecraft/mods/old.jar".to_owned(),
        sha256: "a".repeat(64),
        len: 42,
    };
    let mut second = first.clone();
    second.sha256 = "b".repeat(64);
    assert_ne!(
        fingerprint("v1", "same", &vec![], &vec![first]),
        fingerprint("v1", "same", &vec![], &vec![second])
    );
}

#[test]
fn preview_distinguishes_added_and_replaced_files() {
    let change = FileChange::UpdateFile {
        path: ".minecraft/mods/example.jar".to_owned(),
        hash: "abc123".to_owned(),
        len: 42,
        modified: 0,
        offset: 0,
        external_source: None,
    };
    let explicit_paths = Vec::new();
    let added = preview_change(&change, &explicit_paths, false);
    let replaced = preview_change(&change, &explicit_paths, true);

    assert_eq!(added.operation, "add-file");
    assert_eq!(replaced.operation, "update-file");

    let counts = count_changes(&[added, replaced]);
    assert_eq!(counts.add_file, 1);
    assert_eq!(counts.update_file, 1);
}

#[test]
fn version_labels_are_trimmed_but_reject_internal_whitespace() {
    assert_eq!(normalize_version_label(" v7.7.448 ").unwrap(), "v7.7.448");
    assert!(normalize_version_label("v7.7. 448").is_err());
    assert!(normalize_version_label("  ").is_err());
}

#[test]
fn updater_self_update_changes_cannot_be_partially_excluded() {
    let binary = update_file(
        ".minecraft/autoupdate/AutoUpdateClient-aaaaaaaaaaaaaaaa.exe",
        "binary",
    );
    let startlist = update_file(UPDATER_STARTLIST_PATH, "list");
    let binary_id = change_id(&binary);
    let previews = vec![
        preview_change(&binary, &Vec::new(), false),
        preview_change(&startlist, &Vec::new(), false),
    ];
    let plan = PackPlan {
        preview: PackPreview {
            confirmation_required: true,
            fingerprint: "fingerprint".to_owned(),
            changes: previews,
            counts: PackChangeCounts::default(),
        },
        changes: vec![binary, startlist],
        pending_deletions: Vec::new(),
        hash_deletions: Vec::new(),
        pending_hash_deletions: Vec::new(),
        required_change_ids: vec![binary_id.clone()],
    };

    let error = select_pack_changes(plan, &[binary_id]).err().unwrap();
    assert!(error.contains("必须一起发布"));
}

#[test]
fn updater_startlist_is_applied_after_other_file_updates() {
    let mut changes = vec![
        update_file(UPDATER_STARTLIST_PATH, "list"),
        update_file(
            ".minecraft/autoupdate/AutoUpdateClient-aaaaaaaaaaaaaaaa.exe",
            "binary",
        ),
        update_file(".minecraft/mods/example.jar", "mod"),
    ];
    changes.sort_by_key(change_sort_key);
    assert!(matches!(
        changes.last(),
        Some(FileChange::UpdateFile { path, .. }) if path == UPDATER_STARTLIST_PATH
    ));
}

#[test]
fn ordering_puts_the_startlist_last_and_drops_repeats() {
    let ordered = order_changes(vec![
        update_file(UPDATER_STARTLIST_PATH, "list"),
        FileChange::DeleteFile { path: "b".to_owned() },
        update_file("a", "x"),
        FileChange::DeleteFile { path: "b".to_owned() },
    ]);
    assert_eq!(ordered.len(), 3);
    assert!(matches!(&ordered[0], FileChange::DeleteFile { path } if path == "b"));
    assert!(matches!(&ordered[1], FileChange::UpdateFile { path, .. } if path == "a"));
    assert!(matches!(&ordered[2], FileChange::UpdateFile { path, .. } if path == UPDATER_STARTLIST_PATH));
}

#[test]
fn updater_entries_are_the_fixed_name_or_a_hashed_build() {
    assert!(is_safe_updater_entry("autoupdateclient.EXE"));
    assert!(is_safe_updater_entry("AutoUpdateClient-aaaaaaaaaaaa.exe"));
    assert!(!is_safe_updater_entry("AutoUpdateClient-abc.exe"));
    assert!(!is_safe_updater_entry("AutoUpdateClient-zzzzzzzzzzzz.exe"));
    assert!(!is_safe_updater_entry("unsafe.exe"));
}

#[test]
fn startlist_puts_the_new_build_first_and_the_fixed_name_last() {
    let name = versioned_updater_name(&"0123456789abcdef".repeat(4));
    assert_eq!(name, "AutoUpdateClient-0123456789abcdef.exe");
    let entries = startlist_entries(
        &name,
        Some("AutoUpdateClient-aaaaaaaaaaaa.exe\nunsafe.exe\nAutoUpdateClient.exe\n"),
    );
    assert_eq!(
        entries,
        vec![
            "AutoUpdateClient-0123456789abcdef.exe",
            "AutoUpdateClient-aaaaaaaaaaaa.exe",
            "AutoUpdateClient.exe"
        ]
    );
    assert_eq!(
        startlist_content(&entries),
        "AutoUpdateClient-0123456789abcdef.exe\nAutoUpdateClient-aaaaaaaaaaaa.exe\nAutoUpdateClient.exe\n"
    );
    assert_eq!(startlist_entries(&name, None), vec![name.clone(), "AutoUpdateClient.exe".to_owned()]);
}

fn no_history() -> Vec<HistoryEntry> {
    Vec::new()
}

#[test]
fn pack_plan_excludes_the_updater_source_and_orders_the_startlist_last() {
    let plan = build_pack_plan(
        "v1",
        "self update",
        &Vec::new(),
        &vec![UPDATER_STARTLIST_PATH.to_owned()],
        vec![
            update_file(UPDATER_STARTLIST_PATH, "list"),
            update_file(UPDATER_SOURCE_PATH, "source"),
            update_file(".minecraft/autoupdate/AutoUpdateClient-0123456789abcdef.exe", "bin"),
        ],
        &no_history(),
        &PendingChanges::default(),
        &Vec::new(),
    )
    .unwrap();
    assert!(!plan
        .changes
        .iter()
        .any(|change| change_touches_path(change, UPDATER_SOURCE_PATH)));
    assert!(matches!(plan.changes.last(), Some(FileChange::UpdateFile { path, .. }) if path == UPDATER_STARTLIST_PATH));
    assert_eq!(plan.required_change_ids.len(), 1);
    assert_eq!(plan.preview.changes.len(), 2);
    assert_eq!(plan.preview.counts.add_file, 2);
}

#[test]
fn pack_plan_refuses_existing_labels_and_deleting_directories() {
    assert_eq!(
        build_pack_plan(" v1 ", "", &vec!["v1".to_owned()], &Vec::new(), Vec::new(), &no_history(), &PendingChanges::default(), &Vec::new())
            .err()
            .unwrap(),
        "版本号已经存在: v1"
    );
    let mut pending = PendingChanges::default();
    pending.add_forced_deletion("config").unwrap();
    let history = vec![HistoryEntry { path: "config".to_owned(), is_dir: true }];
    assert_eq!(
        build_pack_plan("v2", "", &Vec::new(), &Vec::new(), Vec::new(), &history, &pending, &Vec::new())
            .err()
            .unwrap(),
        "显式文件删除不能用于目录: config"
    );
}

#[test]
fn forced_deletions_override_writes_and_are_explicit() {
    let mut pending = PendingChanges::default();
    pending.add_forced_deletion(".minecraft/mods/old.jar").unwrap();
    let plan = build_pack_plan(
        "v3",
        "notes",
        &Vec::new(),
        &Vec::new(),
        vec![update_file(".minecraft/mods/old.jar", "new")],
        &no_history(),
        &pending,
        &Vec::new(),
    )
    .unwrap();
    assert_eq!(plan.changes.len(), 1);
    assert!(matches!(&plan.changes[0], FileChange::DeleteFile { path } if path == ".minecraft/mods/old.jar"));
    assert!(plan.preview.changes[0].explicit);
    assert_eq!(plan.pending_deletions, vec![".minecraft/mods/old.jar".to_owned()]);

    let selection = select_pack_changes(plan, &[]).ok().unwrap();
    assert_eq!(selection.emitted_pending_deletions, vec![".minecraft/mods/old.jar".to_owned()]);
}

#[test]
fn hash_deletions_must_not_exist_in_the_workspace() {
    let mut pending = PendingChanges::default();
    pending
        .add_hash_deletion(".minecraft/mods/gone.jar", &"a".repeat(64), 5, None)
        .unwrap();
    let refused = build_pack_plan(
        "v4",
        "",
        &Vec::new(),
        &Vec::new(),
        Vec::new(),
        &no_history(),
        &pending,
        &vec![".minecraft/mods/gone.jar".to_owned()],
    );
    assert_eq!(
        refused.err().unwrap(),
        "客户端哈希删除目标仍存在于当前工作区，拒绝打包: .minecraft/mods/gone.jar"
    );
    let plan = build_pack_plan("v4", "", &Vec::new(), &Vec::new(), Vec::new(), &no_history(), &pending, &Vec::new()).unwrap();
    assert_eq!(plan.hash_deletions.len(), 1);
    assert_eq!(plan.preview.counts.delete_by_hash, 1);
    assert_eq!(plan.preview.changes[0].operation, "delete-file-by-hash");
}

#[test]
fn confirmation_must_match_the_preview() {
    let make = || {
        build_pack_plan("v5", "", &Vec::new(), &Vec::new(), vec![update_file("a.txt", "h")], &no_history(), &PendingChanges::default(), &Vec::new()).unwrap()
    };
    let plan = make();
    let fingerprint = plan.preview.fingerprint.clone();
    assert!(matches!(decide_pack(plan, None, &Vec::new()), PackDecision::Preview(_)));
    assert!(matches!(decide_pack(make(), Some("stale".to_owned()), &Vec::new()), PackDecision::Refused(_)));
    match decide_pack(make(), Some(fingerprint), &Vec::new()) {
        PackDecision::Pack(selection) => assert_eq!(selection.changes.len(), 1),
        _ => panic!("expected a selection"),
    }
    let plan = make();
    let id = plan.preview.changes[0].id.clone();
    let fp = plan.preview.fingerprint.clone();
    match decide_pack(plan, Some(fp), &vec![id]) {
        PackDecision::Refused(message) => assert_eq!(message, "没有选中任何可打包变更"),
        _ => panic!("expected a refusal"),
    }
    match decide_pack(make(), Some(make().preview.fingerprint), &vec!["nope".to_owned()]) {
        PackDecision::Refused(message) => assert_eq!(message, "待排除的变更不存在或预览已过期: nope"),
        _ => panic!("expected a refusal"),
    }
}

#[test]
fn updater_packs_have_default_notes() {
    assert_eq!(updater_pack_logs("  "), "更新自动更新器");
    assert_eq!(updater_pack_logs("notes"), "notes");
}

#[test]
fn repeated_operations_keep_the_first_one_given() {
    let first = FileChange::UpdateFile {
        path: "mods/a.jar".to_owned(),
        hash: "h".to_owned(),
        len: 3,
        modified: 10,
        offset: 0,
        external_source: None,
    };
    let second = FileChange::UpdateFile {
        path: "mods/a.jar".to_owned(),
        hash: "h".to_owned(),
        len: 3,
        modified: 20,
        offset: 64,
        external_source: None,
    };
    let ordered = order_changes(vec![
        first,
        FileChange::DeleteFile { path: "mods/old.jar".to_owned() },
        second,
    ]);
    assert_eq!(ordered.len(), 2);
    assert!(matches!(&ordered[0], FileChange::DeleteFile { path } if path == "mods/old.jar"));
    match &ordered[1] {
        FileChange::UpdateFile { modified, offset, .. } => {
            assert_eq!(*modified, 10);
            assert_eq!(*offset, 0);
        }
        _ => panic!("expected the file update"),
    }
}

#[test]
fn updater_startlist_keeps_a_listed_fixed_name_in_place() {
    let entries = startlist_entries(
        "AutoUpdateClient-0123456789abcdef.exe",
        Some("AutoUpdateClient.exe\nAutoUpdateClient-aaaaaaaaaaaa.exe\n"),
    );
    assert_eq!(
        entries,
        vec![
            "AutoUpdateClient-0123456789abcdef.exe",
            "AutoUpdateClient.exe",
            "AutoUpdateClient-aaaaaaaaaaaa.exe"
        ]
    );
}

#[test]
fn a_new_version_label_is_checked_before_anything_is_written() {
    let existing = vec!["1.0".to_owned()];
    assert_eq!(new_version_label(" 1.1 ", &existing), Ok("1.1".to_owned()));
    assert_eq!(
        new_version_label(" 1.0 ", &existing),
        Err("版本号已经存在: 1.0".to_owned())
    );
    assert_eq!(new_version_label("  ", &existing), Err("版本号不能为空".to_owned()));
}
