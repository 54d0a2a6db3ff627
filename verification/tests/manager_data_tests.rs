use mcupdate::combine::{
    archive_facts, archive_names, combined_index, data_locations, versions_to_combine,
    VersionIndex, COMBINED_FILENAME,
};
use mcupdate::meta_json::JsonNode;
use mcupdate::meta_text::{fetched_metadata_logs, meta_group_text};
use mcupdate::pending_changes::{
    legacy_migration, normalize_client_path, ForcedDeletion, PendingChanges, PendingHashDeletion,
};
use mcupdate::version_meta::{ClientHashDeletion, ExternalSource, FileChange, VersionMeta};
use mcupdate::web_types::name_hint;

fn index(label: &str, filename: &str, hash: &str, size: Option<u64>) -> VersionIndex {
    VersionIndex {
        label: label.to_owned(),
        filename: filename.to_owned(),
        offset: 0,
        len: 0,
        hash: hash.to_owned(),
        archive_size: size,
    }
}

#[test]
fn combine_preserves_each_original_archive_hash_and_size() {
    let entries = vec![
        index("v1", "v1.tar", "no hash", None),
        index("v2", "v2.tar", "no hash", None),
    ];
    assert_eq!(versions_to_combine(&entries), vec![0, 1]);
    let archives = archive_names(&entries);
    assert_eq!(archives, vec!["v1.tar".to_owned(), "v2.tar".to_owned()]);
    let measured = vec![("h1".to_owned(), 10), ("h2".to_owned(), 20)];
    let facts = archive_facts(&entries, &archives, &measured);
    let combined = combined_index(&entries, &archives, &facts, 7, 8).unwrap();
    assert_eq!(combined.len(), 2);
    for (entry, (hash, size)) in combined.iter().zip([("h1", 10), ("h2", 20)]) {
        assert_eq!(entry.filename, COMBINED_FILENAME);
        assert_eq!(entry.hash, hash);
        assert_eq!(entry.archive_size, Some(size));
        assert_eq!(entry.offset, 7);
        assert_eq!(entry.len, 8);
    }
}

#[test]
fn recorded_archive_facts_win_over_measured_ones() {
    let entries = vec![
        index("v1", "combined.tar", "old", Some(5)),
        index("v2", "combined.tar", "no hash", None),
        index("v3", "v3.tar", "no hash", None),
    ];
    assert_eq!(versions_to_combine(&entries), vec![2]);
    let archives = archive_names(&entries);
    let measured = vec![("m1".to_owned(), 1), ("m3".to_owned(), 3)];
    let facts = archive_facts(&entries, &archives, &measured);
    assert_eq!(facts[0], ("old".to_owned(), 5));
    assert_eq!(facts[1], ("m3".to_owned(), 3));
    let combined = combined_index(&entries, &archives, &facts, 0, 0).unwrap();
    assert_eq!(combined[1].hash, "old");
    assert_eq!(combined[1].archive_size, Some(5));
    assert!(combined_index(&entries, &Vec::new(), &Vec::new(), 0, 0).is_none());
}

fn update(path: &str, offset: u64) -> FileChange {
    FileChange::UpdateFile {
        path: path.to_owned(),
        hash: "h".to_owned(),
        len: 4,
        modified: 0,
        offset,
        external_source: None,
    }
}

fn meta(label: &str, changes: Vec<FileChange>) -> VersionMeta {
    VersionMeta::new(label.to_owned(), String::new(), changes, Vec::new())
}

#[test]
fn combined_content_comes_from_the_last_write() {
    let metas = vec![
        (
            "v1.tar".to_owned(),
            meta("v1", vec![update("a", 1), update("b", 2)]),
        ),
        (
            "v2.tar".to_owned(),
            meta(
                "v2",
                vec![
                    FileChange::MoveFile {
                        from: "a".to_owned(),
                        to: "c".to_owned(),
                    },
                    FileChange::DeleteFile {
                        path: "b".to_owned(),
                    },
                    update("d", 3),
                ],
            ),
        ),
        ("v1.tar".to_owned(), meta("v1", vec![update("x", 9)])),
    ];
    let mut locations = data_locations(&metas).unwrap();
    locations.sort_by(|a, b| a.0.cmp(&b.0));
    assert_eq!(locations.len(), 2);
    assert_eq!(locations[0].0, "c");
    assert_eq!(locations[0].1.path, "a");
    assert_eq!(locations[0].1.label, "v1");
    assert_eq!(locations[0].1.offset, 1);
    assert_eq!(locations[1].0, "d");
    assert_eq!(locations[1].1.filename, "v2.tar");
}

fn text(s: &str) -> JsonNode {
    JsonNode::Str(s.to_owned())
}

fn object(members: Vec<(&str, JsonNode)>) -> JsonNode {
    JsonNode::Object(
        members
            .into_iter()
            .map(|(k, v)| (k.to_owned(), v))
            .collect(),
    )
}

fn member<'a>(node: &'a JsonNode, key: &str) -> &'a JsonNode {
    match node {
        JsonNode::Object(members) => &members.iter().find(|(k, _)| k == key).unwrap().1,
        _ => panic!("not an object"),
    }
}

fn length(node: &JsonNode) -> usize {
    match node {
        JsonNode::Array(items) => items.len(),
        _ => 0,
    }
}

#[test]
fn hash_deletion_round_trips_as_optional_top_level_metadata() {
    let meta = VersionMeta::new(
        "v1".to_owned(),
        "test".to_owned(),
        Vec::new(),
        vec![ClientHashDeletion {
            path: ".minecraft/mods/old.jar".to_owned(),
            sha256: "a".repeat(64),
            len: 42,
        }],
    );
    let serialized = meta.serialize();
    assert_eq!(length(member(&serialized, "changes")), 0);
    assert_eq!(length(member(&serialized, "delete-by-hash")), 1);

    let loaded = VersionMeta::load(&serialized);
    assert_eq!(loaded.client_hash_deletions.len(), 1);
    assert_eq!(loaded.client_hash_deletions[0].path, ".minecraft/mods/old.jar");
    assert_eq!(loaded.client_hash_deletions[0].sha256, "a".repeat(64));
    assert_eq!(loaded.client_hash_deletions[0].len, 42);
}

#[test]
fn old_metadata_without_hash_deletions_remains_valid() {
    let value = object(vec![
        ("label", text("v0")),
        ("logs", text("")),
        ("changes", JsonNode::Array(Vec::new())),
    ]);
    assert!(VersionMeta::load(&value).client_hash_deletions.is_empty());
}

#[test]
fn every_operation_round_trips() {
    let changes = vec![
        FileChange::CreateFolder {
            path: "d".to_owned(),
        },
        FileChange::UpdateFile {
            path: "f".to_owned(),
            hash: "h".to_owned(),
            len: 3,
            modified: 1705651134,
            offset: 98724,
            external_source: Some(ExternalSource {
                provider: "modrinth".to_owned(),
                url: "https://x".to_owned(),
                fallback_to_mcpatch: false,
            }),
        },
        FileChange::DeleteFolder {
            path: "d2".to_owned(),
        },
        FileChange::DeleteFile {
            path: "f2".to_owned(),
        },
        FileChange::MoveFile {
            from: "a".to_owned(),
            to: "b".to_owned(),
        },
    ];
    let meta = VersionMeta::new("1.0".to_owned(), "notes".to_owned(), changes, Vec::new());
    let node = meta.serialize();
    match &node {
        JsonNode::Object(members) => assert_eq!(members.len(), 3),
        _ => panic!("not an object"),
    }
    let loaded = VersionMeta::load(&node);
    assert_eq!(loaded.label, "1.0");
    assert_eq!(loaded.logs, "notes");
    assert_eq!(loaded.changes.len(), 5);
    match &loaded.changes[1] {
        FileChange::UpdateFile {
            modified,
            offset,
            external_source,
            ..
        } => {
            assert_eq!(*modified, 1705651134);
            assert_eq!(*offset, 98724);
            let source = external_source.as_ref().unwrap();
            assert_eq!(source.url, "https://x");
            assert!(!source.fallback_to_mcpatch);
        }
        _ => panic!("expected a file"),
    }
    assert!(matches!(&loaded.changes[4], FileChange::MoveFile { from, to } if from == "a" && to == "b"));
}

#[test]
fn a_source_without_fallback_flag_allows_fallback() {
    let change = object(vec![
        ("operation", text("update-file")),
        ("path", text("f")),
        ("hash", text("h")),
        ("length", JsonNode::Number(Some(1))),
        ("modified", JsonNode::Number(Some(2))),
        ("offset", JsonNode::Number(Some(3))),
        (
            "external-source",
            object(vec![("provider", text("curseforge")), ("url", text("https://y"))]),
        ),
    ]);
    let value = object(vec![
        ("label", text("v")),
        ("logs", text("")),
        ("changes", JsonNode::Array(vec![change])),
        (
            "delete-by-hash",
            JsonNode::Array(vec![object(vec![("path", text("p"))])]),
        ),
    ]);
    let loaded = VersionMeta::load(&value);
    assert!(loaded.client_hash_deletions.is_empty());
    match &loaded.changes[0] {
        FileChange::UpdateFile {
            external_source, ..
        } => assert!(external_source.as_ref().unwrap().fallback_to_mcpatch),
        _ => panic!("expected a file"),
    }
}

#[test]
fn migrates_empty_schema_one_but_rejects_unsafe_legacy_hash_rules() {
    assert_eq!(legacy_migration(Some(1), Some(0)), Ok(true));
    let stored = PendingChanges {
        schema: 2,
        forced_deletions: Vec::new(),
        hash_deletions: Vec::new(),
    };
    assert_eq!(stored.checked().unwrap().schema, 2);

    let error = legacy_migration(Some(1), Some(1)).unwrap_err();
    assert!(error.contains("旧版无路径哈希删除规则"));
    assert_eq!(legacy_migration(Some(2), Some(3)), Ok(false));
    assert_eq!(legacy_migration(None, None), Ok(false));
}

#[test]
fn stored_rules_are_normalized_and_checked() {
    let stored = PendingChanges {
        schema: 2,
        forced_deletions: vec![ForcedDeletion {
            path: " .minecraft\\mods\\a.jar ".to_owned(),
            pending: false,
        }],
        hash_deletions: vec![PendingHashDeletion {
            path: "mods/b.jar".to_owned(),
            sha256: " ".to_owned() + &"B".repeat(64),
            len: 3,
            staged_file: Some("abc.bin".to_owned()),
            pending: true,
        }],
    };
    let loaded = stored.clone().checked().unwrap();
    assert_eq!(loaded.forced_deletions[0].path, ".minecraft/mods/a.jar");
    assert!(!loaded.forced_deletions[0].pending);
    assert_eq!(loaded.hash_deletions[0].sha256, "b".repeat(64));

    let mut unknown = stored.clone();
    unknown.schema = 3;
    assert_eq!(unknown.checked().unwrap_err(), "不支持的待处理变更版本: 3");

    let mut twice = stored.clone();
    twice.forced_deletions.push(ForcedDeletion {
        path: ".MINECRAFT/mods/A.jar".to_owned(),
        pending: true,
    });
    assert_eq!(
        twice.checked().unwrap_err(),
        "重复的客户端删除路径: .MINECRAFT/mods/A.jar"
    );

    let mut clash = stored.clone();
    clash.hash_deletions[0].path = ".minecraft/MODS/a.jar".to_owned();
    assert_eq!(
        clash.checked().unwrap_err(),
        "客户端路径存在重复或冲突的删除规则: .minecraft/MODS/a.jar"
    );

    let mut unsafe_path = stored;
    unsafe_path.forced_deletions[0].path = "../a.jar".to_owned();
    assert_eq!(
        unsafe_path.checked().unwrap_err(),
        "客户端路径包含不安全的目录片段"
    );
}

#[test]
fn uploaded_file_names_are_percent_decoded() {
    assert_eq!(name_hint(Some("old%20mod.jar")).unwrap(), "old mod.jar");
    assert_eq!(name_hint(Some("%E6%97%A7.jar")).unwrap(), "旧.jar");
    assert_eq!(name_hint(Some("a+b%2")).unwrap(), "a+b%2");
    assert_eq!(name_hint(None).unwrap_err(), "缺少 file-name 请求头");
    assert!(name_hint(Some("%FF"))
        .unwrap_err()
        .starts_with("文件名解码失败: "));
}

#[test]
fn normalizing_a_normalized_path_changes_nothing() {
    for raw in [" .minecraft\\mods\\a.jar ", "mods/b.jar", "\tconfig\\x.toml"] {
        let once = normalize_client_path(raw).unwrap();
        assert_eq!(normalize_client_path(&once).unwrap(), once);
    }
}

#[test]
fn rules_kept_by_the_operations_load_back_unchanged() {
    let mut rules = PendingChanges::default();
    rules.add_forced_deletion(" .minecraft\\mods\\old.jar ").unwrap();
    rules
        .add_hash_deletion(
            "mods\\b.jar",
            &(" ".to_owned() + &"C".repeat(64)),
            7,
            Some("b.bin".to_owned()),
        )
        .unwrap();
    rules.add_forced_deletion("config/x.toml").unwrap();
    rules.mark_emitted(&vec!["config/x.toml".to_owned()]);
    let loaded = rules.clone().checked().unwrap();
    assert_eq!(loaded.forced_deletions.len(), rules.forced_deletions.len());
    for (a, b) in loaded.forced_deletions.iter().zip(rules.forced_deletions.iter()) {
        assert_eq!(a.path, b.path);
        assert_eq!(a.pending, b.pending);
    }
    assert_eq!(loaded.hash_deletions.len(), 1);
    assert_eq!(loaded.hash_deletions[0].path, "mods/b.jar");
    assert_eq!(loaded.hash_deletions[0].sha256, "c".repeat(64));
    assert_eq!(loaded.hash_deletions[0].sha256, rules.hash_deletions[0].sha256);
    assert_eq!(loaded.hash_deletions[0].staged_file.as_deref(), Some("b.bin"));
}

#[test]
fn a_written_file_gives_its_size_as_length() {
    let meta = VersionMeta::new(
        "v1".to_owned(),
        "notes".to_owned(),
        vec![FileChange::UpdateFile {
            path: "mods/a.jar".to_owned(),
            hash: "h".to_owned(),
            len: 13761,
            modified: 1705651134,
            offset: 98724,
            external_source: None,
        }],
        Vec::new(),
    );
    let serialized = meta.serialize();
    let change = match member(&serialized, "changes") {
        JsonNode::Array(items) => &items[0],
        _ => panic!("changes is not an array"),
    };
    assert!(matches!(member(change, "length"), JsonNode::Number(Some(13761))));
    match change {
        JsonNode::Object(members) => assert!(members.iter().all(|(k, _)| k != "len")),
        _ => panic!("not an object"),
    }
    let loaded = VersionMeta::load(&serialized);
    match &loaded.changes[0] {
        FileChange::UpdateFile { len, offset, .. } => {
            assert_eq!(*len, 13761);
            assert_eq!(*offset, 98724);
        }
        _ => panic!("expected a file"),
    }
}

#[test]
fn adding_then_removing_a_forced_deletion_gives_the_rules_back() {
    let mut rules = PendingChanges::default();
    rules.add_forced_deletion("mods/b.jar").unwrap();
    rules.add_forced_deletion("mods/d.jar").unwrap();
    rules
        .add_hash_deletion("mods/z.jar", &"a".repeat(64), 1, None)
        .unwrap();
    let before: Vec<String> = rules.forced_deletions.iter().map(|f| f.path.clone()).collect();
    assert_eq!(rules.add_forced_deletion(" mods\\c.jar ").unwrap(), "mods/c.jar");
    let listed: Vec<String> = rules.forced_deletions.iter().map(|f| f.path.clone()).collect();
    assert_eq!(listed, vec!["mods/b.jar", "mods/c.jar", "mods/d.jar"]);
    assert_eq!(rules.remove_forced_deletion("MODS/C.JAR"), Ok(true));
    let after: Vec<String> = rules.forced_deletions.iter().map(|f| f.path.clone()).collect();
    assert_eq!(after, before);
    assert_eq!(rules.hash_deletions.len(), 1);
}

#[test]
fn release_notes_are_read_from_fetched_metadata_text() {
    let text = r#"[{"label":"v1","logs":"first","changes":[]},{"label":"v2","logs":"second","changes":[{"operation":"delete-file","path":"a"}]}]"#;
    let logs = fetched_metadata_logs("v2", text).unwrap();
    assert_eq!(
        logs,
        vec![
            ("v1".to_owned(), "first".to_owned()),
            ("v2".to_owned(), "second".to_owned())
        ]
    );
    let error = fetched_metadata_logs("v2", "{not json").unwrap_err();
    assert!(error.starts_with("更新日志元数据解析失败（v2），原因："));
    assert_eq!(
        fetched_metadata_logs("v3", r#"[{"label":"v3"}]"#).unwrap_err(),
        "更新日志元数据无效（v3）"
    );
    assert!(fetched_metadata_logs("v4", "{}").unwrap().is_empty());
}

#[test]
fn a_metadata_group_is_written_as_json_text() {
    let meta = VersionMeta::new("v1".to_owned(), "notes".to_owned(), Vec::new(), Vec::new());
    let text = meta_group_text(&vec![meta]);
    assert_eq!(text, r#"[{"label":"v1","logs":"notes","changes":[]}]"#);
    let logs = fetched_metadata_logs("v1", &text).unwrap();
    assert_eq!(logs, vec![("v1".to_owned(), "notes".to_owned())]);
}
