use mcupdate::bootstrap_resolver::{validate_request, BootstrapCandidate, BootstrapResolveRequest, MAX_FILES};
use mcupdate::curseforge::{curseforge_cdn_url, murmur2_hash32};
use mcupdate::images::supported_image;
use mcupdate::manager_profile::UiProfile;
use mcupdate::modrinth::is_client_mod_jar;
use mcupdate::pending_changes::{normalize_client_path, PendingChanges};
use mcupdate::personalization::managed_asset_path;
use mcupdate::manager_profile::{BACKGROUND_ASSET_PATH, ICON_ASSET_PATH};
use mcupdate::updater_source::is_windows_pe;
use mcupdate::version_history::history_response;
use mcupdate::version_meta::{ClientHashDeletion, FileChange, VersionMeta};
use mcupdate::workspace_files::{preview_content_type, workspace_path};

fn candidate(path: &str) -> BootstrapCandidate {
    BootstrapCandidate {
        path: path.to_owned(),
        length: 1,
        sha256: "a".repeat(64),
        sha1: "b".repeat(40),
        curseforge_fingerprint: 42,
    }
}

#[test]
fn accepts_only_bounded_mod_jar_inventory() {
    assert!(validate_request(&BootstrapResolveRequest {
        schema: 1,
        files: vec![candidate(".minecraft/mods/example.jar")]
    })
    .is_ok());
    assert!(validate_request(&BootstrapResolveRequest {
        schema: 1,
        files: vec![candidate(".minecraft/config/example.jar")]
    })
    .is_err());
    assert!(validate_request(&BootstrapResolveRequest {
        schema: 1,
        files: vec![candidate(".minecraft/mods/../secret.jar")]
    })
    .is_err());
    assert!(validate_request(&BootstrapResolveRequest {
        schema: 1,
        files: vec![candidate(".minecraft/mods/a.jar"); MAX_FILES + 1]
    })
    .is_err());
}

#[test]
fn resolver_errors_name_the_rule() {
    assert_eq!(
        validate_request(&BootstrapResolveRequest { schema: 7, files: Vec::new() }).unwrap_err(),
        "unsupported bootstrap resolver schema: 7"
    );
    assert_eq!(
        validate_request(&BootstrapResolveRequest {
            schema: 1,
            files: vec![candidate(".minecraft/mods/a.jar"); MAX_FILES + 1]
        })
        .unwrap_err(),
        "too many bootstrap candidates: 2001 > 2000"
    );
    let mut bad = candidate(".minecraft/mods/a.jar");
    bad.sha1 = "z".repeat(40);
    assert_eq!(
        validate_request(&BootstrapResolveRequest { schema: 1, files: vec![bad] }).unwrap_err(),
        "invalid bootstrap candidate fingerprint: .minecraft/mods/a.jar"
    );
}

#[test]
fn builds_pcl_compatible_curseforge_cdn_url() {
    assert_eq!(
        curseforge_cdn_url(
            "https://mediafilez.forgecdn.net/files",
            3424504,
            "example file.jar"
        ),
        "https://mediafilez.forgecdn.net/files/3424/504/example%20file.jar",
    );
}

#[test]
fn cdn_url_drops_trailing_slashes_of_the_base() {
    assert_eq!(
        curseforge_cdn_url("https://cdn.example/files//", 7, "a+b.jar"),
        "https://cdn.example/files/0/7/a%2Bb.jar"
    );
}

#[test]
fn murmur2_is_stable_for_curseforge_seed() {
    assert_eq!(murmur2_hash32(b"hello", 1), 0xa631_918e);
    assert_eq!(murmur2_hash32(b"h e\nl\tl\ro", 1), 0xa631_918e);
}

#[test]
fn only_accepts_client_mod_jars() {
    assert!(is_client_mod_jar(".minecraft/mods/example.jar"));
    assert!(!is_client_mod_jar(".minecraft/config/example.jar"));
    assert!(!is_client_mod_jar(".minecraft/mods/example.zip"));
}

#[test]
fn mod_jar_check_ignores_case_and_backslashes() {
    assert!(is_client_mod_jar(".MINECRAFT\\Mods\\Example.JAR"));
}

#[test]
fn normalizes_safe_client_paths() {
    assert_eq!(
        normalize_client_path(r#".minecraft\mods\old.jar"#).unwrap(),
        ".minecraft/mods/old.jar"
    );
}

#[test]
fn rejects_path_escape_and_absolute_paths() {
    assert!(normalize_client_path("../mods/old.jar").is_err());
    assert!(normalize_client_path("C:/mods/old.jar").is_err());
    assert!(normalize_client_path("/mods/old.jar").is_err());
}

#[test]
fn forced_deletions_are_deduplicated_and_rearmed() {
    let mut state = PendingChanges::default();
    let path = state
        .add_forced_deletion(".minecraft/mods/old.jar")
        .unwrap();
    state.mark_emitted(&vec![path.clone()]);
    assert!(!state.forced_deletions[0].pending);

    state
        .add_forced_deletion(".minecraft/mods/old.jar")
        .unwrap();
    assert_eq!(state.forced_deletions.len(), 1);
    assert!(state.forced_deletions[0].pending);
}

#[test]
fn hash_deletions_are_exact_deduplicated_and_bounded() {
    let mut state = PendingChanges::default();
    let hash = "a".repeat(64);
    let path = ".minecraft/mods/old.jar";
    state.add_hash_deletion(path, &hash, 42, None).unwrap();
    let owned_path = path.to_owned();
    state.mark_hash_emitted(&vec![owned_path]);
    assert!(!state.hash_deletions[0].pending);
    state.add_hash_deletion(path, &hash, 43, None).unwrap();
    assert_eq!(state.hash_deletions.len(), 1);
    assert_eq!(state.hash_deletions[0].len, 43);
    assert!(state.hash_deletions[0].pending);
    assert!(state
        .add_hash_deletion("../bad.jar", &"b".repeat(64), 1, None)
        .is_err());
    assert!(state.add_hash_deletion(path, "bad", 1, None).is_err());
}

#[test]
fn exact_path_delete_modes_are_mutually_exclusive() {
    let mut state = PendingChanges::default();
    let path = ".minecraft/mods/old.jar";
    state
        .add_hash_deletion(path, &"a".repeat(64), 42, None)
        .unwrap();
    assert!(state
        .add_forced_deletion(".MINECRAFT/MODS/OLD.JAR")
        .is_err());

    state.remove_hash_deletion(path).unwrap();
    state.add_forced_deletion(path).unwrap();
    assert!(state
        .add_hash_deletion(".MINECRAFT/MODS/OLD.JAR", &"b".repeat(64), 42, None)
        .is_err());
}

#[test]
fn removing_a_forced_deletion_reports_whether_it_existed() {
    let mut state = PendingChanges::default();
    state.add_forced_deletion(".minecraft/mods/old.jar").unwrap();
    assert_eq!(state.remove_forced_deletion(".MINECRAFT/mods/OLD.jar"), Ok(true));
    assert_eq!(state.remove_forced_deletion(".minecraft/mods/old.jar"), Ok(false));
    assert!(state.forced_deletions.is_empty());
}

#[test]
fn rejects_unmanaged_asset_paths() {
    let mut profile = UiProfile::default();
    profile.background_image = "../secret.png".to_owned();
    assert!(profile.validate().is_err());
}

#[test]
fn validates_colors_and_clamps_offset() {
    let mut profile = UiProfile::default();
    profile.launch_label_offset_x = 100;
    assert_eq!(profile.validate().unwrap().launch_label_offset_x, 24);

    let mut profile = UiProfile::default();
    profile.theme.accent = "red".to_owned();
    assert!(profile.validate().is_err());
}

#[test]
fn empty_text_colours_follow_the_theme() {
    let mut profile = UiProfile::default();
    profile.headline_color = String::new();
    profile.subtitle_color = String::new();
    let profile = profile.validate().unwrap();
    assert_eq!(profile.headline_color, profile.theme.text);
    assert_eq!(profile.subtitle_color, profile.theme.muted);
}

#[test]
fn recognizes_managed_image_kinds_only() {
    assert_eq!(managed_asset_path("icon"), Some(ICON_ASSET_PATH));
    assert_eq!(
        managed_asset_path("background"),
        Some(BACKGROUND_ASSET_PATH)
    );
    assert_eq!(managed_asset_path("../../config"), None);
}

#[test]
fn recognizes_supported_image_magic() {
    assert!(supported_image(b"\x89PNG\r\n\x1a\nrest"));
    assert!(supported_image(b"GIF89arest"));
    assert!(supported_image(b"RIFF0000WEBPrest"));
    assert!(!supported_image(b"<svg></svg>"));
}

#[test]
fn accepts_pe_and_rejects_extension_only_files() {
    let mut pe = vec![0u8; 0x84];
    pe[..2].copy_from_slice(b"MZ");
    pe[0x3c..0x40].copy_from_slice(&(0x80u32).to_le_bytes());
    pe[0x80..0x84].copy_from_slice(b"PE\0\0");
    assert!(is_windows_pe(&pe));
    assert!(!is_windows_pe(b"MZ fake exe"));
    assert!(!is_windows_pe(b"not an exe"));
}

#[test]
fn preview_only_assigns_safe_inline_types() {
    assert_eq!(preview_content_type("notice.md"), "text/plain; charset=utf-8");
    assert_eq!(preview_content_type("image.png"), "image/png");
    assert_eq!(preview_content_type("manual.pdf"), "application/pdf");
    assert_eq!(preview_content_type("page.html"), "application/octet-stream");
    assert_eq!(preview_content_type("icon.svg"), "application/octet-stream");
    assert_eq!(preview_content_type("mod.jar"), "application/octet-stream");
}

#[test]
fn preview_type_ignores_extension_case_and_dot_files() {
    assert_eq!(preview_content_type("dir/PHOTO.JPEG"), "image/jpeg");
    assert_eq!(preview_content_type(".md"), "application/octet-stream");
}

#[test]
fn workspace_paths_stay_beneath_the_workspace() {
    assert_eq!(workspace_path("mods/example.jar", false).unwrap(), "mods/example.jar");
    assert_eq!(workspace_path("", true).unwrap(), "");
    assert!(workspace_path("", false).is_err());
    for unsafe_path in [
        "../config.toml",
        "mods/../config.toml",
        "/etc/passwd",
        "C:\\Windows\\win.ini",
        "C:/Windows/win.ini",
        "C:relative.txt",
        "./mods",
    ] {
        assert!(workspace_path(unsafe_path, false).is_err());
    }
}

#[test]
fn preserves_every_historical_operation_and_count() {
    let changes = vec![
        FileChange::CreateFolder { path: "a".into() },
        FileChange::UpdateFile {
            path: "a/new.jar".into(),
            hash: "hash".into(),
            len: 42,
            modified: 0,
            offset: 0,
            external_source: None,
        },
        FileChange::MoveFile {
            from: "a/old".into(),
            to: "a/new".into(),
        },
        FileChange::DeleteFile {
            path: "a/gone".into(),
        },
        FileChange::DeleteFolder {
            path: "empty".into(),
        },
    ];
    let meta = VersionMeta::new(
        "v1".into(),
        "notes".into(),
        changes,
        vec![ClientHashDeletion {
            path: "legacy.jar".into(),
            sha256: "a".repeat(64),
            len: 9,
        }],
    );

    let response = history_response("v1.tar".into(), "package".into(), 100, meta);
    assert_eq!(response.counts.total, 6);
    assert_eq!(response.counts.files, 1);
    assert_eq!(response.counts.deletions, 1);
    assert_eq!(response.counts.moves, 1);
    assert_eq!(response.counts.directories, 2);
    assert_eq!(response.counts.hash_deletions, 1);
    assert_eq!(response.payload_size, 42);
    assert_eq!(response.changes[5].operation, "delete-file-by-hash");
}

/// A profile of the first schema without a background image nor text
/// colours; every field it omits reads as its default.
#[test]
fn accepts_old_profile_without_background() {
    let mut profile = UiProfile::default();
    profile.schema = 1;
    profile.headline = "A".to_owned();
    profile.subtitle = "B".to_owned();
    profile.footer = "C".to_owned();
    profile.headline_color = String::new();
    profile.subtitle_color = String::new();
    profile.footer_color = String::new();
    profile.traffic_color = String::new();
    profile.icon = "assets/updater.png".to_owned();
    profile.theme.accent = "#147d67".to_owned();
    profile.theme.text = "#112233".to_owned();
    profile.theme.muted = "#445566".to_owned();
    let profile = profile.validate().unwrap();
    assert!(profile.background_image.is_empty());
    assert_eq!(profile.icon, ICON_ASSET_PATH);
    assert_eq!(profile.headline_color, "#112233");
    assert_eq!(profile.subtitle_color, "#445566");
    assert_eq!(profile.footer_color, "#445566");
    assert_eq!(profile.traffic_color, "#112233");
}
