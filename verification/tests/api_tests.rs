use mcupdate::bootstrap::{max_segments_for, total_bytes, BootstrapFile, BootstrapManifest};
use mcupdate::client_app::{launched_manually, startup_parameters};
use mcupdate::client_profile::{apply_downloaded_images, UiProfile as ClientProfile};
use mcupdate::disks::{
    collapse_backslashes, disk_holds, disk_usage, without_verbatim_prefix, DiskEntry,
    UNKNOWN_DISK_SPACE,
};
use mcupdate::log_buffer::{level_name, LogLevel};
use mcupdate::manager_profile::{UiProfile, ICON_ASSET_PATH};
use mcupdate::pending_changes::{path_key, paths_equal};
use mcupdate::personalization::{
    apply_profile_update, check_image_upload, with_uploaded_image, without_image,
    UpdateProfileRequest,
};
use mcupdate::updater_source::{check_updater_upload, missing_status};
use mcupdate::version_history::history_label;
use mcupdate::web_types::{count_file, fingerprint_upload_too_large, DirectoryStats};
use mcupdate::workspace_files::{check_signature, hash, SignatureCheck};

#[test]
fn log_levels_have_lowercase_names() {
    assert_eq!(level_name(LogLevel::Debug), "debug");
    assert_eq!(level_name(LogLevel::Warning), "warning");
    assert_eq!(level_name(LogLevel::Error), "error");
}

#[test]
fn updater_uploads_must_be_windows_executables() {
    let status = missing_status();
    assert!(!status.exists);
    assert_eq!(status.size, 0);
    assert!(check_updater_upload(&[]).is_err());
    assert_eq!(
        check_updater_upload(b"not an exe").unwrap_err(),
        "文件不是有效的 Windows PE 可执行程序"
    );
    let mut pe = vec![0u8; 0x48];
    pe[0] = b'M';
    pe[1] = b'Z';
    pe[0x3c] = 0x40;
    pe[0x40..0x44].copy_from_slice(b"PE\0\0");
    assert!(check_updater_upload(&pe).is_ok());
}

#[test]
fn paths_compare_without_ascii_case() {
    assert_eq!(path_key("Mods/A.JAR"), "mods/a.jar");
    assert!(paths_equal("Mods/A.jar", "mods/a.JAR"));
    assert!(!paths_equal("mods/a.jar", "mods/b.jar"));
}

fn bootstrap_file(length: u64) -> BootstrapFile {
    BootstrapFile {
        path: ".minecraft/mods/a.jar".to_owned(),
        length,
        sha256: "a".repeat(64),
        external_source: None,
        external_sources: Vec::new(),
    }
}

#[test]
fn downloads_share_the_threads_and_sum_the_sizes() {
    assert_eq!(max_segments_for(1), 5);
    assert_eq!(max_segments_for(2), 2);
    assert_eq!(max_segments_for(9), 1);
    let manifest = BootstrapManifest {
        schema: 1,
        initialize: true,
        files: vec![bootstrap_file(3), bootstrap_file(4)],
    };
    assert_eq!(total_bytes(&manifest), 7);
}

#[test]
fn history_labels_are_trimmed_and_bounded() {
    assert_eq!(history_label(" v1 ").unwrap(), "v1");
    assert_eq!(history_label("  ").unwrap_err(), "版本号无效");
    assert!(history_label(&"x".repeat(241)).is_err());
}

#[test]
fn fingerprint_uploads_and_directory_totals_are_bounded() {
    assert!(!fingerprint_upload_too_large(1024 * 1024 * 1024));
    assert!(fingerprint_upload_too_large(1024 * 1024 * 1024 + 1));
    let stats = count_file(DirectoryStats { bytes: u64::MAX - 1, files: 2 }, 5);
    assert_eq!(stats.bytes, u64::MAX);
    assert_eq!(stats.files, 3);
    let full = count_file(DirectoryStats { bytes: 0, files: u64::MAX }, 1);
    assert_eq!(full.files, u64::MAX);
}

#[test]
fn manual_launches_show_the_history() {
    let args = |list: &[&str]| list.iter().map(|a| a.to_string()).collect::<Vec<_>>();
    assert!(launched_manually(&args(&["c.exe", "--show-history"]), None));
    assert!(!launched_manually(&args(&["c.exe", "--automatic"]), Some("explorer.exe")));
    assert!(launched_manually(&args(&["c.exe"]), Some("EXPLORER.EXE")));
    assert!(!launched_manually(&args(&["c.exe"]), Some("cmd.exe")));
    let params = startup_parameters(true);
    assert!(params.graphic_mode && params.standalone_progress && !params.disable_log_file);
    assert!(params.manual_history);
}

#[test]
fn signed_links_name_their_path_and_expiry() {
    let digest = hash("mods/a.jar:99:admin@secret");
    let sign = format!("mods/a.jar:99:{digest}");
    match check_signature(&sign, "admin", "secret") {
        SignatureCheck::Valid { path, expire } => {
            assert_eq!(path, "mods/a.jar");
            assert_eq!(expire, 99);
        }
        _ => panic!("expected a valid link"),
    }
    assert!(matches!(
        check_signature(&sign, "admin", "other"),
        SignatureCheck::Mismatch
    ));
    assert!(matches!(
        check_signature("mods/a.jar:soon:x", "admin", "secret"),
        SignatureCheck::Malformed
    ));
}

#[test]
fn profile_edits_are_checked_and_images_managed() {
    let profile = UiProfile::default();
    let request = UpdateProfileRequest {
        headline: "新标题".to_owned(),
        subtitle: profile.subtitle.clone(),
        footer: profile.footer.clone(),
        headline_color: None,
        subtitle_color: Some("#000000".to_owned()),
        footer_color: None,
        launch_label_offset_x: 100,
        theme: profile.theme.clone(),
    };
    let updated = apply_profile_update(profile.clone(), request).unwrap();
    assert_eq!(updated.headline, "新标题");
    assert_eq!(updated.subtitle_color, "#000000");
    assert_eq!(updated.launch_label_offset_x, 24);

    let bad = UpdateProfileRequest {
        headline: " ".to_owned(),
        subtitle: profile.subtitle.clone(),
        footer: profile.footer.clone(),
        headline_color: None,
        subtitle_color: None,
        footer_color: None,
        launch_label_offset_x: 0,
        theme: profile.theme.clone(),
    };
    assert!(apply_profile_update(profile.clone(), bad).is_err());

    assert!(check_image_upload(None, b"x").is_err());
    assert!(check_image_upload(Some("banner"), b"x").is_err());
    let with_icon = with_uploaded_image(profile.clone(), "icon");
    assert_eq!(with_icon.icon, ICON_ASSET_PATH);
    assert_eq!(without_image(with_icon, "icon").icon, "");
}

#[test]
fn downloaded_images_replace_the_cached_ones_when_usable() {
    let mut profile = ClientProfile::default();
    profile.icon = "assets/updater.png".to_owned();
    let mut cached = ClientProfile::default();
    cached.icon_data_url = "data:image/png;base64,AAAA".to_owned();
    let kept = apply_downloaded_images(profile.clone(), &cached, Some(b"not an image".to_vec()), None)
        .unwrap();
    assert_eq!(kept.icon_data_url, "data:image/png;base64,AAAA");
    let png = [0x89u8, b'P', b'N', b'G', 0x0d, 0x0a, 0x1a, 0x0a];
    let fresh = apply_downloaded_images(profile, &cached, Some(png.to_vec()), None).unwrap();
    assert_eq!(fresh.icon_data_url, "data:image/png;base64,iVBORw0KGgo=");
}

fn disk(name: &str, mount: &str, total: u64, available: u64) -> DiskEntry {
    DiskEntry {
        name: name.to_owned(),
        mount_point: mount.to_owned(),
        total,
        available,
    }
}

#[test]
fn mount_points_have_doubled_backslashes_collapsed() {
    assert_eq!(collapse_backslashes("C:\\\\"), "C:\\");
    assert_eq!(collapse_backslashes("\\\\\\"), "\\\\");
    assert_eq!(collapse_backslashes("/mnt/data"), "/mnt/data");
    assert!(disk_holds("C:\\work\\manager", "C:\\\\"));
    assert!(!disk_holds("D:\\work", "C:\\"));
}

#[test]
fn the_last_disk_holding_the_working_directory_is_reported() {
    let disks = vec![
        disk("root", "/", 100, 40),
        disk("data", "/data", 50, 20),
        disk("other", "/other", 10, 1),
    ];
    let usage = disk_usage("/data/manager", &disks);
    assert_eq!(usage.dev, "data");
    assert_eq!(usage.used, 30);
    assert_eq!(usage.total, 50);
    let usage = disk_usage("/srv/manager", &disks);
    assert_eq!(usage.dev, "root");
    assert_eq!(usage.used, 60);
}

#[test]
fn no_disk_holding_the_working_directory_reports_an_unknown_one() {
    let usage = disk_usage("relative/path", &vec![disk("root", "/", 100, 40)]);
    assert_eq!(usage.dev, "none");
    assert_eq!(usage.used, UNKNOWN_DISK_SPACE);
    assert_eq!(usage.total, 1024u64 * 1024 * 1024 * 1024 * 1024);
}

#[test]
fn verbatim_windows_prefix_is_removed() {
    assert_eq!(without_verbatim_prefix("\\\\?\\C:\\work"), "C:\\work");
    assert_eq!(without_verbatim_prefix("C:\\work"), "C:\\work");
}
