use mcupdate::bootstrap::{
    default_true, segment_count, validate_manifest, validate_relative_mod_path, BootstrapFile,
    BootstrapManifest, ExternalSource, FILE_PIECE_LIMIT,
};
use mcupdate::changelog::{history_from_entries, markdown_from_current, ChangelogEntry};
use mcupdate::client_profile::{
    data_url, safe_asset_path, validate_profile, UiProfile, MAX_ICON_DATA_URL_BYTES,
};
use mcupdate::digest::sha256_hex;
use mcupdate::main_ui::{phase_for_status, stage_key, UPDATE_PAGE};
use mcupdate::profile_rules::valid_color;
use mcupdate::release::{normalize_version_label, push_safe_executable, release_startlist};

#[test]
fn restricts_bootstrap_targets_to_direct_mod_jars() {
    assert!(validate_relative_mod_path(".minecraft/mods/example.jar").is_ok());
    assert!(validate_relative_mod_path(".minecraft/mods/../config/secret.jar").is_err());
    assert!(validate_relative_mod_path(".minecraft/config/example.jar").is_err());
    assert!(validate_relative_mod_path("C:/mods/example.jar").is_err());
}

#[test]
fn validates_provider_and_https_source() {
    let valid = BootstrapManifest {
        schema: 1,
        initialize: true,
        files: vec![BootstrapFile {
            path: ".minecraft/mods/example.jar".to_owned(),
            length: 3,
            sha256: sha256_hex(b"abc"),
            external_source: Some(ExternalSource {
                provider: "modrinth".to_owned(),
                url: "https://cdn.example/example.jar".to_owned(),
            }),
            external_sources: Vec::new(),
        }],
    };
    assert!(validate_manifest(&valid).is_ok());
}

#[test]
fn allocates_segments_only_for_large_files_and_available_threads() {
    assert_eq!(segment_count(FILE_PIECE_LIMIT - 1, 5), 1);
    assert_eq!(segment_count(FILE_PIECE_LIMIT, 5), 1);
    assert_eq!(segment_count(FILE_PIECE_LIMIT + 1, 5), 2);
    assert_eq!(segment_count(FILE_PIECE_LIMIT * 20, 5), 5);
    assert_eq!(segment_count(FILE_PIECE_LIMIT * 20, 2), 2);
}

#[test]
fn update_failures_render_inside_the_main_webview() {
    assert!(UPDATE_PAGE.contains("id=\"dialogCard\""));
    assert!(UPDATE_PAGE.contains("window.showDialog"));
    assert!(UPDATE_PAGE.contains("dialog:yes"));
    assert!(UPDATE_PAGE.contains("关闭更新器"));
}

#[test]
fn entry_animation_grows_rotates_and_fades_in() {
    assert!(UPDATE_PAGE.contains("scale(.4) rotate(30deg)"));
    assert!(UPDATE_PAGE.contains("scale(1) rotate(0deg)"));
    assert!(UPDATE_PAGE.contains("window.playEnterAnimation"));
}

#[test]
fn rejects_unsafe_icon_paths() {
    assert!(safe_asset_path("assets/updater.png"));
    assert!(!safe_asset_path("../updater.png"));
    assert!(!safe_asset_path("https://example.invalid/icon.png"));

    let mut profile = UiProfile::default();
    profile.background_image = "../background.png".to_owned();
    assert!(validate_profile(profile).is_none());
}

#[test]
fn accepts_png_data_url() {
    assert!(data_url(b"\x89PNG\r\n\x1a\nrest")
        .unwrap()
        .starts_with("data:image/png"));
}

#[test]
fn accepts_animated_gif_data_url_even_with_a_png_asset_path() {
    assert!(data_url(b"GIF89arest")
        .unwrap()
        .starts_with("data:image/gif"));
}

#[test]
fn accepts_only_six_digit_theme_colors() {
    assert!(valid_color("#147d67"));
    assert!(valid_color("#AABBCC"));
    assert!(!valid_color("147d67"));
    assert!(!valid_color("#abcd"));
    assert!(!valid_color("red"));
}

#[test]
fn clamps_launch_label_offset_to_safe_layout_range() {
    let mut profile = UiProfile::default();
    profile.launch_label_offset_x = 100;
    assert_eq!(validate_profile(profile).unwrap().launch_label_offset_x, 24);

    let mut profile = UiProfile::default();
    profile.launch_label_offset_x = -100;
    assert_eq!(
        validate_profile(profile).unwrap().launch_label_offset_x,
        -24
    );
}

#[test]
fn rejects_oversized_cached_icon_instead_of_truncating_it() {
    let mut profile = UiProfile::default();
    profile.icon_data_url = format!(
        "data:image/png;base64,{}",
        "A".repeat(MAX_ICON_DATA_URL_BYTES)
    );
    assert!(validate_profile(profile).is_none());
}

#[test]
fn complete_history_is_newest_first_without_a_count_limit() {
    let entries = (0..1_200)
        .map(|index| ChangelogEntry {
            label: format!("v{index}"),
            logs: format!("change {index}"),
        })
        .collect::<Vec<_>>();

    let history = history_from_entries(&entries);
    assert_eq!(history.entry_count, 1_200);
    assert!(history.markdown.starts_with("## v1199\n\nchange 1199"));
    assert!(history.markdown.ends_with("## v0\n\nchange 0"));
}

#[test]
fn empty_log_is_still_visible_in_history() {
    let history = history_from_entries(&[ChangelogEntry {
        label: "v1".to_owned(),
        logs: String::new(),
    }]);
    assert!(history.markdown.contains("本版本未提供更新说明"));
}

#[test]
fn version_labels_are_safe_for_windows_file_names() {
    assert_eq!(normalize_version_label("v0.0.5"), "0.0.5");
    assert_eq!(
        normalize_version_label("release/test build"),
        "release-test-build"
    );
}

#[test]
fn startlist_entries_are_local_executables_and_case_insensitive_unique() {
    let mut names = Vec::new();
    let mut seen = Vec::new();
    for name in [
        "AutoUpdateClient-new.exe",
        "autoupdateclient-NEW.EXE",
        "../outside.exe",
        "nested/client.exe",
        "notes.txt",
        "AutoUpdateClient.exe",
    ] {
        push_safe_executable(&mut names, &mut seen, name);
    }

    assert_eq!(
        names,
        vec!["AutoUpdateClient-new.exe", "AutoUpdateClient.exe"]
    );
}

#[test]
fn release_startlist_keeps_previous_entries_once() {
    let previous = vec![
        " AutoUpdateClient-old.exe ".to_owned(),
        "AUTOUPDATECLIENT-NEW.exe".to_owned(),
        "".to_owned(),
    ];
    let names = release_startlist("AutoUpdateClient-new.exe", &previous);
    assert_eq!(
        names,
        vec![
            "AutoUpdateClient-new.exe",
            "AutoUpdateClient-old.exe",
            "AutoUpdateClient.exe"
        ]
    );
}

#[test]
fn manifest_defaults_ask_for_initialization() {
    assert!(default_true());
}

#[test]
fn manifest_rejects_unknown_schema_and_plain_http() {
    let mut manifest = BootstrapManifest {
        schema: 2,
        initialize: true,
        files: Vec::new(),
    };
    assert_eq!(
        validate_manifest(&manifest).unwrap_err(),
        "不支持的整合包初始化清单版本：2"
    );
    manifest.schema = 1;
    manifest.files.push(BootstrapFile {
        path: ".minecraft/mods/a.jar".to_owned(),
        length: 3,
        sha256: "a".repeat(64),
        external_source: Some(ExternalSource {
            provider: "modrinth".to_owned(),
            url: "http://cdn.example/a.jar".to_owned(),
        }),
        external_sources: Vec::new(),
    });
    assert_eq!(
        validate_manifest(&manifest).unwrap_err(),
        "整合包初始化清单含有无效文件记录：.minecraft/mods/a.jar"
    );
}

#[test]
fn duplicate_sources_are_offered_once() {
    let source = ExternalSource {
        provider: "modrinth".to_owned(),
        url: "https://cdn.example/a.jar".to_owned(),
    };
    let file = BootstrapFile {
        path: ".minecraft/mods/a.jar".to_owned(),
        length: 3,
        sha256: "a".repeat(64),
        external_source: Some(source.clone()),
        external_sources: vec![source.clone(), source],
    };
    assert_eq!(file.sources().len(), 1);
}

#[test]
fn markdown_from_current_lists_newest_first() {
    let markdown = markdown_from_current(vec![
        ("v1".to_owned(), " first ".to_owned()),
        ("v2".to_owned(), "second".to_owned()),
    ]);
    assert_eq!(markdown, "## v2\n\nsecond\n\n## v1\n\nfirst");
}

#[test]
fn status_lines_map_to_phases_and_stages() {
    assert_eq!(phase_for_status("正在下载文件"), "正在下载更新");
    assert_eq!(phase_for_status("正在清理临时文件"), "正在应用更新");
    assert_eq!(phase_for_status("没有更新"), "客户端已是最新版本");
    assert_eq!(phase_for_status("正在收集元数据"), "正在检查更新");
    assert_eq!(phase_for_status("启动"), "正在准备更新");
    assert_eq!(stage_key("正在下载更新"), "downloading");
    assert_eq!(stage_key("客户端已是最新版本"), "completed");
    assert_eq!(stage_key("其他"), "prepare");
}

#[test]
fn sha256_of_abc_is_the_known_digest() {
    assert_eq!(
        sha256_hex(b"abc"),
        "ba7816bf8f01cfea414140de5dae2223b00361a396177a9cb410ff61f20015ad"
    );
}

/// A profile of the first schema names only some theme colours and none of
/// the text colours; every field it omits reads as its default.
#[test]
fn old_profile_uses_existing_text_colors_for_brand_copy() {
    let mut profile = UiProfile::default();
    profile.schema = 1;
    profile.headline = "A".to_owned();
    profile.subtitle = "B".to_owned();
    profile.footer = "C".to_owned();
    profile.headline_color = String::new();
    profile.subtitle_color = String::new();
    profile.footer_color = String::new();
    profile.traffic_color = String::new();
    profile.theme.text = "#112233".to_owned();
    profile.theme.muted = "#445566".to_owned();
    let profile = validate_profile(profile).unwrap();
    assert_eq!(profile.headline_color, "#112233");
    assert_eq!(profile.subtitle_color, "#445566");
    assert_eq!(profile.footer_color, "#445566");
    assert_eq!(profile.traffic_color, "#112233");
}

#[test]
fn release_startlist_puts_the_fixed_name_last() {
    let previous = vec![
        "AutoUpdateClient.exe".to_owned(),
        "AutoUpdateClient-old.exe".to_owned(),
        "autoupdateclient.EXE".to_owned(),
    ];
    let names = release_startlist("AutoUpdateClient-new.exe", &previous);
    assert_eq!(
        names,
        vec![
            "AutoUpdateClient-new.exe",
            "AutoUpdateClient-old.exe",
            "AutoUpdateClient.exe"
        ]
    );
}

#[test]
fn images_are_inlined_as_standard_padded_base64() {
    let png_signature = [0x89u8, 0x50, 0x4E, 0x47, 0x0D, 0x0A, 0x1A, 0x0A];
    assert_eq!(
        data_url(&png_signature).unwrap(),
        "data:image/png;base64,iVBORw0KGgo="
    );
}
