use mcupdate::bootstrap::{
    download_temp_name, merged_length_error, plan_downloads, segment_copy_error,
    segment_length_error, segment_ranges, AttemptOutcome, BootstrapFile, DownloadRetry,
    DownloadStep,
};
use mcupdate::changelog::{history_entries, metadata_fetches, VersionRange};
use mcupdate::client_profile::UiProfile;
use mcupdate::main_ui::{
    DialogContent, PageAction, PageState, WindowCommand, WindowEffect, WindowState,
};

fn file(path: &str, length: u64) -> BootstrapFile {
    BootstrapFile {
        path: path.to_owned(),
        length,
        sha256: "a".repeat(64),
        external_source: None,
        external_sources: Vec::new(),
    }
}

#[test]
fn segments_cover_the_file_without_gaps() {
    assert_eq!(segment_ranges(10, 4), vec![(0, 0, 3), (1, 3, 6), (2, 6, 9), (3, 9, 10)]);
    // The rounded-up size covers the file in three segments already.
    assert_eq!(segment_ranges(9, 4), vec![(0, 0, 3), (1, 3, 6), (2, 6, 9)]);
    assert_eq!(segment_ranges(7, 1), vec![(0, 0, 7)]);
    assert_eq!(segment_ranges(2, 5), vec![(0, 0, 1), (1, 1, 2)]);
    assert!(segment_ranges(0, 3).is_empty());
}

#[test]
fn each_source_is_tried_three_times_before_the_next() {
    let (mut retry, first) = DownloadRetry::start(
        ".minecraft/mods/a.jar".to_owned(),
        vec!["modrinth".to_owned(), "curseforge".to_owned()],
    );
    assert!(matches!(first, DownloadStep::Attempt { source: 0, attempt: 1 }));
    assert!(matches!(
        retry.record(AttemptOutcome::Failed("timeout".to_owned())),
        DownloadStep::Attempt { source: 0, attempt: 2 }
    ));
    assert!(matches!(
        retry.record(AttemptOutcome::Failed("timeout".to_owned())),
        DownloadStep::Attempt { source: 0, attempt: 3 }
    ));
    assert!(matches!(
        retry.record(AttemptOutcome::DigestMismatch),
        DownloadStep::Attempt { source: 1, attempt: 1 }
    ));
    assert_eq!(
        retry.failures,
        vec!["modrinth: CDN 文件 SHA-256 校验失败（第 3/3 次）".to_owned()]
    );
    assert!(matches!(
        retry.record(AttemptOutcome::Verified),
        DownloadStep::Done
    ));
    retry.record(AttemptOutcome::Failed("a".to_owned()));
    retry.record(AttemptOutcome::Failed("b".to_owned()));
    match retry.record(AttemptOutcome::Failed("refused".to_owned())) {
        DownloadStep::GiveUp(reason) => assert_eq!(
            reason,
            "整合包初始化下载失败(.minecraft/mods/a.jar)，所有来源均失败：modrinth: CDN 文件 SHA-256 校验失败（第 3/3 次）；curseforge: refused"
        ),
        _ => panic!("expected to give up"),
    }
}

#[test]
fn a_file_without_sources_is_given_up_at_once() {
    let (_, step) = DownloadRetry::start("a.jar".to_owned(), Vec::new());
    match step {
        DownloadStep::GiveUp(reason) => {
            assert_eq!(reason, "整合包初始化下载失败(a.jar)，所有来源均失败：")
        }
        _ => panic!("expected to give up"),
    }
}

#[test]
fn installed_files_count_as_done() {
    let files = vec![file("a", 5), file("b", 7), file("c", 11)];
    let (bytes, done, pending) = plan_downloads(&files, &vec![true, false, true]);
    assert_eq!(bytes, 16);
    assert_eq!(done, 2);
    assert_eq!(pending, vec![1]);
    assert_eq!(download_temp_name(7), "0007.download");
    assert_eq!(download_temp_name(12345), "12345.download");
}

fn range(label: &str, filename: &str, offset: u64) -> VersionRange {
    VersionRange {
        label: label.to_owned(),
        filename: filename.to_owned(),
        offset,
        len: 10,
    }
}

#[test]
fn shared_metadata_is_fetched_once_and_notes_follow_the_index() {
    let versions = vec![
        range("v1", "combined.tar", 0),
        range("v2", "combined.tar", 0),
        range("v3", "v3.tar", 5),
    ];
    assert_eq!(metadata_fetches(&versions), vec![0, 2]);
    let metas = vec![
        ("v2".to_owned(), "second".to_owned()),
        ("v1".to_owned(), "first".to_owned()),
        ("v1".to_owned(), "ignored".to_owned()),
    ];
    let entries = history_entries(&versions, &metas);
    assert_eq!(entries.len(), 2);
    assert_eq!(entries[0].label, "v1");
    assert_eq!(entries[0].logs, "first");
    assert_eq!(entries[1].label, "v2");
    assert_eq!(entries[1].logs, "second");
}

#[test]
fn the_entry_animation_plays_once() {
    let mut window = WindowState::new(UiProfile::default());
    let first = window.apply(WindowCommand::PrepareVisible);
    assert!(matches!(first[2], WindowEffect::ShowPlaceholder(true)));
    assert!(matches!(first[3], WindowEffect::HideWindowContent));
    let reveal = window.apply(WindowCommand::RevealVisible);
    assert_eq!(reveal.len(), 3);
    assert!(matches!(reveal[1], WindowEffect::PlayEntryAnimation));
    assert!(window.entry_animation_played);
    let again = window.apply(WindowCommand::RevealVisible);
    assert_eq!(again.len(), 2);
    let second = window.apply(WindowCommand::PrepareVisible);
    assert_eq!(second.len(), 6);
    assert!(matches!(second[2], WindowEffect::ShowPlaceholder(false)));
}

#[test]
fn commands_update_what_the_window_shows() {
    let mut window = WindowState::new(UiProfile::default());
    assert_eq!(window.status, "正在检查更新");
    let effects = window.apply(WindowCommand::SetProgress(456));
    assert!(matches!(
        effects[0],
        WindowEffect::ShowProgress {
            position: 456,
            percent: 45
        }
    ));
    assert_eq!(window.progress, 456);
    window.apply(WindowCommand::SetLabel("正在下载".to_owned()));
    assert_eq!(window.status, "正在下载");
    window.apply(WindowCommand::SetTransfer {
        downloaded: 5,
        total: 9,
    });
    assert_eq!(window.transfer, (5, 9));
    let effects = window.apply(WindowCommand::PopupDialog(DialogContent {
        title: "t".to_owned(),
        content: "c".to_owned(),
        retryable: true,
    }));
    assert!(matches!(&effects[0], WindowEffect::ShowDialog(d) if d.retryable));
    let effects = window.apply(WindowCommand::SetTitle("ignored".to_owned()));
    assert!(matches!(effects[0], WindowEffect::ResetTitle));
}

#[test]
fn renders_common_changelog_markdown() {
    let html = mcupdate::main_ui::render_markdown("## v1.2.3\n\n- **修复**下载\n- `安全`回退");

    assert!(html.contains("<h2>v1.2.3</h2>"));
    assert!(html.contains("<ul>"));
    assert!(html.contains("<strong>修复</strong>"));
    assert!(html.contains("<code>安全</code>"));
}

#[test]
fn sanitizes_untrusted_changelog_html_and_links() {
    let html = mcupdate::main_ui::render_markdown(
        "正常文本<script>alert('x')</script> [危险链接](javascript:alert('x'))",
    );

    assert!(!html.contains("<script"));
    assert!(!html.contains("javascript:"));
    assert!(!html.contains("alert('x')</script>"));
    assert!(html.contains("正常文本"));
}

#[test]
fn soft_line_breaks_become_hard_ones() {
    let html = mcupdate::main_ui::render_markdown("first\nsecond");
    assert!(html.contains("<br>"));
}

#[test]
fn segments_must_arrive_whole() {
    assert_eq!(segment_length_error(0, 10, 10), None);
    assert_eq!(
        segment_length_error(1, 10, 9).unwrap(),
        "CDN 分片长度不符：分片 2 预期 10，实际 9"
    );
    assert_eq!(
        segment_copy_error(0, 10, 3).unwrap(),
        "CDN 分片内容不完整：分片 1 预期 10，实际 3"
    );
    assert_eq!(segment_copy_error(0, 10, 10), None);
    assert_eq!(
        merged_length_error(20, 19).unwrap(),
        "CDN 合并长度不符：预期 20，实际 19"
    );
    assert_eq!(merged_length_error(20, 20), None);
}

#[test]
fn page_messages_drive_the_window() {
    let mut page = PageState::new();
    assert_eq!(page.on_message("ready"), PageAction::Nothing);
    assert!(page.ready);
    assert_eq!(page.on_message("visible"), PageAction::Nothing);
    assert_eq!(page.visible_frames, 1);
    assert_eq!(page.on_message("drag"), PageAction::DragWindow);
    assert_eq!(page.on_message("close"), PageAction::CloseWindow);
    assert_eq!(page.on_message("dialog:yes"), PageAction::AnswerDialog(true));
    assert_eq!(page.on_message("dialog:no"), PageAction::AnswerDialog(false));
    assert_eq!(page.on_message("unknown"), PageAction::Nothing);
    assert_eq!(page.on_message("begin-close"), PageAction::AnimateClose);
    assert_eq!(page.on_message("begin-close"), PageAction::Nothing);
    assert!(page.close_animation_started);
}

#[test]
fn a_window_without_its_page_counts_as_shown() {
    let mut page = PageState::new();
    page.visible_frames = u64::MAX;
    page.without_page();
    assert!(page.ready);
    assert_eq!(page.visible_frames, 1);
}
