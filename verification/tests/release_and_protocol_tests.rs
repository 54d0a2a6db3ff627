use mcupdate::private_protocol::{request_bytes, response_length, BodyRead, ReadEnd, ReadReport};
use mcupdate::release::{artifact_names, release_version_label};

#[test]
fn the_release_label_comes_from_the_first_setting_given() {
    assert_eq!(release_version_label(Some("v1.2"), Some("v9"), Some("abc")), "1.2");
    assert_eq!(release_version_label(None, Some("release/x y"), None), "release-x-y");
    assert_eq!(release_version_label(None, None, Some(" 0123abcd \n")), "0123abcd");
    assert_eq!(release_version_label(None, None, Some("  ")), "development");
    assert_eq!(release_version_label(None, None, None), "development");
}

#[test]
fn windows_releases_carry_symbols() {
    let names = artifact_names("my-client", "c", "1.0", "x86_64-pc-windows-msvc");
    assert!(names.is_windows);
    assert_eq!(names.artifact, "my-client.exe");
    assert_eq!(names.artifact_versioned, "c-1.0-x86_64-pc-windows-msvc.exe");
    assert_eq!(names.symbols.as_deref(), Some("my_client.pdb"));
    assert_eq!(
        names.symbols_versioned.as_deref(),
        Some("c-1.0-x86_64-pc-windows-msvc.pdb")
    );
    let linux = artifact_names("client", "c", "1.0", "x86_64-unknown-linux-gnu");
    assert!(!linux.is_windows);
    assert_eq!(linux.artifact, "client");
    assert_eq!(linux.artifact_versioned, "c-1.0-x86_64-unknown-linux-gnu");
    assert!(linux.symbols.is_none());
}

#[test]
fn requests_frame_the_path_and_the_range() {
    let bytes = request_bytes("ab", 1, 258);
    assert_eq!(
        bytes,
        vec![2, 0, 0, 0, 0, 0, 0, 0, b'a', b'b', 1, 0, 0, 0, 0, 0, 0, 0, 2, 1, 0, 0, 0, 0, 0, 0]
    );
}

#[test]
fn negative_statuses_are_refused() {
    assert_eq!(response_length(7, 0, "p", "d"), Ok(7));
    assert_eq!(
        response_length(-2, 3, "index.json", "index").unwrap_err(),
        "私有协议(3)接收到的状态码 -2 不正确: index.json (index)"
    );
    assert!(response_length(i64::MIN, 0, "p", "d")
        .unwrap_err()
        .contains("-9223372036854775808"));
}

#[test]
fn a_body_ending_early_drops_the_connection() {
    let mut body = BodyRead {
        remaining: 10,
        connection_kept: true,
    };
    assert_eq!(body.limit(4), 4);
    assert!(matches!(body.after_read(ReadEnd::Filled(4)), ReadReport::Ready));
    assert_eq!(body.remaining, 6);
    assert_eq!(body.limit(100), 6);
    assert!(matches!(body.after_read(ReadEnd::Filled(0)), ReadReport::EndedEarly));
    assert_eq!(body.remaining, 0);
    assert!(!body.connection_kept);

    let mut failing = BodyRead {
        remaining: 3,
        connection_kept: true,
    };
    assert!(matches!(failing.after_read(ReadEnd::Failed), ReadReport::Failed));
    assert!(!failing.connection_kept);
}
