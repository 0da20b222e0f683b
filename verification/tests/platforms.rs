use pc_cleaner::path::{FilePath, PathPart};
use pc_cleaner::platform::unknown::UnknownPlatform;
use pc_cleaner::platform::windows::{
    elevate_error_message, is_under, is_win32_error, join_args, join_win, normalize, quote_arg,
    runas_error, trash_error_message, TrashError, WindowsPlatform,
};
use pc_cleaner::platform::{
    should_relaunch, ElevateError, KnownDir, Platform, PlatformError, RestoreItemOutcome,
};

fn path(text: &str) -> FilePath {
    let mut parts = vec![PathPart::RootDir];
    for name in text.split('/') {
        if !name.is_empty() {
            parts.push(PathPart::Normal(name.to_string()));
        }
    }
    FilePath { text: text.to_string(), parts }
}

// ---- The boundary ----

#[test]
fn should_relaunch_decision_table() {
    assert!(!should_relaunch(false, false, false));
    assert!(!should_relaunch(false, true, false));
    assert!(!should_relaunch(false, false, true));
    assert!(!should_relaunch(false, true, true));

    assert!(should_relaunch(true, false, false));

    assert!(!should_relaunch(true, true, false));
    assert!(!should_relaunch(true, true, true));

    assert!(!should_relaunch(true, false, true));
}

#[test]
fn elevate_error_display_is_non_empty_japanese_text() {
    let variants = [
        ElevateError::Cancelled,
        ElevateError::AlreadyElevated,
        ElevateError::CurrentExeUnavailable("boom".to_string()),
        ElevateError::Failed("boom".to_string()),
        ElevateError::Unsupported,
    ];
    for variant in variants {
        let text = variant.message();
        assert!(!text.is_empty());
        assert!(!text.contains('{'));
    }
}

#[test]
fn platform_errors_have_texts() {
    assert_eq!(PlatformError::Io("x".to_string()).message(), "I/O エラー: x");
    assert_eq!(PlatformError::Trash("x".to_string()).message(), "ゴミ箱送りに失敗しました: x");
    assert_eq!(
        PlatformError::Unsupported("to_trash").message(),
        "この OS では未対応の操作です: to_trash"
    );
}

#[test]
fn unknown_platform_is_unsupported_and_fails_safe() {
    let platform = UnknownPlatform::new();
    assert_eq!(platform.known_dir(KnownDir::UserTemp), None);
    assert_eq!(platform.known_dir(KnownDir::Downloads), None);
    assert!(matches!(
        platform.to_trash(&path("/tmp/foo")),
        Err(PlatformError::Unsupported("to_trash"))
    ));
    assert!(platform.requires_admin(&path("/tmp/foo")));
    assert_eq!(platform.config_dir(), None);
    assert!(!platform.is_elevated());
    assert!(matches!(platform.elevate(&[]), Err(ElevateError::Unsupported)));
    assert!(matches!(platform.list_trash(), Err(PlatformError::Unsupported("list_trash"))));
    let results = platform.restore_from_trash(&["a".to_string(), "b".to_string()]);
    assert_eq!(results.len(), 2);
    assert!(results
        .iter()
        .all(|(_, outcome)| matches!(outcome, RestoreItemOutcome::Failed { .. })));
}

// ---- Windows ----

fn fixture() -> WindowsPlatform {
    WindowsPlatform::from_dirs(
        r"C:\Users\alice\AppData\Local\Temp".to_string(),
        r"C:\Users\alice\AppData\Local".to_string(),
        r"C:\Users\alice".to_string(),
        r"C:\Windows".to_string(),
        r"C:".to_string(),
        r"C:\Users\alice\AppData\Roaming".to_string(),
    )
}

#[test]
fn config_dir_resolves_under_app_data_roaming() {
    let platform = fixture();
    assert_eq!(platform.config_dir, r"C:\Users\alice\AppData\Roaming\pc-cleaner");
}

#[test]
fn known_dir_resolves_all_eight_kinds() {
    let platform = fixture();
    assert_eq!(platform.resolve(KnownDir::UserTemp), r"C:\Users\alice\AppData\Local\Temp");
    assert_eq!(platform.resolve(KnownDir::SystemTemp), r"C:\Windows\Temp");
    assert_eq!(platform.resolve(KnownDir::LocalAppData), r"C:\Users\alice\AppData\Local");
    assert_eq!(
        platform.resolve(KnownDir::Cache),
        r"C:\Users\alice\AppData\Local\Microsoft\Windows\INetCache"
    );
    assert_eq!(platform.resolve(KnownDir::RecycleBin), r"C:\$Recycle.Bin");
    assert_eq!(platform.resolve(KnownDir::Downloads), r"C:\Users\alice\Downloads");
    assert_eq!(
        platform.resolve(KnownDir::ThumbnailCache),
        r"C:\Users\alice\AppData\Local\Microsoft\Windows\Explorer"
    );
    assert_eq!(
        platform.resolve(KnownDir::WindowsUpdateCache),
        r"C:\Windows\SoftwareDistribution\Download"
    );
}

#[test]
fn requires_admin_detects_system_directories() {
    let platform = fixture();
    assert!(platform.is_admin_path(r"C:\Windows\Temp\foo.tmp"));
    assert!(platform.is_admin_path(r"C:\Program Files\App\bin.exe"));
    assert!(platform.is_admin_path(r"C:\ProgramData\App\config.ini"));
    assert!(!platform.is_admin_path(r"C:\Users\alice\AppData\Local\Temp\foo.tmp"));
}

#[test]
fn requires_admin_detects_windows_update_cache() {
    let platform = fixture();
    assert!(platform.is_admin_path(r"C:\Windows\SoftwareDistribution\Download\update.cab"));
}

#[test]
fn requires_admin_does_not_match_sibling_prefix() {
    let platform = fixture();
    assert!(!platform.is_admin_path(r"C:\WindowsApps\Foo\bin.exe"));
}

#[test]
fn requires_admin_is_case_insensitive() {
    let platform = fixture();
    assert!(platform.is_admin_path(r"c:\windows\temp\foo.tmp"));
}

#[test]
fn requires_admin_matches_base_directory_itself() {
    let platform = fixture();
    assert!(platform.is_admin_path(r"C:\Windows"));
}

#[test]
fn paths_are_compared_in_one_form() {
    assert_eq!(normalize("C:/Windows/Temp/"), r"c:\windows\temp");
    assert_eq!(normalize("ÄÖ/Σ\\"), r"äö\σ");
    assert_eq!(join_win(r"C:\", "Temp"), r"C:\Temp");
    assert!(is_under(r"c:\a\b", r"c:\a"));
    assert!(!is_under(r"c:\ab", r"c:\a"));
}

#[test]
fn missing_environment_variables_fall_back_to_usual_places() {
    let platform = WindowsPlatform::from_env(
        Some(r"D:\Users\bob".to_string()),
        None,
        None,
        Some(r"D:\tmp".to_string()),
        None,
        None,
        None,
    );
    assert_eq!(platform.resolve(KnownDir::LocalAppData), r"D:\Users\bob\AppData\Local");
    assert_eq!(platform.resolve(KnownDir::UserTemp), r"D:\tmp");
    assert_eq!(platform.resolve(KnownDir::SystemTemp), r"C:\Windows\Temp");
    assert_eq!(platform.config_dir, r"D:\Users\bob\AppData\Roaming\pc-cleaner");
}

#[test]
fn quote_arg_passes_through_simple_values() {
    assert_eq!(quote_arg(""), "\"\"");
    assert_eq!(quote_arg("scan"), "scan");
    assert_eq!(quote_arg("--admin"), "--admin");
    assert_eq!(quote_arg(r"C:\foo\bar.exe"), r"C:\foo\bar.exe");
}

#[test]
fn quote_arg_wraps_values_with_whitespace() {
    assert_eq!(quote_arg("hello world"), "\"hello world\"");
    assert_eq!(quote_arg("a\tb"), "\"a\tb\"");
}

#[test]
fn quote_arg_escapes_embedded_quotes() {
    assert_eq!(quote_arg(r#"say "hi""#), r#""say \"hi\"""#);
}

#[test]
fn quote_arg_doubles_backslashes_before_closing_quote() {
    let input = r"C:\Program Files\";
    let mut expected = String::new();
    expected.push('"');
    expected.push_str(r"C:\Program Files");
    expected.push('\\');
    expected.push('\\');
    expected.push('"');
    assert_eq!(quote_arg(input), expected);
}

#[test]
fn join_args_joins_with_single_space() {
    assert_eq!(join_args(&[]), "");
    assert_eq!(join_args(&["scan".to_string()]), "scan");
    assert_eq!(join_args(&["clean".to_string(), "--admin".to_string()]), "clean --admin");
    assert_eq!(join_args(&["a b".to_string(), "c".to_string()]), "\"a b\" c");
}

#[test]
fn is_win32_error_matches_hresult_from_win32() {
    assert!(is_win32_error(0x800704C7u32 as i32, 1223));
    assert!(!is_win32_error(0x80070005u32 as i32, 1223));
}

#[test]
fn a_declined_prompt_is_told_apart_from_failures() {
    assert!(matches!(runas_error(0x800704C7u32 as i32, "x"), ElevateError::Cancelled));
    match runas_error(-5, "denied") {
        ElevateError::Failed(text) => assert_eq!(text, "denied (code -5)"),
        other => panic!("{other:?}"),
    }
    assert_eq!(elevate_error_message("boom", i32::MIN), "boom (code -2147483648)");
}

#[test]
fn unknown_variant_produces_actionable_japanese_text() {
    let err = TrashError::Unknown { description: "Some operations were aborted".to_string() };
    let msg = trash_error_message(&err);
    assert!(msg.contains("別のアプリ") || msg.contains("アクセス権限"));
    assert!(!msg.contains("Error during a `trash` operation"));
    assert!(!msg.contains("Unknown {"));
}

#[test]
fn os_variant_includes_error_code() {
    let err = TrashError::Os { code: 5, description: "Access is denied.".to_string() };
    let msg = trash_error_message(&err);
    assert!(msg.contains('5'));
}

#[test]
fn targeted_root_explains_refusal() {
    let msg = trash_error_message(&TrashError::TargetedRoot);
    assert!(!msg.is_empty());
    assert!(!msg.contains("TargetedRoot"));
}

#[test]
fn could_not_access_mentions_target() {
    let err = TrashError::CouldNotAccess { target: r"C:\foo\bar.tmp".to_string() };
    let msg = trash_error_message(&err);
    assert!(msg.contains(r"C:\foo\bar.tmp"));
}

#[test]
fn the_remaining_trash_errors_have_sentences() {
    let err = TrashError::CanonicalizePath { original: "C:\\x".to_string() };
    assert!(trash_error_message(&err).starts_with("C:\\x のパスを解決できませんでした。"));
    assert!(!trash_error_message(&TrashError::ConvertOsString).is_empty());
    assert!(!trash_error_message(&TrashError::Other).is_empty());
}
