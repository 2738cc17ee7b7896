use screen_mirror::autostart::{set_enabled, RunValueChange};
use screen_mirror::diagnostics::{
    received_report, report_file_name, safe_peer_name, script_report, DiagnosticsError,
    DiagnosticsRequest, DIAGNOSTICS_PROTOCOL,
};
use screen_mirror::discovery::pin_hash;
use screen_mirror::single_instance::{lock_contents, lock_is_stale, lock_owner};
use screen_mirror::wide::{from_wide, to_wide, wide_array_to_string};

#[test]
fn a_lock_file_names_its_writer() {
    assert_eq!(lock_contents(4_711), "4711\n");
    assert_eq!(lock_owner(Some(&lock_contents(u32::MAX))), Some(u32::MAX));
    assert_eq!(lock_owner(Some("  12 \r\n")), Some(12));
    assert_eq!(lock_owner(Some("4294967296")), None);
    assert_eq!(lock_owner(Some("")), None);
    assert_eq!(lock_owner(None), None);
    assert!(lock_is_stale(None, true));
    assert!(lock_is_stale(Some(1), false));
    assert!(!lock_is_stale(Some(1), true));
}

#[test]
fn autostart_runs_the_tray() {
    assert_eq!(
        set_enabled(true, "C:\\a b\\x.exe"),
        RunValueChange::Write("\"C:\\a b\\x.exe\" tray".to_string())
    );
    assert_eq!(set_enabled(false, "x"), RunValueChange::Delete);
}

#[test]
fn a_diagnostics_request_is_answered_with_the_right_pin_only() {
    let request = DiagnosticsRequest::new_at("1234", 7, 99).unwrap();
    assert_eq!(request.protocol, DIAGNOSTICS_PROTOCOL);
    assert_eq!(request.timestamp_ms, 99);
    assert_eq!(request.authorize(&pin_hash("1234").unwrap()), Ok(()));
    assert_eq!(
        request.authorize(&pin_hash("0000").unwrap()),
        Err(DiagnosticsError::PinMismatch)
    );
    let mut other = DiagnosticsRequest::new("1234", 7).unwrap();
    other.protocol = "x".to_string();
    assert_eq!(
        other.validated().unwrap_err(),
        DiagnosticsError::UnexpectedProtocol
    );
    let mut other = DiagnosticsRequest::new("1234", 7).unwrap();
    other.version = 9;
    assert_eq!(
        other.validated().unwrap_err(),
        DiagnosticsError::UnsupportedVersion
    );
    assert!(DiagnosticsRequest::new("12", 7).is_err());
}

#[test]
fn reports_are_kept_under_a_safe_name() {
    assert_eq!(safe_peer_name("Desk-1_a"), "Desk-1_a");
    let name = safe_peer_name("a/b\\c:d");
    assert!(!name.contains('/') && !name.contains('\\') && !name.contains(':'));
    assert!(report_file_name("Desk", 5).contains("Desk"));
    assert_eq!(received_report(Vec::new()), Err(DiagnosticsError::NoReport));
    assert_eq!(received_report(vec![1, 2]), Ok(vec![1, 2]));
    assert_eq!(script_report(true, "ok".to_string()), Ok("ok".to_string()));
    assert_eq!(
        script_report(true, " \n".to_string()),
        Err(DiagnosticsError::NoOutput)
    );
    assert_eq!(
        script_report(false, "x".to_string()),
        Err(DiagnosticsError::ScriptFailed)
    );
}

#[test]
fn wide_texts_round_trip() {
    for text in ["", "abc", "Grüße", "日本語", "🖥 display"] {
        let wide = to_wide(text);
        assert_eq!(wide.last(), Some(&0));
        assert_eq!(from_wide(&wide[..wide.len() - 1]), text);
        assert_eq!(wide_array_to_string(&wide), text);
        let expected: Vec<u16> = text.encode_utf16().chain([0]).collect();
        assert_eq!(wide, expected);
    }
    assert_eq!(from_wide(&[0xD800, 0x41]), "\u{FFFD}A");
    assert_eq!(wide_array_to_string(&[0x41, 0, 0x42]), "A");
}
