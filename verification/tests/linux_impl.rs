use rust_browser_handler::platform::linux_impl::{
    purge_desktop_entry_from_mimeapps, purge_if_changed, references_desktop_id,
    render_desktop_entry,
};

#[test]
fn desktop_entry_uses_unquoted_exec_path() {
    let desktop_entry = render_desktop_entry("/tmp/rust browser handler");

    assert!(desktop_entry.contains("Exec=/tmp/rust browser handler %u"));
    assert!(!desktop_entry.contains("Exec=\"/tmp/rust browser handler\" %u"));
    assert!(!desktop_entry.contains("@EXECUTABLE@"));
}

#[test]
fn purge_mimeapps_removes_desktop_id_entries() {
    let input = "[Default Applications]\nx-scheme-handler/http=rust-browser-handler.desktop;firefox.desktop;\nx-scheme-handler/https=rust-browser-handler.desktop;\ntext/html=firefox.desktop;\n";
    let output = purge_desktop_entry_from_mimeapps(input, "rust-browser-handler.desktop");

    assert!(output.contains("x-scheme-handler/http=firefox.desktop;"));
    assert!(!output.contains("x-scheme-handler/https="));
    assert!(output.contains("text/html=firefox.desktop;"));
    assert!(!output.contains("rust-browser-handler.desktop"));
}

#[test]
fn purge_mimeapps_keeps_non_default_sections_with_empty_assignment() {
    let input = "[Added Associations]\nx-scheme-handler/http=rust-browser-handler.desktop;\n";
    let output = purge_desktop_entry_from_mimeapps(input, "rust-browser-handler.desktop");

    assert!(output.contains("[Added Associations]"));
    assert!(output.contains("x-scheme-handler/http="));
}

#[test]
fn purge_exact_output() {
    let input = "[Default Applications]\nx-scheme-handler/http=rust-browser-handler.desktop;firefox.desktop;\nx-scheme-handler/https=rust-browser-handler.desktop;\n# comment\n[Added Associations]\na=;;b\n";
    assert_eq!(
        purge_desktop_entry_from_mimeapps(input, "rust-browser-handler.desktop"),
        "[Default Applications]\nx-scheme-handler/http=firefox.desktop;\n# comment\n[Added Associations]\na=b;\n"
    );
}

#[test]
fn purge_keeps_missing_final_newline_and_crlf() {
    assert_eq!(purge_desktop_entry_from_mimeapps("k=v;id", "id"), "k=v;");
    assert_eq!(purge_desktop_entry_from_mimeapps("k=v\r\nx=id\r\n", "id"), "k=v;\nx=\n");
    assert_eq!(purge_desktop_entry_from_mimeapps("", "id"), "");
    assert_eq!(purge_desktop_entry_from_mimeapps("\n", "id"), "\n");
}

#[test]
fn purge_if_changed_reports_only_changes() {
    assert_eq!(purge_if_changed("a=b;\n", "id"), None);
    assert_eq!(purge_if_changed("a=id;b;\n", "id"), Some("a=b;\n".to_string()));
}

#[test]
fn references_desktop_id_searches_substrings() {
    assert!(references_desktop_id("x=rust-browser-handler.desktop;", "rust-browser-handler.desktop"));
    assert!(!references_desktop_id("x=firefox.desktop;", "rust-browser-handler.desktop"));
}

use rust_browser_handler::platform::linux_impl::{
    desktop_exec_line, browser_commands, common_browser_paths, default_handler_status, extract_stderr,
    format_xdg_mime_io_error, nonempty_trimmed, settings_report_this_handler, xdg_mime_failure,
    xdg_settings_report, DefaultHandlerStatus, IoErrorKind, IoFailure, ToolRun,
};

fn failure(kind: IoErrorKind, name: &str, message: &str) -> IoFailure {
    IoFailure {
        kind,
        kind_name: name.to_string(),
        message: message.to_string(),
    }
}

fn finished(success: bool, status: &str, stderr: &[u8]) -> ToolRun {
    ToolRun::Finished {
        success,
        status: status.to_string(),
        stderr: stderr.to_vec(),
    }
}

#[test]
fn io_error_messages_name_the_likely_cause() {
    assert_eq!(
        format_xdg_mime_io_error("P", &failure(IoErrorKind::NotFound, "NotFound", "x")),
        "P: command not found (is `xdg-mime` installed and on PATH?)"
    );
    assert_eq!(
        format_xdg_mime_io_error("P", &failure(IoErrorKind::PermissionDenied, "PermissionDenied", "x")),
        "P: permission denied when executing `xdg-mime`"
    );
    assert_eq!(
        format_xdg_mime_io_error("P", &failure(IoErrorKind::Other, "Interrupted", "stopped")),
        "P: I/O error (Interrupted): stopped"
    );
}

#[test]
fn mime_failures_are_described() {
    assert_eq!(xdg_mime_failure(&finished(true, "exit status: 0", b""), &finished(true, "exit status: 0", b"")), None);
    assert_eq!(
        xdg_mime_failure(
            &ToolRun::NotRun(failure(IoErrorKind::NotFound, "NotFound", "x")),
            &ToolRun::NotRun(failure(IoErrorKind::NotFound, "NotFound", "x"))
        )
        .unwrap(),
        "Failed to run xdg-mime for HTTP association: command not found (is `xdg-mime` installed and on PATH?); Failed to run xdg-mime for HTTPS association: command not found (is `xdg-mime` installed and on PATH?)"
    );
    assert_eq!(
        xdg_mime_failure(
            &finished(true, "exit status: 0", b""),
            &ToolRun::NotRun(failure(IoErrorKind::PermissionDenied, "PermissionDenied", "x"))
        )
        .unwrap(),
        "Failed to run xdg-mime for HTTPS association: permission denied when executing `xdg-mime`"
    );
    assert_eq!(
        xdg_mime_failure(&finished(false, "exit status: 2", b" bad \n"), &finished(true, "exit status: 0", b"  "))
            .unwrap(),
        "Failed to set MIME associations (http status: exit status: 2, https status: exit status: 0), http stderr: bad. Ensure xdg-mime is available."
    );
}

#[test]
fn settings_reports() {
    let r = xdg_settings_report(true, &finished(true, "exit status: 0", b""));
    assert!(r.warning.is_none());
    assert_eq!(r.lines[0], "Successfully registered as default browser using XDG standards.");
    let r = xdg_settings_report(false, &finished(false, "exit status: 1", b"oops"));
    assert_eq!(
        r.warning.unwrap(),
        "warning: xdg-settings set default-web-browser failed (status: exit status: 1, stderr: oops). The MIME associations were still applied."
    );
    assert_eq!(
        r.lines[1],
        "Note: xdg-settings did not report the desktop entry back, so the MIME association is the authoritative setting here."
    );
    let r = xdg_settings_report(false, &ToolRun::NotRun(failure(IoErrorKind::NotFound, "NotFound", "no such file")));
    assert_eq!(
        r.warning.unwrap(),
        "warning: xdg-settings is unavailable or could not be executed (no such file). The MIME associations were still applied."
    );
    assert!(settings_report_this_handler(Some("rust-browser-handler.desktop\n")));
    assert!(!settings_report_this_handler(Some("firefox.desktop")));
    assert!(!settings_report_this_handler(None));
}

#[test]
fn default_handler_status_from_queries() {
    let id = "rust-browser-handler.desktop\n";
    assert_eq!(default_handler_status(Some(id), Some(id)), DefaultHandlerStatus::Registered);
    assert_eq!(
        default_handler_status(Some("firefox.desktop"), None),
        DefaultHandlerStatus::NotRegistered
    );
    assert_eq!(default_handler_status(Some(id), None), DefaultHandlerStatus::CheckDesktopFile);
    assert_eq!(default_handler_status(None, None), DefaultHandlerStatus::CheckDesktopFile);
}

#[test]
fn tool_output_helpers() {
    assert_eq!(nonempty_trimmed("  /usr/bin/firefox\n"), Some("/usr/bin/firefox".to_string()));
    assert_eq!(nonempty_trimmed(" \n"), None);
    assert_eq!(extract_stderr(b"\xffbad\n"), Some("\u{fffd}bad".to_string()));
    assert_eq!(browser_commands().len(), 12);
    assert_eq!(common_browser_paths()[15], "/opt/vivaldi/vivaldi");
}

#[test]
fn desktop_exec_line_finds_the_first_exec_entry() {
    let entry = render_desktop_entry("/opt/rbh");
    assert_eq!(desktop_exec_line(&entry).as_deref(), Some("Exec=/opt/rbh %u"));
    assert_eq!(desktop_exec_line("[Desktop Entry]\nName=x\n"), None);
    assert_eq!(
        desktop_exec_line("Exec=a\r\nExec=b\n").as_deref(),
        Some("Exec=a")
    );
}

#[test]
fn purging_twice_is_purging_once_on_examples() {
    for input in [
        "[Default Applications]\nx=rust-browser-handler.desktop;\n\nk=a;;rust-browser-handler.desktop",
        "[Added Associations]\nx=rust-browser-handler.desktop;\n[Default Applications]\ny=;\n",
        "plain line\n=\n[a=b]\n",
        "[Default Applications]\r\na=x;\r\nb=rust-browser-handler.desktop\r\n",
        "k=v\r\r\nend\r",
        "[Default Applications]\nx\r\r\nh=rust-browser-handler.desktop;",
    ] {
        let once = purge_desktop_entry_from_mimeapps(input, "rust-browser-handler.desktop");
        let twice = purge_desktop_entry_from_mimeapps(&once, "rust-browser-handler.desktop");
        assert_eq!(once, twice);
    }
}

#[test]
fn carriage_return_before_a_newline_is_lost_on_the_second_pass() {
    let once = purge_desktop_entry_from_mimeapps("x\r\r\ny\n", "rust-browser-handler.desktop");
    assert_eq!(once, "x\r\ny\n");
    let twice = purge_desktop_entry_from_mimeapps(&once, "rust-browser-handler.desktop");
    assert_eq!(twice, "x\ny\n");
}
