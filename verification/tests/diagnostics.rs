use rust_browser_handler::diagnostics::{external_browser_line, vscode_browser_report};

#[test]
fn external_browser_setting_is_reported_as_json() {
    assert_eq!(
        vscode_browser_report("{\"workbench.externalBrowser\": \"firefox\", \"x\": 1}"),
        Some("VS Code externalBrowser: \"firefox\"".to_string())
    );
    assert_eq!(
        vscode_browser_report("{\"workbench.externalBrowser\": null}"),
        Some("VS Code externalBrowser: null".to_string())
    );
}

#[test]
fn unset_external_browser_setting() {
    assert_eq!(
        vscode_browser_report("{\"editor.fontSize\": 14}"),
        Some("VS Code externalBrowser: <unset>".to_string())
    );
    assert_eq!(
        vscode_browser_report("[1, 2]"),
        Some("VS Code externalBrowser: <unset>".to_string())
    );
}

#[test]
fn settings_that_are_not_json_report_nothing() {
    assert_eq!(vscode_browser_report("{ not json"), None);
    assert_eq!(vscode_browser_report(""), None);
}

#[test]
fn external_browser_line_exact() {
    assert_eq!(
        external_browser_line(Some("\"chromium\"".to_string())),
        "VS Code externalBrowser: \"chromium\""
    );
    assert_eq!(external_browser_line(None), "VS Code externalBrowser: <unset>");
}
