use rust_browser_handler::browser_discovery::PathStyle;
use rust_browser_handler::gui::{browser_display_name, gui_selection_outcome, GuiChooserOutcome};

#[test]
fn labels_add_the_path_only_for_shared_names() {
    let browsers = vec![
        "/usr/bin/firefox".to_string(),
        "/opt/firefox/firefox".to_string(),
        "/usr/bin/vivaldi".to_string(),
    ];
    assert_eq!(
        browser_display_name("/usr/bin/firefox", &browsers, PathStyle::Unix),
        "Mozilla Firefox (/usr/bin/firefox)"
    );
    assert_eq!(
        browser_display_name("/opt/firefox/firefox", &browsers, PathStyle::Unix),
        "Mozilla Firefox (/opt/firefox/firefox)"
    );
    assert_eq!(browser_display_name("/usr/bin/vivaldi", &browsers, PathStyle::Unix), "Vivaldi");
}

#[test]
fn dialog_clicks_select_listed_browsers() {
    let browsers = vec!["/a".to_string(), "/b".to_string()];
    match gui_selection_outcome(1, true, &browsers) {
        Some(GuiChooserOutcome::Selected {
            browser_path,
            save_rule,
        }) => {
            assert_eq!(browser_path, "/b");
            assert!(save_rule);
        }
        other => panic!("unexpected {:?}", other),
    }
    assert!(gui_selection_outcome(2, false, &browsers).is_none());
    assert!(gui_selection_outcome(-1, false, &browsers).is_none());
}

#[test]
fn labels_follow_the_path_style() {
    let browsers = vec!["C:\\a\\chrome".to_string(), "D:\\b\\chrome".to_string()];
    assert_eq!(
        browser_display_name("C:\\a\\chrome", &browsers, PathStyle::Windows),
        "Google Chrome (C:\\a\\chrome)"
    );
    assert_eq!(
        browser_display_name("C:\\a\\chrome", &browsers, PathStyle::Unix),
        "C:\\a\\chrome"
    );
}
