use rust_browser_handler::platform::windows_impl::{
    registry_browser_path, capabilities_key_path, common_browser_path_parts,
    extract_executable_path_from_command, get_browser_map, icon_resource, is_browser_executable,
    is_handler_prog_id, open_command, scoop_browser_paths,
};

#[test]
fn test_extract_executable_path_from_command() {
    assert_eq!(
        extract_executable_path_from_command(
            r#""C:\Program Files\Browser\browser.exe""#.to_string()
        ),
        Some(r#"C:\Program Files\Browser\browser.exe"#.to_string())
    );
    assert_eq!(
        extract_executable_path_from_command(
            "\"C:\\Program Files (x86)\\Other Browser\\other_browser.exe\" %1".to_string()
        ),
        Some("C:\\Program Files (x86)\\Other Browser\\other_browser.exe".to_string())
    );
    assert_eq!(
        extract_executable_path_from_command("browser.exe --arg".to_string()),
        Some("browser.exe".to_string())
    );
    assert_eq!(
        extract_executable_path_from_command(
            "\"browser with spaces.exe\" %1 --profile default".to_string()
        ),
        Some("browser with spaces.exe".to_string())
    );
    assert_eq!(extract_executable_path_from_command("".to_string()), None);
    assert_eq!(
        extract_executable_path_from_command("   ".to_string()),
        None
    );
}

#[test]
fn test_is_browser_executable() {
    assert!(is_browser_executable(
        "C:/Program Files/Google/Chrome/Application/chrome.exe"
    ));
    assert!(is_browser_executable(
        "C:/Program Files/Mozilla Firefox/firefox.exe"
    ));
    assert!(!is_browser_executable(
        "C:/Program Files/Browser/browser.dll"
    ));
    assert!(!is_browser_executable(""));
    assert!(!is_browser_executable(
        "C:/Program Files/Browser/browser.exe.txt"
    ));
}

#[test]
fn unclosed_quote_names_no_executable() {
    assert_eq!(extract_executable_path_from_command("\"C:/x.exe %1".to_string()), None);
    assert_eq!(
        extract_executable_path_from_command("  \t firefox.exe\n".to_string()),
        Some("firefox.exe".to_string())
    );
}

#[test]
fn registered_open_command_reads_back_as_the_executable() {
    let exe = "C:\\Users\\me\\AppData\\Local\\Programs\\RustBrowserHandler\\rust_browser_handler.exe";
    let command = open_command(exe);
    assert_eq!(command, format!("\"{}\" \"%1\"", exe));
    assert_eq!(extract_executable_path_from_command(command), Some(exe.to_string()));
}

#[test]
fn registry_values_have_the_expected_shape() {
    assert_eq!(icon_resource("C:/a.exe"), "C:/a.exe,0");
    assert_eq!(
        capabilities_key_path(),
        "Software\\Clients\\StartMenuInternet\\rust-browser-handler\\Capabilities"
    );
    assert!(is_handler_prog_id("rust-browser-handler"));
    assert!(!is_handler_prog_id("ChromeHTML"));
}

#[test]
fn browser_executables_are_matched_case_insensitively() {
    assert!(is_browser_executable("C:/Apps/MSEdge.EXE"));
    assert!(is_browser_executable("launcher.exe"));
    assert_eq!(get_browser_map().len(), 11);
}

#[test]
fn registry_commands_name_browsers_only() {
    assert_eq!(
        registry_browser_path("\"C:/nowhere/Brave/brave.exe\" --single-argument %1".to_string()),
        Some("C:/nowhere/Brave/brave.exe".to_string())
    );
    assert_eq!(
        registry_browser_path("\"C:\\nowhere\\notepad.exe\" %1".to_string()),
        None
    );
    assert_eq!(registry_browser_path("\"\" %1".to_string()), None);
    assert_eq!(
        registry_browser_path("\"C:\\Apps\\Chrome\\chrome.exe\" --x %1".to_string()),
        Some("C:\\Apps\\Chrome\\chrome.exe".to_string())
    );
}

#[test]
fn common_paths_skip_empty_prefixes() {
    let parts = common_browser_path_parts(vec![
        "C:/Program Files".to_string(),
        String::new(),
        "D:/Local".to_string(),
    ]);
    assert_eq!(parts.len(), 22);
    assert_eq!(
        parts[0],
        (
            "C:/Program Files".to_string(),
            "Google/Chrome/Application/chrome.exe".to_string()
        )
    );
    assert_eq!(
        parts[21],
        ("D:/Local".to_string(), "Ablaze Floorp/floorp.exe".to_string())
    );
    assert_eq!(
        scoop_browser_paths("C:/Users/me")[0],
        "C:/Users/me/scoop/apps/googlechrome/current/chrome.exe"
    );
}

#[test]
fn browser_executable_under_backslash_path() {
    assert!(is_browser_executable(
        "C:\\Program Files\\Google\\Chrome\\Application\\chrome.exe"
    ));
    assert!(!is_browser_executable("C:\\Tools\\notepad.exe"));
}

#[test]
fn browser_executables_after_windows_prefixes() {
    assert!(is_browser_executable("C:firefox.exe"));
    assert!(is_browser_executable("\\\\server\\share\\apps\\brave.exe"));
    assert!(!is_browser_executable("\\\\server\\chrome.exe"));
    assert!(is_browser_executable("\\\\?\\C:\\Apps\\Chrome.EXE"));
    assert!(!is_browser_executable("\\\\?\\C:\\Apps/chrome.exe"));
}
