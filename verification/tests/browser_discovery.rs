use rust_browser_handler::browser_discovery::{
    browser_name_in, get_browser_map, get_browser_name_from_path, host_path_style,
    normalize_fallback, normalize_path, sorted_unique, PathStyle,
};

#[test]
fn test_get_browser_name_from_path() {
    assert_eq!(
        get_browser_name_from_path("C:/Program Files/Google/Chrome/Application/chrome"),
        "Google Chrome".to_string()
    );
    assert_eq!(
        get_browser_name_from_path("C:/Program Files/Mozilla Firefox/firefox"),
        "Mozilla Firefox".to_string()
    );
    assert_eq!(get_browser_name_from_path(""), "".to_string());
    assert_eq!(
        get_browser_name_from_path("C:/not_a_browser.txt"),
        "not_a_browser.txt".to_string()
    );
}

#[test]
fn test_normalize_path() {
    assert_eq!(
        normalize_path("C:\\Program Files\\Google\\Chrome\\Application\\chrome"),
        "C:/Program Files/Google/Chrome/Application/chrome".to_string()
    );
    assert_eq!(
        normalize_path("/usr/bin/firefox"),
        "/usr/bin/firefox".to_string()
    );
    assert_eq!(
        normalize_path("C:/not_a_browser.txt/"),
        "C:/not_a_browser.txt".to_string()
    );
}

#[test]
fn test_fallback_normalize_path() {
    let non_existent_path = "C:/this/path/does/not/exist";
    let normalized = normalize_path(non_existent_path);
    assert_eq!(normalized, "C:/this/path/does/not/exist".to_string());
}

#[test]
fn browser_name_is_matched_case_insensitively() {
    assert_eq!(get_browser_name_from_path("/usr/bin/FireFox"), "Mozilla Firefox");
    assert_eq!(get_browser_name_from_path("/usr/bin/brave-browser"), "Brave");
}

#[test]
fn browser_name_follows_path_file_name_rules() {
    assert_eq!(get_browser_name_from_path("/usr/bin/vivaldi/"), "Vivaldi");
    assert_eq!(get_browser_name_from_path("/usr/bin/vivaldi/."), "Vivaldi");
    assert_eq!(get_browser_name_from_path("/usr/bin/.."), "/usr/bin/..");
    assert_eq!(get_browser_name_from_path("/"), "/");
    assert_eq!(get_browser_name_from_path("opera"), "Opera");
}

#[test]
fn browser_map_lists_known_executables() {
    let map = get_browser_map();
    assert_eq!(map.len(), 11);
    assert_eq!(map[0], ("chrome".to_string(), "Google Chrome".to_string()));
    assert!(map.iter().any(|(k, v)| k == "floorp" && v == "Floorp"));
}

#[test]
fn fallback_keeps_root_and_strips_trailing_slashes() {
    assert_eq!(normalize_fallback("/"), "/");
    assert_eq!(normalize_fallback("///"), "/");
    assert_eq!(normalize_fallback("a\\b\\\\"), "a/b");
    assert_eq!(normalize_fallback(""), "");
}

#[test]
fn fallback_is_idempotent_on_examples() {
    for p in ["C:\\x\\y\\", "/a//", "\\", "rel/path/"] {
        let once = normalize_fallback(p);
        assert_eq!(normalize_fallback(&once), once);
    }
}

#[test]
fn sorted_unique_orders_and_deduplicates() {
    let input = vec![
        "/usr/bin/firefox".to_string(),
        "/opt/vivaldi/vivaldi".to_string(),
        "/usr/bin/firefox".to_string(),
        "/usr/bin/chromium".to_string(),
    ];
    assert_eq!(
        sorted_unique(input),
        vec![
            "/opt/vivaldi/vivaldi".to_string(),
            "/usr/bin/chromium".to_string(),
            "/usr/bin/firefox".to_string()
        ]
    );
    assert!(sorted_unique(Vec::new()).is_empty());
}

#[test]
fn sorted_browser_list_ignores_discovery_order() {
    let a = vec!["/b".to_string(), "/a".to_string(), "/c".to_string(), "/a".to_string()];
    let b = vec!["/c".to_string(), "/a".to_string(), "/b".to_string()];
    assert_eq!(sorted_unique(a), sorted_unique(b));
}

#[test]
fn unix_paths_keep_backslashes_in_names() {
    assert_eq!(browser_name_in("a\\b", PathStyle::Unix), "a\\b");
    assert_eq!(browser_name_in("C:\\apps\\chrome", PathStyle::Unix), "C:\\apps\\chrome");
    assert_eq!(browser_name_in("/opt/x\\y/chrome", PathStyle::Unix), "Google Chrome");
}

#[test]
fn windows_paths_split_on_both_separators() {
    assert_eq!(browser_name_in("C:\\apps\\chrome", PathStyle::Windows), "Google Chrome");
    assert_eq!(
        browser_name_in("C:\\Program Files\\Tool\\tool.exe", PathStyle::Windows),
        "tool.exe"
    );
    assert_eq!(browser_name_in("D:\\Mixed/Dir\\Floorp", PathStyle::Windows), "Floorp");
    assert_eq!(browser_name_in("a\\b", PathStyle::Windows), "b");
}

#[test]
fn windows_prefixes_are_not_file_names() {
    assert_eq!(browser_name_in("C:firefox", PathStyle::Windows), "Mozilla Firefox");
    assert_eq!(browser_name_in("C:", PathStyle::Windows), "C:");
    assert_eq!(browser_name_in("\\\\server\\share", PathStyle::Windows), "\\\\server\\share");
    assert_eq!(browser_name_in("\\\\server\\share\\chrome", PathStyle::Windows), "Google Chrome");
    assert_eq!(browser_name_in("//server/share/opera", PathStyle::Windows), "Opera");
    assert_eq!(browser_name_in("\\\\.\\COM42", PathStyle::Windows), "\\\\.\\COM42");
    assert_eq!(browser_name_in("\\\\?\\C:\\x\\chrome", PathStyle::Windows), "Google Chrome");
    assert_eq!(browser_name_in("\\\\?\\C:\\x/chrome", PathStyle::Windows), "x/chrome");
    assert_eq!(
        browser_name_in("\\\\?\\UNC\\server\\share", PathStyle::Windows),
        "\\\\?\\UNC\\server\\share"
    );
    assert_eq!(browser_name_in("\\\\?\\UNC\\srv\\share\\vivaldi", PathStyle::Windows), "Vivaldi");
    assert_eq!(browser_name_in("\\\\?\\C:\\x\\.", PathStyle::Windows), "\\\\?\\C:\\x\\.");
    assert_eq!(browser_name_in("C:\\x\\chrome\\.", PathStyle::Windows), "Google Chrome");
}

#[test]
fn host_style_matches_this_platform() {
    let expected = if std::path::MAIN_SEPARATOR == '\\' {
        PathStyle::Windows
    } else {
        PathStyle::Unix
    };
    assert_eq!(host_path_style(), expected);
    assert_eq!(
        get_browser_name_from_path("a\\b"),
        browser_name_in("a\\b", expected)
    );
}
