use rust_browser_handler::rules::{
    after_launch, fallback_browser, AfterLaunch, find_rule_browser, new_rule, plan_url_open, remove_rules_with_pattern, rule_for_url,
    rule_matches_url, url_domain_text, Rule, UrlOpenPlan,
};

fn rule(pattern: &str, browser: &str, is_regex: Option<bool>) -> Rule {
    Rule {
        pattern: pattern.to_string(),
        browser: browser.to_string(),
        is_regex,
    }
}

fn browsers() -> Vec<String> {
    vec![
        "/usr/bin/firefox".to_string(),
        "/usr/bin/google-chrome".to_string(),
    ]
}

#[test]
fn substring_rules_are_the_default() {
    assert!(rule_matches_url(&rule("work.com", "chrome", None), "https://work.com/a"));
    assert!(rule_matches_url(&rule("work.com", "chrome", Some(false)), "https://work.com/a"));
    assert!(!rule_matches_url(&rule("work.com", "chrome", None), "https://home.org"));
    assert!(!rule_matches_url(&rule(".*\\.com", "chrome", None), "https://work.com"));
}

#[test]
fn regex_rules_match_with_the_regex() {
    assert!(rule_matches_url(
        &rule(".*\\.internal\\.net", "firefox", Some(true)),
        "https://wiki.internal.net/page"
    ));
    assert!(!rule_matches_url(
        &rule("^https://x\\.org$", "firefox", Some(true)),
        "https://x.org/more"
    ));
    assert!(!rule_matches_url(&rule("(unclosed", "firefox", Some(true)), "(unclosed"));
}

#[test]
fn first_applicable_rule_with_a_found_browser_wins() {
    let rules = vec![
        rule("work.com", "edge", None),
        rule("work", "CHROME", None),
        rule("work", "firefox", None),
    ];
    assert_eq!(
        find_rule_browser(&rules, "https://work.com", &browsers()),
        Some("/usr/bin/google-chrome".to_string())
    );
    assert_eq!(find_rule_browser(&rules, "https://home.org", &browsers()), None);
    assert_eq!(find_rule_browser(&[], "https://work.com", &browsers()), None);
}

#[test]
fn url_open_plans() {
    let rules = vec![rule("work.com", "firefox", None)];
    match plan_url_open(&rules, "https://work.com", &browsers(), true) {
        UrlOpenPlan::Launch { browser_path } => assert_eq!(browser_path, "/usr/bin/firefox"),
        _ => panic!("expected a launch"),
    }
    assert!(matches!(
        plan_url_open(&rules, "https://other.org", &browsers(), true),
        UrlOpenPlan::ChooseInTerminal
    ));
    assert!(matches!(
        plan_url_open(&rules, "https://other.org", &browsers(), false),
        UrlOpenPlan::ChooseWithDialog
    ));
    assert!(matches!(
        plan_url_open(&rules, "https://work.com", &[], true),
        UrlOpenPlan::NoBrowsers
    ));
}

#[test]
fn remembered_rules_use_the_domain() {
    assert_eq!(url_domain_text("https://sub.example.com/path?q=1").as_deref(), Some("sub.example.com"));
    assert_eq!(url_domain_text("https://127.0.0.1/"), None);
    assert_eq!(url_domain_text("not a url"), None);
    let r = rule_for_url("https://example.com/x", "/usr/bin/firefox").unwrap();
    assert_eq!(r.pattern, "example.com");
    assert_eq!(r.browser, "/usr/bin/firefox");
    assert_eq!(r.is_regex, None);
    assert!(rule_for_url("mailto:a@b.c", "/usr/bin/firefox").is_none());
}

#[test]
fn removing_rules_by_pattern() {
    let rules = vec![
        rule("a", "x", None),
        rule("b", "y", Some(true)),
        rule("a", "z", None),
    ];
    let left = remove_rules_with_pattern(&rules, "a");
    assert_eq!(left.len(), 1);
    assert_eq!(left[0].pattern, "b");
    assert_eq!(new_rule("p".to_string(), "b".to_string(), true).is_regex, Some(true));
    assert_eq!(new_rule("p".to_string(), "b".to_string(), false).is_regex, None);
}

#[test]
fn fallback_is_the_first_listed_browser() {
    let browsers = vec!["/usr/bin/brave".to_string(), "/usr/bin/firefox".to_string()];
    assert_eq!(fallback_browser(&browsers), Some("/usr/bin/brave".to_string()));
    assert_eq!(fallback_browser(&[]), None);
}

#[test]
fn rule_saved_only_after_a_successful_launch() {
    let url = "https://docs.example.org/page?q=1";
    match after_launch(url, "/usr/bin/firefox", true, true) {
        AfterLaunch::SaveRule(r) => {
            assert_eq!(r.pattern, "docs.example.org");
            assert_eq!(r.browser, "/usr/bin/firefox");
            assert_eq!(r.is_regex, None);
        }
        _ => panic!("expected a rule"),
    }
    assert!(matches!(after_launch(url, "/usr/bin/firefox", false, true), AfterLaunch::KeepRules));
    assert!(matches!(after_launch(url, "/usr/bin/firefox", true, false), AfterLaunch::KeepRules));
    assert!(matches!(
        after_launch("mailto:someone@example.org", "/usr/bin/firefox", true, true),
        AfterLaunch::NoDomain
    ));
}
