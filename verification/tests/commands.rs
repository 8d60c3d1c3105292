use rust_browser_handler::commands::{
    interpret_browser_selection, parse_browser_selection, parse_interactive_command,
    parse_usize, register_location_from_reply, register_location_without_prompt,
    BrowserSelection, Commands, InteractiveParseError, RegisterLocationChoice,
};

fn chars(s: &str) -> Vec<char> {
    s.chars().collect()
}

#[test]
fn interactive_add_reads_pattern_browser_and_regex_flag() {
    match parse_interactive_command("add work.com /usr/bin/google-chrome --regex") {
        Ok(Commands::Add {
            pattern,
            browser,
            regex,
        }) => {
            assert_eq!(pattern, "work.com");
            assert_eq!(browser, "/usr/bin/google-chrome");
            assert!(regex);
        }
        other => panic!("unexpected {:?}", other),
    }
    match parse_interactive_command("  add a b  ") {
        Ok(Commands::Add { regex, .. }) => assert!(!regex),
        other => panic!("unexpected {:?}", other),
    }
}

#[test]
fn interactive_errors_carry_usage_messages() {
    let e = parse_interactive_command("add only-pattern").unwrap_err();
    assert_eq!(e, InteractiveParseError::AddUsage);
    assert_eq!(e.message(), "Usage: add <pattern> <browser> [--regex]");
    assert_eq!(
        parse_interactive_command("").unwrap_err().message(),
        "No command entered"
    );
    assert_eq!(
        parse_interactive_command("remove").unwrap_err(),
        InteractiveParseError::RemoveUsage
    );
    assert_eq!(
        parse_interactive_command("import").unwrap_err(),
        InteractiveParseError::ImportUsage
    );
    assert_eq!(
        parse_interactive_command("export").unwrap_err(),
        InteractiveParseError::ExportUsage
    );
    assert_eq!(
        parse_interactive_command("frobnicate").unwrap_err().message(),
        "Unknown command. Type 'help' for commands."
    );
}

#[test]
fn interactive_simple_commands() {
    assert!(matches!(parse_interactive_command("list"), Ok(Commands::List)));
    assert!(matches!(parse_interactive_command("install"), Ok(Commands::Install)));
    assert!(matches!(parse_interactive_command("register"), Ok(Commands::Register)));
    assert!(matches!(parse_interactive_command("unregister"), Ok(Commands::Unregister)));
    assert!(matches!(parse_interactive_command("uninstall"), Ok(Commands::Uninstall)));
    assert!(matches!(parse_interactive_command("open-settings"), Ok(Commands::OpenSettings)));
    assert!(matches!(parse_interactive_command("doctor"), Ok(Commands::Doctor)));
    match parse_interactive_command("remove work.com") {
        Ok(Commands::Remove { pattern }) => assert_eq!(pattern, "work.com"),
        other => panic!("unexpected {:?}", other),
    }
    match parse_interactive_command("export /tmp/r.json") {
        Ok(Commands::Export { path }) => assert_eq!(path, "/tmp/r.json"),
        other => panic!("unexpected {:?}", other),
    }
    match parse_interactive_command("test-handler") {
        Ok(Commands::TestHandler { url }) => assert_eq!(url, None),
        other => panic!("unexpected {:?}", other),
    }
    match parse_interactive_command("test-handler https://x.org") {
        Ok(Commands::TestHandler { url }) => assert_eq!(url.as_deref(), Some("https://x.org")),
        other => panic!("unexpected {:?}", other),
    }
}

#[test]
fn usize_parsing_follows_from_str() {
    assert_eq!(parse_usize(&chars("42")), Some(42));
    assert_eq!(parse_usize(&chars("+7")), Some(7));
    assert_eq!(parse_usize(&chars("+")), None);
    assert_eq!(parse_usize(&chars("")), None);
    assert_eq!(parse_usize(&chars("-1")), None);
    assert_eq!(parse_usize(&chars("1a")), None);
    assert_eq!(parse_usize(&chars(&usize::MAX.to_string())), Some(usize::MAX));
    assert_eq!(parse_usize(&chars("99999999999999999999999")), None);
}

#[test]
fn browser_selection_answers() {
    assert_eq!(parse_browser_selection(" Cancel \n", 3), BrowserSelection::Cancel);
    assert_eq!(
        parse_browser_selection("2\n", 3),
        BrowserSelection::Launch { index: 1, save_rule: false }
    );
    assert_eq!(
        parse_browser_selection("1S\n", 3),
        BrowserSelection::Launch { index: 0, save_rule: true }
    );
    assert_eq!(parse_browser_selection("0", 3), BrowserSelection::InvalidNumber);
    assert_eq!(parse_browser_selection("4s", 3), BrowserSelection::InvalidNumber);
    assert_eq!(parse_browser_selection("two", 3), BrowserSelection::InvalidFormat);
    assert_eq!(interpret_browser_selection("s", 3), BrowserSelection::InvalidFormat);
}

#[test]
fn register_location_decisions() {
    assert_eq!(
        register_location_without_prompt(true, false, false),
        Some(RegisterLocationChoice::Current)
    );
    assert_eq!(
        register_location_without_prompt(false, false, true),
        Some(RegisterLocationChoice::UseInstalled)
    );
    assert_eq!(
        register_location_without_prompt(false, false, false),
        Some(RegisterLocationChoice::InstallAndRegister)
    );
    assert_eq!(register_location_without_prompt(false, true, true), None);
    assert_eq!(
        register_location_from_reply(Some(" 1 \n"), true),
        RegisterLocationChoice::InstallAndRegister
    );
    assert_eq!(
        register_location_from_reply(Some("\n"), false),
        RegisterLocationChoice::Current
    );
    assert_eq!(
        register_location_from_reply(None, false),
        RegisterLocationChoice::InstallAndRegister
    );
    assert_eq!(
        register_location_from_reply(None, true),
        RegisterLocationChoice::UseInstalled
    );
}

#[test]
fn only_the_words_of_a_command_line_matter() {
    for (spaced, single) in [
        ("  add \t work.com\n  /usr/bin/firefox   --regex ", "add work.com /usr/bin/firefox --regex"),
        ("\u{3000}remove\u{2003}x", "remove x"),
        ("   ", ""),
        ("test-handler   https://a.example", "test-handler https://a.example"),
        (" frobnicate  now", "frobnicate now"),
    ] {
        assert_eq!(
            format!("{:?}", parse_interactive_command(spaced)),
            format!("{:?}", parse_interactive_command(single))
        );
    }
}
