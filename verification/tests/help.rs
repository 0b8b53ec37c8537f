use timeconv::args::should_show_help;

#[test]
fn help_words_are_recognised() {
    assert!(should_show_help("-h"));
    assert!(should_show_help("--help"));
    assert!(should_show_help("help"));
    assert!(should_show_help("  help\t"));
}

#[test]
fn other_words_are_not_help() {
    assert!(!should_show_help(""));
    assert!(!should_show_help("   "));
    assert!(!should_show_help("-H"));
    assert!(!should_show_help("HELP"));
    assert!(!should_show_help("--help me"));
    assert!(!should_show_help("helper"));
}
