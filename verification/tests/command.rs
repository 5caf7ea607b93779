use aurorus::command::{parse_command, Command, Verb};

fn run_of(input: &str) -> Option<(Verb, String)> {
    match parse_command(input) {
        Command::Run(verb, text) => Some((verb, text)),
        _ => None,
    }
}

#[test]
fn blank_line_is_empty_command() {
    assert!(matches!(parse_command(""), Command::Empty));
    assert!(matches!(parse_command("  \t\n"), Command::Empty));
}

#[test]
fn exit_and_help_are_recognised_in_any_case() {
    assert!(matches!(parse_command("exit"), Command::Exit));
    assert!(matches!(parse_command("  EXIT now\n"), Command::Exit));
    assert!(matches!(parse_command("Help"), Command::Help));
}

#[test]
fn verbs_take_the_rest_of_the_line() {
    assert_eq!(run_of("search yay"), Some((Verb::Search, "yay".to_string())));
    assert_eq!(run_of("s   google   chrome \n"), Some((Verb::Search, "google chrome".to_string())));
    assert_eq!(run_of("install paru"), Some((Verb::Install, "paru".to_string())));
    assert_eq!(run_of("I paru"), Some((Verb::Install, "paru".to_string())));
    assert_eq!(run_of("uninstall a b c"), Some((Verb::Uninstall, "a b c".to_string())));
    assert_eq!(run_of("ui x"), Some((Verb::Uninstall, "x".to_string())));
}

#[test]
fn verb_without_argument_asks_for_usage() {
    assert!(matches!(parse_command("search"), Command::Usage(Verb::Search)));
    assert!(matches!(parse_command("i\n"), Command::Usage(Verb::Install)));
    assert!(matches!(parse_command(" ui "), Command::Usage(Verb::Uninstall)));
}

#[test]
fn update_takes_no_argument() {
    assert!(matches!(parse_command("update"), Command::Update));
    assert!(matches!(parse_command("up"), Command::Update));
    assert!(matches!(parse_command("UP everything"), Command::Update));
}

#[test]
fn other_words_are_unknown() {
    assert!(matches!(parse_command("upgrade"), Command::Unknown));
    assert!(matches!(parse_command("searchx y"), Command::Unknown));
    assert!(matches!(parse_command("-s y"), Command::Unknown));
}
