use xhtp::cli::{interpret_cli, CliCommand};
use xhtp::structs::Cli;

fn cli(first: Option<&str>, second: Option<&str>, third: Option<&str>) -> Cli {
    Cli {
        first_arg: first.map(|s| s.to_string()),
        second_arg: second.map(|s| s.to_string()),
        third_arg: third.map(|s| s.to_string()),
    }
}

#[test]
fn help_forms() {
    assert!(matches!(interpret_cli(&cli(None, None, None)), CliCommand::Help));
    assert!(matches!(interpret_cli(&cli(Some("h"), None, None)), CliCommand::Help));
    assert!(matches!(interpret_cli(&cli(Some("help"), None, None)), CliCommand::Help));
    assert!(matches!(interpret_cli(&cli(Some(""), None, None)), CliCommand::Help));
}

#[test]
fn list_forms() {
    assert!(matches!(interpret_cli(&cli(Some("l"), None, None)), CliCommand::ListAll));
    assert!(matches!(interpret_cli(&cli(Some("l"), Some("2"), None)), CliCommand::ListOne(2)));
    assert!(matches!(interpret_cli(&cli(Some("l"), Some("x"), None)), CliCommand::ListAll));
}

#[test]
fn editing_forms() {
    assert!(matches!(interpret_cli(&cli(Some("a"), None, None)), CliCommand::Add));
    assert!(matches!(
        interpret_cli(&cli(Some("d"), None, None)),
        CliCommand::DeleteInteractive
    ));
    match interpret_cli(&cli(Some("e"), Some("3"), None)) {
        CliCommand::Edit(Some(tok)) => assert_eq!(tok, "3"),
        _ => panic!("expected an edit command"),
    }
    assert!(matches!(interpret_cli(&cli(Some("e"), None, None)), CliCommand::Edit(None)));
}

#[test]
fn globals_forms() {
    assert!(matches!(interpret_cli(&cli(Some("gl"), None, None)), CliCommand::GlobalsList));
    match interpret_cli(&cli(Some("ga"), Some("host"), Some("example.com"))) {
        CliCommand::GlobalsAdd(n, v) => {
            assert_eq!(n, "host");
            assert_eq!(v, "example.com");
        },
        _ => panic!("expected a globals add"),
    }
    match interpret_cli(&cli(Some("gd"), Some("1"), None)) {
        CliCommand::GlobalsDelete(tok) => assert_eq!(tok, "1"),
        _ => panic!("expected a globals delete"),
    }
    // A `gl` with a stray argument means none of the subcommands and is
    // dispatched as a URL, as the bare-token rule says.
    match interpret_cli(&cli(Some("gl"), Some("x"), None)) {
        CliCommand::SendUrl(u) => assert_eq!(u, "gl"),
        _ => panic!("expected a URL dispatch"),
    }
}

#[test]
fn import_forms() {
    match interpret_cli(&cli(Some("i"), Some("example.com/spec.json"), None)) {
        CliCommand::Import(u) => assert_eq!(u, "example.com/spec.json"),
        _ => panic!("expected an import"),
    }
    assert!(matches!(interpret_cli(&cli(Some("i"), None, None)), CliCommand::Help));
}

#[test]
fn bare_token_dispatch() {
    assert!(matches!(interpret_cli(&cli(Some("2"), None, None)), CliCommand::SendSaved(2)));
    match interpret_cli(&cli(Some("example.com/ping"), None, None)) {
        CliCommand::SendUrl(u) => assert_eq!(u, "example.com/ping"),
        _ => panic!("expected a URL dispatch"),
    }
}
