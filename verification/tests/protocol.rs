use rev_init::protocol::connection_closes;
use rev_init::protocol::parse_command;
use rev_init::protocol::respond;
use rev_init::protocol::tokenize;
use rev_init::protocol::Command;

#[test]
fn tokenize_splits_on_ascii_whitespace() {
    assert_eq!(
        tokenize("start com.a.b/svc\n"),
        vec!["start".to_string(), "com.a.b/svc".to_string()]
    );
    assert_eq!(
        tokenize("  a \t b \r\n c "),
        vec!["a".to_string(), "b".to_string(), "c".to_string()]
    );
    assert_eq!(tokenize("   \n"), Vec::<String>::new());
}

#[test]
fn commands_parse_by_arity() {
    assert_eq!(
        parse_command("start echo\n"),
        Command::Start("echo".to_string())
    );
    assert_eq!(
        parse_command("stop echo\n"),
        Command::Stop("echo".to_string())
    );
    assert_eq!(parse_command("exit\n"), Command::Exit);
    assert_eq!(parse_command("\n"), Command::Empty);
    assert_eq!(parse_command("start\n"), Command::Unknown);
    assert_eq!(parse_command("start a b\n"), Command::Unknown);
    assert_eq!(parse_command("exit now\n"), Command::Unknown);
    assert_eq!(parse_command("bogus\n"), Command::Unknown);
}

#[test]
fn responses_are_bit_exact() {
    assert_eq!(
        respond(&Command::Start("echo".to_string())),
        Some("Started service: echo\n".to_string())
    );
    assert_eq!(
        respond(&Command::Stop("echo".to_string())),
        Some("Stopped service: echo\n".to_string())
    );
    assert_eq!(respond(&Command::Exit), Some("Goodbye!\n".to_string()));
    assert_eq!(respond(&Command::Empty), None);
}

#[test]
fn bogus_line_gets_the_unknown_text_and_keeps_the_connection() {
    let cmd = parse_command("bogus\n");
    assert_eq!(
        respond(&cmd),
        Some(
            "Unknown command. Use 'start <service>', 'stop <service>', or 'exit'.\n".to_string()
        )
    );
    assert!(!connection_closes(&cmd));
}

#[test]
fn exit_line_says_goodbye_and_closes_the_connection() {
    let cmd = parse_command("exit\n");
    assert_eq!(respond(&cmd), Some("Goodbye!\n".to_string()));
    assert!(connection_closes(&cmd));
}

#[test]
fn only_exit_closes_the_connection() {
    assert!(!connection_closes(&parse_command("start a\n")));
    assert!(!connection_closes(&parse_command("stop a\n")));
    assert!(!connection_closes(&parse_command("\n")));
    assert!(!connection_closes(&parse_command("bogus\n")));
}

#[test]
fn stop_answers_even_for_an_unregistered_service() {
    // the acknowledgement is textual; it does not claim the OS acted
    let cmd = parse_command("stop nobody\n");
    assert_eq!(
        respond(&cmd),
        Some("Stopped service: nobody\n".to_string())
    );
}
