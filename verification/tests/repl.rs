use kvforge::repl::{action_for, command_from_args, trim, Action};
use kvforge::Command;

fn strings(args: &[&str]) -> Vec<String> {
    args.iter().map(|arg| arg.to_string()).collect()
}

fn report(line: &str) -> String {
    match action_for(line) {
        Action::Report(msg) => msg,
        _ => panic!("{line} is not refused"),
    }
}

#[test]
fn arguments_are_read_as_a_server_reads_them() {
    assert_eq!(
        command_from_args(&strings(&["get", "\u{e9}"])),
        Ok(Command::Get {
            key: "\u{e9}".as_bytes().to_vec()
        })
    );
    assert_eq!(command_from_args(&[]), Err("empty command".to_string()));
    assert_eq!(
        command_from_args(&strings(&["GET"])),
        Err("GET requires a key".to_string())
    );
}

#[test]
fn a_line_is_a_command() {
    let line = "  set greeting \"hello world\"\r\n";
    match action_for(line) {
        Action::Call(command) => assert_eq!(
            command,
            Command::Put {
                key: b"greeting".to_vec(),
                value: b"hello world".to_vec(),
                ttl: None,
            }
        ),
        _ => panic!("not a command"),
    }
}

#[test]
fn an_empty_line_is_passed_over() {
    for line in ["", "\n", " \t\u{3000}\r\n"] {
        assert!(matches!(action_for(line), Action::Skip));
    }
}

#[test]
fn quit_and_exit_end_the_session() {
    for line in ["quit\n", "exit", " QUIT ", "eXiT\r\n"] {
        assert!(matches!(action_for(line), Action::Quit));
    }
    assert_eq!(report("quit now"), "unknown command 'QUIT'");
}

#[test]
fn a_bad_line_is_reported() {
    assert_eq!(report("get 'a"), "unterminated quote");
    assert_eq!(report("get"), "GET requires a key");
    assert_eq!(report("''"), "unknown command ''");
}

#[test]
fn whitespace_is_trimmed_from_both_ends() {
    for text in ["", " ", "a", " a", "a ", "\t a b \n", "\u{a0}\u{2003}x\u{85}"] {
        assert_eq!(trim(text), text.trim());
    }
}
