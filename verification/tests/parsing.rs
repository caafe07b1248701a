use kvactor::command::{ClientId, Command};
use kvactor::parser::{tokenize, CommandParser};

fn parser() -> CommandParser {
    CommandParser::new(ClientId(7))
}

#[test]
fn tokenize_splits_on_whitespace_runs() {
    let toks = tokenize("  set   a\t1  ");
    assert_eq!(toks, vec!["set".to_string(), "a".to_string(), "1".to_string()]);
}

#[test]
fn tokenize_empty_line_has_no_tokens() {
    assert_eq!(tokenize(""), Vec::<String>::new());
    assert_eq!(tokenize(" \t "), Vec::<String>::new());
}

#[test]
fn parse_get() {
    let cmd = parser().parse_command("get foo");
    assert_eq!(
        cmd,
        Some(Command::Get { variable_name: "foo".to_string(), from: ClientId(7) })
    );
}

#[test]
fn parse_get_extra_tokens_ignored() {
    let cmd = parser().parse_command("get foo bar baz");
    assert_eq!(
        cmd,
        Some(Command::Get { variable_name: "foo".to_string(), from: ClientId(7) })
    );
}

#[test]
fn parse_set() {
    let cmd = parser().parse_command("set a 1");
    assert_eq!(
        cmd,
        Some(Command::SetValue {
            variable_name: "a".to_string(),
            variable_value: "1".to_string(),
            from: ClientId(7),
        })
    );
}

#[test]
fn parse_set_extra_tokens_ignored() {
    let cmd = parser().parse_command("set a 1 2 3");
    assert_eq!(
        cmd,
        Some(Command::SetValue {
            variable_name: "a".to_string(),
            variable_value: "1".to_string(),
            from: ClientId(7),
        })
    );
}

#[test]
fn parse_unknown_token_named_verbatim() {
    let cmd = parser().parse_command("hello world");
    assert_eq!(
        cmd,
        Some(Command::Unknown { command_name: "hello".to_string(), from: ClientId(7) })
    );
}

#[test]
fn parse_empty_line_is_unknown_with_empty_token() {
    let cmd = parser().parse_command("");
    assert_eq!(
        cmd,
        Some(Command::Unknown { command_name: String::new(), from: ClientId(7) })
    );
    let cmd = parser().parse_command("   ");
    assert_eq!(
        cmd,
        Some(Command::Unknown { command_name: String::new(), from: ClientId(7) })
    );
}

#[test]
fn parse_get_without_key_is_dropped() {
    assert_eq!(parser().parse_command("get"), None);
    assert_eq!(parser().parse_command("  get  "), None);
}

#[test]
fn parse_set_without_value_is_dropped() {
    assert_eq!(parser().parse_command("set x"), None);
    assert_eq!(parser().parse_command("set"), None);
}

#[test]
fn parse_is_case_sensitive() {
    let cmd = parser().parse_command("GET foo");
    assert_eq!(
        cmd,
        Some(Command::Unknown { command_name: "GET".to_string(), from: ClientId(7) })
    );
}

#[test]
fn parse_stamps_the_issuing_client() {
    let p = CommandParser::new(ClientId(42));
    let cmd = p.parse_command("get k");
    assert_eq!(
        cmd,
        Some(Command::Get { variable_name: "k".to_string(), from: ClientId(42) })
    );
}

#[test]
fn constructors_build_the_matching_variants() {
    let id = ClientId(3);
    assert_eq!(
        Command::new_get("k".to_string(), id),
        Command::Get { variable_name: "k".to_string(), from: id }
    );
    assert_eq!(
        Command::new_set("k".to_string(), "v".to_string(), id),
        Command::SetValue {
            variable_name: "k".to_string(),
            variable_value: "v".to_string(),
            from: id,
        }
    );
    assert_eq!(
        Command::new_unknown("nope".to_string(), id),
        Command::Unknown { command_name: "nope".to_string(), from: id }
    );
}
