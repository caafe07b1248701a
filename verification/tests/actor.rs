use kvactor::command::{ClientId, Command};
use kvactor::parser::CommandParser;
use kvactor::store::{Response, Store};

const A: ClientId = ClientId(1);
const B: ClientId = ClientId(2);

fn registered_store(ids: &[ClientId]) -> Store {
    let mut store = Store::new();
    for id in ids {
        assert_eq!(store.step(Command::NewClient(*id)), None);
    }
    store
}

fn set(store: &mut Store, id: ClientId, k: &str, v: &str) -> Option<Response> {
    store.step(Command::new_set(k.to_string(), v.to_string(), id))
}

fn get(store: &mut Store, id: ClientId, k: &str) -> Option<Response> {
    store.step(Command::new_get(k.to_string(), id))
}

fn message(r: Option<Response>) -> String {
    r.expect("a response was owed").message
}

#[test]
fn get_of_unset_key_names_the_key() {
    let mut store = registered_store(&[A]);
    assert_eq!(message(get(&mut store, A, "k")), "Unexisting variable 'k'\n");
}

#[test]
fn set_then_get_yields_the_value_verbatim() {
    let mut store = registered_store(&[A]);
    assert_eq!(
        message(set(&mut store, A, "k", "hello")),
        "Variable 'k' has been updated with 'hello'\n"
    );
    assert_eq!(message(get(&mut store, A, "k")), "hello\n");
}

#[test]
fn second_set_reports_old_value_and_last_write_wins() {
    let mut store = registered_store(&[A]);
    set(&mut store, A, "k", "v1");
    assert_eq!(
        message(set(&mut store, A, "k", "v2")),
        "Variable 'k' has been updated with 'v2', old value was 'v1'\n"
    );
    assert_eq!(message(get(&mut store, A, "k")), "v2\n");
}

#[test]
fn unknown_command_names_the_token_and_connection_stays_usable() {
    let mut store = registered_store(&[A]);
    let r = store.step(Command::new_unknown("hello".to_string(), A));
    assert_eq!(message(r), "The command 'hello' does not exist\n");
    // the actor state is untouched: well-formed commands keep working
    set(&mut store, A, "k", "v");
    assert_eq!(message(get(&mut store, A, "k")), "v\n");
}

#[test]
fn empty_token_is_reported_as_empty_unknown_command() {
    let mut store = registered_store(&[A]);
    let r = store.step(Command::new_unknown(String::new(), A));
    assert_eq!(message(r), "The command '' does not exist\n");
}

#[test]
fn four_commands_answer_in_issue_order() {
    let mut store = registered_store(&[A]);
    let responses = vec![
        set(&mut store, A, "a", "1"),
        get(&mut store, A, "a"),
        set(&mut store, A, "a", "2"),
        get(&mut store, A, "a"),
    ];
    let texts: Vec<String> = responses.into_iter().map(message).collect();
    assert_eq!(
        texts,
        vec![
            "Variable 'a' has been updated with '1'\n".to_string(),
            "1\n".to_string(),
            "Variable 'a' has been updated with '2', old value was '1'\n".to_string(),
            "2\n".to_string(),
        ]
    );
}

#[test]
fn responses_go_to_the_issuing_client() {
    let mut store = registered_store(&[A, B]);
    let r = set(&mut store, B, "k", "v").expect("a response was owed");
    assert_eq!(r.to, B);
    let r = get(&mut store, A, "k").expect("a response was owed");
    assert_eq!(r.to, A);
}

#[test]
fn unregistered_client_gets_no_response_but_its_set_applies() {
    let mut store = registered_store(&[A]);
    assert_eq!(set(&mut store, B, "k", "v"), None);
    assert_eq!(get(&mut store, B, "k"), None);
    // the mutation happened even though B was never answered
    assert_eq!(message(get(&mut store, A, "k")), "v\n");
}

#[test]
fn registering_twice_keeps_the_client_registered() {
    let mut store = registered_store(&[A, A]);
    assert_eq!(message(get(&mut store, A, "k")), "Unexisting variable 'k'\n");
}

#[test]
fn malformed_line_reaches_no_actor_and_later_commands_work() {
    let parser = CommandParser::new(A);
    let mut store = registered_store(&[A]);
    // `get` without a key and `set` without a value parse to nothing:
    // no event is forwarded, so the actor never sees the line
    assert_eq!(parser.parse_command("get"), None);
    assert_eq!(parser.parse_command("set x"), None);
    let cmd = parser.parse_command("set x 9").expect("well-formed");
    store.step(cmd);
    let cmd = parser.parse_command("get x").expect("well-formed");
    assert_eq!(message(store.step(cmd)), "9\n");
}

#[test]
fn interleaved_sets_lose_no_update() {
    let mut store = registered_store(&[A, B]);
    let mut texts: Vec<String> = Vec::new();
    for round in 0..10 {
        let va = format!("a{}", round);
        let vb = format!("b{}", round);
        texts.push(message(set(&mut store, A, "k", &va)));
        texts.push(message(set(&mut store, B, "k", &vb)));
    }
    // every set is answered, and each response from the second set on
    // reports the previous set's value: no update is silently lost
    assert_eq!(texts[0], "Variable 'k' has been updated with 'a0'\n");
    let mut values = Vec::new();
    for round in 0..10 {
        values.push(format!("a{}", round));
        values.push(format!("b{}", round));
    }
    for i in 1..20 {
        assert_eq!(
            texts[i],
            format!(
                "Variable 'k' has been updated with '{}', old value was '{}'\n",
                values[i],
                values[i - 1]
            )
        );
    }
    // the final stored value is whichever set the actor processed last
    assert_eq!(message(get(&mut store, A, "k")), "b9\n");
}

#[test]
fn lines_from_two_connections_flow_end_to_end() {
    let pa = CommandParser::new(A);
    let pb = CommandParser::new(B);
    let mut store = registered_store(&[A, B]);
    let cmd = pa.parse_command("set greeting hi").expect("well-formed");
    assert_eq!(
        message(store.step(cmd)),
        "Variable 'greeting' has been updated with 'hi'\n"
    );
    let cmd = pb.parse_command("get greeting").expect("well-formed");
    let r = store.step(cmd).expect("a response was owed");
    assert_eq!(r.to, B);
    assert_eq!(r.message, "hi\n");
    let cmd = pb.parse_command("quit now").expect("unknown commands still parse");
    assert_eq!(
        message(store.step(cmd)),
        "The command 'quit' does not exist\n"
    );
}
