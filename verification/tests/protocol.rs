//! Parsing, responses, and the per-line protocol.

use kvstore::codec::{encode_entry, parse_entry};
use kvstore::command::{parse_command, Command};
use kvstore::store::Store;
use kvstore::worker::{execute_command, plan_line, worker_read_step, LineAction, ReadEvent, WorkerState};

fn parse_err(input: &str) -> String {
    match parse_command(input) {
        Ok(_) => panic!("expected a parse error for {:?}", input),
        Err(e) => e,
    }
}

#[test]
fn set_parses() {
    match parse_command("SET a b") {
        Ok(Command::SET { key, value }) => {
            assert_eq!(key, "a");
            assert_eq!(value, "b");
        },
        _ => panic!("SET a b should parse"),
    }
}

#[test]
fn verbs_are_case_insensitive() {
    assert!(matches!(parse_command("set a b"), Ok(Command::SET { .. })));
    assert!(matches!(parse_command("gEt a"), Ok(Command::GET { .. })));
    assert!(matches!(parse_command("delete a"), Ok(Command::DELETE { .. })));
}

#[test]
fn extra_whitespace_is_tolerated() {
    match parse_command("  SET   key1\tvalue1 \n") {
        Ok(Command::SET { key, value }) => {
            assert_eq!(key, "key1");
            assert_eq!(value, "value1");
        },
        _ => panic!("whitespace-padded SET should parse"),
    }
}

#[test]
fn set_arity_error() {
    assert_eq!(parse_err("SET a"), "ERROR: SET requires a key and value");
    assert_eq!(parse_err("SET a b c"), "ERROR: SET requires a key and value");
}

#[test]
fn get_arity_error() {
    assert_eq!(parse_err("GET"), "ERROR: GET requires a key");
    assert_eq!(parse_err("GET a b"), "ERROR: GET requires a key");
}

#[test]
fn delete_arity_error() {
    assert_eq!(parse_err("DELETE"), "ERROR: DELETE requires a key");
    assert_eq!(parse_err("DELETE a b"), "ERROR: DELETE requires a key");
}

#[test]
fn unknown_verb_error() {
    assert_eq!(parse_err("FOO x"), "ERROR: Unknown command");
}

#[test]
fn empty_command_error() {
    assert_eq!(parse_err(""), "ERROR: Empty command");
    assert_eq!(parse_err("   \t  "), "ERROR: Empty command");
}

#[test]
fn encode_produces_canonical_json_lines() {
    let set = Command::SET { key: String::from("a"), value: String::from("1") };
    assert_eq!(encode_entry(&set), "{\"SET\":{\"key\":\"a\",\"value\":\"1\"}}");
    let del = Command::DELETE { key: String::from("a") };
    assert_eq!(encode_entry(&del), "{\"DELETE\":{\"key\":\"a\"}}");
}

#[test]
fn encode_escapes_quotes_and_backslashes() {
    let set = Command::SET { key: String::from("a\"b"), value: String::from("c\\d") };
    assert_eq!(encode_entry(&set), "{\"SET\":{\"key\":\"a\\\"b\",\"value\":\"c\\\\d\"}}");
}

#[test]
fn encode_escapes_control_characters() {
    let set = Command::SET { key: String::from("a\u{8}b"), value: String::from("c\u{1}d") };
    assert_eq!(encode_entry(&set), "{\"SET\":{\"key\":\"a\\bb\",\"value\":\"c\\u0001d\"}}");
}

#[test]
fn encode_then_parse_round_trips() {
    let cases = [
        ("alpha", "beta"),
        ("a\"b", "c\\d"),
        ("k\u{1f}x", "v\u{8}y"),
        ("\u{7f}", "\u{e9}"),
    ];
    for (k, v) in cases {
        let set = Command::SET { key: String::from(k), value: String::from(v) };
        match parse_entry(&encode_entry(&set)) {
            Some(Command::SET { key, value }) => {
                assert_eq!(key, k);
                assert_eq!(value, v);
            },
            _ => panic!("encoded SET should parse back"),
        }
        let del = Command::DELETE { key: String::from(k) };
        match parse_entry(&encode_entry(&del)) {
            Some(Command::DELETE { key }) => assert_eq!(key, k),
            _ => panic!("encoded DELETE should parse back"),
        }
    }
}

#[test]
fn parse_entry_rejects_non_canonical_lines() {
    assert!(parse_entry("").is_none());
    assert!(parse_entry("SET a 1").is_none());
    assert!(parse_entry("{\"SET\":{\"key\":\"a\"}}").is_none());
    assert!(parse_entry("{\"SET\":{\"key\":\"a\",\"value\":\"1\"}} ").is_none());
    assert!(parse_entry("{\"SET\":{\"key\":\"a b\",\"value\":\"1\"}}").is_none());
    assert!(parse_entry("{\"SET\":{\"key\":\"\",\"value\":\"1\"}}").is_none());
    assert!(parse_entry("{\"FROB\":{\"key\":\"a\"}}").is_none());
}

#[test]
fn responses_follow_the_protocol() {
    let mut store = Store::new();
    let r = execute_command(
        &mut store,
        Command::SET { key: String::from("k"), value: String::from("v") },
    );
    assert_eq!(r, "OK");
    let r = execute_command(&mut store, Command::GET { key: String::from("k") });
    assert_eq!(r, "v");
    let r = execute_command(&mut store, Command::GET { key: String::from("missing") });
    assert_eq!(r, "(nil)");
    let r = execute_command(&mut store, Command::DELETE { key: String::from("k") });
    assert_eq!(r, "OK");
    let r = execute_command(&mut store, Command::DELETE { key: String::from("k") });
    assert_eq!(r, "(nil)");
    let r = execute_command(&mut store, Command::GET { key: String::from("k") });
    assert_eq!(r, "(nil)");
}

#[test]
fn plan_reply_for_bad_lines() {
    match plan_line("SET a") {
        LineAction::Reply { text } => assert_eq!(text, "ERROR: SET requires a key and value"),
        _ => panic!("a malformed line must only be replied to"),
    }
}

#[test]
fn plan_execute_for_reads() {
    match plan_line("GET a") {
        LineAction::Execute { cmd } => assert!(matches!(cmd, Command::GET { .. })),
        _ => panic!("GET must not be logged"),
    }
}

#[test]
fn plan_append_for_mutations() {
    match plan_line("SET a b") {
        LineAction::AppendThenExecute { entry, cmd } => {
            assert_eq!(entry, "{\"SET\":{\"key\":\"a\",\"value\":\"b\"}}");
            assert!(matches!(cmd, Command::SET { .. }));
        },
        _ => panic!("SET must be appended to the log before it is applied"),
    }
    match plan_line("DELETE a") {
        LineAction::AppendThenExecute { entry, .. } => {
            assert_eq!(entry, "{\"DELETE\":{\"key\":\"a\"}}");
        },
        _ => panic!("DELETE must be appended to the log before it is applied"),
    }
}

#[test]
fn shutdown_flag_wins_over_reads() {
    assert!(matches!(worker_read_step(true, ReadEvent::Line), WorkerState::ClosedByShutdown));
    assert!(matches!(worker_read_step(true, ReadEvent::Timeout), WorkerState::ClosedByShutdown));
    assert!(matches!(worker_read_step(false, ReadEvent::Timeout), WorkerState::Reading));
    assert!(matches!(worker_read_step(false, ReadEvent::Eof), WorkerState::ClosedByPeer));
    assert!(matches!(worker_read_step(false, ReadEvent::Line), WorkerState::Dispatching));
    assert!(matches!(worker_read_step(false, ReadEvent::Failure), WorkerState::ClosedByError));
}
