//! The durable log: replay, compaction, and crash-shaped scenarios.

use kvstore::codec::encode_entry;
use kvstore::command::Command;
use kvstore::store::Store;
use kvstore::wal::{compact_lines, replay_lines};

fn lines(items: &[&str]) -> Vec<String> {
    items.iter().map(|s| String::from(*s)).collect()
}

fn set_entry(k: &str, v: &str) -> String {
    encode_entry(&Command::SET { key: String::from(k), value: String::from(v) })
}

fn delete_entry(k: &str) -> String {
    encode_entry(&Command::DELETE { key: String::from(k) })
}

fn value_of(store: &Store, key: &str) -> Option<String> {
    store.get(key).cloned()
}

#[test]
fn replay_of_nothing_is_empty() {
    let store = replay_lines(&lines(&[]));
    assert_eq!(store.len(), 0);
    assert_eq!(value_of(&store, "a"), None);
}

#[test]
fn replay_applies_sets_and_deletes_in_order() {
    let store = replay_lines(&vec![
        set_entry("a", "1"),
        set_entry("b", "2"),
        set_entry("a", "3"),
        delete_entry("b"),
    ]);
    assert_eq!(value_of(&store, "a"), Some(String::from("3")));
    assert_eq!(value_of(&store, "b"), None);
    assert_eq!(store.len(), 1);
}

#[test]
fn replay_reads_the_canonical_json_lines() {
    let store = replay_lines(&lines(&[
        "{\"SET\":{\"key\":\"a\",\"value\":\"1\"}}",
        "{\"DELETE\":{\"key\":\"a\"}}",
        "{\"SET\":{\"key\":\"b\",\"value\":\"2\"}}",
    ]));
    assert_eq!(value_of(&store, "a"), None);
    assert_eq!(value_of(&store, "b"), Some(String::from("2")));
}

#[test]
fn replay_ignores_get_lines() {
    let store = replay_lines(&lines(&[
        "{\"SET\":{\"key\":\"a\",\"value\":\"1\"}}",
        "{\"GET\":{\"key\":\"a\"}}",
        "{\"GET\":{\"key\":\"missing\"}}",
    ]));
    assert_eq!(value_of(&store, "a"), Some(String::from("1")));
    assert_eq!(store.len(), 1);
}

#[test]
fn replay_skips_one_corrupted_line() {
    let store = replay_lines(&lines(&[
        "{\"SET\":{\"key\":\"a\",\"value\":\"1\"}}",
        "@@garbage@@",
        "{\"SET\":{\"key\":\"b\",\"value\":\"2\"}}",
    ]));
    assert_eq!(value_of(&store, "a"), Some(String::from("1")));
    assert_eq!(value_of(&store, "b"), Some(String::from("2")));
    assert_eq!(store.len(), 2);
}

#[test]
fn replay_skips_corrupted_lines_without_failing() {
    let store = replay_lines(&lines(&[
        "{\"SET\":{\"key\":\"a\",\"value\":\"1\"}}",
        "{\"SET\":{\"key",
        "SET b 9",
        "{\"SET\":{\"key\":\"a b\",\"value\":\"2\"}}",
        "{\"SET\":{\"key\":\"b\",\"value\":\"2\"}}",
        "{\"DELETE\":{\"key\":}}",
        "{\"DELETE\":{\"key\":\"a\"}}",
    ]));
    assert_eq!(value_of(&store, "a"), None);
    assert_eq!(value_of(&store, "b"), Some(String::from("2")));
    assert_eq!(store.len(), 1);
}

#[test]
fn mutation_survives_a_crash_after_the_append() {
    // The durability protocol: the entry is flushed to the log before the
    // store is touched or the client sees OK. Whatever happens after that
    // append, replaying the log reproduces the mutation's effect.
    let mut log = vec![set_entry("a", "1")];
    let cmd = Command::SET { key: String::from("b"), value: String::from("2") };
    log.push(encode_entry(&cmd));
    // the process dies here, before the store is ever mutated
    let recovered = replay_lines(&log);
    assert_eq!(value_of(&recovered, "b"), Some(String::from("2")));
    assert_eq!(value_of(&recovered, "a"), Some(String::from("1")));

    let del = Command::DELETE { key: String::from("a") };
    log.push(encode_entry(&del));
    let recovered = replay_lines(&log);
    assert_eq!(value_of(&recovered, "a"), None);
}

#[test]
fn compaction_preserves_the_store() {
    let store = replay_lines(&vec![
        set_entry("a", "1"),
        set_entry("b", "2"),
        delete_entry("a"),
        set_entry("c", "3"),
        set_entry("b", "9"),
    ]);
    let compacted = compact_lines(&store);
    assert_eq!(compacted.len(), 2);
    let replayed = replay_lines(&compacted);
    assert_eq!(value_of(&replayed, "a"), None);
    assert_eq!(value_of(&replayed, "b"), Some(String::from("9")));
    assert_eq!(value_of(&replayed, "c"), Some(String::from("3")));
}

#[test]
fn compaction_round_trips_keys_that_need_escaping() {
    let store = replay_lines(&vec![
        set_entry("a\"b", "c\\d"),
        set_entry("k\u{1}", "v\u{8}"),
    ]);
    let replayed = replay_lines(&compact_lines(&store));
    assert_eq!(value_of(&replayed, "a\"b"), Some(String::from("c\\d")));
    assert_eq!(value_of(&replayed, "k\u{1}"), Some(String::from("v\u{8}")));
    assert_eq!(replayed.len(), 2);
}

#[test]
fn compacted_log_holds_only_set_lines() {
    let store = replay_lines(&vec![
        set_entry("a", "1"),
        delete_entry("a"),
        set_entry("b", "2"),
        String::from("{\"GET\":{\"key\":\"b\"}}"),
    ]);
    for line in compact_lines(&store) {
        assert!(line.starts_with("{\"SET\":{\"key\":\""));
    }
}

#[test]
fn compacting_twice_replays_the_same_both_times() {
    let store = replay_lines(&vec![set_entry("a", "1"), set_entry("b", "2"), delete_entry("a")]);
    let once = compact_lines(&store);
    let replayed_once = replay_lines(&once);
    let twice = compact_lines(&replayed_once);
    let replayed_twice = replay_lines(&twice);
    assert_eq!(value_of(&replayed_once, "b"), value_of(&replayed_twice, "b"));
    assert_eq!(value_of(&replayed_once, "a"), value_of(&replayed_twice, "a"));
    assert_eq!(replayed_once.len(), replayed_twice.len());
}

#[test]
fn compacting_an_empty_store_yields_an_empty_log() {
    let store = Store::new();
    let compacted = compact_lines(&store);
    assert_eq!(compacted.len(), 0);
}
