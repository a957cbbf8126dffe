//! The shared store's map semantics and the coordinator's state machine.

use kvstore::lifecycle::{lifecycle_step, LifecycleAction, Phase};
use kvstore::store::Store;
use kvstore::worker::execute_command;
use kvstore::command::Command;

#[test]
fn get_of_missing_key_is_none() {
    let store = Store::new();
    assert!(store.get("missing").is_none());
}

#[test]
fn delete_of_missing_key_reports_nothing_removed() {
    let mut store = Store::new();
    assert!(!store.delete("missing"));
}

#[test]
fn set_overwrites_and_delete_removes() {
    let mut store = Store::new();
    store.set(String::from("k"), String::from("v1"));
    assert_eq!(store.get("k").cloned(), Some(String::from("v1")));
    store.set(String::from("k"), String::from("v2"));
    assert_eq!(store.get("k").cloned(), Some(String::from("v2")));
    assert_eq!(store.len(), 1);
    assert!(store.delete("k"));
    assert!(store.get("k").is_none());
    assert!(!store.delete("k"));
}

#[test]
fn snapshot_is_a_faithful_copy() {
    let mut store = Store::new();
    store.set(String::from("a"), String::from("1"));
    store.set(String::from("b"), String::from("2"));
    let snap = store.snapshot();
    store.set(String::from("a"), String::from("9"));
    assert_eq!(snap.get("a").cloned(), Some(String::from("1")));
    assert_eq!(snap.get("b").cloned(), Some(String::from("2")));
    assert_eq!(store.get("a").cloned(), Some(String::from("9")));
}

#[test]
fn distinct_writers_lose_no_updates() {
    // Workers race on distinct keys; whatever order the lock grants, every
    // binding must be present afterwards. One representative order:
    let n = 16;
    let mut store = Store::new();
    for i in 0..n {
        let r = execute_command(
            &mut store,
            Command::SET { key: format!("k{}", i), value: format!("v{}", i) },
        );
        assert_eq!(r, "OK");
    }
    // and the reverse order over a fresh store gives the same contents
    let mut reversed = Store::new();
    for i in (0..n).rev() {
        execute_command(
            &mut reversed,
            Command::SET { key: format!("k{}", i), value: format!("v{}", i) },
        );
    }
    for i in 0..n {
        let key = format!("k{}", i);
        let want = Some(format!("v{}", i));
        assert_eq!(store.get(&key).cloned(), want);
        assert_eq!(reversed.get(&key).cloned(), want);
    }
    assert_eq!(store.len(), n);
    assert_eq!(reversed.len(), n);
}

#[test]
fn recovery_leads_to_serving() {
    let (p, a) = lifecycle_step(Phase::Recovering, false, false);
    assert!(matches!(p, Phase::Serving));
    assert!(matches!(a, LifecycleAction::Accept));
}

#[test]
fn shutdown_stops_accepting_immediately() {
    let (p, a) = lifecycle_step(Phase::Serving, true, true);
    assert!(matches!(p, Phase::Draining));
    assert!(matches!(a, LifecycleAction::Drain));
    // and the machine never serves again, whatever it observes
    let (p, a) = lifecycle_step(p, false, true);
    assert!(matches!(p, Phase::Draining));
    assert!(matches!(a, LifecycleAction::Drain));
}

#[test]
fn final_compaction_happens_exactly_once() {
    let (p, a) = lifecycle_step(Phase::Draining, true, false);
    assert!(matches!(p, Phase::Terminated));
    assert!(matches!(a, LifecycleAction::CompactAndExit));
    let (p, a) = lifecycle_step(p, true, false);
    assert!(matches!(p, Phase::Terminated));
    assert!(matches!(a, LifecycleAction::Done));
}

#[test]
fn draining_waits_for_workers() {
    let (p, a) = lifecycle_step(Phase::Draining, true, true);
    assert!(matches!(p, Phase::Draining));
    assert!(matches!(a, LifecycleAction::Drain));
}
