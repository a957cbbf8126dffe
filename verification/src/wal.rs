//! The durable log: replay and compaction.
//!
//! The log is an append-only sequence of lines, one serialized mutating
//! command per line. The surrounding process does the file work — appending
//! a line and flushing it before a mutation is applied, and atomically
//! renaming a freshly written compacted file over the live log — and hands
//! this module the lines as plain values. Everything the log means is
//! defined and proved here: what replaying a sequence of lines yields, that
//! a line that fails to parse is skipped and nothing else changes, and that
//! a compacted log replays to exactly the store it was taken from.

use crate::codec::{
    entry_parse_spec, json_encode_spec, lemma_entry_parse_encode, parse_entry,
};
use crate::command::{is_token, wf_command, Command, CommandModel};
use crate::store::{lemma_map_of_contains, lemma_map_of_value, Store};
use vstd::prelude::*;

verus! {

/// The key a command addresses.
pub open spec fn cmd_key(c: CommandModel) -> Seq<char> {
    match c {
        CommandModel::SET { key, .. } => key,
        CommandModel::GET { key } => key,
        CommandModel::DELETE { key } => key,
    }
}

/// The value a `SET` binds; immaterial for the other commands.
pub open spec fn cmd_value(c: CommandModel) -> Seq<char> {
    match c {
        CommandModel::SET { value, .. } => value,
        CommandModel::GET { .. } => Seq::empty(),
        CommandModel::DELETE { .. } => Seq::empty(),
    }
}

/// What applying one command to the store's map means: `SET` binds, `DELETE`
/// unbinds, `GET` changes nothing.
pub open spec fn apply_model(
    m: Map<Seq<char>, Seq<char>>,
    c: CommandModel,
) -> Map<Seq<char>, Seq<char>> {
    match c {
        CommandModel::SET { key, value } => m.insert(key, value),
        CommandModel::DELETE { key } => m.remove(key),
        CommandModel::GET { .. } => m,
    }
}

/// What one log line does on replay: a line that parses is applied (`GET`
/// lines change nothing); a line that fails to parse is skipped.
pub open spec fn replay_line(
    m: Map<Seq<char>, Seq<char>>,
    line: Seq<char>,
) -> Map<Seq<char>, Seq<char>> {
    match entry_parse_spec(line) {
        Some(c) => apply_model(m, c),
        None => m,
    }
}

/// Replaying a sequence of log lines over a starting map, in file order.
pub open spec fn replay_from(
    m: Map<Seq<char>, Seq<char>>,
    lines: Seq<Seq<char>>,
) -> Map<Seq<char>, Seq<char>>
    decreases lines.len(),
{
    if lines.len() == 0 {
        m
    } else {
        replay_from(replay_line(m, lines[0]), lines.drop_first())
    }
}

/// The store a log replays to, from empty.
pub open spec fn replay_of(lines: Seq<Seq<char>>) -> Map<Seq<char>, Seq<char>> {
    replay_from(Map::empty(), lines)
}

/// Replay folds one line at a time off the end.
pub proof fn lemma_replay_from_push(
    m: Map<Seq<char>, Seq<char>>,
    lines: Seq<Seq<char>>,
    line: Seq<char>,
)
    ensures
        replay_from(m, lines.push(line)) == replay_line(replay_from(m, lines), line),
    decreases lines.len(),
{
    if lines.len() == 0 {
        reveal_with_fuel(replay_from, 2);
        assert(lines.push(line)[0] == line);
        assert(lines.push(line).drop_first() =~= Seq::<Seq<char>>::empty());
    } else {
        assert(lines.push(line)[0] == lines[0]);
        assert(lines.push(line).drop_first() =~= lines.drop_first().push(line));
        lemma_replay_from_push(replay_line(m, lines[0]), lines.drop_first(), line);
    }
}

/// Replay of a concatenation is replay of the parts in order.
pub proof fn lemma_replay_from_concat(
    m: Map<Seq<char>, Seq<char>>,
    a: Seq<Seq<char>>,
    b: Seq<Seq<char>>,
)
    ensures
        replay_from(m, a + b) == replay_from(replay_from(m, a), b),
    decreases a.len(),
{
    if a.len() == 0 {
        assert(a + b =~= b);
    } else {
        assert((a + b)[0] == a[0]);
        assert((a + b).drop_first() =~= a.drop_first() + b);
        lemma_replay_from_concat(replay_line(m, a[0]), a.drop_first(), b);
    }
}

/// Durability: once the entry for a well-formed mutating command stands at
/// the end of the log, replaying the log reproduces exactly that command's
/// effect on the replayed store — so a crash any time after the append
/// preserves an acknowledged mutation.
pub proof fn lemma_append_then_replay(lines: Seq<Seq<char>>, c: CommandModel)
    requires
        wf_command(c),
    ensures
        replay_of(lines.push(json_encode_spec(c))) == apply_model(replay_of(lines), c),
{
    lemma_replay_from_push(Map::empty(), lines, json_encode_spec(c));
    lemma_entry_parse_encode(c);
}

/// Corrupted log tolerance: one unparseable line anywhere in the log leaves
/// the replayed store exactly as if the line were not there; replay of the
/// surrounding valid entries is unaffected and never fails.
pub proof fn lemma_corrupt_line_skipped(
    before: Seq<Seq<char>>,
    bad: Seq<char>,
    after: Seq<Seq<char>>,
)
    requires
        entry_parse_spec(bad) is None,
    ensures
        replay_of(before + seq![bad] + after) == replay_of(before + after),
{
    lemma_replay_from_concat(Map::empty(), before + seq![bad], after);
    assert(before + seq![bad] =~= before.push(bad));
    lemma_replay_from_push(Map::empty(), before, bad);
    lemma_replay_from_concat(Map::empty(), before, after);
}

/// Rebuild a store by replaying log lines from an empty store: apply each
/// line that parses as `SET` or `DELETE`, ignore `GET` lines, and skip —
/// never fail on — lines that do not parse.
pub fn replay_lines(lines: &Vec<String>) -> (s: Store)
    ensures
        s.wf(),
        s@ == replay_of(lines.deep_view()),
{
    let mut store = Store::new();
    let ghost all = lines.deep_view();
    let mut i: usize = 0;
    while i < lines.len()
        invariant
            all == lines.deep_view(),
            all.len() == lines@.len(),
            i <= lines@.len(),
            store.wf(),
            store@ == replay_of(all.subrange(0, i as int)),
        decreases lines@.len() - i,
    {
        let ghost prefix = all.subrange(0, i as int);
        let line = &lines[i];
        proof {
            assert(all[i as int] == lines@[i as int]@);
            lemma_replay_from_push(Map::empty(), prefix, line@);
            assert(prefix.push(line@) =~= all.subrange(0, i as int + 1));
        }
        match parse_entry(line.as_str()) {
            Some(cmd) => {
                match cmd {
                    Command::SET { key, value } => {
                        store.set(key, value);
                    },
                    Command::DELETE { key } => {
                        let _ = store.delete(key.as_str());
                    },
                    Command::GET { .. } => {},
                }
            },
            None => {},
        }
        i = i + 1;
    }
    proof {
        assert(all.subrange(0, all.len() as int) =~= all);
    }
    store
}

/// The log line a compaction writes for one live binding.
pub open spec fn set_line(key: Seq<char>, value: Seq<char>) -> Seq<char> {
    json_encode_spec(CommandModel::SET { key, value })
}

/// `line` is the `SET` entry of some live, token-shaped binding of `m`.
pub open spec fn line_is_set_of(line: Seq<char>, m: Map<Seq<char>, Seq<char>>) -> bool {
    exists|k: Seq<char>|
        #![auto]
        m.contains_key(k) && is_token(k) && is_token(m[k]) && line == set_line(k, m[k])
}

/// `lines` is a compaction of the map `m`: every key and value of `m` is a
/// token, every line is the `SET` entry of some live binding (so no
/// `DELETE` or `GET` entries appear), and every live binding has its line.
pub open spec fn is_compaction_of(lines: Seq<Seq<char>>, m: Map<Seq<char>, Seq<char>>) -> bool {
    (forall|k: Seq<char>|
        #[trigger] m.contains_key(k) ==> is_token(k) && is_token(m[k])) && (forall|i: int|
        0 <= i < lines.len() ==> line_is_set_of(#[trigger] lines[i], m)) && (forall|k: Seq<char>|
        #[trigger] m.contains_key(k) ==> exists|i: int|
            #![auto]
            0 <= i < lines.len() && lines[i] == set_line(k, m[k]))
}

/// `m0` is contained in `m`.
pub open spec fn submap_of(m0: Map<Seq<char>, Seq<char>>, m: Map<Seq<char>, Seq<char>>) -> bool {
    forall|k: Seq<char>|
        #[trigger] m0.contains_key(k) ==> m.contains_key(k) && m0[k] == m[k]
}

proof fn lemma_replay_setlines(
    m0: Map<Seq<char>, Seq<char>>,
    lines: Seq<Seq<char>>,
    m: Map<Seq<char>, Seq<char>>,
)
    requires
        submap_of(m0, m),
        forall|i: int| 0 <= i < lines.len() ==> line_is_set_of(#[trigger] lines[i], m),
    ensures
        submap_of(replay_from(m0, lines), m),
        forall|k: Seq<char>|
            m0.contains_key(k) ==> replay_from(m0, lines).contains_key(k),
        forall|k: Seq<char>, i: int|
            #![trigger lines[i], m[k]]
            0 <= i < lines.len() && m.contains_key(k) && is_token(k) && is_token(m[k]) && lines[i]
                == set_line(k, m[k]) ==> replay_from(m0, lines).contains_key(k),
    decreases lines.len(),
{
    if lines.len() > 0 {
        assert(line_is_set_of(lines[0], m));
        let k0 = choose|k: Seq<char>|
            #![auto]
            m.contains_key(k) && is_token(k) && is_token(m[k]) && lines[0] == set_line(k, m[k]);
        lemma_entry_parse_encode(CommandModel::SET { key: k0, value: m[k0] });
        let m1 = m0.insert(k0, m[k0]);
        assert(replay_line(m0, lines[0]) == m1);
        assert(forall|j: int|
            0 <= j < lines.drop_first().len() ==> lines.drop_first()[j] == lines[j + 1]);
        assert forall|k: Seq<char>| #[trigger] m1.contains_key(k) implies m.contains_key(k)
            && m1[k] == m[k] by {
            if k != k0 {
                assert(m0.contains_key(k));
            }
        }
        lemma_replay_setlines(m1, lines.drop_first(), m);
        assert(replay_from(m0, lines) == replay_from(m1, lines.drop_first()));
        assert forall|k: Seq<char>| #[trigger] m0.contains_key(k) implies replay_from(
            m0,
            lines,
        ).contains_key(k) by {
            assert(m1.contains_key(k));
            assert(replay_from(m1, lines.drop_first()).contains_key(k));
        }
        assert forall|k: Seq<char>, i: int|
            #![trigger lines[i], m[k]]
            0 <= i < lines.len() && m.contains_key(k) && is_token(k) && is_token(m[k]) && lines[i]
                == set_line(k, m[k]) implies replay_from(m0, lines).contains_key(k) by {
            if i == 0 {
                // the first line sets k, and bindings already present survive
                if k == k0 {
                    assert(m1.contains_key(k));
                } else {
                    // two set-lines are equal only if they set the same key
                    // to the same value: parsing gives both commands back
                    lemma_entry_parse_encode(CommandModel::SET { key: k, value: m[k] });
                    lemma_entry_parse_encode(CommandModel::SET { key: k0, value: m[k0] });
                    assert(false);
                }
            } else {
                assert(lines.drop_first()[i - 1] == set_line(k, m[k]));
            }
        }
    }
}

/// Compaction equivalence: a compacted log replays to exactly the map it
/// was compacted from. In particular compacting twice in a row without an
/// intervening mutation yields a log that replays to the same store both
/// times, however the lines are ordered.
pub proof fn lemma_compaction_replays_to_state(
    lines: Seq<Seq<char>>,
    m: Map<Seq<char>, Seq<char>>,
)
    requires
        is_compaction_of(lines, m),
    ensures
        replay_of(lines) == m,
{
    lemma_replay_setlines(Map::empty(), lines, m);
    let r = replay_of(lines);
    assert forall|k: Seq<char>| #[trigger] m.contains_key(k) implies r.contains_key(k) && r[k]
        == m[k] by {
        let i = choose|i: int|
            #![auto]
            0 <= i < lines.len() && lines[i] == set_line(k, m[k]);
        assert(lines[i] == set_line(k, m[k]) && is_token(k) && is_token(m[k]));
        assert(r.contains_key(k));
    }
    assert(r =~= m);
}

/// Idempotent compaction: compacting a store, replaying, and compacting the
/// replayed store again gives a log with the same replay result, byte
/// orderings aside.
pub proof fn lemma_compaction_idempotent(
    lines1: Seq<Seq<char>>,
    lines2: Seq<Seq<char>>,
    m: Map<Seq<char>, Seq<char>>,
)
    requires
        is_compaction_of(lines1, m),
        is_compaction_of(lines2, replay_of(lines1)),
    ensures
        replay_of(lines2) == replay_of(lines1),
        replay_of(lines2) == m,
{
    lemma_compaction_replays_to_state(lines1, m);
    lemma_compaction_replays_to_state(lines2, replay_of(lines1));
}

/// Write the compacted form of a store: one `SET` line per live binding and
/// nothing else. The caller streams these lines into a temporary file,
/// flushes it, and atomically renames it over the live log.
pub fn compact_lines(store: &Store) -> (lines: Vec<String>)
    requires
        store.wf(),
    ensures
        is_compaction_of(lines.deep_view(), store@),
        replay_of(lines.deep_view()) == store@,
        lines@.len() == store.entries@.len(),
{
    let ghost es = store.entries@;
    let mut lines: Vec<String> = Vec::new();
    let mut i: usize = 0;
    while i < store.entries.len()
        invariant
            es == store.entries@,
            store.wf(),
            i <= es.len(),
            lines@.len() == i,
            forall|j: int|
                0 <= j < i ==> #[trigger] lines.deep_view()[j] == set_line(es[j].0@, es[j].1@),
        decreases es.len() - i,
    {
        let p = &store.entries[i];
        let entry = crate::codec::encode_entry(
            &Command::SET { key: p.0.clone(), value: p.1.clone() },
        );
        let ghost prev = lines@;
        let ghost prevdv = lines.deep_view();
        lines.push(entry);
        proof {
            assert(lines@ == prev.push(entry));
            assert forall|j: int| 0 <= j < i + 1 implies #[trigger] lines.deep_view()[j]
                == set_line(es[j].0@, es[j].1@) by {
                assert(lines.deep_view()[j] == lines@[j].deep_view());
                if j < i {
                    assert(lines@[j] == prev[j]);
                    assert(prevdv[j] == prev[j].deep_view());
                    assert(prevdv[j] == set_line(es[j].0@, es[j].1@));
                } else {
                    assert(lines@[j] == entry);
                }
            }
        }
        i = i + 1;
    }
    proof {
        let lv = lines.deep_view();
        assert(lv.len() == lines@.len());
        assert(lines@.len() == es.len());
        assert(forall|j: int| 0 <= j < lv.len() ==> #[trigger] lv[j] == set_line(es[j].0@, es[j].1@));
        assert forall|k: Seq<char>| #[trigger] store@.contains_key(k) implies is_token(k)
            && is_token(store@[k]) by {
            lemma_map_of_contains(es, k);
            let j = choose|j: int| 0 <= j < es.len() && (#[trigger] es[j]).0@ == k;
            lemma_map_of_value(es, j);
        }
        assert forall|j: int| 0 <= j < lv.len() implies line_is_set_of(
            #[trigger] lv[j],
            store@,
        ) by {
            lemma_map_of_value(es, j);
            assert(store@.contains_key(es[j].0@) && store@[es[j].0@] == es[j].1@);
            assert(lv[j] == set_line(es[j].0@, store@[es[j].0@]));
        }
        assert forall|k: Seq<char>| #[trigger] store@.contains_key(k) implies exists|i: int|
            #![auto]
            0 <= i < lv.len() && lv[i] == set_line(k, store@[k]) by {
            lemma_map_of_contains(es, k);
            let j = choose|j: int| 0 <= j < es.len() && (#[trigger] es[j]).0@ == k;
            lemma_map_of_value(es, j);
            assert(lv[j] == set_line(k, store@[k]));
        }
        lemma_compaction_replays_to_state(lv, store@);
    }
    lines
}

/// Applying a batch of commands in order.
pub open spec fn apply_all(
    m: Map<Seq<char>, Seq<char>>,
    cs: Seq<CommandModel>,
) -> Map<Seq<char>, Seq<char>>
    decreases cs.len(),
{
    if cs.len() == 0 {
        m
    } else {
        apply_all(apply_model(m, cs[0]), cs.drop_first())
    }
}

/// A command for another key neither adds, drops, nor changes this key's
/// binding.
pub proof fn lemma_apply_all_frame(
    m: Map<Seq<char>, Seq<char>>,
    cs: Seq<CommandModel>,
    k: Seq<char>,
)
    requires
        forall|i: int| 0 <= i < cs.len() ==> cmd_key(#[trigger] cs[i]) != k,
    ensures
        apply_all(m, cs).contains_key(k) == m.contains_key(k),
        m.contains_key(k) ==> apply_all(m, cs)[k] == m[k],
    decreases cs.len(),
{
    if cs.len() > 0 {
        assert(forall|i: int|
            0 <= i < cs.drop_first().len() ==> cs.drop_first()[i] == cs[i + 1]);
        lemma_apply_all_frame(apply_model(m, cs[0]), cs.drop_first(), k);
    }
}

/// No lost updates: workers racing on distinct keys may have their `SET`s
/// interleaved into any order, and every one of the bindings is present in
/// the final store.
pub proof fn lemma_no_lost_updates(m: Map<Seq<char>, Seq<char>>, cs: Seq<CommandModel>)
    requires
        forall|i: int| 0 <= i < cs.len() ==> (#[trigger] cs[i]) is SET,
        forall|i: int, j: int|
            0 <= i < j < cs.len() ==> cmd_key(#[trigger] cs[i]) != cmd_key(#[trigger] cs[j]),
    ensures
        forall|i: int|
            0 <= i < cs.len() ==> apply_all(m, cs).contains_key(cmd_key(#[trigger] cs[i]))
                && apply_all(m, cs)[cmd_key(cs[i])] == cmd_value(cs[i]),
    decreases cs.len(),
{
    if cs.len() > 0 {
        let rest = cs.drop_first();
        assert(forall|i: int| 0 <= i < rest.len() ==> rest[i] == cs[i + 1]);
        let m1 = apply_model(m, cs[0]);
        lemma_no_lost_updates(m1, rest);
        assert forall|i: int|
            0 <= i < cs.len() implies apply_all(m, cs).contains_key(cmd_key(#[trigger] cs[i]))
            && apply_all(m, cs)[cmd_key(cs[i])] == cmd_value(cs[i]) by {
            if i == 0 {
                assert(m1.contains_key(cmd_key(cs[0])) && m1[cmd_key(cs[0])] == cmd_value(cs[0]));
                assert(forall|j: int|
                    0 <= j < rest.len() ==> cmd_key(#[trigger] rest[j]) != cmd_key(cs[0]));
                lemma_apply_all_frame(m1, rest, cmd_key(cs[0]));
            } else {
                assert(rest[i - 1] == cs[i]);
            }
        }
    }
}

} // verus!
