//! The durable log's entry codec: one JSON object per line.
//!
//! A log entry is the externally tagged JSON form of a command,
//! `{"SET":{"key":"k","value":"v"}}` or `{"DELETE":{"key":"k"}}`, with the
//! standard JSON string escapes inside the key and value: `\"` and `\\`,
//! the short escapes `\b \t \n \f \r` for the control characters that have
//! them, and `\u00xy` for the rest of the controls. This is exactly the
//! compact canonical serialization, so the codec reads every log this
//! store has ever written. A line in any other shape — other whitespace,
//! other field order, an escape the canonical form never emits, or a key
//! or value that is not a token — does not parse, and replay skips it as
//! corrupt.

use crate::command::{is_token, wf_command, Command, CommandModel};
use crate::store::str_eq;
use vstd::prelude::*;
use vstd::string::StrSliceExecFns;
use vstd::string::StringExecFns;

verus! {

/// The control characters, the code points below `'\u{20}'`: inside a JSON
/// string every one of them must be escaped.
pub open spec fn is_ctrl(c: char) -> bool {
    c == '\u{0}' || c == '\u{1}' || c == '\u{2}' || c == '\u{3}' || c == '\u{4}' || c == '\u{5}'
        || c == '\u{6}' || c == '\u{7}' || c == '\u{8}' || c == '\u{9}' || c == '\u{a}'
        || c == '\u{b}' || c == '\u{c}' || c == '\u{d}' || c == '\u{e}' || c == '\u{f}'
        || c == '\u{10}' || c == '\u{11}' || c == '\u{12}' || c == '\u{13}' || c == '\u{14}'
        || c == '\u{15}' || c == '\u{16}' || c == '\u{17}' || c == '\u{18}' || c == '\u{19}'
        || c == '\u{1a}' || c == '\u{1b}' || c == '\u{1c}' || c == '\u{1d}' || c == '\u{1e}'
        || c == '\u{1f}'
}

/// Runtime test for the control-character class.
pub fn ctrl_char(c: char) -> (r: bool)
    ensures
        r == is_ctrl(c),
{
    c == '\u{0}' || c == '\u{1}' || c == '\u{2}' || c == '\u{3}' || c == '\u{4}' || c == '\u{5}'
        || c == '\u{6}' || c == '\u{7}' || c == '\u{8}' || c == '\u{9}' || c == '\u{a}'
        || c == '\u{b}' || c == '\u{c}' || c == '\u{d}' || c == '\u{e}' || c == '\u{f}'
        || c == '\u{10}' || c == '\u{11}' || c == '\u{12}' || c == '\u{13}' || c == '\u{14}'
        || c == '\u{15}' || c == '\u{16}' || c == '\u{17}' || c == '\u{18}' || c == '\u{19}'
        || c == '\u{1a}' || c == '\u{1b}' || c == '\u{1c}' || c == '\u{1d}' || c == '\u{1e}'
        || c == '\u{1f}'
}

/// What a short escape `\x` stands for.
pub open spec fn short_unesc(e: char) -> Option<char> {
    match e {
        '"' => Some('"'),
        '\\' => Some('\\'),
        '/' => Some('/'),
        'b' => Some('\u{8}'),
        'f' => Some('\u{c}'),
        'n' => Some('\n'),
        'r' => Some('\r'),
        't' => Some('\t'),
        _ => None,
    }
}

/// What `\u00xy` stands for, from its last two (lower-case) hex digits.
pub open spec fn unesc_u(d1: char, d0: char) -> Option<char> {
    match (d1, d0) {
        ('0', '0') => Some('\u{0}'),
        ('0', '1') => Some('\u{1}'),
        ('0', '2') => Some('\u{2}'),
        ('0', '3') => Some('\u{3}'),
        ('0', '4') => Some('\u{4}'),
        ('0', '5') => Some('\u{5}'),
        ('0', '6') => Some('\u{6}'),
        ('0', '7') => Some('\u{7}'),
        ('0', '8') => Some('\u{8}'),
        ('0', '9') => Some('\u{9}'),
        ('0', 'a') => Some('\u{a}'),
        ('0', 'b') => Some('\u{b}'),
        ('0', 'c') => Some('\u{c}'),
        ('0', 'd') => Some('\u{d}'),
        ('0', 'e') => Some('\u{e}'),
        ('0', 'f') => Some('\u{f}'),
        ('1', '0') => Some('\u{10}'),
        ('1', '1') => Some('\u{11}'),
        ('1', '2') => Some('\u{12}'),
        ('1', '3') => Some('\u{13}'),
        ('1', '4') => Some('\u{14}'),
        ('1', '5') => Some('\u{15}'),
        ('1', '6') => Some('\u{16}'),
        ('1', '7') => Some('\u{17}'),
        ('1', '8') => Some('\u{18}'),
        ('1', '9') => Some('\u{19}'),
        ('1', 'a') => Some('\u{1a}'),
        ('1', 'b') => Some('\u{1b}'),
        ('1', 'c') => Some('\u{1c}'),
        ('1', 'd') => Some('\u{1d}'),
        ('1', 'e') => Some('\u{1e}'),
        ('1', 'f') => Some('\u{1f}'),
        _ => None,
    }
}

/// The canonical escape of one character inside a JSON string: `"` and `\`
/// get a backslash, the five control characters with short escapes get
/// them, every other control becomes `\u00xy`, and everything else stands
/// for itself.
pub open spec fn esc_char(c: char) -> Seq<char> {
    match c {
        '"' => seq!['\\', '"'],
        '\\' => seq!['\\', '\\'],
        '\u{8}' => seq!['\\', 'b'],
        '\t' => seq!['\\', 't'],
        '\n' => seq!['\\', 'n'],
        '\u{c}' => seq!['\\', 'f'],
        '\r' => seq!['\\', 'r'],
        '\u{0}' => seq!['\\', 'u', '0', '0', '0', '0'],
        '\u{1}' => seq!['\\', 'u', '0', '0', '0', '1'],
        '\u{2}' => seq!['\\', 'u', '0', '0', '0', '2'],
        '\u{3}' => seq!['\\', 'u', '0', '0', '0', '3'],
        '\u{4}' => seq!['\\', 'u', '0', '0', '0', '4'],
        '\u{5}' => seq!['\\', 'u', '0', '0', '0', '5'],
        '\u{6}' => seq!['\\', 'u', '0', '0', '0', '6'],
        '\u{7}' => seq!['\\', 'u', '0', '0', '0', '7'],
        '\u{b}' => seq!['\\', 'u', '0', '0', '0', 'b'],
        '\u{e}' => seq!['\\', 'u', '0', '0', '0', 'e'],
        '\u{f}' => seq!['\\', 'u', '0', '0', '0', 'f'],
        '\u{10}' => seq!['\\', 'u', '0', '0', '1', '0'],
        '\u{11}' => seq!['\\', 'u', '0', '0', '1', '1'],
        '\u{12}' => seq!['\\', 'u', '0', '0', '1', '2'],
        '\u{13}' => seq!['\\', 'u', '0', '0', '1', '3'],
        '\u{14}' => seq!['\\', 'u', '0', '0', '1', '4'],
        '\u{15}' => seq!['\\', 'u', '0', '0', '1', '5'],
        '\u{16}' => seq!['\\', 'u', '0', '0', '1', '6'],
        '\u{17}' => seq!['\\', 'u', '0', '0', '1', '7'],
        '\u{18}' => seq!['\\', 'u', '0', '0', '1', '8'],
        '\u{19}' => seq!['\\', 'u', '0', '0', '1', '9'],
        '\u{1a}' => seq!['\\', 'u', '0', '0', '1', 'a'],
        '\u{1b}' => seq!['\\', 'u', '0', '0', '1', 'b'],
        '\u{1c}' => seq!['\\', 'u', '0', '0', '1', 'c'],
        '\u{1d}' => seq!['\\', 'u', '0', '0', '1', 'd'],
        '\u{1e}' => seq!['\\', 'u', '0', '0', '1', 'e'],
        '\u{1f}' => seq!['\\', 'u', '0', '0', '1', 'f'],
        _ => seq![c],
    }
}

/// The canonical escape of a whole string.
pub open spec fn esc_seq(s: Seq<char>) -> Seq<char>
    decreases s.len(),
{
    if s.len() == 0 {
        Seq::empty()
    } else {
        esc_char(s[0]) + esc_seq(s.drop_first())
    }
}

/// Every character's escape is itself, a two-character short escape that
/// maps back to it, or a six-character `\u00xy` escape that maps back to
/// it.
proof fn lemma_esc_char_shape(c: char)
    ensures
        ({
            let ec = esc_char(c);
            (ec.len() == 1 && ec[0] == c && c != '"' && c != '\\' && !is_ctrl(c)) || (ec.len() == 2
                && ec[0] == '\\' && ec[1] != 'u' && short_unesc(ec[1]) == Some(c)) || (ec.len() == 6
                && ec[0] == '\\' && ec[1] == 'u' && ec[2] == '0' && ec[3] == '0' && unesc_u(
                ec[4],
                ec[5],
            ) == Some(c))
        }),
{
}

/// Unescape a JSON string body that starts at `i` (just inside the opening
/// quote): the unescaped content up to the closing quote, and the index
/// just past that quote. Anything the canonical escape never produces — a
/// raw control character, an unknown or truncated escape, a `\u` escape
/// outside `\u0000`..`\u001f`, a missing closing quote — yields nothing.
pub open spec fn unesc_from(s: Seq<char>, i: int) -> Option<(Seq<char>, int)>
    decreases s.len() - i,
{
    if i < 0 || i >= s.len() {
        None
    } else if s[i] == '"' {
        Some((Seq::empty(), i + 1))
    } else if s[i] == '\\' {
        if i + 1 >= s.len() {
            None
        } else if s[i + 1] == 'u' {
            if i + 5 < s.len() && s[i + 2] == '0' && s[i + 3] == '0' && unesc_u(s[i + 4], s[i + 5])
                is Some {
                match unesc_from(s, i + 6) {
                    Some((rest, e)) => Some(
                        (seq![unesc_u(s[i + 4], s[i + 5]).unwrap()] + rest, e),
                    ),
                    None => None,
                }
            } else {
                None
            }
        } else {
            match short_unesc(s[i + 1]) {
                Some(c) => match unesc_from(s, i + 2) {
                    Some((rest, e)) => Some((seq![c] + rest, e)),
                    None => None,
                },
                None => None,
            }
        }
    } else if is_ctrl(s[i]) {
        None
    } else {
        match unesc_from(s, i + 1) {
            Some((rest, e)) => Some((seq![s[i]] + rest, e)),
            None => None,
        }
    }
}

/// Unescaping looks only at the string from `i` on, so it shifts over a
/// prefix, the end index moving with it.
proof fn lemma_unesc_shift(a: Seq<char>, b: Seq<char>, j: int)
    requires
        0 <= j <= b.len(),
    ensures
        ({
            match unesc_from(b, j) {
                Some((c, e)) => unesc_from(a + b, a.len() + j) == Some((c, a.len() + e)),
                None => unesc_from(a + b, a.len() + j) is None,
            }
        }),
    decreases b.len() - j,
{
    if j < b.len() && b[j] != '"' {
        if b[j] == '\\' {
            if j + 1 < b.len() {
                if b[j + 1] == 'u' {
                    if j + 5 < b.len() && b[j + 2] == '0' && b[j + 3] == '0' && unesc_u(
                        b[j + 4],
                        b[j + 5],
                    ) is Some {
                        lemma_unesc_shift(a, b, j + 6);
                    }
                } else {
                    if short_unesc(b[j + 1]) is Some {
                        lemma_unesc_shift(a, b, j + 2);
                    }
                }
            }
        } else if !is_ctrl(b[j]) {
            lemma_unesc_shift(a, b, j + 1);
        }
    }
}

/// Unescaping an escaped string followed by its closing quote gives the
/// string back, whatever follows the quote.
proof fn lemma_unesc_of_escaped(k: Seq<char>, post: Seq<char>)
    ensures
        unesc_from(esc_seq(k) + seq!['"'] + post, 0) == Some((k, esc_seq(k).len() + 1int)),
    decreases k.len(),
{
    let s = esc_seq(k) + seq!['"'] + post;
    if k.len() == 0 {
        assert(esc_seq(k) =~= Seq::<char>::empty());
        assert(s[0] == '"');
        assert(k =~= Seq::<char>::empty());
    } else {
        let c = k[0];
        let rest = k.drop_first();
        let ec = esc_char(c);
        let s2 = esc_seq(rest) + seq!['"'] + post;
        lemma_unesc_of_escaped(rest, post);
        assert(esc_seq(k) == ec + esc_seq(rest));
        assert(s =~= ec + s2);
        lemma_unesc_shift(ec, s2, 0);
        assert(unesc_from(s, ec.len() as int) == Some(
            (rest, ec.len() + esc_seq(rest).len() + 1int),
        ));
        lemma_esc_char_shape(c);
        assert(seq![c] + rest =~= k);
        if ec.len() == 1 {
            assert(s[0] == c);
        } else if ec.len() == 2 {
            assert(s[0] == '\\' && s[1] == ec[1]);
        } else {
            assert(s[0] == '\\' && s[1] == 'u' && s[2] == '0' && s[3] == '0' && s[4] == ec[4]
                && s[5] == ec[5]);
        }
    }
}

/// Escaping one more character on the right.
proof fn lemma_esc_seq_push(a: Seq<char>, c: char)
    ensures
        esc_seq(a.push(c)) == esc_seq(a) + esc_char(c),
    decreases a.len(),
{
    if a.len() == 0 {
        assert(a.push(c)[0] == c);
        assert(a.push(c).drop_first() =~= Seq::<char>::empty());
        assert(esc_seq(a.push(c)) == esc_char(c) + esc_seq(a.push(c).drop_first()));
        assert(esc_seq(Seq::<char>::empty()) =~= Seq::<char>::empty());
        assert(esc_char(c) + Seq::<char>::empty() =~= esc_char(c));
        assert(esc_seq(a) + esc_char(c) =~= esc_char(c));
    } else {
        assert(a.push(c)[0] == a[0]);
        assert(a.push(c).drop_first() =~= a.drop_first().push(c));
        lemma_esc_seq_push(a.drop_first(), c);
        assert(esc_char(a[0]) + (esc_seq(a.drop_first()) + esc_char(c)) =~= (esc_char(a[0])
            + esc_seq(a.drop_first())) + esc_char(c));
    }
}

/// The canonical JSON escape of one character, as text, for the characters
/// that do not stand for themselves.
fn esc_str(c: char) -> (r: Option<&'static str>)
    ensures
        match r {
            Some(t) => t@ == esc_char(c),
            None => esc_char(c) == seq![c],
        },
{
    let r: Option<&'static str> = match c {
        '"' => Some("\\\""),
        '\\' => Some("\\\\"),
        '\u{8}' => Some("\\b"),
        '\t' => Some("\\t"),
        '\n' => Some("\\n"),
        '\u{c}' => Some("\\f"),
        '\r' => Some("\\r"),
        '\u{0}' => Some("\\u0000"),
        '\u{1}' => Some("\\u0001"),
        '\u{2}' => Some("\\u0002"),
        '\u{3}' => Some("\\u0003"),
        '\u{4}' => Some("\\u0004"),
        '\u{5}' => Some("\\u0005"),
        '\u{6}' => Some("\\u0006"),
        '\u{7}' => Some("\\u0007"),
        '\u{b}' => Some("\\u000b"),
        '\u{e}' => Some("\\u000e"),
        '\u{f}' => Some("\\u000f"),
        '\u{10}' => Some("\\u0010"),
        '\u{11}' => Some("\\u0011"),
        '\u{12}' => Some("\\u0012"),
        '\u{13}' => Some("\\u0013"),
        '\u{14}' => Some("\\u0014"),
        '\u{15}' => Some("\\u0015"),
        '\u{16}' => Some("\\u0016"),
        '\u{17}' => Some("\\u0017"),
        '\u{18}' => Some("\\u0018"),
        '\u{19}' => Some("\\u0019"),
        '\u{1a}' => Some("\\u001a"),
        '\u{1b}' => Some("\\u001b"),
        '\u{1c}' => Some("\\u001c"),
        '\u{1d}' => Some("\\u001d"),
        '\u{1e}' => Some("\\u001e"),
        '\u{1f}' => Some("\\u001f"),
        _ => None,
    };
    proof {
        reveal_strlit("\\\"");
        reveal_strlit("\\\\");
        reveal_strlit("\\b");
        reveal_strlit("\\t");
        reveal_strlit("\\n");
        reveal_strlit("\\f");
        reveal_strlit("\\r");
        reveal_strlit("\\u0000");
        reveal_strlit("\\u0001");
        reveal_strlit("\\u0002");
        reveal_strlit("\\u0003");
        reveal_strlit("\\u0004");
        reveal_strlit("\\u0005");
        reveal_strlit("\\u0006");
        reveal_strlit("\\u0007");
        reveal_strlit("\\u000b");
        reveal_strlit("\\u000e");
        reveal_strlit("\\u000f");
        reveal_strlit("\\u0010");
        reveal_strlit("\\u0011");
        reveal_strlit("\\u0012");
        reveal_strlit("\\u0013");
        reveal_strlit("\\u0014");
        reveal_strlit("\\u0015");
        reveal_strlit("\\u0016");
        reveal_strlit("\\u0017");
        reveal_strlit("\\u0018");
        reveal_strlit("\\u0019");
        reveal_strlit("\\u001a");
        reveal_strlit("\\u001b");
        reveal_strlit("\\u001c");
        reveal_strlit("\\u001d");
        reveal_strlit("\\u001e");
        reveal_strlit("\\u001f");
    }
    r
}

/// Append the canonical escape of `s` to `out`.
fn append_escaped(out: &mut String, s: &str)
    ensures
        final(out)@ == old(out)@ + esc_seq(s@),
{
    let ghost base = out@;
    let n = s.unicode_len();
    let mut i: usize = 0;
    while i < n
        invariant
            n == s@.len(),
            i <= n,
            out@ == base + esc_seq(s@.subrange(0, i as int)),
        decreases n - i,
    {
        let c = s.get_char(i);
        match esc_str(c) {
            Some(t) => out.append(t),
            None => out.append(s.substring_char(i, i + 1)),
        }
        proof {
            assert(s@.subrange(i as int, i as int + 1) =~= seq![s@[i as int]]);
            lemma_esc_seq_push(s@.subrange(0, i as int), c);
            assert(s@.subrange(0, i as int).push(c) =~= s@.subrange(0, i as int + 1));
        }
        i = i + 1;
    }
    proof {
        assert(s@.subrange(0, n as int) =~= s@);
    }
}

/// The one-line serialized form of a command: its externally tagged JSON
/// object, compact, fields in declaration order, strings canonically
/// escaped.
pub open spec fn json_encode_spec(m: CommandModel) -> Seq<char> {
    match m {
        CommandModel::SET { key, value } => "{\"SET\":{\"key\":\""@ + esc_seq(key)
            + "\",\"value\":\""@ + esc_seq(value) + "\"}}"@,
        CommandModel::GET { key } => "{\"GET\":{\"key\":\""@ + esc_seq(key) + "\"}}"@,
        CommandModel::DELETE { key } => "{\"DELETE\":{\"key\":\""@ + esc_seq(key) + "\"}}"@,
    }
}

/// Serialize a command to its one-line durable log form.
pub fn encode_entry(c: &Command) -> (r: String)
    ensures
        r@ == json_encode_spec(c@),
{
    match c {
        Command::SET { key, value } => {
            let mut s = String::from_str("{\"SET\":{\"key\":\"");
            append_escaped(&mut s, key.as_str());
            s.append("\",\"value\":\"");
            append_escaped(&mut s, value.as_str());
            s.append("\"}}");
            s
        },
        Command::GET { key } => {
            let mut s = String::from_str("{\"GET\":{\"key\":\"");
            append_escaped(&mut s, key.as_str());
            s.append("\"}}");
            s
        },
        Command::DELETE { key } => {
            let mut s = String::from_str("{\"DELETE\":{\"key\":\"");
            append_escaped(&mut s, key.as_str());
            s.append("\"}}");
            s
        },
    }
}

/// What parsing one log line means: the line must be exactly the canonical
/// serialized form of a command whose key (and value) are tokens; anything
/// else is no command and will be skipped by replay.
pub open spec fn entry_parse_spec(line: Seq<char>) -> Option<CommandModel> {
    if line.len() >= 15 && line.subrange(0, 15) == "{\"SET\":{\"key\":\""@ {
        match unesc_from(line, 15) {
            Some((key, j)) => if j + 10 <= line.len() && line.subrange(j, j + 10)
                == ",\"value\":\""@ {
                match unesc_from(line, j + 10) {
                    Some((value, j2)) => if j2 + 2 == line.len() && line.subrange(j2, j2 + 2)
                        == "}}"@ && is_token(key) && is_token(value) {
                        Some(CommandModel::SET { key, value })
                    } else {
                        None
                    },
                    None => None,
                }
            } else {
                None
            },
            None => None,
        }
    } else if line.len() >= 15 && line.subrange(0, 15) == "{\"GET\":{\"key\":\""@ {
        match unesc_from(line, 15) {
            Some((key, j)) => if j + 2 == line.len() && line.subrange(j, j + 2) == "}}"@
                && is_token(key) {
                Some(CommandModel::GET { key })
            } else {
                None
            },
            None => None,
        }
    } else if line.len() >= 18 && line.subrange(0, 18) == "{\"DELETE\":{\"key\":\""@ {
        match unesc_from(line, 18) {
            Some((key, j)) => if j + 2 == line.len() && line.subrange(j, j + 2) == "}}"@
                && is_token(key) {
                Some(CommandModel::DELETE { key })
            } else {
                None
            },
            None => None,
        }
    } else {
        None
    }
}

/// Round trip: the serialized form of a well-formed command parses back to
/// exactly that command. Every entry the store ever writes — on append and
/// on compaction — replays to the command that produced it.
#[verifier::rlimit(80)]
pub proof fn lemma_entry_parse_encode(m: CommandModel)
    requires
        wf_command(m),
    ensures
        entry_parse_spec(json_encode_spec(m)) == Some(m),
{
    reveal_strlit("{\"SET\":{\"key\":\"");
    reveal_strlit("{\"GET\":{\"key\":\"");
    reveal_strlit("{\"DELETE\":{\"key\":\"");
    reveal_strlit("\",\"value\":\"");
    reveal_strlit(",\"value\":\"");
    reveal_strlit("\"}}");
    reveal_strlit("}}");
    let close = "}}"@;
    match m {
        CommandModel::SET { key, value } => {
            let s = json_encode_spec(m);
            let pre = "{\"SET\":{\"key\":\""@;
            let mid = "\",\"value\":\""@;
            let sep = ",\"value\":\""@;
            let end = "\"}}"@;
            let ke = esc_seq(key);
            let ve = esc_seq(value);
            assert(mid =~= seq!['"'] + sep);
            assert(end =~= seq!['"'] + close);
            lemma_unesc_of_escaped(key, sep + ve + end);
            assert(s =~= pre + (ke + seq!['"'] + (sep + ve + end)));
            lemma_unesc_shift(pre, ke + seq!['"'] + (sep + ve + end), 0);
            let j: int = pre.len() + ke.len() + 1int;
            assert(unesc_from(s, 15) == Some((key, j)));
            assert(s.len() == pre.len() + ke.len() + mid.len() + ve.len() + end.len());
            assert(s.subrange(0, 15) =~= pre);
            assert(s.subrange(j, j + 10) =~= sep);
            let pre2 = pre + ke + mid;
            lemma_unesc_of_escaped(value, close);
            assert(s =~= pre2 + (ve + seq!['"'] + close));
            lemma_unesc_shift(pre2, ve + seq!['"'] + close, 0);
            let j2: int = pre2.len() + ve.len() + 1int;
            assert(unesc_from(s, j + 10) == Some((value, j2)));
            assert(j2 + 2 == s.len());
            assert(s.subrange(j2, j2 + 2) =~= close);
        },
        CommandModel::GET { key } => {
            let s = json_encode_spec(m);
            let pre = "{\"GET\":{\"key\":\""@;
            let end = "\"}}"@;
            let ke = esc_seq(key);
            assert(end =~= seq!['"'] + close);
            lemma_unesc_of_escaped(key, close);
            assert(s =~= pre + (ke + seq!['"'] + close));
            lemma_unesc_shift(pre, ke + seq!['"'] + close, 0);
            let j: int = pre.len() + ke.len() + 1int;
            assert(unesc_from(s, 15) == Some((key, j)));
            assert(s.subrange(0, 15) =~= pre);
            assert(j + 2 == s.len());
            assert(s.subrange(j, j + 2) =~= close);
            assert(s.subrange(0, 15)[2] == pre[2]);
            assert(pre[2] == 'G');
            assert("{\"SET\":{\"key\":\""@[2] == 'S');
            assert(s.subrange(0, 15) != "{\"SET\":{\"key\":\""@);
        },
        CommandModel::DELETE { key } => {
            let s = json_encode_spec(m);
            let pre = "{\"DELETE\":{\"key\":\""@;
            let end = "\"}}"@;
            let ke = esc_seq(key);
            assert(end =~= seq!['"'] + close);
            lemma_unesc_of_escaped(key, close);
            assert(s =~= pre + (ke + seq!['"'] + close));
            lemma_unesc_shift(pre, ke + seq!['"'] + close, 0);
            let j: int = pre.len() + ke.len() + 1int;
            assert(unesc_from(s, 18) == Some((key, j)));
            assert(s.subrange(0, 18) =~= pre);
            assert(j + 2 == s.len());
            assert(s.subrange(j, j + 2) =~= close);
            assert(s.len() >= 15);
            assert(s[2] == pre[2]);
            assert(s[2] == 'D');
            assert(s.subrange(0, 15)[2] == s[2]);
            assert("{\"SET\":{\"key\":\""@[2] == 'S');
            assert(s.subrange(0, 15) != "{\"SET\":{\"key\":\""@);
            assert("{\"GET\":{\"key\":\""@[2] == 'G');
            assert(s.subrange(0, 15) != "{\"GET\":{\"key\":\""@);
        },
    }
}


/// The character a short escape stands for, as text.
fn short_unesc_str(e: char) -> (r: Option<&'static str>)
    ensures
        match r {
            Some(t) => short_unesc(e) matches Some(c) && t@ == seq![c],
            None => short_unesc(e) is None,
        },
{
    let r: Option<&'static str> = match e {
        '"' => Some("\""),
        '\\' => Some("\\"),
        '/' => Some("/"),
        'b' => Some("\u{8}"),
        'f' => Some("\u{c}"),
        'n' => Some("\n"),
        'r' => Some("\r"),
        't' => Some("\t"),
        _ => None,
    };
    proof {
        reveal_strlit("\"");
        reveal_strlit("\\");
        reveal_strlit("/");
        reveal_strlit("\u{8}");
        reveal_strlit("\u{c}");
        reveal_strlit("\n");
        reveal_strlit("\r");
        reveal_strlit("\t");
    }
    r
}

/// The character a `\u00xy` escape stands for, as text.
fn u_char_str(d1: char, d0: char) -> (r: Option<&'static str>)
    ensures
        match r {
            Some(t) => unesc_u(d1, d0) matches Some(c) && t@ == seq![c],
            None => unesc_u(d1, d0) is None,
        },
{
    let r: Option<&'static str> = match (d1, d0) {
        ('0', '0') => Some("\u{0}"),
        ('0', '1') => Some("\u{1}"),
        ('0', '2') => Some("\u{2}"),
        ('0', '3') => Some("\u{3}"),
        ('0', '4') => Some("\u{4}"),
        ('0', '5') => Some("\u{5}"),
        ('0', '6') => Some("\u{6}"),
        ('0', '7') => Some("\u{7}"),
        ('0', '8') => Some("\u{8}"),
        ('0', '9') => Some("\u{9}"),
        ('0', 'a') => Some("\u{a}"),
        ('0', 'b') => Some("\u{b}"),
        ('0', 'c') => Some("\u{c}"),
        ('0', 'd') => Some("\u{d}"),
        ('0', 'e') => Some("\u{e}"),
        ('0', 'f') => Some("\u{f}"),
        ('1', '0') => Some("\u{10}"),
        ('1', '1') => Some("\u{11}"),
        ('1', '2') => Some("\u{12}"),
        ('1', '3') => Some("\u{13}"),
        ('1', '4') => Some("\u{14}"),
        ('1', '5') => Some("\u{15}"),
        ('1', '6') => Some("\u{16}"),
        ('1', '7') => Some("\u{17}"),
        ('1', '8') => Some("\u{18}"),
        ('1', '9') => Some("\u{19}"),
        ('1', 'a') => Some("\u{1a}"),
        ('1', 'b') => Some("\u{1b}"),
        ('1', 'c') => Some("\u{1c}"),
        ('1', 'd') => Some("\u{1d}"),
        ('1', 'e') => Some("\u{1e}"),
        ('1', 'f') => Some("\u{1f}"),
        _ => None,
    };
    proof {
        reveal_strlit("\u{0}");
        reveal_strlit("\u{1}");
        reveal_strlit("\u{2}");
        reveal_strlit("\u{3}");
        reveal_strlit("\u{4}");
        reveal_strlit("\u{5}");
        reveal_strlit("\u{6}");
        reveal_strlit("\u{7}");
        reveal_strlit("\u{8}");
        reveal_strlit("\u{9}");
        reveal_strlit("\u{a}");
        reveal_strlit("\u{b}");
        reveal_strlit("\u{c}");
        reveal_strlit("\u{d}");
        reveal_strlit("\u{e}");
        reveal_strlit("\u{f}");
        reveal_strlit("\u{10}");
        reveal_strlit("\u{11}");
        reveal_strlit("\u{12}");
        reveal_strlit("\u{13}");
        reveal_strlit("\u{14}");
        reveal_strlit("\u{15}");
        reveal_strlit("\u{16}");
        reveal_strlit("\u{17}");
        reveal_strlit("\u{18}");
        reveal_strlit("\u{19}");
        reveal_strlit("\u{1a}");
        reveal_strlit("\u{1b}");
        reveal_strlit("\u{1c}");
        reveal_strlit("\u{1d}");
        reveal_strlit("\u{1e}");
        reveal_strlit("\u{1f}");
    }
    r
}

/// A prefix of unescaped content, prepended to what unescaping the rest of
/// the string gives.
pub open spec fn with_prefix(p: Seq<char>, o: Option<(Seq<char>, int)>) -> Option<
    (Seq<char>, int),
> {
    match o {
        Some((c, e)) => Some((p + c, e)),
        None => None,
    }
}

/// Unescape a JSON string body starting at `start`, just inside the
/// opening quote; gives the content and the index past the closing quote.
fn unescape_from(line: &str, start: usize) -> (r: Option<(String, usize)>)
    requires
        start <= line@.len(),
    ensures
        match r {
            Some(p) => unesc_from(line@, start as int) == Some((p.0@, p.1 as int)) && p.1
                <= line@.len(),
            None => unesc_from(line@, start as int) is None,
        },
{
    let n = line.unicode_len();
    let mut out = String::new();
    let mut i: usize = start;
    loop
        invariant
            n == line@.len(),
            start <= i <= n,
            unesc_from(line@, start as int) == with_prefix(out@, unesc_from(line@, i as int)),
        decreases n - i,
    {
        if i >= n {
            return None;
        }
        let c = line.get_char(i);
        if c == '"' {
            proof {
                assert(out@ + Seq::<char>::empty() =~= out@);
            }
            return Some((out, i + 1));
        } else if c == '\\' {
            if n - i <= 1 {
                return None;
            }
            let e = line.get_char(i + 1);
            if e == 'u' {
                if n - i > 5 && line.get_char(i + 2) == '0' && line.get_char(i + 3) == '0' {
                    match u_char_str(line.get_char(i + 4), line.get_char(i + 5)) {
                        Some(t) => {
                            let ghost prev = out@;
                            let ghost ch = unesc_u(line@[i as int + 4], line@[i as int + 5]).unwrap();
                            out.append(t);
                            proof {
                                let o = unesc_from(line@, i as int + 6);
                                if o is Some {
                                    assert((prev + seq![ch]) + o.unwrap().0 =~= prev + (seq![ch]
                                        + o.unwrap().0));
                                }
                            }
                            i = i + 6;
                        },
                        None => {
                            return None;
                        },
                    }
                } else {
                    return None;
                }
            } else {
                match short_unesc_str(e) {
                    Some(t) => {
                        let ghost prev = out@;
                        let ghost ch = short_unesc(line@[i as int + 1]).unwrap();
                        out.append(t);
                        proof {
                            let o = unesc_from(line@, i as int + 2);
                            if o is Some {
                                assert((prev + seq![ch]) + o.unwrap().0 =~= prev + (seq![ch]
                                    + o.unwrap().0));
                            }
                        }
                        i = i + 2;
                    },
                    None => {
                        return None;
                    },
                }
            }
        } else if ctrl_char(c) {
            return None;
        } else {
            let t = line.substring_char(i, i + 1);
            let ghost prev = out@;
            out.append(t);
            proof {
                assert(line@.subrange(i as int, i as int + 1) =~= seq![line@[i as int]]);
                let o = unesc_from(line@, i as int + 1);
                if o is Some {
                    assert((prev + seq![c]) + o.unwrap().0 =~= prev + (seq![c] + o.unwrap().0));
                }
            }
            i = i + 1;
        }
    }
}

/// Parse one durable log line: the command it canonically serializes, or
/// nothing for a line in any other shape, which replay will skip.
pub fn parse_entry(line: &str) -> (r: Option<Command>)
    ensures
        match r {
            Some(c) => entry_parse_spec(line@) == Some(c@) && wf_command(c@),
            None => entry_parse_spec(line@) is None,
        },
{
    let n = line.unicode_len();
    if n >= 15 && str_eq(line.substring_char(0, 15), "{\"SET\":{\"key\":\"") {
        match unescape_from(line, 15) {
            Some((key, j)) => {
                if j <= n - 10 && str_eq(line.substring_char(j, j + 10), ",\"value\":\"") {
                    match unescape_from(line, j + 10) {
                        Some((value, j2)) => {
                            if j2 == n - 2 && str_eq(line.substring_char(j2, j2 + 2), "}}")
                                && crate::command::check_token(key.as_str())
                                && crate::command::check_token(value.as_str()) {
                                Some(Command::SET { key, value })
                            } else {
                                None
                            }
                        },
                        None => None,
                    }
                } else {
                    None
                }
            },
            None => None,
        }
    } else if n >= 15 && str_eq(line.substring_char(0, 15), "{\"GET\":{\"key\":\"") {
        match unescape_from(line, 15) {
            Some((key, j)) => {
                if j == n - 2 && str_eq(line.substring_char(j, j + 2), "}}")
                    && crate::command::check_token(key.as_str()) {
                    Some(Command::GET { key })
                } else {
                    None
                }
            },
            None => None,
        }
    } else if n >= 18 && str_eq(line.substring_char(0, 18), "{\"DELETE\":{\"key\":\"") {
        match unescape_from(line, 18) {
            Some((key, j)) => {
                if j == n - 2 && str_eq(line.substring_char(j, j + 2), "}}")
                    && crate::command::check_token(key.as_str()) {
                    Some(Command::DELETE { key })
                } else {
                    None
                }
            },
            None => None,
        }
    } else {
        None
    }
}

} // verus!
