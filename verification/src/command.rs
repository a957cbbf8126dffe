//! The command model: the closed set of operations the store understands,
//! and the line-oriented textual form they are parsed from.
//!
//! A raw input line is tokenized by whitespace; the first token is the verb,
//! matched case-insensitively, and the remaining tokens are the key (and for
//! `SET` the value). Keys and values are therefore non-empty, whitespace-free
//! tokens by construction.

use vstd::prelude::*;
use vstd::string::StrSliceExecFns;
use vstd::string::StringExecFns;

verus! {

/// The characters the tokenizer treats as whitespace (Unicode `White_Space`).
pub open spec fn is_ws_char(c: char) -> bool {
    c == ' ' || c == '\t' || c == '\n' || c == '\u{b}' || c == '\u{c}' || c == '\r'
        || c == '\u{85}' || c == '\u{a0}' || c == '\u{1680}' || c == '\u{2000}'
        || c == '\u{2001}' || c == '\u{2002}' || c == '\u{2003}' || c == '\u{2004}'
        || c == '\u{2005}' || c == '\u{2006}' || c == '\u{2007}' || c == '\u{2008}'
        || c == '\u{2009}' || c == '\u{200a}' || c == '\u{2028}' || c == '\u{2029}'
        || c == '\u{202f}' || c == '\u{205f}' || c == '\u{3000}'
}

/// Runtime test for the whitespace class of the tokenizer.
pub fn ws_char(c: char) -> (r: bool)
    ensures
        r == is_ws_char(c),
{
    c == ' ' || c == '\t' || c == '\n' || c == '\u{b}' || c == '\u{c}' || c == '\r'
        || c == '\u{85}' || c == '\u{a0}' || c == '\u{1680}' || c == '\u{2000}'
        || c == '\u{2001}' || c == '\u{2002}' || c == '\u{2003}' || c == '\u{2004}'
        || c == '\u{2005}' || c == '\u{2006}' || c == '\u{2007}' || c == '\u{2008}'
        || c == '\u{2009}' || c == '\u{200a}' || c == '\u{2028}' || c == '\u{2029}'
        || c == '\u{202f}' || c == '\u{205f}' || c == '\u{3000}'
}

/// A token is a non-empty run of non-whitespace characters; keys and values
/// are exactly the strings of this shape.
pub open spec fn is_token(s: Seq<char>) -> bool {
    s.len() > 0 && forall|i: int| 0 <= i < s.len() ==> !is_ws_char(#[trigger] s[i])
}

/// Runtime test for the token shape of a key or value.
pub fn check_token(s: &str) -> (r: bool)
    ensures
        r == is_token(s@),
{
    let n = s.unicode_len();
    if n == 0 {
        return false;
    }
    let mut i: usize = 0;
    while i < n
        invariant
            n == s@.len(),
            i <= n,
            forall|k: int| 0 <= k < i ==> !is_ws_char(#[trigger] s@[k]),
        decreases n - i,
    {
        if ws_char(s.get_char(i)) {
            return false;
        }
        i = i + 1;
    }
    true
}

/// ASCII upper-casing of one character, used for case-insensitive verbs.
pub open spec fn upper_char(c: char) -> char {
    match c {
        'a' => 'A',
        'b' => 'B',
        'c' => 'C',
        'd' => 'D',
        'e' => 'E',
        'f' => 'F',
        'g' => 'G',
        'h' => 'H',
        'i' => 'I',
        'j' => 'J',
        'k' => 'K',
        'l' => 'L',
        'm' => 'M',
        'n' => 'N',
        'o' => 'O',
        'p' => 'P',
        'q' => 'Q',
        'r' => 'R',
        's' => 'S',
        't' => 'T',
        'u' => 'U',
        'v' => 'V',
        'w' => 'W',
        'x' => 'X',
        'y' => 'Y',
        'z' => 'Z',
        _ => c,
    }
}

/// Runtime ASCII upper-casing of one character.
pub fn upper_char_exec(c: char) -> (r: char)
    ensures
        r == upper_char(c),
{
    match c {
        'a' => 'A',
        'b' => 'B',
        'c' => 'C',
        'd' => 'D',
        'e' => 'E',
        'f' => 'F',
        'g' => 'G',
        'h' => 'H',
        'i' => 'I',
        'j' => 'J',
        'k' => 'K',
        'l' => 'L',
        'm' => 'M',
        'n' => 'N',
        'o' => 'O',
        'p' => 'P',
        'q' => 'Q',
        'r' => 'R',
        's' => 'S',
        't' => 'T',
        'u' => 'U',
        'v' => 'V',
        'w' => 'W',
        'x' => 'X',
        'y' => 'Y',
        'z' => 'Z',
        _ => c,
    }
}

/// A sequence of characters upper-cased position by position.
pub open spec fn upper_seq(s: Seq<char>) -> Seq<char> {
    s.map_values(|c: char| upper_char(c))
}

/// The index just past the maximal run of non-whitespace characters that
/// starts at `i` (or `i` itself, when `i` is out of range or sits on
/// whitespace).
pub open spec fn token_end(s: Seq<char>, i: int) -> int
    decreases s.len() - i,
{
    if i < 0 || i >= s.len() || is_ws_char(s[i]) {
        i
    } else {
        token_end(s, i + 1)
    }
}

pub proof fn lemma_token_end_bounds(s: Seq<char>, i: int)
    requires
        0 <= i <= s.len(),
    ensures
        i <= token_end(s, i) <= s.len(),
    decreases s.len() - i,
{
    if i < s.len() && !is_ws_char(s[i]) {
        lemma_token_end_bounds(s, i + 1);
    }
}

/// Characters inside the run found by `token_end` are not whitespace, and
/// the run stops only at whitespace or at the end of the string.
pub proof fn lemma_token_end_shape(s: Seq<char>, i: int)
    requires
        0 <= i <= s.len(),
    ensures
        i <= token_end(s, i) <= s.len(),
        forall|k: int| i <= k < token_end(s, i) ==> !is_ws_char(#[trigger] s[k]),
        token_end(s, i) < s.len() ==> is_ws_char(s[token_end(s, i)]),
    decreases s.len() - i,
{
    if i < s.len() && !is_ws_char(s[i]) {
        lemma_token_end_shape(s, i + 1);
    }
}

/// A run of non-whitespace characters from `i` to `j`, closed off by
/// whitespace or by the end of the string, is exactly what `token_end`
/// finds.
pub proof fn lemma_token_end_determined(s: Seq<char>, i: int, j: int)
    requires
        0 <= i <= j <= s.len(),
        forall|k: int| i <= k < j ==> !is_ws_char(#[trigger] s[k]),
        j == s.len() || is_ws_char(s[j]),
    ensures
        token_end(s, i) == j,
    decreases j - i,
{
    if i < j {
        lemma_token_end_determined(s, i + 1, j);
    }
}

/// The whitespace-separated tokens of `s`, from position `i` on.
pub open spec fn tokens_from(s: Seq<char>, i: int) -> Seq<Seq<char>>
    decreases s.len() - i,
    via tokens_from_decreases
{
    if i < 0 || i >= s.len() {
        Seq::empty()
    } else if is_ws_char(s[i]) {
        tokens_from(s, i + 1)
    } else {
        seq![s.subrange(i, token_end(s, i))] + tokens_from(s, token_end(s, i))
    }
}

#[via_fn]
proof fn tokens_from_decreases(s: Seq<char>, i: int) {
    if 0 <= i && i < s.len() && !is_ws_char(s[i]) {
        lemma_token_end_bounds(s, i + 1);
    }
}

/// The whitespace-separated tokens of `s`.
pub open spec fn tokens_of(s: Seq<char>) -> Seq<Seq<char>> {
    tokens_from(s, 0)
}

/// Everything the tokenizer produces is a token: non-empty and free of
/// whitespace.
pub proof fn lemma_tokens_are_tokens(s: Seq<char>, i: int)
    requires
        0 <= i <= s.len(),
    ensures
        forall|j: int|
            0 <= j < tokens_from(s, i).len() ==> is_token(#[trigger] tokens_from(s, i)[j]),
    decreases s.len() - i,
{
    if i >= s.len() {
    } else if is_ws_char(s[i]) {
        lemma_tokens_are_tokens(s, i + 1);
        assert(tokens_from(s, i) == tokens_from(s, i + 1));
        assert forall|j: int|
            0 <= j < tokens_from(s, i).len() implies is_token(
            #[trigger] tokens_from(s, i)[j],
        ) by {
            assert(tokens_from(s, i)[j] == tokens_from(s, i + 1)[j]);
        }
    } else {
        let e = token_end(s, i);
        lemma_token_end_shape(s, i);
        lemma_token_end_bounds(s, i + 1);
        lemma_tokens_are_tokens(s, e);
        assert(is_token(s.subrange(i, e)));
        assert(tokens_from(s, i) == seq![s.subrange(i, e)] + tokens_from(s, e));
        assert forall|j: int|
            0 <= j < tokens_from(s, i).len() implies is_token(
            #[trigger] tokens_from(s, i)[j],
        ) by {
            if j > 0 {
                assert(tokens_from(s, i)[j] == tokens_from(s, e)[j - 1]);
            }
        }
    }
}

/// Split a line into its whitespace-separated tokens.
pub fn tokenize(s: &str) -> (toks: Vec<String>)
    ensures
        toks.deep_view() == tokens_of(s@),
        forall|j: int| 0 <= j < toks.len() ==> is_token(#[trigger] toks.deep_view()[j]),
{
    let n = s.unicode_len();
    let mut toks: Vec<String> = Vec::new();
    let mut i: usize = 0;
    while i < n
        invariant
            n == s@.len(),
            i <= n,
            toks.deep_view() + tokens_from(s@, i as int) == tokens_of(s@),
        decreases n - i,
    {
        let c = s.get_char(i);
        if ws_char(c) {
            i = i + 1;
        } else {
            let ghost prev = toks.deep_view();
            let mut j: usize = i;
            loop
                invariant
                    n == s@.len(),
                    i < n,
                    i <= j <= n,
                    !is_ws_char(s@[i as int]),
                    forall|k: int| i <= k < j ==> !is_ws_char(#[trigger] s@[k]),
                ensures
                    i < j <= n,
                    n == s@.len(),
                    forall|k: int| i <= k < j ==> !is_ws_char(#[trigger] s@[k]),
                    j == n || is_ws_char(s@[j as int]),
                decreases n - j,
            {
                if j == n {
                    break ;
                }
                let c2 = s.get_char(j);
                if ws_char(c2) {
                    break ;
                }
                j = j + 1;
            }
            proof {
                lemma_token_end_determined(s@, i as int, j as int);
            }
            let t = s.substring_char(i, j);
            toks.push(String::from_str(t));
            proof {
                assert(toks.deep_view() =~= prev.push(t@));
                assert(tokens_from(s@, i as int) == seq![t@] + tokens_from(s@, j as int));
                assert(prev.push(t@) + tokens_from(s@, j as int) =~= prev + (seq![t@]
                    + tokens_from(s@, j as int)));
            }
            i = j;
        }
    }
    proof {
        lemma_tokens_are_tokens(s@, 0);
        assert(toks.deep_view() + tokens_from(s@, i as int) =~= toks.deep_view());
    }
    toks
}

/// The mathematical form of a command: the same three variants as
/// [`Command`], over character sequences.
#[verifier::ext_equal]
pub enum CommandModel {
    SET { key: Seq<char>, value: Seq<char> },
    GET { key: Seq<char> },
    DELETE { key: Seq<char> },
}

/// A command is well formed when its key (and value) are tokens: non-empty
/// and free of whitespace. Every command produced by parsing is well formed.
pub open spec fn wf_command(m: CommandModel) -> bool {
    match m {
        CommandModel::SET { key, value } => is_token(key) && is_token(value),
        CommandModel::GET { key } => is_token(key),
        CommandModel::DELETE { key } => is_token(key),
    }
}

/// One operation against the store. `SET` and `DELETE` mutate and are
/// persisted to the durable log; `GET` only reads and is never logged.
pub enum Command {
    SET { key: String, value: String },
    GET { key: String },
    DELETE { key: String },
}

impl View for Command {
    type V = CommandModel;

    open spec fn view(&self) -> CommandModel {
        match self {
            Command::SET { key, value } => CommandModel::SET { key: key@, value: value@ },
            Command::GET { key } => CommandModel::GET { key: key@ },
            Command::DELETE { key } => CommandModel::DELETE { key: key@ },
        }
    }
}

impl Command {
    /// Whether this command mutates the store, and so must be written to the
    /// durable log before it is applied.
    pub fn is_mutation(&self) -> (r: bool)
        ensures
            r == self@.is_mutation(),
    {
        match self {
            Command::SET { .. } => true,
            Command::DELETE { .. } => true,
            Command::GET { .. } => false,
        }
    }
}

impl CommandModel {
    /// `SET` and `DELETE` mutate; `GET` does not.
    pub open spec fn is_mutation(self) -> bool {
        !(self is GET)
    }
}

/// Whether `t` is the verb `v` up to ASCII case. `v` is one of the three
/// canonical (upper-case) verbs.
fn verb_matches(t: &str, v: &str) -> (r: bool)
    ensures
        r == (upper_seq(t@) == v@),
{
    let tn = t.unicode_len();
    let vn = v.unicode_len();
    if tn != vn {
        proof {
            assert(upper_seq(t@).len() == t@.len());
        }
        return false;
    }
    let mut i: usize = 0;
    while i < tn
        invariant
            tn == t@.len(),
            tn == v@.len(),
            i <= tn,
            forall|k: int| 0 <= k < i ==> upper_seq(t@)[k] == v@[k],
        decreases tn - i,
    {
        let tc = upper_char_exec(t.get_char(i));
        let vc = v.get_char(i);
        if tc != vc {
            proof {
                assert(upper_seq(t@)[i as int] != v@[i as int]);
            }
            return false;
        }
        proof {
            assert(upper_seq(t@)[i as int] == v@[i as int]);
        }
        i = i + 1;
    }
    proof {
        assert(upper_seq(t@) =~= v@);
    }
    true
}

/// The error line for an empty input.
pub open spec fn msg_empty() -> Seq<char> {
    "ERROR: Empty command"@
}

/// The error line for a `SET` with the wrong number of tokens.
pub open spec fn msg_set_arity() -> Seq<char> {
    "ERROR: SET requires a key and value"@
}

/// The error line for a `GET` with the wrong number of tokens.
pub open spec fn msg_get_arity() -> Seq<char> {
    "ERROR: GET requires a key"@
}

/// The error line for a `DELETE` with the wrong number of tokens.
pub open spec fn msg_delete_arity() -> Seq<char> {
    "ERROR: DELETE requires a key"@
}

/// The error line for an unrecognized verb.
pub open spec fn msg_unknown() -> Seq<char> {
    "ERROR: Unknown command"@
}

/// What parsing a raw line means: tokenize it, match the first token
/// case-insensitively against the three verbs, and check the arity. Either
/// the parsed command or the exact error line comes back.
pub open spec fn parse_spec(s: Seq<char>) -> Result<CommandModel, Seq<char>> {
    let ts = tokens_of(s);
    if ts.len() == 0 {
        Err(msg_empty())
    } else if upper_seq(ts[0]) == "SET"@ {
        if ts.len() == 3 {
            Ok(CommandModel::SET { key: ts[1], value: ts[2] })
        } else {
            Err(msg_set_arity())
        }
    } else if upper_seq(ts[0]) == "GET"@ {
        if ts.len() == 2 {
            Ok(CommandModel::GET { key: ts[1] })
        } else {
            Err(msg_get_arity())
        }
    } else if upper_seq(ts[0]) == "DELETE"@ {
        if ts.len() == 2 {
            Ok(CommandModel::DELETE { key: ts[1] })
        } else {
            Err(msg_delete_arity())
        }
    } else {
        Err(msg_unknown())
    }
}

/// Parse one raw input line into a command, or report the error line to be
/// sent back to the client. A pure function of its input: no state is
/// touched on either outcome.
pub fn parse_command(input: &str) -> (r: Result<Command, String>)
    ensures
        match r {
            Ok(c) => parse_spec(input@) == Ok::<CommandModel, Seq<char>>(c@) && wf_command(c@),
            Err(e) => parse_spec(input@) == Err::<CommandModel, Seq<char>>(e@),
        },
{
    let mut toks = tokenize(input);
    let ghost ts = tokens_of(input@);
    if toks.len() == 0 {
        return Err(String::from_str("ERROR: Empty command"));
    }
    proof {
        assert(toks.deep_view()[0] == toks@[0]@);
    }
    if verb_matches(toks[0].as_str(), "SET") {
        if toks.len() == 3 {
            let value = toks.pop().unwrap();
            let key = toks.pop().unwrap();
            proof {
                assert(value@ == ts[2] && key@ == ts[1]);
            }
            Ok(Command::SET { key, value })
        } else {
            Err(String::from_str("ERROR: SET requires a key and value"))
        }
    } else if verb_matches(toks[0].as_str(), "GET") {
        if toks.len() == 2 {
            let key = toks.pop().unwrap();
            proof {
                assert(key@ == ts[1]);
            }
            Ok(Command::GET { key })
        } else {
            Err(String::from_str("ERROR: GET requires a key"))
        }
    } else if verb_matches(toks[0].as_str(), "DELETE") {
        if toks.len() == 2 {
            let key = toks.pop().unwrap();
            proof {
                assert(key@ == ts[1]);
            }
            Ok(Command::DELETE { key })
        } else {
            Err(String::from_str("ERROR: DELETE requires a key"))
        }
    } else {
        Err(String::from_str("ERROR: Unknown command"))
    }
}

} // verus!

