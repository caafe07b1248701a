//! The command parser: whitespace tokenization of one input line and the
//! mapping from its tokens to a typed [`Command`].
//!
//! A line is split into maximal runs of non-whitespace characters. The
//! first token selects the command: `get` needs one argument (the key),
//! `set` needs two (key and value); extra tokens are ignored. A missing
//! argument drops the line silently. Any other first token — including
//! the empty token of a blank line — yields an `Unknown` command that
//! names the token verbatim.

use vstd::prelude::*;

use crate::command::{ClientId, Command, SpecCommand};

verus! {

/// Whitespace for tokenization: the ASCII whitespace characters.
pub open spec fn is_space(c: char) -> bool {
    c == ' ' || c == '\t' || c == '\n' || c == '\r' || c == '\u{b}' || c == '\u{c}'
}

/// Length of the leading run of non-whitespace characters of `s`.
pub open spec fn spec_token_end(s: Seq<char>) -> nat
    decreases s.len(),
{
    if s.len() == 0 {
        0
    } else if is_space(s[0]) {
        0
    } else {
        spec_token_end(s.skip(1)) + 1
    }
}

pub proof fn lemma_token_end_le_len(s: Seq<char>)
    ensures
        spec_token_end(s) <= s.len(),
    decreases s.len(),
{
    if s.len() != 0 && !is_space(s[0]) {
        lemma_token_end_le_len(s.skip(1));
    }
}

/// The whitespace-delimited tokens of `s`, in order: each token is a
/// maximal nonempty run of non-whitespace characters.
pub open spec fn spec_tokens(s: Seq<char>) -> Seq<Seq<char>>
    decreases s.len(),
    via spec_tokens_decreases
{
    if s.len() == 0 {
        Seq::empty()
    } else if is_space(s[0]) {
        spec_tokens(s.skip(1))
    } else {
        seq![s.take(spec_token_end(s) as int)] + spec_tokens(s.skip(spec_token_end(s) as int))
    }
}

#[via_fn]
proof fn spec_tokens_decreases(s: Seq<char>) {
    lemma_token_end_le_len(s);
}

fn is_space_exec(c: char) -> (r: bool)
    ensures
        r == is_space(c),
{
    c == ' ' || c == '\t' || c == '\n' || c == '\r' || c == '\u{b}' || c == '\u{c}'
}

fn token_end(s: &str) -> (r: usize)
    ensures
        r as nat == spec_token_end(s@),
    decreases s@.len(),
{
    let n = s.unicode_len();
    if n == 0 {
        0
    } else if is_space_exec(s.get_char(0)) {
        0
    } else {
        let rest = s.substring_char(1, n);
        let e = token_end(rest);
        proof {
            lemma_token_end_le_len(rest@);
        }
        e + 1
    }
}

/// Splits a line into its whitespace-delimited tokens.
pub fn tokenize(s: &str) -> (r: Vec<String>)
    ensures
        r.deep_view() == spec_tokens(s@),
    decreases s@.len(),
{
    let n = s.unicode_len();
    if n == 0 {
        let r: Vec<String> = Vec::new();
        proof {
            assert(r.deep_view() =~= spec_tokens(s@));
        }
        r
    } else if is_space_exec(s.get_char(0)) {
        let r = tokenize(s.substring_char(1, n));
        proof {
            assert(s@.subrange(1, n as int) =~= s@.skip(1));
        }
        r
    } else {
        let e = token_end(s);
        proof {
            lemma_token_end_le_len(s@);
        }
        let tok = String::from_str(s.substring_char(0, e));
        let mut r = tokenize(s.substring_char(e, n));
        r.insert(0, tok);
        proof {
            assert(s@.subrange(0, e as int) =~= s@.take(spec_token_end(s@) as int));
            assert(s@.subrange(e as int, n as int) =~= s@.skip(spec_token_end(s@) as int));
            assert(r.deep_view() =~= spec_tokens(s@));
        }
        r
    }
}

/// The first token of a line, or the empty sequence when the line has none.
pub open spec fn first_token(line: Seq<char>) -> Seq<char> {
    if spec_tokens(line).len() == 0 {
        Seq::empty()
    } else {
        spec_tokens(line)[0]
    }
}

/// What parsing one line yields: the typed command forwarded to the store
/// actor, or `None` when a recognized command misses a required argument
/// (such a line is dropped without any response).
pub open spec fn spec_parse(from: ClientId, line: Seq<char>) -> Option<SpecCommand> {
    let ts = spec_tokens(line);
    let cmd = first_token(line);
    if cmd == "get"@ {
        if ts.len() >= 2 {
            Some(SpecCommand::Get { variable_name: ts[1], from })
        } else {
            None
        }
    } else if cmd == "set"@ {
        if ts.len() >= 3 {
            Some(SpecCommand::SetValue { variable_name: ts[1], variable_value: ts[2], from })
        } else {
            None
        }
    } else {
        Some(SpecCommand::Unknown { command_name: cmd, from })
    }
}

/// View of a parse result, for contracts.
pub open spec fn parsed_view(r: Option<Command>) -> Option<SpecCommand> {
    match r {
        Some(c) => Some(c@),
        None => None,
    }
}

/// Parser for one connection: it stamps every command it produces with
/// that connection's identity.
pub struct CommandParser {
    source_addr: ClientId,
}

impl CommandParser {
    /// The identity stamped on every parsed command.
    pub closed spec fn source(self) -> ClientId {
        self.source_addr
    }

    pub fn new(source_addr: ClientId) -> (p: Self)
        ensures
            p.source() == source_addr,
    {
        Self { source_addr }
    }

    /// Parses one line (already stripped of its terminator).
    pub fn parse_command(&self, line_string: &str) -> (r: Option<Command>)
        ensures
            parsed_view(r) == spec_parse(self.source(), line_string@),
    {
        let tokens = tokenize(line_string);
        let command: String = if tokens.len() > 0 {
            let t: &String = &tokens[0];
            t.clone()
        } else {
            String::new()
        };
        proof {
            reveal_strlit("get");
            reveal_strlit("set");
            assert(command@ == first_token(line_string@));
        }
        if command == String::from_str("get") {
            self.parse_get_command(&tokens)
        } else if command == String::from_str("set") {
            self.parse_set_command(&tokens)
        } else {
            Some(Command::new_unknown(command, self.source_addr))
        }
    }

    fn parse_get_command(&self, tokens: &Vec<String>) -> (r: Option<Command>)
        ensures
            parsed_view(r) == (if tokens.deep_view().len() >= 2 {
                Some(SpecCommand::Get { variable_name: tokens.deep_view()[1], from: self.source() })
            } else {
                None::<SpecCommand>
            }),
    {
        if tokens.len() >= 2 {
            let name: &String = &tokens[1];
            Some(Command::new_get(name.clone(), self.source_addr))
        } else {
            None
        }
    }

    fn parse_set_command(&self, tokens: &Vec<String>) -> (r: Option<Command>)
        ensures
            parsed_view(r) == (if tokens.deep_view().len() >= 3 {
                Some(SpecCommand::SetValue {
                    variable_name: tokens.deep_view()[1],
                    variable_value: tokens.deep_view()[2],
                    from: self.source(),
                })
            } else {
                None::<SpecCommand>
            }),
    {
        if tokens.len() >= 3 {
            let name: &String = &tokens[1];
            let value: &String = &tokens[2];
            Some(Command::new_set(name.clone(), value.clone(), self.source_addr))
        } else {
            None
        }
    }
}

} // verus!
