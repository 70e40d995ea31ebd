//! Parsing a message into one of the resolved commands and its arguments.
use vstd::prelude::*;

use crate::command::{Command, Strategy};
use crate::text::{
    chars_of, eq_ignore_case, equal_ignoring_case, is_white, is_whitespace, split_on, split_str,
    str_eq, string_of, views,
};

verus! {

/// Why a message is not a command of the set.
#[derive(Debug)]
pub enum ParseError {
    /// The command is addressed to another bot.
    WrongBotName(String),
    /// No command has this text.
    UnknownCommand(String),
    /// The argument text has fewer pieces than the command has fields.
    TooFewArguments { expected: usize, found: usize },
    /// The argument text has more pieces than the command has fields.
    TooManyArguments { expected: usize, found: usize },
}

/// The arguments of a recognised command.
#[derive(Debug)]
pub enum Arguments {
    /// The command has no fields.
    Empty,
    /// One piece of text per field, in order.
    Split(Vec<String>),
    /// The argument text, to be handed whole to the named function.
    Custom { parser: String, text: String },
}

/// A recognised command: its position in the set and its arguments.
#[derive(Debug)]
pub struct Parsed {
    pub index: usize,
    pub args: Arguments,
}

/// The end of the word that starts at `i`: the first whitespace at or after
/// `i`, or the end of `s`.
pub open spec fn word_end(s: Seq<char>, i: int) -> int
    decreases s.len() - i,
{
    if i < 0 || i >= s.len() || is_white(s[i]) {
        i
    } else {
        word_end(s, i + 1)
    }
}

/// The first position at or after `i` that is not whitespace, or the end of `s`.
pub open spec fn skip_white(s: Seq<char>, i: int) -> int
    decreases s.len() - i,
{
    if 0 <= i < s.len() && is_white(s[i]) {
        skip_white(s, i + 1)
    } else {
        i
    }
}

/// The first `@` at or after `i`, or the end of `s`.
pub open spec fn find_at(s: Seq<char>, i: int) -> int
    decreases s.len() - i,
{
    if i < 0 || i >= s.len() || s[i] == '@' {
        i
    } else {
        find_at(s, i + 1)
    }
}

/// The text before the first whitespace run.
pub open spec fn head_of(s: Seq<char>) -> Seq<char> {
    s.take(word_end(s, 0))
}

/// The text after the first whitespace run; empty where there is none.
pub open spec fn rest_of(s: Seq<char>) -> Seq<char> {
    s.skip(skip_white(s, word_end(s, 0)))
}

/// The command part of a head: the text before its first `@`.
pub open spec fn command_of(h: Seq<char>) -> Seq<char> {
    h.take(find_at(h, 0))
}

/// The bot named after the first `@` of a head, if there is one.
pub open spec fn mention_of(h: Seq<char>) -> Option<Seq<char>> {
    if find_at(h, 0) < h.len() {
        Some(h.skip(find_at(h, 0) + 1))
    } else {
        None
    }
}

/// The first command from position `i` on whose matched text is `raw`.
pub open spec fn lookup_from(cs: Seq<Command>, raw: Seq<char>, i: int) -> Option<int>
    decreases cs.len() - i,
{
    if i < 0 || i >= cs.len() {
        None
    } else if cs[i].matched() == raw {
        Some(i)
    } else {
        lookup_from(cs, raw, i + 1)
    }
}

/// `r` is what applying `strategy` to the argument text `rest` of command
/// `i` gives.
pub open spec fn arguments_result(
    strategy: Strategy,
    rest: Seq<char>,
    i: int,
    r: Result<Parsed, ParseError>,
) -> bool {
    match strategy {
        Strategy::NoArguments => r matches Ok(p) && p.index == i && p.args is Empty,
        Strategy::SplitOnSeparator { arity, separator } => {
            let pieces = split_on(rest, separator@);
            if pieces.len() < arity {
                r matches Err(ParseError::TooFewArguments { expected, found }) && expected
                    == arity && found == pieces.len()
            } else if pieces.len() > arity {
                r matches Err(ParseError::TooManyArguments { expected, found }) && expected
                    == arity && found == pieces.len()
            } else {
                match r {
                    Ok(p) => p.index == i && match p.args {
                        Arguments::Split(v) => views(v@) == pieces,
                        _ => false,
                    },
                    Err(_) => false,
                }
            }
        },
        Strategy::CustomParser(f) => match r {
            Ok(p) => p.index == i && match p.args {
                Arguments::Custom { parser, text } => parser@ == f@ && text@ == rest,
                _ => false,
            },
            Err(_) => false,
        },
    }
}

/// `r` is what parsing message `text` for the bot `bot` against the commands
/// `cs` gives: a mention of another bot fails; else the first command whose
/// matched text is the message's command part is taken, and its strategy is
/// applied to the rest of the message.
pub open spec fn parse_result(
    text: Seq<char>,
    bot: Seq<char>,
    cs: Seq<Command>,
    r: Result<Parsed, ParseError>,
) -> bool {
    let h = head_of(text);
    let raw = command_of(h);
    match mention_of(h) {
        Some(m) if !eq_ignore_case(m, bot) => r matches Err(ParseError::WrongBotName(n)) && n@
            == m,
        _ => match lookup_from(cs, raw, 0) {
            None => r matches Err(ParseError::UnknownCommand(n)) && n@ == raw,
            Some(i) => arguments_result(cs[i].strategy, rest_of(text), i, r),
        },
    }
}

/// Applies a strategy to the argument text of command `index`.
pub fn parse_arguments(strategy: &Strategy, rest: String, index: usize) -> (r: Result<
    Parsed,
    ParseError,
>)
    requires
        strategy.wf(),
    ensures
        arguments_result(*strategy, rest@, index as int, r),
{
    match strategy {
        Strategy::NoArguments => Ok(Parsed { index, args: Arguments::Empty }),
        Strategy::SplitOnSeparator { arity, separator } => {
            let pieces = split_str(rest.as_str(), separator.as_str());
            let found = pieces.len();
            if found < *arity {
                Err(ParseError::TooFewArguments { expected: *arity, found })
            } else if found > *arity {
                Err(ParseError::TooManyArguments { expected: *arity, found })
            } else {
                Ok(Parsed { index, args: Arguments::Split(pieces) })
            }
        },
        Strategy::CustomParser(f) => Ok(
            Parsed { index, args: Arguments::Custom { parser: f.clone(), text: rest } },
        ),
    }
}

/// Every splitting command has a non-empty separator.
pub open spec fn separators_nonempty(cs: Seq<Command>) -> bool {
    forall|i: int| 0 <= i < cs.len() ==> (#[trigger] cs[i]).wf()
}

/// Parses a message for the bot `bot_name` against resolved commands, in order.
#[verifier::loop_isolation(false)]
pub fn parse(text: &str, bot_name: &str, commands: &Vec<Command>) -> (r: Result<
    Parsed,
    ParseError,
>)
    requires
        separators_nonempty(commands@),
    ensures
        parse_result(text@, bot_name@, commands@, r),
{
    let v = chars_of(text);
    let n = v.len();
    let ghost s = text@;
    let mut e: usize = 0;
    while e < n && !is_whitespace(v[e])
        invariant
            v@ == s,
            n == s.len(),
            e <= n,
            word_end(s, 0) == word_end(s, e as int),
        decreases n - e,
    {
        e = e + 1;
    }
    let mut st: usize = e;
    while st < n && is_whitespace(v[st])
        invariant
            v@ == s,
            n == s.len(),
            e <= st <= n,
            word_end(s, 0) == e,
            skip_white(s, e as int) == skip_white(s, st as int),
        decreases n - st,
    {
        st = st + 1;
    }
    let ghost h = s.take(e as int);
    let mut at: usize = 0;
    while at < e && v[at] != '@'
        invariant
            v@ == s,
            n == s.len(),
            e <= n,
            h == s.take(e as int),
            at <= e,
            find_at(h, 0) == find_at(h, at as int),
        decreases e - at,
    {
        at = at + 1;
    }
    let raw = string_of(&v, 0, at);
    assert(raw@ =~= command_of(h));
    if at < e {
        let mention = string_of(&v, at + 1, e);
        assert(mention@ =~= h.skip(at + 1));
        if !equal_ignoring_case(mention.as_str(), bot_name) {
            return Err(ParseError::WrongBotName(mention));
        }
    }
    let rest = string_of(&v, st, n);
    assert(rest@ =~= rest_of(s));
    let mut i: usize = 0;
    while i < commands.len()
        invariant
            i <= commands@.len(),
            lookup_from(commands@, raw@, 0) == lookup_from(commands@, raw@, i as int),
        decreases commands@.len() - i,
    {
        let c = &commands[i];
        let m = c.prefix.clone().concat(c.token.as_str());
        if str_eq(m.as_str(), raw.as_str()) {
            return parse_arguments(&c.strategy, rest, i);
        }
        i = i + 1;
    }
    Err(ParseError::UnknownCommand(raw))
}

} // verus!
