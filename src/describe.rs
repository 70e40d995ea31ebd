//! What the derive hands out besides the parser: the description table and
//! the list of commands for a command menu.
use vstd::prelude::*;

use crate::attr::opt_view;
use crate::command::Command;
use crate::command_set::CommandSet;
use crate::parse::{command_of, head_of, lookup_from, parse, parse_result, separators_nonempty, ParseError, Parsed};

verus! {

/// One row of the description table.
#[derive(Debug)]
pub struct CommandDescription {
    pub prefix: String,
    pub command: String,
    pub description: String,
}

/// The description table: one row per shown command, then an optional text
/// about the whole enumeration.
#[derive(Debug)]
pub struct CommandDescriptions {
    pub descriptions: Vec<CommandDescription>,
    pub global_description: Option<String>,
}

/// One entry of the command list: the full command text and its description.
#[derive(Debug)]
pub struct BotCommand {
    pub command: String,
    pub description: String,
}

/// The commands that are shown, in declaration order.
pub open spec fn visible(cs: Seq<Command>) -> Seq<Command> {
    cs.filter(|c: Command| !c.hidden)
}

/// Taking one more command adds it to the shown ones unless it is hidden.
proof fn lemma_visible_step(cs: Seq<Command>, i: int)
    requires
        0 <= i < cs.len(),
    ensures
        visible(cs.take(i + 1)) == if cs[i].hidden {
            visible(cs.take(i))
        } else {
            visible(cs.take(i)).push(cs[i])
        },
{
    reveal(Seq::filter);
    let t = cs.take(i + 1);
    assert(t.drop_last() =~= cs.take(i));
    assert(t.last() == cs[i]);
}

/// The declaration positions of the commands that are shown, in order.
pub open spec fn visible_positions(cs: Seq<Command>) -> Seq<int>
    decreases cs.len(),
{
    if cs.len() == 0 {
        Seq::empty()
    } else if cs.last().hidden {
        visible_positions(cs.drop_last())
    } else {
        visible_positions(cs.drop_last()).push(cs.len() - 1)
    }
}

/// The description table and the command list, which follow `visible`, keep
/// declaration order: their entries are the commands that are not hidden,
/// each declared after the one before it, and no command that is not hidden
/// is left out.
pub proof fn lemma_declaration_order(cs: Seq<Command>)
    ensures
        visible_positions(cs).len() == visible(cs).len(),
        forall|k: int|
            0 <= k < visible(cs).len() ==> {
                let p = #[trigger] visible_positions(cs)[k];
                &&& 0 <= p < cs.len()
                &&& visible(cs)[k] == cs[p]
                &&& !cs[p].hidden
            },
        forall|k1: int, k2: int|
            0 <= k1 < k2 < visible(cs).len() ==> #[trigger] visible_positions(cs)[k1]
                < #[trigger] visible_positions(cs)[k2],
        forall|i: int|
            0 <= i < cs.len() && !(#[trigger] cs[i]).hidden ==> exists|k: int|
                0 <= k < visible(cs).len() && visible_positions(cs)[k] == i,
    decreases cs.len(),
{
    reveal(Seq::filter);
    if cs.len() > 0 {
        let d = cs.drop_last();
        lemma_declaration_order(d);
        let n = cs.len() - 1;
        assert(visible(cs) == if cs.last().hidden {
            visible(d)
        } else {
            visible(d).push(cs.last())
        });
        assert forall|i: int| 0 <= i < cs.len() && !(#[trigger] cs[i]).hidden implies exists|k: int|
            0 <= k < visible(cs).len() && visible_positions(cs)[k] == i by {
            if i < n {
                assert(!d[i].hidden);
                let k = choose|k: int| 0 <= k < visible(d).len() && visible_positions(d)[k] == i;
                assert(visible_positions(cs)[k] == i);
            } else {
                assert(visible_positions(cs)[visible(cs).len() - 1] == i);
            }
        }
    }
}

/// The commands with none hidden.
pub open spec fn unhidden(cs: Seq<Command>) -> Seq<Command> {
    cs.map_values(|c: Command| Command { hidden: false, ..c })
}

/// A hidden command is left out of the description table and the command
/// list, yet the parser still recognises it: parsing gives the same result as
/// if no command were hidden.
pub proof fn lemma_hidden_still_parsed(
    text: Seq<char>,
    bot: Seq<char>,
    cs: Seq<Command>,
    r: Result<Parsed, ParseError>,
)
    ensures
        forall|k: int| 0 <= k < visible(cs).len() ==> !(#[trigger] visible(cs)[k]).hidden,
        parse_result(text, bot, cs, r) == parse_result(text, bot, unhidden(cs), r),
{
    lemma_declaration_order(cs);
    let raw = command_of(head_of(text));
    lemma_lookup_unhidden(cs, raw, 0);
    if let Some(i) = lookup_from(cs, raw, 0) {
        lemma_lookup_in_range(cs, raw, 0);
        assert(unhidden(cs)[i].strategy == cs[i].strategy);
    }
}

proof fn lemma_lookup_in_range(cs: Seq<Command>, raw: Seq<char>, i: int)
    ensures
        lookup_from(cs, raw, i) matches Some(j) ==> 0 <= j < cs.len(),
    decreases cs.len() - i,
{
    if 0 <= i < cs.len() {
        lemma_lookup_in_range(cs, raw, i + 1);
    }
}

proof fn lemma_lookup_unhidden(cs: Seq<Command>, raw: Seq<char>, i: int)
    requires
        0 <= i,
    ensures
        lookup_from(cs, raw, i) == lookup_from(unhidden(cs), raw, i),
    decreases cs.len() - i,
{
    if i < cs.len() {
        assert(unhidden(cs)[i].matched() == cs[i].matched());
        lemma_lookup_unhidden(cs, raw, i + 1);
    }
}

pub open spec fn describes(row: CommandDescription, c: Command) -> bool {
    &&& row.prefix@ == c.prefix@
    &&& row.command@ == c.token@
    &&& row.description@ == c.description@
}

pub open spec fn lists(entry: BotCommand, c: Command) -> bool {
    &&& entry.command@ == c.matched()
    &&& entry.description@ == c.description@
}

impl CommandSet {
    /// Every command can be parsed with: its separator, where it splits, is
    /// not empty.
    pub open spec fn wf(&self) -> bool {
        separators_nonempty(self.commands@)
    }

    /// Parses a message addressed to the bot `bot_name`.
    pub fn parse(&self, text: &str, bot_name: &str) -> (r: Result<Parsed, ParseError>)
        requires
            self.wf(),
        ensures
            parse_result(text@, bot_name@, self.commands@, r),
    {
        parse(text, bot_name, &self.commands)
    }

    /// The description table: one row per command that is not hidden, in
    /// declaration order, and the enumeration's own description.
    pub fn descriptions(&self) -> (r: CommandDescriptions)
        ensures
            r.descriptions@.len() == visible(self.commands@).len(),
            forall|k: int|
                0 <= k < r.descriptions@.len() ==> describes(
                    #[trigger] r.descriptions@[k],
                    visible(self.commands@)[k],
                ),
            opt_view(r.global_description) == opt_view(self.global.description),
    {
        let ghost cs = self.commands@;
        let mut rows: Vec<CommandDescription> = Vec::new();
        let mut i: usize = 0;
        while i < self.commands.len()
            invariant
                cs == self.commands@,
                i <= cs.len(),
                rows@.len() == visible(cs.take(i as int)).len(),
                forall|k: int|
                    0 <= k < rows@.len() ==> describes(
                        #[trigger] rows@[k],
                        visible(cs.take(i as int))[k],
                    ),
            decreases cs.len() - i,
        {
            let c = &self.commands[i];
            proof {
                lemma_visible_step(cs, i as int);
            }
            if !c.hidden {
                rows.push(
                    CommandDescription {
                        prefix: c.prefix.clone(),
                        command: c.token.clone(),
                        description: c.description.clone(),
                    },
                );
            }
            i = i + 1;
        }
        assert(cs.take(cs.len() as int) =~= cs);
        let global_description = match &self.global.description {
            Some(d) => Some(d.clone()),
            None => None,
        };
        CommandDescriptions { descriptions: rows, global_description }
    }

    /// The command list: the full text and description of each command that
    /// is not hidden, in declaration order.
    pub fn bot_commands(&self) -> (r: Vec<BotCommand>)
        ensures
            r@.len() == visible(self.commands@).len(),
            forall|k: int| 0 <= k < r@.len() ==> lists(#[trigger] r@[k], visible(self.commands@)[k]),
    {
        let ghost cs = self.commands@;
        let mut out: Vec<BotCommand> = Vec::new();
        let mut i: usize = 0;
        while i < self.commands.len()
            invariant
                cs == self.commands@,
                i <= cs.len(),
                out@.len() == visible(cs.take(i as int)).len(),
                forall|k: int|
                    0 <= k < out@.len() ==> lists(#[trigger] out@[k], visible(cs.take(i as int))[k]),
            decreases cs.len() - i,
        {
            let c = &self.commands[i];
            proof {
                lemma_visible_step(cs, i as int);
            }
            if !c.hidden {
                let command = c.prefix.clone().concat(c.token.as_str());
                out.push(BotCommand { command, description: c.description.clone() });
            }
            i = i + 1;
        }
        assert(cs.take(cs.len() as int) =~= cs);
        out
    }
}

} // verus!
