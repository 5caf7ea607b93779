//! The commands of the interactive prompt.

use vstd::prelude::*;
use vstd::string::StringExecFns;
use crate::text::{
    eq_ignore_case, from_chars, join, matches_ignore_case, to_chars, word_ranges, words,
};

verus! {

/// A command that takes a package or a query.
#[derive(Clone, Copy, Debug, PartialEq, Eq, Structural)]
pub enum Verb {
    Search,
    Install,
    Uninstall,
}

/// What a line typed at the prompt asks for.
#[derive(Debug)]
pub enum Command {
    /// The line holds nothing: ask again.
    Empty,
    /// Leave the program.
    Exit,
    /// Show the commands.
    Help,
    /// Run `verb` on the text that follows it.
    Run(Verb, String),
    /// `verb` was given without the text it needs: show how it is used.
    Usage(Verb),
    /// Update the installed packages.
    Update,
    /// The first word is no command.
    Unknown,
}

/// The model of a [`Command`].
pub enum CommandModel {
    Empty,
    Exit,
    Help,
    Run(Verb, Seq<char>),
    Usage(Verb),
    Update,
    Unknown,
}

impl View for Command {
    type V = CommandModel;

    open spec fn view(&self) -> CommandModel {
        match self {
            Command::Empty => CommandModel::Empty,
            Command::Exit => CommandModel::Exit,
            Command::Help => CommandModel::Help,
            Command::Run(verb, text) => CommandModel::Run(*verb, text@),
            Command::Usage(verb) => CommandModel::Usage(*verb),
            Command::Update => CommandModel::Update,
            Command::Unknown => CommandModel::Unknown,
        }
    }
}

/// The verb that the word `word` names, in any case: `search` or `s`,
/// `install` or `i`, `uninstall` or `ui`.
pub open spec fn verb_of(word: Seq<char>) -> Option<Verb> {
    if eq_ignore_case(word, "search"@) || eq_ignore_case(word, "s"@) {
        Some(Verb::Search)
    } else if eq_ignore_case(word, "install"@) || eq_ignore_case(word, "i"@) {
        Some(Verb::Install)
    } else if eq_ignore_case(word, "uninstall"@) || eq_ignore_case(word, "ui"@) {
        Some(Verb::Uninstall)
    } else {
        None
    }
}

/// The command that a line asks for. The first word names the command, in any
/// case; the words after it, joined by single spaces, are what a verb is run
/// on.
pub open spec fn command_of(input: Seq<char>) -> CommandModel {
    let w = words(input);
    if w.len() == 0 {
        CommandModel::Empty
    } else if eq_ignore_case(w[0], "exit"@) {
        CommandModel::Exit
    } else if eq_ignore_case(w[0], "help"@) {
        CommandModel::Help
    } else if verb_of(w[0]) is Some {
        if w.len() == 1 {
            CommandModel::Usage(verb_of(w[0])->0)
        } else {
            CommandModel::Run(verb_of(w[0])->0, join(w.skip(1), " "@))
        }
    } else if eq_ignore_case(w[0], "update"@) || eq_ignore_case(w[0], "up"@) {
        CommandModel::Update
    } else {
        CommandModel::Unknown
    }
}

/// Whether `s[from..to]` is `word` in any case.
fn is_word(s: &[char], from: usize, to: usize, word: &str) -> (r: bool)
    requires
        from <= to <= s.len(),
    ensures
        r == eq_ignore_case(s@.subrange(from as int, to as int), word@),
{
    let pattern = to_chars(word);
    matches_ignore_case(s, from, to, pattern.as_slice())
}

/// Reads the verb that `s[from..to]` names.
fn parse_verb(s: &[char], from: usize, to: usize) -> (r: Option<Verb>)
    requires
        from <= to <= s.len(),
    ensures
        r == verb_of(s@.subrange(from as int, to as int)),
{
    if is_word(s, from, to, "search") || is_word(s, from, to, "s") {
        Some(Verb::Search)
    } else if is_word(s, from, to, "install") || is_word(s, from, to, "i") {
        Some(Verb::Install)
    } else if is_word(s, from, to, "uninstall") || is_word(s, from, to, "ui") {
        Some(Verb::Uninstall)
    } else {
        None
    }
}

/// Reads a line typed at the prompt.
pub fn parse_command(input: &str) -> (r: Command)
    ensures
        r@ == command_of(input@),
{
    let chars = to_chars(input);
    let s = chars.as_slice();
    let ranges = word_ranges(s, 0, s.len());
    assert(s@.subrange(0, s.len() as int) =~= s@);
    let ghost w = words(s@);
    if ranges.len() == 0 {
        return Command::Empty;
    }
    let (a, b) = ranges[0];
    if is_word(s, a, b, "exit") {
        return Command::Exit;
    }
    if is_word(s, a, b, "help") {
        return Command::Help;
    }
    match parse_verb(s, a, b) {
        Some(verb) => {
            if ranges.len() == 1 {
                return Command::Usage(verb);
            }
            let ghost rest = w.skip(1);
            let mut text = String::new();
            let mut k: usize = 1;
            assert(rest.take(0) =~= Seq::empty());
            while k < ranges.len()
                invariant
                    1 <= k <= ranges.len(),
                    w == words(s@),
                    rest == w.skip(1),
                    ranges@.len() == w.len(),
                    forall|j: int|
                        0 <= j < ranges@.len() ==> 0 <= (#[trigger] ranges@[j]).0 < ranges@[j].1
                            <= s.len() && s@.subrange(ranges@[j].0 as int, ranges@[j].1 as int)
                            == w[j],
                    text@ == join(rest.take(k - 1), " "@),
                decreases ranges.len() - k,
            {
                let (from, to) = ranges[k];
                let word = from_chars(s, from, to);
                proof {
                    let next = rest.take(k as int);
                    assert(next.drop_last() =~= rest.take(k - 1));
                    assert(next.last() == word@);
                    if k == 1 {
                        assert(text@ + word@ =~= word@);
                    } else {
                        assert(text@ + " "@ + word@ =~= join(next, " "@));
                    }
                }
                if k > 1 {
                    text.append(" ");
                }
                text.append(word.as_str());
                k += 1;
            }
            assert(rest.take(ranges.len() - 1) =~= rest);
            Command::Run(verb, text)
        },
        None => {
            if is_word(s, a, b, "update") || is_word(s, a, b, "up") {
                Command::Update
            } else {
                Command::Unknown
            }
        },
    }
}

} // verus!
