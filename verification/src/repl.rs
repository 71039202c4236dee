//! Hints for the commands of a session: what is shown behind the cursor
//! while a command is being typed, and how much of it a completion fills in.
//!
//! Lengths and positions inside a hint count characters.

use crate::text::to_chars;
use vstd::prelude::*;
use vstd::string::{StrSliceExecFns, StringExecFns};

verus! {

/// A text to show as a hint, of which a prefix is filled in on completion.
#[derive(Debug, PartialEq, Eq, Hash)]
pub struct CommandHint {
    display: String,
    complete_up_to: usize,
}

impl CommandHint {
    #[verifier::type_invariant]
    spec fn completes_a_prefix(&self) -> bool {
        self.complete_up_to <= self.display@.len()
    }

    /// The text of the hint.
    pub closed spec fn text(&self) -> Seq<char> {
        self.display@
    }

    /// The number of characters of the text that a completion fills in.
    pub closed spec fn completed(&self) -> nat {
        self.complete_up_to as nat
    }

    /// Whether the hint is `whole` without its first `strip` characters.
    pub open spec fn is_rest_of(&self, whole: &CommandHint, strip: nat) -> bool {
        &&& self.text() == whole.text().skip(strip as int)
        &&& self.completed() == if whole.completed() >= strip {
            whole.completed() - strip
        } else {
            0
        }
    }

    /// The hint that shows `text` and completes its prefix `complete_up_to`.
    pub fn new(text: &str, complete_up_to: &str) -> (hint: CommandHint)
        requires
            complete_up_to@.is_prefix_of(text@),
        ensures
            hint.text() == text@,
            hint.completed() == complete_up_to@.len(),
    {
        CommandHint { display: text.to_owned(), complete_up_to: complete_up_to.unicode_len() }
    }

    /// The hint without its first `strip_chars` characters.
    pub fn suffix(&self, strip_chars: usize) -> (hint: CommandHint)
        requires
            strip_chars <= self.text().len(),
        ensures
            hint.is_rest_of(self, strip_chars as nat),
    {
        proof {
            use_type_invariant(self);
        }
        let length = self.display.as_str().unicode_len();
        let rest = self.display.as_str().substring_char(strip_chars, length);
        CommandHint {
            display: rest.to_owned(),
            complete_up_to: self.complete_up_to.saturating_sub(strip_chars),
        }
    }

    /// The text of the hint.
    pub fn display(&self) -> (text: &str)
        ensures
            text@ == self.text(),
    {
        self.display.as_str()
    }

    /// The part of the text that a completion fills in, if there is any.
    pub fn completion(&self) -> (part: Option<&str>)
        ensures
            self.completed() <= self.text().len(),
            match part {
                Some(prefix) => self.completed() > 0 && prefix@ == self.text().take(
                    self.completed() as int,
                ),
                None => self.completed() == 0,
            },
    {
        proof {
            use_type_invariant(self);
        }
        if self.complete_up_to > 0 {
            Some(self.display.as_str().substring_char(0, self.complete_up_to))
        } else {
            None
        }
    }
}

/// The position from `from` on of the first hint whose text starts with
/// `line`; the number of hints where there is none.
pub open spec fn first_match(hints: Seq<CommandHint>, line: Seq<char>, from: int) -> int
    decreases hints.len() - from,
{
    if from < 0 || from >= hints.len() {
        hints.len() as int
    } else if line.is_prefix_of(hints[from].text()) {
        from
    } else {
        first_match(hints, line, from + 1)
    }
}

/// Whether a hint is looked for: the line is not empty and the cursor stands
/// at its end. `pos` counts bytes, as the length of the line does.
pub open spec fn hint_is_due(line: &str, pos: usize) -> bool {
    line@.len() > 0 && pos >= line.len()
}

/// Whether `text` starts with `prefix`.
pub fn starts_with(text: &Vec<char>, prefix: &Vec<char>) -> (starts: bool)
    ensures
        starts == prefix@.is_prefix_of(text@),
{
    if prefix.len() > text.len() {
        return false;
    }
    let mut i: usize = 0;
    while i < prefix.len()
        invariant
            i <= prefix.len() <= text.len(),
            forall|k: int| 0 <= k < i ==> prefix@[k] == text@[k],
        decreases prefix.len() - i,
    {
        if prefix[i] != text[i] {
            assert(!(prefix@ =~= text@.subrange(0, prefix@.len() as int)));
            return false;
        }
        i += 1;
    }
    assert(prefix@ =~= text@.subrange(0, prefix@.len() as int));
    true
}

/// The hints of a session.
pub struct CommandHinter {
    pub hints: Vec<CommandHint>,
}

impl CommandHinter {
    /// The hint for `line` with the cursor at `pos`: the first of the hints
    /// whose text starts with the line, without what is typed already.
    pub fn hint(&self, line: &str, pos: usize) -> (found: Option<CommandHint>)
        ensures
            match found {
                Some(hint) => {
                    let at = first_match(self.hints@, line@, 0);
                    &&& hint_is_due(line, pos)
                    &&& 0 <= at < self.hints.len()
                    &&& hint.is_rest_of(&self.hints[at], line@.len())
                },
                None => !hint_is_due(line, pos) || first_match(self.hints@, line@, 0)
                    == self.hints.len(),
            },
    {
        if line.is_empty() || pos < line.len() {
            return None;
        }
        let typed = to_chars(line);
        let mut i: usize = 0;
        while i < self.hints.len()
            invariant
                i <= self.hints.len(),
                typed@ == line@,
                hint_is_due(line, pos),
                first_match(self.hints@, line@, 0) == first_match(self.hints@, line@, i as int),
            decreases self.hints.len() - i,
        {
            let candidate = to_chars(self.hints[i].display());
            if starts_with(&candidate, &typed) {
                return Some(self.hints[i].suffix(typed.len()));
            }
            i += 1;
        }
        None
    }

    /// The text of a hint, dimmed for the terminal.
    pub fn highlight_hint(hint: &str) -> (text: String)
        ensures
            text@ == "\x1b[2m"@ + hint@ + "\x1b[m"@,
    {
        let mut text = "\x1b[2m".to_owned();
        text.append(hint);
        text.append("\x1b[m");
        text
    }
}

/// The hints for the two commands, each completed in full.
pub fn command_hints() -> (hints: Vec<CommandHint>)
    ensures
        hints@.len() == 2,
        hints@[0].text() == "exit"@,
        hints@[0].completed() == "exit"@.len(),
        hints@[1].text() == "defined"@,
        hints@[1].completed() == "defined"@.len(),
{
    let mut set: Vec<CommandHint> = Vec::new();
    set.push(CommandHint::new("exit", "exit"));
    set.push(CommandHint::new("defined", "defined"));
    set
}

} // verus!
