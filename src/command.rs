//! The commands of the TODO tool and how each one acts on a store.

use vstd::prelude::*;
use crate::store::{added, lists, names, TodoList};

verus! {

/// One command, with its task name where it takes one.
#[derive(Debug, PartialEq, Eq)]
pub enum Command {
    /// Open a task.
    Add(String),
    /// Mark a task done.
    MarkDone(String),
    /// Show the open and the done tasks.
    List,
    /// Remove every task.
    Clear,
}

/// Why a command was not carried out.
#[derive(Debug, PartialEq, Eq)]
pub enum CommandError {
    /// The command needs a task name and got none, or an empty one.
    EmptyKey,
    /// No task has this name.
    KeyNotFound(String),
    /// The command word is not one of `add`, `mark-done`, `list`, `clear`.
    UnrecognizedCommand(String),
}

/// What a command that went through did.
#[derive(Debug, PartialEq, Eq)]
pub enum Outcome {
    /// The store changed and is to be persisted.
    Changed,
    /// The names of the open tasks and of the done tasks.
    Listed(Vec<String>, Vec<String>),
}

/// The task name of a command, where one was given and is not empty.
pub open spec fn given(key: Option<String>) -> bool {
    key is Some && key->0@.len() > 0
}

/// The command that a command word and an optional task name make.
pub open spec fn command_of(word: String, key: Option<String>) -> Result<Command, CommandError> {
    if word@ == "add"@ {
        if given(key) {
            Ok(Command::Add(key->0))
        } else {
            Err(CommandError::EmptyKey)
        }
    } else if word@ == "mark-done"@ {
        if given(key) {
            Ok(Command::MarkDone(key->0))
        } else {
            Err(CommandError::EmptyKey)
        }
    } else if word@ == "list"@ {
        Ok(Command::List)
    } else if word@ == "clear"@ {
        Ok(Command::Clear)
    } else {
        Err(CommandError::UnrecognizedCommand(word))
    }
}

/// Reads a command word and its optional task name.
pub fn parse_command(word: String, key: Option<String>) -> (r: Result<Command, CommandError>)
    ensures
        r == command_of(word, key),
{
    let has_key = match &key {
        Some(k) => !k.as_str().is_empty(),
        None => false,
    };
    if word == "add".to_owned() {
        if has_key {
            Ok(Command::Add(key.unwrap()))
        } else {
            Err(CommandError::EmptyKey)
        }
    } else if word == "mark-done".to_owned() {
        if has_key {
            Ok(Command::MarkDone(key.unwrap()))
        } else {
            Err(CommandError::EmptyKey)
        }
    } else if word == "list".to_owned() {
        Ok(Command::List)
    } else if word == "clear".to_owned() {
        Ok(Command::Clear)
    } else {
        Err(CommandError::UnrecognizedCommand(word))
    }
}

impl TodoList {
    /// Carries out a command. `Add` with an empty name fails with `EmptyKey`;
    /// `MarkDone` writes `false`, the flag of a done
    /// task; `List` gives the open names first, then the done ones.
    pub fn execute(&mut self, cmd: Command) -> (r: Result<Outcome, CommandError>)
        requires
            old(self).wf(),
        ensures
            final(self).wf(),
            match cmd {
                Command::Add(k) => if k@.len() > 0 {
                    r == Ok::<Outcome, CommandError>(Outcome::Changed) && final(self)@ == added(
                        old(self)@,
                        k@,
                    )
                } else {
                    r == Err::<Outcome, CommandError>(CommandError::EmptyKey) && final(self)@
                        == old(self)@
                },
                Command::MarkDone(k) => if old(self)@.contains_key(k@) {
                    r == Ok::<Outcome, CommandError>(Outcome::Changed) && final(self)@ == old(
                        self,
                    )@.insert(k@, false)
                } else {
                    r == Err::<Outcome, CommandError>(CommandError::KeyNotFound(k))
                        && final(self)@ == old(self)@
                },
                Command::List => final(self)@ == old(self)@ && match r {
                    Ok(Outcome::Listed(open, done)) => lists(old(self)@, true, names(open@))
                        && lists(old(self)@, false, names(done@)),
                    _ => false,
                },
                Command::Clear => r == Ok::<Outcome, CommandError>(Outcome::Changed)
                    && final(self)@ == Map::<Seq<char>, bool>::empty(),
            },
    {
        match cmd {
            Command::Add(k) => {
                if k.as_str().is_empty() {
                    Err(CommandError::EmptyKey)
                } else {
                    self.add(k);
                    Ok(Outcome::Changed)
                }
            },
            Command::MarkDone(k) => match self.mark(k, false) {
                Ok(()) => Ok(Outcome::Changed),
                Err(name) => Err(CommandError::KeyNotFound(name)),
            },
            Command::List => {
                let (open, done) = self.list();
                Ok(Outcome::Listed(open, done))
            },
            Command::Clear => {
                self.clear();
                Ok(Outcome::Changed)
            },
        }
    }
}

} // verus!
