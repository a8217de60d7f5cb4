//! The commands of the debugger.

use vstd::prelude::*;

verus! {

/// What the user can ask for.
#[derive(Clone, PartialEq, Eq, Debug)]
pub enum DebuggerCommand {
    /// Start the program with these arguments.
    Run(Vec<String>),
    /// Let the stopped program run on.
    Continue,
    /// Show the call stack of the stopped program.
    Backtrace,
    /// Set a breakpoint: `*` and an address, a line number, or a function's name.
    Break(String),
    /// End the session.
    Quit,
}

/// The words that begin a command.
#[derive(Clone, Copy, PartialEq, Eq, Debug, Structural)]
pub enum Verb {
    Run,
    Continue,
    Backtrace,
    Break,
    Quit,
}

/// The verb that `word` is, if it is one.
pub open spec fn verb_of(word: Seq<char>) -> Option<Verb> {
    if word == "run"@ {
        Some(Verb::Run)
    } else if word == "continue"@ {
        Some(Verb::Continue)
    } else if word == "backtrace"@ {
        Some(Verb::Backtrace)
    } else if word == "break"@ {
        Some(Verb::Break)
    } else if word == "quit"@ {
        Some(Verb::Quit)
    } else {
        None
    }
}

impl DebuggerCommand {
    /// The command that a line of words asks for: the first word is the verb,
    /// `run` takes the words that follow as the program's arguments, and
    /// `break` takes the word that follows as the place.  `None` for anything
    /// else.
    pub fn from_tokens(tokens: &Vec<String>) -> (command: Option<DebuggerCommand>)
        ensures
            tokens@.len() == 0 ==> command is None,
            tokens@.len() > 0 ==> match verb_of(tokens@[0]@) {
                Some(Verb::Run) => command matches Some(DebuggerCommand::Run(args)) && args@
                    == tokens@.skip(1),
                Some(Verb::Continue) => command == Some(DebuggerCommand::Continue),
                Some(Verb::Backtrace) => command == Some(DebuggerCommand::Backtrace),
                Some(Verb::Break) => if tokens@.len() >= 2 {
                    command == Some(DebuggerCommand::Break(tokens@[1]))
                } else {
                    command is None
                },
                Some(Verb::Quit) => command == Some(DebuggerCommand::Quit),
                None => command is None,
            },
    {
        if tokens.len() == 0 {
            return None;
        }
        let verb = &tokens[0];
        if *verb == "run".to_owned() {
            let mut args: Vec<String> = Vec::new();
            let mut i: usize = 1;
            while i < tokens.len()
                invariant
                    1 <= i <= tokens.len(),
                    args@ == tokens@.subrange(1, i as int),
                decreases tokens.len() - i,
            {
                args.push(tokens[i].clone());
                assert(tokens@.subrange(1, i + 1) =~= tokens@.subrange(1, i as int).push(
                    tokens@[i as int],
                ));
                i += 1;
            }
            assert(tokens@.subrange(1, tokens@.len() as int) =~= tokens@.skip(1));
            Some(DebuggerCommand::Run(args))
        } else if *verb == "continue".to_owned() {
            Some(DebuggerCommand::Continue)
        } else if *verb == "backtrace".to_owned() {
            Some(DebuggerCommand::Backtrace)
        } else if *verb == "break".to_owned() {
            if tokens.len() >= 2 {
                Some(DebuggerCommand::Break(tokens[1].clone()))
            } else {
                None
            }
        } else if *verb == "quit".to_owned() {
            Some(DebuggerCommand::Quit)
        } else {
            None
        }
    }
}

} // verus!
