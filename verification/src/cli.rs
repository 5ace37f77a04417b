//! What the command line asks the program to do.

use crate::err::Error;
use vstd::prelude::*;

verus! {

/// What the program is asked to do.
#[derive(Clone, Debug, PartialEq, Eq)]
pub enum Command {
    /// Print the help menu.
    Help,
    /// Decode the library at `input_path` into the directory `output_path`.
    Process { input_path: String, output_path: String },
}

/// A [`Command`] as mathematics.
pub enum CommandView {
    Help,
    Process { input_path: Seq<char>, output_path: Seq<char> },
}

impl View for Command {
    type V = CommandView;

    open spec fn view(&self) -> CommandView {
        match self {
            Command::Help => CommandView::Help,
            Command::Process { input_path, output_path } => CommandView::Process {
                input_path: input_path@,
                output_path: output_path@,
            },
        }
    }
}

/// What an option parser made of a command line.
pub struct Matched {
    /// Whether the help flag was given.
    pub help: bool,
    /// The output directory, where one was given.
    pub output: Option<String>,
    /// The arguments that belong to no option, in their order.
    pub free: Vec<String>,
    /// The file stem of the first of `free`, where there is one.
    pub stem: Option<String>,
}

/// The text of `s`, where there is one.
pub open spec fn text(s: Option<String>) -> Option<Seq<char>> {
    match s {
        Some(s) => Some(s@),
        None => None,
    }
}

/// The command that a command line stands for.
///
/// The help flag wins over everything else. Without it exactly one input file
/// must be named. The output goes to the directory given, or else to one
/// named after the stem of the input file.
pub open spec fn command_for(
    help: bool,
    output: Option<Seq<char>>,
    free: Seq<Seq<char>>,
    stem: Option<Seq<char>>,
) -> Result<CommandView, Error> {
    if help {
        Ok(CommandView::Help)
    } else if free.len() != 1 {
        Err(Error::WrongNumberOfInputFiles(free.len() as usize))
    } else if output is Some {
        Ok(CommandView::Process { input_path: free[0], output_path: output->Some_0 })
    } else if stem is Some {
        Ok(CommandView::Process { input_path: free[0], output_path: stem->Some_0 })
    } else {
        Err(Error::CouldntGuessOutputName)
    }
}

/// Chooses the command for what the option parser `matched`, or for its
/// failure where `matched` is `None`.
pub fn command_from(matched: Option<Matched>) -> (r: Result<Command, Error>)
    ensures
        match matched {
            None => r == Err::<Command, Error>(Error::BadCommandlineOptions),
            Some(m) => match command_for(m.help, text(m.output), m.free.deep_view(), text(m.stem)) {
                Ok(command) => r is Ok && r->Ok_0@ == command,
                Err(e) => r == Err::<Command, Error>(e),
            },
        },
{
    let m = match matched {
        Some(m) => m,
        None => return Err(Error::BadCommandlineOptions),
    };
    if m.help {
        return Ok(Command::Help);
    }
    let mut free = m.free;
    if free.len() != 1 {
        return Err(Error::WrongNumberOfInputFiles(free.len()));
    }
    let ghost names = free.deep_view();
    let input_path = match free.pop() {
        Some(path) => path,
        None => return Err(Error::WrongNumberOfInputFiles(0)),
    };
    assert(input_path@ == names[0]);
    // Take the output directory as given. Without one, guess it from the stem
    // of the input file (mybrushes.abr goes to ./mybrushes).
    let output_path = match m.output {
        Some(path) => path,
        None => match m.stem {
            Some(name) => name,
            None => return Err(Error::CouldntGuessOutputName),
        },
    };
    Ok(Command::Process { input_path, output_path })
}

} // verus!
