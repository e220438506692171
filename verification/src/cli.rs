//! The command line: which command the arguments of the program spell.

use vstd::prelude::*;

verus! {

/// What the operator asks for.
#[derive(Debug, Clone, PartialEq, Eq)]
pub enum Command {
    /// `.dbinfo`: the page size and the number of tables.
    DatabaseInformation { filename: String },
    /// `.tables`: the names of the tables.
    ListTables { filename: String },
    /// Any other text: a statement to run.
    Query { filename: String, query: String },
}

/// What a `Command` holds.
pub enum CommandView {
    DatabaseInformation { filename: Seq<char> },
    ListTables { filename: Seq<char> },
    Query { filename: Seq<char>, query: Seq<char> },
}

impl View for Command {
    type V = CommandView;

    open spec fn view(&self) -> CommandView {
        match self {
            Command::DatabaseInformation { filename } => CommandView::DatabaseInformation {
                filename: filename@,
            },
            Command::ListTables { filename } => CommandView::ListTables { filename: filename@ },
            Command::Query { filename, query } => CommandView::Query {
                filename: filename@,
                query: query@,
            },
        }
    }
}

/// What is missing from a command line.
#[derive(Debug, Clone, Copy, PartialEq, Eq)]
pub enum UsageError {
    /// Neither a database file nor a command is given.
    MissingPathAndCommand,
    /// No command is given.
    MissingCommand,
}

/// The command that the arguments `args` of the program spell, where the
/// first is the program's own name, the second the database file and the
/// third the command. Further arguments do not count.
pub open spec fn command_of(args: Seq<Seq<char>>) -> Result<CommandView, UsageError> {
    if args.len() <= 1 {
        Err(UsageError::MissingPathAndCommand)
    } else if args.len() == 2 {
        Err(UsageError::MissingCommand)
    } else if args[2] == ".dbinfo"@ {
        Ok(CommandView::DatabaseInformation { filename: args[1] })
    } else if args[2] == ".tables"@ {
        Ok(CommandView::ListTables { filename: args[1] })
    } else {
        Ok(CommandView::Query { filename: args[1], query: args[2] })
    }
}

/// What each of `texts` holds.
pub open spec fn text_views(texts: Seq<String>) -> Seq<Seq<char>> {
    Seq::new(texts.len(), |i: int| texts[i]@)
}

/// Reads the command from the arguments of the program.
pub fn parse_command(args: &Vec<String>) -> (result: Result<Command, UsageError>)
    ensures
        match command_of(text_views(args@)) {
            Ok(command) => result matches Ok(c) && c@ == command,
            Err(e) => result == Err::<Command, UsageError>(e),
        },
{
    if args.len() <= 1 {
        return Err(UsageError::MissingPathAndCommand);
    }
    if args.len() == 2 {
        return Err(UsageError::MissingCommand);
    }
    let filename: String = args[1].clone();
    let dbinfo: String = ".dbinfo".to_owned();
    let tables: String = ".tables".to_owned();
    if args[2] == dbinfo {
        Ok(Command::DatabaseInformation { filename })
    } else if args[2] == tables {
        Ok(Command::ListTables { filename })
    } else {
        Ok(Command::Query { filename, query: args[2].clone() })
    }
}

} // verus!
