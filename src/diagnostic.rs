//! The problems the engine reports, each with its place in the error taxonomy.
use vstd::prelude::*;

verus! {

/// The four families of problems.
#[derive(Clone, Copy, Debug, PartialEq, Eq, Structural)]
pub enum ErrorKind {
    /// Bad or missing arguments, collisions, lookups that found nothing.
    User,
    /// A malformed store line.
    Data,
    /// A fault of the tool itself.
    Internal,
    /// A file could not be read or written.
    File,
}

/// One reported problem. Line numbers count the store's lines from 0.
#[derive(Clone, Copy, Debug, PartialEq, Eq, Structural)]
pub enum Diagnostic {
    /// `-reset` was given an argument.
    NoArgumentExpected,
    /// A command received more arguments than it has slots.
    TooManyArguments,
    /// The argument of `-decrement` is not an unsigned integer.
    NotANumber,
    /// A keyword that names no command.
    UnknownCommand,
    /// An add or edit lacks its shortcut or path, or a remove or delete its argument.
    MissingArgument,
    /// The shortcut to add already belongs to a directory.
    ShortcutExists,
    /// The path given to edit already has a record.
    PathExists,
    /// No record holds the requested shortcut.
    ShortcutNotFound,
    /// No record holds the shortcut to remove.
    NothingRemoved,
    /// No record has the path to delete.
    NothingDeleted,
    /// A non-blank line without a `;`.
    MalformedLine(usize),
    /// A record line with a path and a priority but no shortcut.
    NoShortcut(usize),
    /// A line whose last field is not an unsigned integer.
    BadPriority(usize),
    /// Raising the priority of the line would overflow.
    PriorityOverflow(usize),
    /// The command list reached the engine empty.
    NoCommand,
}

impl Diagnostic {
    pub open spec fn kind_of(self) -> ErrorKind {
        match self {
            Diagnostic::MalformedLine(_) | Diagnostic::NoShortcut(_) | Diagnostic::BadPriority(_) => ErrorKind::Data,
            Diagnostic::PriorityOverflow(_) | Diagnostic::NoCommand | Diagnostic::UnknownCommand => ErrorKind::Internal,
            _ => ErrorKind::User,
        }
    }

    /// The family this problem belongs to.
    pub fn kind(&self) -> (k: ErrorKind)
        ensures
            k == self.kind_of(),
    {
        match self {
            Diagnostic::MalformedLine(_) | Diagnostic::NoShortcut(_) | Diagnostic::BadPriority(_) => ErrorKind::Data,
            Diagnostic::PriorityOverflow(_) | Diagnostic::NoCommand | Diagnostic::UnknownCommand => ErrorKind::Internal,
            _ => ErrorKind::User,
        }
    }
}

} // verus!
