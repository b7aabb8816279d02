//! The errors of a mutation run, and the kinds they fall into.

use vstd::prelude::*;
use vstd::std_specs::convert::FromSpecImpl;
use vstd::string::*;

verus! {

/// Why a run stopped, or why one step of it failed.
#[derive(Debug, Clone, PartialEq, Eq)]
pub enum Error {
    /// The path given does not name anything that exists.
    FsInvalidPath { path: String },
    /// A condition that must hold before any mutant is made does not hold:
    /// the project layout is wrong, or the unmodified project fails its tests.
    Precondition(String),
    /// A project file could not be read, copied or rewritten.
    Io(String),
    /// The build or test tool could not be started at all.
    Tool(String),
    /// Any other failure, described by its message.
    Custom(String),
}

/// What an `Error` stands for: the same variants, over texts.
pub enum ErrorView {
    FsInvalidPath { path: Seq<char> },
    Precondition(Seq<char>),
    Io(Seq<char>),
    Tool(Seq<char>),
    Custom(Seq<char>),
}

impl View for Error {
    type V = ErrorView;

    open spec fn view(&self) -> ErrorView {
        match *self {
            Error::FsInvalidPath { path } => ErrorView::FsInvalidPath { path: path@ },
            Error::Precondition(m) => ErrorView::Precondition(m@),
            Error::Io(m) => ErrorView::Io(m@),
            Error::Tool(m) => ErrorView::Tool(m@),
            Error::Custom(m) => ErrorView::Custom(m@),
        }
    }
}

/// The three kinds of failure a caller tells apart, besides plain messages.
#[derive(Debug, Clone, Copy, PartialEq, Eq, Structural)]
pub enum ErrorKind {
    /// Nothing was mutated because the starting conditions were not met.
    PreconditionFailure,
    /// The file system refused an operation.
    IoFailure,
    /// The toolchain could not be launched.
    ToolInvocationFailure,
    /// A message that belongs to none of the kinds above.
    Other,
}

/// The message for a path that names nothing that exists.
pub open spec fn invalid_path_message(path: Seq<char>) -> Seq<char> {
    "Invalid path '"@ + path + "'"@
}

impl Error {
    /// The kind of this error.
    pub open spec fn kind_of(self) -> ErrorKind {
        match self {
            Error::FsInvalidPath { .. } => ErrorKind::PreconditionFailure,
            Error::Precondition(_) => ErrorKind::PreconditionFailure,
            Error::Io(_) => ErrorKind::IoFailure,
            Error::Tool(_) => ErrorKind::ToolInvocationFailure,
            Error::Custom(_) => ErrorKind::Other,
        }
    }

    /// The message of this error.
    pub open spec fn message(self) -> Seq<char> {
        match self {
            Error::FsInvalidPath { path } => invalid_path_message(path@),
            Error::Precondition(m) => m@,
            Error::Io(m) => m@,
            Error::Tool(m) => m@,
            Error::Custom(m) => m@,
        }
    }

    /// An error that carries the text of `val` as its message.
    pub fn custom(val: impl std::fmt::Display) -> (e: Self)
        ensures
            e matches Error::Custom(m) && to_string_from_display_ensures(&val, m),
    {
        Error::Custom(val.to_string())
    }

    /// The kind of this error.
    pub fn kind(&self) -> (k: ErrorKind)
        ensures
            k == self.kind_of(),
    {
        match self {
            Error::FsInvalidPath { .. } => ErrorKind::PreconditionFailure,
            Error::Precondition(_) => ErrorKind::PreconditionFailure,
            Error::Io(_) => ErrorKind::IoFailure,
            Error::Tool(_) => ErrorKind::ToolInvocationFailure,
            Error::Custom(_) => ErrorKind::Other,
        }
    }

    /// The message of this error, as shown to the user.
    pub fn to_string(&self) -> (s: String)
        ensures
            s@ == self.message(),
    {
        match self {
            Error::FsInvalidPath { path } => {
                let mut s = String::from_str("Invalid path '");
                s.append(path.as_str());
                s.append("'");
                assert(s@ =~= self.message());
                s
            },
            Error::Precondition(m) => m.clone(),
            Error::Io(m) => m.clone(),
            Error::Tool(m) => m.clone(),
            Error::Custom(m) => m.clone(),
        }
    }
}

impl From<&str> for Error {
    fn from(s: &str) -> (e: Error)
        ensures
            e@ == ErrorView::Custom(s@),
    {
        Error::Custom(String::from_str(s))
    }
}

impl FromSpecImpl<&str> for Error {
    open spec fn obeys_from_spec() -> bool {
        false
    }

    open spec fn from_spec(v: &str) -> Self {
        arbitrary()
    }
}

impl From<String> for Error {
    fn from(s: String) -> (e: Error)
        ensures
            e@ == ErrorView::Custom(s@),
    {
        Error::Custom(s)
    }
}

impl FromSpecImpl<String> for Error {
    open spec fn obeys_from_spec() -> bool {
        true
    }

    open spec fn from_spec(v: String) -> Self {
        Error::Custom(v)
    }
}

} // verus!
