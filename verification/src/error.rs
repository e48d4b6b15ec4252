//! The errors of the runtime and of the state layer.

use vstd::prelude::*;

verus! {

/// What went wrong, for an error of the runtime.
#[derive(Debug)]
pub enum ErrorKind {
    ArconError(String),
}

/// An error of the runtime. It carries its kind; the message of the kind is
/// what the error prints as.
#[derive(Debug)]
pub struct Error {
    kind: ErrorKind,
}

impl Error {
    /// The message that the error carries.
    pub closed spec fn message(&self) -> Seq<char> {
        match self.kind {
            ErrorKind::ArconError(msg) => msg@,
        }
    }

    /// The kind that the error was made with.
    pub closed spec fn spec_kind(&self) -> ErrorKind {
        self.kind
    }

    /// An error of the given kind.
    pub fn new(kind: ErrorKind) -> (e: Error)
        ensures
            e.spec_kind() == kind,
            kind matches ErrorKind::ArconError(msg) && e.message() == msg@,
    {
        Error { kind }
    }

    /// An error of the kind `ArconError` with the given message.
    pub fn new_arcon(err_msg: String) -> (e: Error)
        ensures
            e.spec_kind() == ErrorKind::ArconError(err_msg),
            e.message() == err_msg@,
    {
        Error { kind: ErrorKind::ArconError(err_msg) }
    }

    /// The kind of the error.
    pub fn kind(&self) -> (k: &ErrorKind)
        ensures
            *k == self.spec_kind(),
            *k matches ErrorKind::ArconError(msg) && msg@ == self.message(),
    {
        &self.kind
    }

    /// The text that the error prints as: its message.
    pub fn describe(&self) -> (s: String)
        ensures
            s@ == self.message(),
    {
        match &self.kind {
            ErrorKind::ArconError(msg) => msg.clone(),
        }
    }
}

/// The result of an operation of the runtime.
pub type ArconResult<T> = Result<T, Error>;

/// A failed result that carries `msg`.
pub fn arcon_err<T>(msg: String) -> (r: ArconResult<T>)
    ensures
        r matches Err(e) && e.message() == msg@,
{
    Err(Error::new_arcon(msg))
}

/// A failure of the storage backend. It is fatal to the operator that owns the
/// backend: the state is rebuilt from the last snapshot.
#[derive(Debug, Clone, Copy, PartialEq, Eq, Structural)]
pub enum BackendError {
    /// Stored bytes do not decode to a value of the type that is read.
    Encoding,
}

/// A misuse of an index.
#[derive(Debug, Clone, Copy, PartialEq, Eq, Structural)]
pub enum IndexError {
    /// An operation on a keyed index came before any key was set.
    KeyNotSet,
}

/// Why an operation on an index failed.
#[derive(Debug, Clone, Copy, PartialEq, Eq, Structural)]
pub enum StateError {
    Backend(BackendError),
    Index(IndexError),
}

/// The result of an operation on an index.
pub type StateResult<T> = Result<T, StateError>;

/// Why a timer was not scheduled.
#[derive(Debug, Clone, Copy, PartialEq, Eq, Structural)]
pub enum TimerError {
    /// The time asked for is not after the current logical time.
    Expired { current_time: u64, scheduled_time: u64 },
}

/// Why a backend could not be rebuilt from a snapshot.
#[derive(Debug, Clone, Copy, PartialEq, Eq, Structural)]
pub enum SnapshotError {
    /// The snapshot holds no bytes at all.
    Missing,
    /// The bytes are not a snapshot image.
    Corrupt,
    /// The image was taken of a state with another identifier.
    WrongState,
}

impl StateError {
    /// The runtime error that stands for this failure.
    pub fn into_error(self) -> (e: Error)
        ensures
            e.message() == state_error_text(self)@,
    {
        match self {
            StateError::Backend(BackendError::Encoding) => Error::new_arcon(
                "stored bytes do not decode".to_owned(),
            ),
            StateError::Index(IndexError::KeyNotSet) => Error::new_arcon("no key is set".to_owned()),
        }
    }
}

/// The message of the runtime error that stands for a failure of an index.
pub open spec fn state_error_text(e: StateError) -> &'static str {
    match e {
        StateError::Backend(BackendError::Encoding) => "stored bytes do not decode",
        StateError::Index(IndexError::KeyNotSet) => "no key is set",
    }
}

impl SnapshotError {
    /// The runtime error that stands for this failure.
    pub fn into_error(self) -> (e: Error)
        ensures
            e.message() == snapshot_error_text(self)@,
    {
        match self {
            SnapshotError::Missing => Error::new_arcon("the snapshot holds no image".to_owned()),
            SnapshotError::Corrupt => Error::new_arcon("the snapshot is corrupt".to_owned()),
            SnapshotError::WrongState => Error::new_arcon(
                "the snapshot was taken of another state".to_owned(),
            ),
        }
    }
}

/// The message of the runtime error that stands for a failed restore.
pub open spec fn snapshot_error_text(e: SnapshotError) -> &'static str {
    match e {
        SnapshotError::Missing => "the snapshot holds no image",
        SnapshotError::Corrupt => "the snapshot is corrupt",
        SnapshotError::WrongState => "the snapshot was taken of another state",
    }
}

/// Why a source could not hand out its next item.
#[derive(Debug, Clone, Copy, PartialEq, Eq, Structural)]
pub enum SourceError {
    /// The next record could not be parsed.
    Parse,
    /// The next record does not fit the schema.
    Schema,
}

/// The result of polling a source: a failure of the runtime outside, a
/// failure of the source inside.
pub type SourceResult<T> = ArconResult<Result<T, SourceError>>;

} // verus!
