use vstd::prelude::*;

verus! {

/// What can go wrong while discovering or applying migrations and seeds.
#[derive(Debug)]
pub enum Error {
    /// A file-system operation failed while discovering migration or seed files.
    Io(String),
    /// The payload of the migration or seed `id` failed; `message` is the database's text.
    MigrationFailed { id: String, message: String },
    /// A variable that the build step needs is not set.
    EnvVarNotFound(String),
    /// The database failed outside a payload: while keeping the ledger or a transaction.
    Database(String),
}

/// `Error` as plain text values.
pub enum ErrorView {
    Io(Seq<char>),
    MigrationFailed { id: Seq<char>, message: Seq<char> },
    EnvVarNotFound(Seq<char>),
    Database(Seq<char>),
}

impl View for Error {
    type V = ErrorView;

    open spec fn view(&self) -> ErrorView {
        match self {
            Error::Io(m) => ErrorView::Io(m@),
            Error::MigrationFailed { id, message } => ErrorView::MigrationFailed {
                id: id@,
                message: message@,
            },
            Error::EnvVarNotFound(v) => ErrorView::EnvVarNotFound(v@),
            Error::Database(m) => ErrorView::Database(m@),
        }
    }
}

/// The human-readable text of an error: it names the failing id and the database's message.
pub open spec fn error_text(e: ErrorView) -> Seq<char> {
    match e {
        ErrorView::Io(m) => "IO error: "@ + m,
        ErrorView::MigrationFailed { id, message } => "Migration '"@ + id + "' failed: "@
            + message,
        ErrorView::EnvVarNotFound(v) => "Environment variable '"@ + v + "' not set"@,
        ErrorView::Database(m) => "Database error: "@ + m,
    }
}

impl Error {
    /// Renders the error as text.
    pub fn to_string(&self) -> (r: String)
        ensures
            r@ == error_text(self@),
    {
        match self {
            Error::Io(m) => String::from_str("IO error: ").concat(m.as_str()),
            Error::MigrationFailed { id, message } => String::from_str("Migration '").concat(
                id.as_str(),
            ).concat("' failed: ").concat(message.as_str()),
            Error::EnvVarNotFound(v) => String::from_str("Environment variable '").concat(
                v.as_str(),
            ).concat("' not set"),
            Error::Database(m) => String::from_str("Database error: ").concat(m.as_str()),
        }
    }
}

/// The result of a migration or seed operation.
pub type MigrateResult<T> = Result<T, Error>;

} // verus!
