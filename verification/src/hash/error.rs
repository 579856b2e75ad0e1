//! Errors of the hash utility, with the context (paths and operations) that
//! their messages report.
use vstd::prelude::*;
use crate::text::{contains_str, decimal, dec_str, has_substring, push_str, to_string};

verus! {

/// Main error type for the hash utility
/// Provides context-rich error messages with file paths and operations
#[derive(Debug)]
pub enum HashUtilityError {
    /// File system errors with context
    FileNotFound { path: String },
    DirectoryNotFound { path: String },
    PermissionDenied { path: String, operation: String },
    IoError { path: Option<String>, operation: String, source: std::io::Error },
    /// Hash computation errors
    UnsupportedAlgorithm { algorithm: String },
    HashComputationFailed { path: String, algorithm: String, reason: String },
    /// Database errors
    DatabaseNotFound { path: String },
    DatabaseParseError { path: String, line: usize, reason: String },
    DatabaseWriteError { path: String, reason: String },
    EmptyDatabase { path: String },
    /// Verification errors
    VerificationFailed { reason: String },
    /// CLI errors
    InvalidArguments { message: String },
    MissingRequiredArgument { argument: String },
    /// Benchmark errors
    BenchmarkFailed { algorithm: String, reason: String },
}

/// The classes of I/O error that the hash utility tells apart.
#[derive(Debug, Clone, Copy, PartialEq, Eq, Structural)]
pub enum IoErrorKind {
    NotFound,
    PermissionDenied,
    Other,
}

/// `io::Error::kind`, sorted into the classes above: `NotFound` and
/// `PermissionDenied` as themselves, every other kind as `Other`. What an
/// error's kind is, is not stated.
#[verifier::external_body]
fn io_error_kind(e: &std::io::Error) -> IoErrorKind {
    match e.kind() {
        std::io::ErrorKind::NotFound => IoErrorKind::NotFound,
        std::io::ErrorKind::PermissionDenied => IoErrorKind::PermissionDenied,
        _ => IoErrorKind::Other,
    }
}

/// The text that `io::Error`'s `Display` writes; for an error from the
/// operating system it holds the system's own message, so nothing is stated
/// of it.
#[verifier::external_body]
fn io_error_text(e: &std::io::Error) -> String {
    e.to_string()
}

/// The operation names a directory walk: it mentions "directory" or "scan".
pub open spec fn directory_operation(operation: Seq<char>) -> bool {
    has_substring(operation, "directory"@) || has_substring(operation, "scan"@)
}

/// The error made from an I/O error of class `kind` during `operation` on
/// `path`: a missing path is a missing directory or file, a refused access
/// a permission error, anything else (or a missing path) an I/O error that
/// keeps `err` as its source.
pub open spec fn classified(
    kind: IoErrorKind,
    operation: Seq<char>,
    path: Option<String>,
    err: std::io::Error,
    e: HashUtilityError,
) -> bool {
    match (kind, path) {
        (IoErrorKind::NotFound, Some(p)) => if directory_operation(operation) {
            e matches HashUtilityError::DirectoryNotFound { path } && path@ == p@
        } else {
            e matches HashUtilityError::FileNotFound { path } && path@ == p@
        },
        (IoErrorKind::PermissionDenied, Some(p)) => e matches HashUtilityError::PermissionDenied {
            path,
            operation: op,
        } && path@ == p@ && op@ == operation,
        (_, path_given) => e matches HashUtilityError::IoError { path, operation: op, source }
            && path == path_given && op@ == operation && source == err,
    }
}

/// The message of an I/O error during `operation` on `path`, where `t` is
/// the text that the underlying error displays.
pub open spec fn io_message(path: Option<String>, operation: Seq<char>, t: Seq<char>) -> Seq<char> {
    (match path {
        Some(p) => "I/O error while "@ + operation + " file "@ + p@ + ": "@ + t + "\n"@,
        None => "I/O error while "@ + operation + ": "@ + t + "\n"@,
    }) + "Suggestion: Check file permissions and disk space"@
}

impl HashUtilityError {
    /// Build the error for an I/O error of class `kind` that happened during
    /// `operation` on `path`.
    pub fn from_io_error_kind(
        err: std::io::Error,
        kind: IoErrorKind,
        operation: &str,
        path: Option<String>,
    ) -> (r: Self)
        ensures
            classified(kind, operation@, path, err, r),
    {
        match kind {
            IoErrorKind::NotFound => {
                match path {
                    Some(p) => {
                        if contains_str(operation, "directory") || contains_str(operation, "scan") {
                            HashUtilityError::DirectoryNotFound { path: p }
                        } else {
                            HashUtilityError::FileNotFound { path: p }
                        }
                    },
                    None => HashUtilityError::IoError {
                        path: None,
                        operation: to_string(operation),
                        source: err,
                    },
                }
            },
            IoErrorKind::PermissionDenied => {
                match path {
                    Some(p) => HashUtilityError::PermissionDenied {
                        path: p,
                        operation: to_string(operation),
                    },
                    None => HashUtilityError::IoError {
                        path: None,
                        operation: to_string(operation),
                        source: err,
                    },
                }
            },
            IoErrorKind::Other => HashUtilityError::IoError {
                path,
                operation: to_string(operation),
                source: err,
            },
        }
    }

    /// Create an error with context about the operation and optional path;
    /// its variant follows from the I/O error's kind.
    pub fn from_io_error(err: std::io::Error, operation: &str, path: Option<String>) -> (r: Self)
        ensures
            exists|k: IoErrorKind| classified(k, operation@, path, err, r),
    {
        let kind = io_error_kind(&err);
        Self::from_io_error_kind(err, kind, operation, path)
    }

    /// The error for an I/O error without context.
    pub fn from_io(err: std::io::Error) -> (r: Self)
        ensures
            r matches HashUtilityError::IoError { path, operation, source } && path is None
                && operation@ == "unknown operation"@ && source == err,
    {
        let r = Self::from_io_error(err, "unknown operation", None);
        r
    }

    /// The underlying I/O error, for the I/O variant.
    pub fn source(&self) -> (r: Option<&std::io::Error>)
        ensures
            r is Some <==> self is IoError,
    {
        match self {
            HashUtilityError::IoError { source, .. } => Some(source),
            _ => None,
        }
    }

    /// The message shown to the user: what went wrong, then a suggestion.
    pub fn message(&self) -> (r: String)
        ensures
            match self {
                HashUtilityError::FileNotFound { path } => r@ == "File not found: "@ + path@ + "\n"@
                    + "Suggestion: Check that the file path is correct and the file exists"@,
                HashUtilityError::DirectoryNotFound { path } => r@ == "Directory not found: "@
                    + path@ + "\n"@
                    + "Suggestion: Check that the directory path is correct and the directory exists"@,
                HashUtilityError::PermissionDenied { path, operation } => r@
                    == "Permission denied while "@ + operation@ + " file: "@ + path@ + "\n"@
                    + "Suggestion: Check file permissions or run with appropriate privileges"@,
                HashUtilityError::IoError { path, operation, .. } => exists|t: Seq<char>|
                    r@ == #[trigger] io_message(*path, operation@, t),
                HashUtilityError::UnsupportedAlgorithm { algorithm } => r@
                    == "Unsupported hash algorithm: "@ + algorithm@ + "\n"@
                    + "Suggestion: Use --list to see available algorithms"@,
                HashUtilityError::HashComputationFailed { path, algorithm, reason } => r@
                    == "Failed to compute "@ + algorithm@ + " hash for "@ + path@ + ": "@ + reason@
                    + "\n"@ + "Suggestion: Check that the file is readable and not corrupted"@,
                HashUtilityError::DatabaseNotFound { path } => r@ == "Hash database file not found: "@
                    + path@ + "\n"@
                    + "Suggestion: Create a database first using the 'scan' command"@,
                HashUtilityError::DatabaseParseError { path, line, reason } => r@
                    == "Error parsing database "@ + path@ + " at line "@ + dec_str(*line as nat)
                    + ": "@ + reason@ + "\n"@
                    + "Suggestion: Check that the database file format is correct (hash  filepath)"@,
                HashUtilityError::DatabaseWriteError { path, reason } => r@
                    == "Failed to write to database "@ + path@ + ": "@ + reason@ + "\n"@
                    + "Suggestion: Check disk space and write permissions"@,
                HashUtilityError::EmptyDatabase { path } => r@ == "Database file is empty: "@
                    + path@ + "\n"@
                    + "Suggestion: Ensure the database contains at least one hash entry"@,
                HashUtilityError::VerificationFailed { reason } => r@ == "Verification failed: "@
                    + reason@ + "\n"@
                    + "Suggestion: Check that the database and directory paths are correct"@,
                HashUtilityError::InvalidArguments { message } => r@ == "Invalid arguments: "@
                    + message@ + "\n"@ + "Suggestion: Run with --help to see usage information"@,
                HashUtilityError::MissingRequiredArgument { argument } => r@
                    == "Missing required argument: "@ + argument@ + "\n"@
                    + "Suggestion: Run with --help to see required arguments"@,
                HashUtilityError::BenchmarkFailed { algorithm, reason } => r@
                    == "Benchmark failed for "@ + algorithm@ + ": "@ + reason@ + "\n"@
                    + "Suggestion: Try running the benchmark again or with a smaller data size"@,
            },
    {
        match self {
            HashUtilityError::FileNotFound { path } => {
                let mut s = to_string("File not found: ");
                push_str(&mut s, path.as_str());
                push_str(&mut s, "\n");
                push_str(
                    &mut s,
                    "Suggestion: Check that the file path is correct and the file exists",
                );
                s
            },
            HashUtilityError::DirectoryNotFound { path } => {
                let mut s = to_string("Directory not found: ");
                push_str(&mut s, path.as_str());
                push_str(&mut s, "\n");
                push_str(
                    &mut s,
                    "Suggestion: Check that the directory path is correct and the directory exists",
                );
                s
            },
            HashUtilityError::PermissionDenied { path, operation } => {
                let mut s = to_string("Permission denied while ");
                push_str(&mut s, operation.as_str());
                push_str(&mut s, " file: ");
                push_str(&mut s, path.as_str());
                push_str(&mut s, "\n");
                push_str(
                    &mut s,
                    "Suggestion: Check file permissions or run with appropriate privileges",
                );
                s
            },
            HashUtilityError::IoError { path, operation, source } => {
                let t = io_error_text(source);
                let mut s = to_string("I/O error while ");
                push_str(&mut s, operation.as_str());
                match path {
                    Some(p) => {
                        push_str(&mut s, " file ");
                        push_str(&mut s, p.as_str());
                    },
                    None => {},
                }
                push_str(&mut s, ": ");
                push_str(&mut s, t.as_str());
                push_str(&mut s, "\n");
                push_str(&mut s, "Suggestion: Check file permissions and disk space");
                proof {
                    assert(s@ =~= io_message(*path, operation@, t@));
                }
                s
            },
            HashUtilityError::UnsupportedAlgorithm { algorithm } => {
                let mut s = to_string("Unsupported hash algorithm: ");
                push_str(&mut s, algorithm.as_str());
                push_str(&mut s, "\n");
                push_str(&mut s, "Suggestion: Use --list to see available algorithms");
                s
            },
            HashUtilityError::HashComputationFailed { path, algorithm, reason } => {
                let mut s = to_string("Failed to compute ");
                push_str(&mut s, algorithm.as_str());
                push_str(&mut s, " hash for ");
                push_str(&mut s, path.as_str());
                push_str(&mut s, ": ");
                push_str(&mut s, reason.as_str());
                push_str(&mut s, "\n");
                push_str(&mut s, "Suggestion: Check that the file is readable and not corrupted");
                s
            },
            HashUtilityError::DatabaseNotFound { path } => {
                let mut s = to_string("Hash database file not found: ");
                push_str(&mut s, path.as_str());
                push_str(&mut s, "\n");
                push_str(&mut s, "Suggestion: Create a database first using the 'scan' command");
                s
            },
            HashUtilityError::DatabaseParseError { path, line, reason } => {
                let n = decimal(*line as u64);
                let mut s = to_string("Error parsing database ");
                push_str(&mut s, path.as_str());
                push_str(&mut s, " at line ");
                push_str(&mut s, n.as_str());
                push_str(&mut s, ": ");
                push_str(&mut s, reason.as_str());
                push_str(&mut s, "\n");
                push_str(
                    &mut s,
                    "Suggestion: Check that the database file format is correct (hash  filepath)",
                );
                s
            },
            HashUtilityError::DatabaseWriteError { path, reason } => {
                let mut s = to_string("Failed to write to database ");
                push_str(&mut s, path.as_str());
                push_str(&mut s, ": ");
                push_str(&mut s, reason.as_str());
                push_str(&mut s, "\n");
                push_str(&mut s, "Suggestion: Check disk space and write permissions");
                s
            },
            HashUtilityError::EmptyDatabase { path } => {
                let mut s = to_string("Database file is empty: ");
                push_str(&mut s, path.as_str());
                push_str(&mut s, "\n");
                push_str(
                    &mut s,
                    "Suggestion: Ensure the database contains at least one hash entry",
                );
                s
            },
            HashUtilityError::VerificationFailed { reason } => {
                let mut s = to_string("Verification failed: ");
                push_str(&mut s, reason.as_str());
                push_str(&mut s, "\n");
                push_str(
                    &mut s,
                    "Suggestion: Check that the database and directory paths are correct",
                );
                s
            },
            HashUtilityError::InvalidArguments { message } => {
                let mut s = to_string("Invalid arguments: ");
                push_str(&mut s, message.as_str());
                push_str(&mut s, "\n");
                push_str(&mut s, "Suggestion: Run with --help to see usage information");
                s
            },
            HashUtilityError::MissingRequiredArgument { argument } => {
                let mut s = to_string("Missing required argument: ");
                push_str(&mut s, argument.as_str());
                push_str(&mut s, "\n");
                push_str(&mut s, "Suggestion: Run with --help to see required arguments");
                s
            },
            HashUtilityError::BenchmarkFailed { algorithm, reason } => {
                let mut s = to_string("Benchmark failed for ");
                push_str(&mut s, algorithm.as_str());
                push_str(&mut s, ": ");
                push_str(&mut s, reason.as_str());
                push_str(&mut s, "\n");
                push_str(
                    &mut s,
                    "Suggestion: Try running the benchmark again or with a smaller data size",
                );
                s
            },
        }
    }
}

} // verus!
