//! Scanning a directory into a hash database: the scan's settings, the
//! text written for each hashed file, and the counts the scan reports.
//!
//! Walking the directory, reading and hashing the files and writing the
//! output are done by the caller, which hands each file's outcome to a
//! `ScanTally` and each hashed file to `ScanEngine::entry_text`.
use vstd::prelude::*;
use crate::hash::database::{entry_line, prefixed_each, DatabaseFormat, DatabaseHandler};
use crate::hash::hash::HashComputer;
use crate::text::{dec_str, decimal, push_str, to_string};

verus! {

/// Statistics collected during a directory scan
#[derive(Debug)]
pub struct ScanStats {
    pub files_processed: usize,
    pub files_failed: usize,
    pub total_bytes: u64,
    pub duration: std::time::Duration,
}

/// Engine for scanning directories and generating hash databases
pub struct ScanEngine {
    pub computer: HashComputer,
    pub parallel: bool,
    pub fast_mode: bool,
    pub use_ignore: bool,
    pub format: DatabaseFormat,
}

/// What became of one file of a scan.
#[derive(Debug, Clone, Copy, PartialEq, Eq, Structural)]
pub enum FileOutcome {
    /// The file was gone or unreadable before hashing.
    Skipped,
    /// Hashing failed.
    HashFailed,
    /// The hash was computed but its entry could not be written.
    WriteFailed,
    /// The entry was recorded; the file has `size` bytes.
    Recorded { size: u64 },
}

/// The running counts of a scan.
#[derive(Debug, Clone, Copy)]
pub struct ScanTally {
    pub files_processed: usize,
    pub files_failed: usize,
    pub files_skipped: usize,
    pub total_bytes: u64,
}

/// The text of the database entry for a hashed file: a standard line, or
/// a hashdeep line with the file's size.
pub open spec fn scan_entry_spec(
    format: DatabaseFormat,
    fast_mode: bool,
    hash: Seq<char>,
    algorithm: Seq<char>,
    path: Seq<char>,
    size: u64,
) -> Seq<char> {
    match format {
        DatabaseFormat::Standard => entry_line(hash, algorithm, fast_mode, path) + "\n"@,
        DatabaseFormat::Hashdeep => dec_str(size as nat) + prefixed_each(seq![hash], ","@) + ","@
            + path + "\n"@,
    }
}

/// What a database starts with: the hashdeep header naming the one
/// algorithm, or nothing.
pub open spec fn scan_header_spec(format: DatabaseFormat, algorithm: Seq<char>) -> Seq<char> {
    match format {
        DatabaseFormat::Standard => Seq::empty(),
        DatabaseFormat::Hashdeep => "%%%% HASHDEEP-1.0\n"@ + "%%%% size,"@ + algorithm
            + ",filename\n"@ + "## Invoked from: hash utility\n"@
            + "## $ hash scan --format hashdeep\n"@ + "##\n"@,
    }
}

impl ScanEngine {
    /// Create a new ScanEngine with default settings
    pub fn new() -> (r: Self)
        ensures
            r.computer.buffer_size() == 1024 * 1024,
            !r.parallel,
            !r.fast_mode,
            r.use_ignore,
            r.format == DatabaseFormat::Standard,
    {
        ScanEngine {
            computer: HashComputer::new(),
            parallel: false,
            fast_mode: false,
            use_ignore: true,
            format: DatabaseFormat::Standard,
        }
    }

    /// Create a new ScanEngine with parallel processing enabled
    pub fn with_parallel(parallel: bool) -> (r: Self)
        ensures
            r.computer.buffer_size() == 1024 * 1024,
            r.parallel == parallel,
            !r.fast_mode,
            r.use_ignore,
            r.format == DatabaseFormat::Standard,
    {
        ScanEngine {
            computer: HashComputer::new(),
            parallel,
            fast_mode: false,
            use_ignore: true,
            format: DatabaseFormat::Standard,
        }
    }

    /// Enable or disable fast mode for large file hashing
    pub fn with_fast_mode(self, fast_mode: bool) -> (r: Self)
        ensures
            r.fast_mode == fast_mode,
            r.parallel == self.parallel,
            r.use_ignore == self.use_ignore,
            r.format == self.format,
            r.computer == self.computer,
    {
        let mut s = self;
        s.fast_mode = fast_mode;
        s
    }

    /// Enable or disable .hashignore file support
    pub fn with_ignore(self, use_ignore: bool) -> (r: Self)
        ensures
            r.use_ignore == use_ignore,
            r.parallel == self.parallel,
            r.fast_mode == self.fast_mode,
            r.format == self.format,
            r.computer == self.computer,
    {
        let mut s = self;
        s.use_ignore = use_ignore;
        s
    }

    /// Set the output format
    pub fn with_format(self, format: DatabaseFormat) -> (r: Self)
        ensures
            r.format == format,
            r.parallel == self.parallel,
            r.fast_mode == self.fast_mode,
            r.use_ignore == self.use_ignore,
            r.computer == self.computer,
    {
        let mut s = self;
        s.format = format;
        s
    }

    /// The text that starts the database written with `algorithm`.
    pub fn header_text(&self, algorithm: &str) -> (r: String)
        ensures
            r@ == scan_header_spec(self.format, algorithm@),
    {
        let mut out = String::new();
        match self.format {
            DatabaseFormat::Standard => {},
            DatabaseFormat::Hashdeep => {
                let mut names: Vec<String> = Vec::new();
                names.push(to_string(algorithm));
                proof {
                    assert(names@.map_values(|s: String| s@) =~= seq![algorithm@]);
                }
                DatabaseHandler::write_hashdeep_header(&mut out, names.as_slice());
            },
        }
        out
    }

    /// The database entry for a file of `size` bytes at `path`, hashed to
    /// `hash` with `algorithm`.
    pub fn entry_text(&self, hash: &str, algorithm: &str, path: &str, size: u64) -> (r: String)
        ensures
            r@ == scan_entry_spec(self.format, self.fast_mode, hash@, algorithm@, path@, size),
    {
        let mut out = String::new();
        match self.format {
            DatabaseFormat::Standard => {
                DatabaseHandler::write_entry(&mut out, hash, algorithm, self.fast_mode, path);
            },
            DatabaseFormat::Hashdeep => {
                let mut hashes: Vec<String> = Vec::new();
                hashes.push(to_string(hash));
                proof {
                    assert(hashes@.map_values(|s: String| s@) =~= seq![hash@]);
                }
                DatabaseHandler::write_hashdeep_entry(&mut out, size, hashes.as_slice(), path);
            },
        }
        out
    }
}

impl ScanTally {
    /// No file seen yet.
    pub fn new() -> (r: Self)
        ensures
            r.files_processed == 0,
            r.files_failed == 0,
            r.files_skipped == 0,
            r.total_bytes == 0,
    {
        ScanTally { files_processed: 0, files_failed: 0, files_skipped: 0, total_bytes: 0 }
    }

    /// Count the outcome of one file: a skipped file as skipped, a failed
    /// hash or write as failed, a recorded entry as processed with its
    /// bytes.
    pub fn record(&mut self, outcome: FileOutcome)
        requires
            old(self).files_processed < usize::MAX,
            old(self).files_failed < usize::MAX,
            old(self).files_skipped < usize::MAX,
            outcome matches FileOutcome::Recorded { size } ==> old(self).total_bytes + size
                <= u64::MAX,
        ensures
            final(self).files_processed == old(self).files_processed + if outcome is Recorded {
                1int
            } else {
                0int
            },
            final(self).files_failed == old(self).files_failed + if outcome is HashFailed
                || outcome is WriteFailed {
                1int
            } else {
                0int
            },
            final(self).files_skipped == old(self).files_skipped + if outcome is Skipped {
                1int
            } else {
                0int
            },
            final(self).total_bytes == old(self).total_bytes + match outcome {
                FileOutcome::Recorded { size } => size as int,
                _ => 0int,
            },
    {
        match outcome {
            FileOutcome::Skipped => {
                self.files_skipped = self.files_skipped + 1;
            },
            FileOutcome::HashFailed => {
                self.files_failed = self.files_failed + 1;
            },
            FileOutcome::WriteFailed => {
                self.files_failed = self.files_failed + 1;
            },
            FileOutcome::Recorded { size } => {
                self.files_processed = self.files_processed + 1;
                self.total_bytes = self.total_bytes + size;
            },
        }
    }

    /// The progress message: the files done, failed and skipped so far.
    pub fn progress_message(&self) -> (r: String)
        ensures
            r@ == dec_str(self.files_processed as nat) + " OK, "@ + dec_str(
                self.files_failed as nat,
            ) + " failed, "@ + dec_str(self.files_skipped as nat) + " skipped"@,
    {
        let mut s = decimal(self.files_processed as u64);
        push_str(&mut s, " OK, ");
        let f = decimal(self.files_failed as u64);
        push_str(&mut s, f.as_str());
        push_str(&mut s, " failed, ");
        let k = decimal(self.files_skipped as u64);
        push_str(&mut s, k.as_str());
        push_str(&mut s, " skipped");
        s
    }

    /// The statistics of the finished scan, which took `duration`: skipped
    /// files count as failed.
    pub fn stats(&self, duration: std::time::Duration) -> (r: ScanStats)
        requires
            self.files_failed + self.files_skipped <= usize::MAX,
        ensures
            r.files_processed == self.files_processed,
            r.files_failed == self.files_failed + self.files_skipped,
            r.total_bytes == self.total_bytes,
            r.duration == duration,
    {
        ScanStats {
            files_processed: self.files_processed,
            files_failed: self.files_failed + self.files_skipped,
            total_bytes: self.total_bytes,
            duration,
        }
    }
}

} // verus!
