//! Run options: the input path, k-mer size, thread count and log path, and
//! what follows from them.
use vstd::prelude::*;

verus! {

/// The container format of an input file.
#[derive(Clone, Copy, Debug, PartialEq, Eq, Structural)]
pub enum FileFormat {
    Binseq,
    Fastx,
}

/// The input path names no format that can be read.
#[derive(Debug)]
pub struct FormatError {
    pub path: String,
}

pub struct Cli {
    /// The input file to process.
    pub input: String,
    /// The k-mer size to count.
    pub kmer: usize,
    /// The number of threads to use; 0 for all available.
    pub threads: usize,
    /// Where to write the run log, if anywhere.
    pub log: Option<String>,
}

/// `s` ends with `suffix`.
pub open spec fn has_suffix(s: Seq<char>, suffix: Seq<char>) -> bool {
    suffix.len() <= s.len() && s.subrange(s.len() - suffix.len(), s.len() as int) == suffix
}

/// `pat` occurs in `s`.
pub open spec fn has_infix(s: Seq<char>, pat: Seq<char>) -> bool {
    exists|i: int| 0 <= i <= s.len() - pat.len() && #[trigger] s.subrange(i, i + pat.len()) == pat
}

/// The format a path names: `.bq` or `.vbq` at its end is binseq; otherwise
/// `.fastq`, `.fq`, `.fasta` or `.fa` anywhere in it is FASTA/FASTQ.
pub open spec fn format_of(path: Seq<char>) -> Option<FileFormat> {
    if has_suffix(path, ".bq"@) || has_suffix(path, ".vbq"@) {
        Some(FileFormat::Binseq)
    } else if has_infix(path, ".fastq"@) || has_infix(path, ".fq"@) || has_infix(path, ".fasta"@)
        || has_infix(path, ".fa"@) {
        Some(FileFormat::Fastx)
    } else {
        None
    }
}

/// Threads to run with: all `available` for a request of 0, else the request
/// held to `available`.
pub open spec fn threads_for(requested: nat, available: nat) -> nat {
    if requested == 0 {
        available
    } else if requested < available {
        requested
    } else {
        available
    }
}

/// Relies on `str::ends_with`: whether `s` ends with `suffix`.
#[verifier::external_body]
fn str_ends_with(s: &str, suffix: &str) -> (r: bool)
    ensures
        r == has_suffix(s@, suffix@),
{
    s.ends_with(suffix)
}

/// Relies on `str::contains`: whether `pat` occurs in `s`.
#[verifier::external_body]
fn str_contains(s: &str, pat: &str) -> (r: bool)
    ensures
        r == has_infix(s@, pat@),
{
    s.contains(pat)
}

/// Relies on `num_cpus::get`: the number of logical processors this process
/// may use, which depends on the machine and is always at least 1.
#[verifier::external_body]
fn available_cpus() -> (r: usize)
    ensures
        r >= 1,
{
    num_cpus::get()
}

/// Threads to run with, given a request and the processors available.
pub fn thread_count(requested: usize, available: usize) -> (r: usize)
    ensures
        r as nat == threads_for(requested as nat, available as nat),
{
    if requested == 0 {
        available
    } else if requested < available {
        requested
    } else {
        available
    }
}

impl Cli {
    /// The format of the input file, told from its path.
    pub fn format(&self) -> (r: Result<FileFormat, FormatError>)
        ensures
            r matches Ok(f) ==> format_of(self.input@) == Some(f),
            r matches Err(e) ==> format_of(self.input@) is None && e.path@ == self.input@,
    {
        let input = self.input.as_str();
        if str_ends_with(input, ".bq") || str_ends_with(input, ".vbq") {
            Ok(FileFormat::Binseq)
        } else if str_contains(input, ".fastq") || str_contains(input, ".fq") || str_contains(
            input,
            ".fasta",
        ) || str_contains(input, ".fa") {
            Ok(FileFormat::Fastx)
        } else {
            Err(FormatError { path: self.input.clone() })
        }
    }

    /// The input path.
    pub fn path(&self) -> (r: &str)
        ensures
            r@ == self.input@,
    {
        self.input.as_str()
    }

    /// The log path, if one was given.
    pub fn log_path(&self) -> (r: Option<&str>)
        ensures
            r is Some == self.log is Some,
            r matches Some(p) ==> p@ == self.log->0@,
    {
        match &self.log {
            Some(s) => Some(s.as_str()),
            None => None,
        }
    }

    /// The k-mer size.
    pub fn ksize(&self) -> (r: usize)
        ensures
            r == self.kmer,
    {
        self.kmer
    }

    /// Threads to run with: all processors for a request of 0, else the
    /// request held to the number of processors.
    pub fn threads(&self) -> (r: usize)
        ensures
            exists|n: usize| n >= 1 && r as nat == threads_for(self.threads as nat, n as nat),
            r >= 1,
            self.threads > 0 ==> r <= self.threads,
    {
        let available = available_cpus();
        let r = thread_count(self.threads, available);
        assert(available >= 1 && r as nat == threads_for(self.threads as nat, available as nat));
        r
    }
}

} // verus!
