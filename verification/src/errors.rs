use vstd::prelude::*;

verus! {

/// The failures a scaffolding run can report. Per-file discovery trouble is
/// the only non-fatal kind; every other kind aborts the run.
#[derive(Debug)]
pub enum ScafError {
    /// The template directory does not exist.
    PathNotFound,
    /// The template configuration could not be read or parsed.
    ConfigError,
    /// One discovered file could not be listed or read; the run skips it.
    DiscoveryError,
    /// The output directory already holds entries.
    OutputNotEmpty,
    /// Two surviving files of equal, maximal specificity target the same
    /// output path; carries that path.
    AmbiguousConflict { path: String },
    /// A discovered path does not lie under the template root; carries the
    /// offending path.
    PathError { path: String },
}

} // verus!
