use crate::report::StrandMode;
use vstd::prelude::*;

verus! {

/// A setting that cannot be run.
#[derive(Clone, Copy, Debug, PartialEq, Eq, Structural)]
pub enum ConfigError {
    /// Both the merged and the split strand modes were asked for.
    ConflictingStrandModes,
    /// Chunks must hold at least one position.
    ZeroChunkSize,
    /// The worker pool must have at least one worker.
    ZeroWorkers,
    /// The progress code is none of 0 (none), 1 (per-chunk log), 2 (bar).
    UnknownProgressMode,
}

/// How progress is reported while chunks are processed.
#[derive(Clone, Copy, Debug, PartialEq, Eq, Structural)]
pub enum ProgressMode {
    Silent,
    PerChunkLog,
    ProgressBar,
}

/// Why an input path is refused.
#[derive(Clone, Copy, Debug, PartialEq, Eq, Structural)]
pub enum PathIssue {
    Missing,
    NotAFile,
}

/// Picks the strand mode from the two flags: neither gives the tagged
/// combined mode, both are a conflict.
pub fn select_strand_mode(merged: bool, split: bool) -> (r: Result<StrandMode, ConfigError>)
    ensures
        merged && split <==> r == Err::<StrandMode, ConfigError>(ConfigError::ConflictingStrandModes),
        merged && !split ==> r == Ok::<StrandMode, ConfigError>(StrandMode::Merged),
        !merged && split ==> r == Ok::<StrandMode, ConfigError>(StrandMode::Split),
        !merged && !split ==> r == Ok::<StrandMode, ConfigError>(StrandMode::TaggedCombined),
{
    if merged && split {
        Err(ConfigError::ConflictingStrandModes)
    } else if merged {
        Ok(StrandMode::Merged)
    } else if split {
        Ok(StrandMode::Split)
    } else {
        Ok(StrandMode::TaggedCombined)
    }
}

/// Reads a progress code: 0 none, 1 one log line per chunk, 2 a progress bar.
pub fn select_progress_mode(code: u8) -> (r: Result<ProgressMode, ConfigError>)
    ensures
        code == 0 ==> r == Ok::<ProgressMode, ConfigError>(ProgressMode::Silent),
        code == 1 ==> r == Ok::<ProgressMode, ConfigError>(ProgressMode::PerChunkLog),
        code == 2 ==> r == Ok::<ProgressMode, ConfigError>(ProgressMode::ProgressBar),
        code > 2 ==> r == Err::<ProgressMode, ConfigError>(ConfigError::UnknownProgressMode),
{
    if code == 0 {
        Ok(ProgressMode::Silent)
    } else if code == 1 {
        Ok(ProgressMode::PerChunkLog)
    } else if code == 2 {
        Ok(ProgressMode::ProgressBar)
    } else {
        Err(ConfigError::UnknownProgressMode)
    }
}

/// Checks the chunk size and the worker count; a zero chunk size is
/// reported before a zero worker count.
pub fn check_work_settings(chunk_size: u32, workers: usize) -> (r: Result<(), ConfigError>)
    ensures
        chunk_size == 0 ==> r == Err::<(), ConfigError>(ConfigError::ZeroChunkSize),
        chunk_size > 0 && workers == 0 ==> r == Err::<(), ConfigError>(ConfigError::ZeroWorkers),
        r.is_ok() <==> chunk_size > 0 && workers > 0,
{
    if chunk_size == 0 {
        Err(ConfigError::ZeroChunkSize)
    } else if workers == 0 {
        Err(ConfigError::ZeroWorkers)
    } else {
        Ok(())
    }
}

/// Decides on an input path from what the file system reports of it: it
/// must exist and be a regular file.
pub fn file_path_validation(exists: bool, is_file: bool) -> (r: Result<(), PathIssue>)
    ensures
        !exists ==> r == Err::<(), PathIssue>(PathIssue::Missing),
        exists && !is_file ==> r == Err::<(), PathIssue>(PathIssue::NotAFile),
        r.is_ok() <==> exists && is_file,
{
    if !exists {
        Err(PathIssue::Missing)
    } else if !is_file {
        Err(PathIssue::NotAFile)
    } else {
        Ok(())
    }
}

} // verus!
