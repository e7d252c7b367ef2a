use pileup_stats::config::{
    check_work_settings, file_path_validation, select_progress_mode, select_strand_mode,
    ConfigError, PathIssue, ProgressMode,
};
use pileup_stats::report::StrandMode;

#[test]
fn strand_mode_flags() {
    assert_eq!(select_strand_mode(false, false), Ok(StrandMode::TaggedCombined));
    assert_eq!(select_strand_mode(true, false), Ok(StrandMode::Merged));
    assert_eq!(select_strand_mode(false, true), Ok(StrandMode::Split));
    assert_eq!(select_strand_mode(true, true), Err(ConfigError::ConflictingStrandModes));
}

#[test]
fn progress_codes() {
    assert_eq!(select_progress_mode(0), Ok(ProgressMode::Silent));
    assert_eq!(select_progress_mode(1), Ok(ProgressMode::PerChunkLog));
    assert_eq!(select_progress_mode(2), Ok(ProgressMode::ProgressBar));
    assert_eq!(select_progress_mode(3), Err(ConfigError::UnknownProgressMode));
}

#[test]
fn work_settings() {
    assert_eq!(check_work_settings(8, 8), Ok(()));
    assert_eq!(check_work_settings(0, 8), Err(ConfigError::ZeroChunkSize));
    assert_eq!(check_work_settings(0, 0), Err(ConfigError::ZeroChunkSize));
    assert_eq!(check_work_settings(8, 0), Err(ConfigError::ZeroWorkers));
}

#[test]
fn path_checks() {
    assert_eq!(file_path_validation(true, true), Ok(()));
    assert_eq!(file_path_validation(false, false), Err(PathIssue::Missing));
    assert_eq!(file_path_validation(true, false), Err(PathIssue::NotAFile));
}
