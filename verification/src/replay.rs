//! What a run can replay: a log directory, a log file, or a directory or file of
//! recorded events.

use vstd::prelude::*;
use crate::error::{SolarError, Fault, fault_of, message_with};
use crate::logs::{
    LogDirKind, LogFile, bare_file_name, portable_path, path_components, portable_dir_kind,
    parse_log_file_name, parts_match,
};

verus! {

/// The format of a file of recorded events.
#[derive(Debug, Clone, Copy, PartialEq, Eq, Structural)]
pub enum RelogFormat {
    Binary,
    Ron,
}

impl RelogFormat {
    /// The format that a file name pattern asks for: RON for `*.ron.log`, binary
    /// otherwise.
    pub fn from_filename(filename: Option<&str>) -> (r: Self)
        ensures
            r == (if filename matches Some(f) && f@ == "*.ron.log"@ {
                RelogFormat::Ron
            } else {
                RelogFormat::Binary
            }),
    {
        match filename {
            Some(f) => if crate::text::str_eq(f, "*.ron.log") {
                RelogFormat::Ron
            } else {
                RelogFormat::Binary
            },
            None => RelogFormat::Binary,
        }
    }

    /// The extension of files of this format.
    pub fn ext(&self) -> (r: &'static str)
        ensures
            r@ == match self {
                RelogFormat::Binary => ".bin.log"@,
                RelogFormat::Ron => ".ron.log"@,
            },
    {
        match self {
            RelogFormat::Binary => ".bin.log",
            RelogFormat::Ron => ".ron.log",
        }
    }
}

/// A file to replay.
#[derive(Debug, PartialEq, Eq)]
pub enum ReplaySourceFile {
    Log(LogFile),
    Relog(RelogFormat, String),
}

/// What to replay.
#[derive(Debug, PartialEq, Eq)]
pub enum ReplaySource {
    LogDir(String),
    LogFile(LogFile),
    RelogDir(String),
    RelogFile(RelogFormat, String),
}

/// Whether the last of the components `c` is `name`.
pub open spec fn last_component_is(c: Seq<Seq<char>>, name: Seq<char>) -> bool {
    c.len() > 0 && c.last() == name
}

/// Calls `std::path::Path::ends_with(suffix)`, which compares whole components.
/// Trusted for this alone: a path that is exactly `suffix` ends with it, and a
/// portable path ends with a bare file name exactly where its last component is
/// that name; how other paths split into components depends on the platform.
#[verifier::external_body]
pub(crate) fn path_ends_with(path: &str, suffix: &str) -> (r: bool)
    ensures
        path@ == suffix@ && suffix@.len() > 0 ==> r,
        portable_path(path@) && bare_file_name(suffix@) ==> r == last_component_is(
            path_components(path@),
            suffix@,
        ),
{
    std::path::Path::new(path).ends_with(suffix)
}

impl ReplaySource {
    /// What the path `path` replays, where `is_dir` says whether it is a directory
    /// and `has_log_dirs` whether it holds a `Gamelogs` or `Chatlogs` directory: a
    /// directory of logs, another directory of recorded events, a log file whose
    /// last component is `.txt`, or a file of recorded events whose last component
    /// is `.bin.log` or `.ron.log`.
    pub fn try_from_path(path: String, is_dir: bool, has_log_dirs: bool) -> (r: Result<Self, SolarError>)
        ensures
            is_dir && has_log_dirs ==> r == Ok::<ReplaySource, SolarError>(ReplaySource::LogDir(path)),
            is_dir && !has_log_dirs ==> r == Ok::<ReplaySource, SolarError>(ReplaySource::RelogDir(path)),
            !is_dir ==> match r {
                Ok(ReplaySource::LogFile(f)) => f.path == path,
                Ok(ReplaySource::RelogFile(_, p)) => p == path,
                Ok(_) => false,
                Err(e) => fault_of(e) == Fault::Msg(
                    "Unable to determine log kind from parent directory: "@ + path@,
                ) || fault_of(e) == Fault::Msg("Unable to parse log filename"@) || fault_of(e)
                    == Fault::Msg("Invalid replay source path: "@ + path@),
            },
            !is_dir && portable_path(path@) ==> if last_component_is(path_components(path@), ".txt"@) {
                match portable_dir_kind(path@) {
                    None => r matches Err(e) && fault_of(e) == Fault::Msg(
                        "Unable to determine log kind from parent directory: "@ + path@,
                    ),
                    Some(k) => match parse_log_file_name(".txt"@, k) {
                        Some(p) => r matches Ok(ReplaySource::LogFile(f)) && f.path == path
                            && parts_match(f.parts, p),
                        None => r matches Err(e) && fault_of(e) == Fault::Msg(
                            "Unable to parse log filename"@,
                        ),
                    },
                }
            } else if last_component_is(path_components(path@), ".bin.log"@) {
                r == Ok::<ReplaySource, SolarError>(ReplaySource::RelogFile(RelogFormat::Binary, path))
            } else if last_component_is(path_components(path@), ".ron.log"@) {
                r == Ok::<ReplaySource, SolarError>(ReplaySource::RelogFile(RelogFormat::Ron, path))
            } else {
                r matches Err(e) && fault_of(e) == Fault::Msg("Invalid replay source path: "@ + path@)
            },
    {
        proof {
            reveal_strlit(".txt");
            reveal_strlit(".bin.log");
            reveal_strlit(".ron.log");
            reveal_strlit(".");
            reveal_strlit("..");
            assert(".txt"@ != "."@ && ".txt"@ != ".."@) by {
                assert(".txt"@.len() != "."@.len() && ".txt"@.len() != ".."@.len());
            }
            assert(".bin.log"@ != "."@ && ".bin.log"@ != ".."@) by {
                assert(".bin.log"@.len() != "."@.len() && ".bin.log"@.len() != ".."@.len());
            }
            assert(".ron.log"@ != "."@ && ".ron.log"@ != ".."@) by {
                assert(".ron.log"@.len() != "."@.len() && ".ron.log"@.len() != ".."@.len());
            }
            assert(bare_file_name(".txt"@));
            assert(bare_file_name(".bin.log"@));
            assert(bare_file_name(".ron.log"@));
        }
        if is_dir {
            if has_log_dirs {
                Ok(ReplaySource::LogDir(path))
            } else {
                Ok(ReplaySource::RelogDir(path))
            }
        } else if path_ends_with(path.as_str(), ".txt") {
            let dir_kind = match LogDirKind::from_file_path(path.as_str()) {
                Some(k) => k,
                None => {
                    return Err(
                        SolarError::msg(
                            message_with(
                                "Unable to determine log kind from parent directory: ",
                                path.as_str(),
                            ),
                        ),
                    );
                },
            };
            match LogFile::from_path_buf(path, dir_kind) {
                Some(f) => Ok(ReplaySource::LogFile(f)),
                None => Err(SolarError::msg_str("Unable to parse log filename")),
            }
        } else if path_ends_with(path.as_str(), ".bin.log") {
            Ok(ReplaySource::RelogFile(RelogFormat::Binary, path))
        } else if path_ends_with(path.as_str(), ".ron.log") {
            Ok(ReplaySource::RelogFile(RelogFormat::Ron, path))
        } else {
            Err(SolarError::msg(message_with("Invalid replay source path: ", path.as_str())))
        }
    }

    /// The path of what is replayed.
    pub fn path(&self) -> (r: &str)
        ensures
            r@ == match self {
                ReplaySource::LogFile(f) => f.path@,
                ReplaySource::LogDir(p) => p@,
                ReplaySource::RelogDir(p) => p@,
                ReplaySource::RelogFile(_, p) => p@,
            },
    {
        match self {
            ReplaySource::LogFile(f) => f.path(),
            ReplaySource::LogDir(p) => p.as_str(),
            ReplaySource::RelogDir(p) => p.as_str(),
            ReplaySource::RelogFile(_, p) => p.as_str(),
        }
    }
}

} // verus!
