//! Log files: their names, their lines, and what has been read of them.

use vstd::prelude::*;
use crate::{CharacterId, StarId};
use crate::analysis::{
    AnalysisKind, CalloutAnalyzer, IntelAnalyzer, LogAnalysis, callout_of, intel_scan,
};
use crate::error::{SolarError, ErrNoun, message_with};
use crate::indices::{Index, key_index};
use crate::log_kind::{
    CharacterLog, LogKind, LogName, NamedLog, character_log_of_kind, log_kind_of_log_name,
};
use crate::star_map::StarMap;
use crate::text::{
    chars_of, parse_i32, parse_i32_spec, parse_u32, parse_u32_spec, skip_chars, string_from_chars,
    take_chars, words, split_on,
};
use crate::time::{Timestamp, utc_instant, utc_ymd_hms};

verus! {

/// Who wrote a line: the game itself, or a character.
#[derive(Debug, Clone, PartialEq, Eq, Hash)]
pub enum ChatAuthor {
    System,
    Character(String),
}

impl ChatAuthor {
    /// The author's name; the game's lines are by "System".
    pub fn as_str(&self) -> (r: &str)
        ensures
            r@ == match self {
                ChatAuthor::System => "System"@,
                ChatAuthor::Character(name) => name@,
            },
    {
        match self {
            ChatAuthor::System => "System",
            ChatAuthor::Character(name) => name.as_str(),
        }
    }
}

/// A line of a log, with its analyses.
#[derive(Debug, Clone, PartialEq, Eq, Hash)]
pub struct LogEntry {
    pub character_log: CharacterLog,
    pub timestamp: Timestamp,
    pub author: ChatAuthor,
    pub content: String,
    pub analysis: LogAnalysis,
}

/// The directory a log file lies in.
#[derive(Debug, Clone, Copy, PartialEq, Eq, Structural)]
pub enum LogDirKind {
    Game,
    Chat,
}

/// The directory kind that a directory name stands for.
pub open spec fn log_dir_kind_of(dir_name: Seq<char>) -> Option<LogDirKind> {
    if dir_name == "Gamelogs"@ {
        Some(LogDirKind::Game)
    } else if dir_name == "Chatlogs"@ {
        Some(LogDirKind::Chat)
    } else {
        None
    }
}

/// Whether a path is a bare file name: not empty, not `.` or `..`, and with no
/// `/`, backslash or `:`, so that no platform reads a separator or a prefix in it.
pub open spec fn bare_file_name(p: Seq<char>) -> bool {
    p.len() > 0 && p != "."@ && p != ".."@ && !p.contains('/') && !p.contains('\\') && !p.contains(
        ':',
    )
}

/// Whether a path is bare file names joined by single `/`, after an optional
/// leading `/`: `/` separates components on every platform, and no component is
/// `.`, `..` or empty, so each platform reads the same components in it.
pub open spec fn plain_components(p: Seq<char>) -> bool
    decreases p.len(),
{
    if bare_file_name(p) {
        true
    } else {
        match last_index_below(p, '/', p.len() as int) {
            Some(k) => 0 <= k < p.len() && bare_file_name(p.skip(k + 1)) && (k == 0
                || plain_components(p.take(k))),
            None => false,
        }
    }
}

/// The final component of a path of plain components: what follows its last `/`.
pub open spec fn final_component(p: Seq<char>) -> Seq<char> {
    match last_index_below(p, '/', p.len() as int) {
        Some(k) => p.skip(k + 1),
        None => p,
    }
}

/// A path of plain components without its final component: what precedes its last
/// `/`, the root where that is the leading `/`, and the empty path for a bare name.
pub open spec fn parent_part(p: Seq<char>) -> Seq<char> {
    match last_index_below(p, '/', p.len() as int) {
        Some(k) => if k == 0 {
            "/"@
        } else {
            p.take(k)
        },
        None => Seq::empty(),
    }
}

/// The directory kind of the directory that holds the file at a path of plain
/// components: that of its parent directory's name; none for a bare file name or
/// a file directly under the root.
pub open spec fn path_dir_kind(p: Seq<char>) -> Option<LogDirKind> {
    if bare_file_name(p) || parent_part(p) == "/"@ {
        None
    } else {
        log_dir_kind_of(final_component(parent_part(p)))
    }
}

/// Whether std reads a path alike on every platform: it holds no backslash and no
/// `:`, so no platform reads a prefix or another separator in it, and it does not
/// begin with `//`.
pub open spec fn portable_path(p: Seq<char>) -> bool {
    !p.contains('\\') && !p.contains(':') && !(p.len() >= 2 && p[0] == '/' && p[1] == '/')
}

/// The pieces between separators that are components: not empty and not `.`.
pub open spec fn named_pieces(ps: Seq<Seq<char>>) -> Seq<Seq<char>> {
    ps.filter(|x: Seq<char>| x.len() > 0 && x != "."@)
}

/// The components that std reads in a portable path, each as its text: `/` for
/// the root, `.` for a current directory at the start, `..` for a parent
/// directory, and the names. As std documents, repeated separators and a `.`
/// anywhere but at the start are dropped.
pub open spec fn path_components(p: Seq<char>) -> Seq<Seq<char>> {
    let pieces = split_on(p, '/');
    if p.len() > 0 && p[0] == '/' {
        seq!["/"@] + named_pieces(pieces.drop_first())
    } else if pieces.len() > 0 && pieces[0] == "."@ {
        seq!["."@] + named_pieces(pieces.drop_first())
    } else {
        named_pieces(pieces)
    }
}

/// The last of the components, where it is a name: not the root, `.` or `..`.
pub open spec fn last_name(c: Seq<Seq<char>>) -> Option<Seq<char>> {
    if c.len() > 0 && c.last() != "/"@ && c.last() != "."@ && c.last() != ".."@ {
        Some(c.last())
    } else {
        None
    }
}

/// Whether a path with the components `c` has a parent: it has a last component,
/// and that is not the root.
pub open spec fn has_parent(c: Seq<Seq<char>>) -> bool {
    c.len() > 0 && c.last() != "/"@
}

/// The directory kind of the directory that holds the file at a portable path:
/// that which the name of its parent's last component stands for.
pub open spec fn portable_dir_kind(p: Seq<char>) -> Option<LogDirKind> {
    let c = path_components(p);
    if has_parent(c) {
        match last_name(c.drop_last()) {
            Some(n) => log_dir_kind_of(n),
            None => None,
        }
    } else {
        None
    }
}

/// The start of a portable path is portable.
proof fn lemma_portable_prefix(p: Seq<char>, k: int)
    requires
        portable_path(p),
        0 <= k <= p.len(),
    ensures
        portable_path(p.take(k)),
{
    let t = p.take(k);
    if t.contains('\\') {
        let i = choose|i: int| 0 <= i < t.len() && t[i] == '\\';
        assert(p[i] == '\\');
    }
    if t.contains(':') {
        let i = choose|i: int| 0 <= i < t.len() && t[i] == ':';
        assert(p[i] == ':');
    }
}

/// Calls `std::path::Path::file_name` and reads the result as text. Trusted for
/// what std documents as the final component: a bare file name is its own file
/// name, a path of plain components has the text after its last `/`, and the
/// empty path and the root `/` have none; for any portable path, the result is
/// its last component where that is a name (not the root, `.` or `..`), and none
/// otherwise. How other paths split depends on the platform.
#[verifier::external_body]
pub(crate) fn path_file_name(path: &str) -> (r: Option<String>)
    ensures
        match r {
            Some(s) => (bare_file_name(path@) ==> s@ == path@) && (plain_components(path@)
                ==> s@ == final_component(path@)) && (portable_path(path@) ==> last_name(
                path_components(path@),
            ) == Some(s@)),
            None => !bare_file_name(path@) && !plain_components(path@) && (portable_path(path@)
                ==> last_name(path_components(path@)) is None),
        },
        path@.len() == 0 ==> r is None,
        path@ == "/"@ ==> r is None,
{
    std::path::Path::new(path).file_name().and_then(|s| s.to_str()).map(|s| s.to_string())
}

/// Calls `std::path::Path::parent` and reads the result as text. Trusted for what
/// std documents as the path without its final component: the parent of a bare
/// file name is the empty path, and that of a path of plain components is the
/// text before its last `/` (the root `/` where that is the first character); a
/// portable path has a parent exactly where it has a last component that is not
/// the root, and the parent is the start of its text, with the same components
/// but the last. How other paths split depends on the platform.
#[verifier::external_body]
pub(crate) fn path_parent(path: &str) -> (r: Option<String>)
    ensures
        match r {
            Some(s) => (bare_file_name(path@) ==> s@.len() == 0) && (plain_components(path@)
                ==> s@ == parent_part(path@)) && (portable_path(path@) ==> has_parent(
                path_components(path@),
            ) && s@.len() <= path@.len() && s@ == path@.take(s@.len() as int) && path_components(
                s@,
            ) == path_components(path@).drop_last()),
            None => !bare_file_name(path@) && !plain_components(path@) && (portable_path(path@)
                ==> !has_parent(path_components(path@))),
        },
{
    std::path::Path::new(path).parent().and_then(|p| p.to_str()).map(|s| s.to_string())
}

impl LogDirKind {
    /// The name of the directory of this kind.
    pub fn dir_name(&self) -> (r: &'static str)
        ensures
            r@ == match self {
                LogDirKind::Game => "Gamelogs"@,
                LogDirKind::Chat => "Chatlogs"@,
            },
    {
        match self {
            LogDirKind::Game => "Gamelogs",
            LogDirKind::Chat => "Chatlogs",
        }
    }

    /// The directory kind that a directory name stands for.
    pub fn from_dir_name(dir_name: &str) -> (r: Option<Self>)
        ensures
            r == log_dir_kind_of(dir_name@),
    {
        if crate::text::str_eq(dir_name, "Gamelogs") {
            Some(LogDirKind::Game)
        } else if crate::text::str_eq(dir_name, "Chatlogs") {
            Some(LogDirKind::Chat)
        } else {
            None
        }
    }

    /// The directory kind of the directory that holds the file at `path`: the kind
    /// that the name of its parent directory stands for. A bare file name lies in
    /// no such directory.
    pub fn from_file_path(path: &str) -> (r: Option<Self>)
        ensures
            r matches Some(k) ==> exists|n: Seq<char>| log_dir_kind_of(n) == Some(k),
            bare_file_name(path@) ==> r is None,
            plain_components(path@) ==> r == path_dir_kind(path@),
            portable_path(path@) ==> r == portable_dir_kind(path@),
    {
        proof {
            reveal_strlit("/");
            if plain_components(path@) && parent_part(path@) != "/"@ && !bare_file_name(path@) {
                assert(plain_components(parent_part(path@)));
            }
        }
        match path_parent(path) {
            Some(dir) => {
                proof {
                    if portable_path(path@) {
                        lemma_portable_prefix(path@, dir@.len() as int);
                    }
                }
                match path_file_name(dir.as_str()) {
                    Some(dir_name) => Self::from_dir_name(dir_name.as_str()),
                    None => None,
                }
            },
            None => None,
        }
    }
}

/// The position of the last `c` below `n` in `s`.
pub open spec fn last_index_below(s: Seq<char>, c: char, n: int) -> Option<int>
    decreases n,
{
    if n <= 0 {
        None
    } else if s[n - 1] == c {
        Some(n - 1)
    } else {
        last_index_below(s, c, n - 1)
    }
}

/// `s` split at its last `c`: what `str::rsplit_once(c)` gives.
pub open spec fn rsplit_once(s: Seq<char>, c: char) -> Option<(Seq<char>, Seq<char>)> {
    match last_index_below(s, c, s.len() as int) {
        Some(k) => Some((s.take(k), s.skip(k + 1))),
        None => None,
    }
}

/// A file name's stem and extension, as `Path::file_stem` and `Path::extension`
/// give them: the split is at the last `.`, unless that is the name's first
/// character or there is none.
pub open spec fn stem_and_extension(name: Seq<char>) -> (Seq<char>, Option<Seq<char>>) {
    match last_index_below(name, '.', name.len() as int) {
        Some(k) => if k == 0 {
            (name, None)
        } else {
            (name.take(k), Some(name.skip(k + 1)))
        },
        None => (name, None),
    }
}

/// The instant that a log file name's date (`YYYYMMDD`) and time (`HHMMSS`) give,
/// read as UTC.
pub open spec fn datetime_of(date: Seq<char>, time: Seq<char>) -> Option<Timestamp> {
    if date.len() < 8 || time.len() < 6 {
        None
    } else {
        match (
            parse_i32_spec(date.subrange(0, 4)),
            parse_u32_spec(date.subrange(4, 6)),
            parse_u32_spec(date.subrange(6, 8)),
            parse_u32_spec(time.subrange(0, 2)),
            parse_u32_spec(time.subrange(2, 4)),
            parse_u32_spec(time.subrange(4, 6)),
        ) {
            (Some(y), Some(mo), Some(d), Some(h), Some(mi), Some(s)) => match utc_instant(
                y,
                mo,
                d,
                h,
                mi,
                s,
            ) {
                Some(t) => Some(Timestamp(t.0, t.1)),
                None => None,
            },
            _ => None,
        }
    }
}

/// What a log file's name says: the channel name (none for a game log), when it
/// was opened, and whose it is. Example: `our.intel_20260212_035141_12345678.txt`.
pub open spec fn parse_log_file_name(name: Seq<char>, dir_kind: LogDirKind) -> Option<
    (Option<Seq<char>>, Timestamp, CharacterId),
> {
    let (stem, ext) = stem_and_extension(name);
    if ext != Some("txt"@) {
        None
    } else {
        match rsplit_once(stem, '_') {
            None => None,
            Some((file, character_id)) => match rsplit_once(file, '_') {
                None => None,
                Some((file, time)) => {
                    let name_date = match dir_kind {
                        LogDirKind::Game => Some((None::<Seq<char>>, file)),
                        LogDirKind::Chat => match rsplit_once(file, '_') {
                            None => None,
                            Some((n, d)) => Some((Some(n), d)),
                        },
                    };
                    match name_date {
                        None => None,
                        Some((n, date)) => match parse_u32_spec(character_id) {
                            None => None,
                            Some(id) => match datetime_of(date, time) {
                                None => None,
                                Some(ts) => Some((n, ts, id)),
                            },
                        },
                    }
                },
            },
        }
    }
}

/// The last position of `c` in `s`.
fn last_index(s: &Vec<char>, c: char) -> (r: Option<usize>)
    ensures
        match r {
            Some(k) => last_index_below(s@, c, s@.len() as int) == Some(k as int) && k < s.len(),
            None => last_index_below(s@, c, s@.len() as int) is None,
        },
{
    let mut n: usize = s.len();
    while n > 0
        invariant
            n <= s.len(),
            last_index_below(s@, c, s@.len() as int) == last_index_below(s@, c, n as int),
        decreases n,
    {
        if s[n - 1] == c {
            return Some(n - 1);
        }
        n = n - 1;
    }
    None
}

/// `s` split at its last `c`.
fn rsplit_once_chars(s: &Vec<char>, c: char) -> (r: Option<(Vec<char>, Vec<char>)>)
    ensures
        match r {
            Some(p) => rsplit_once(s@, c) == Some((p.0@, p.1@)),
            None => rsplit_once(s@, c) is None,
        },
{
    match last_index(s, c) {
        Some(k) => Some((take_chars(s, k), skip_chars(s, k + 1))),
        None => None,
    }
}

/// Parses `s[from..to]` as `u32::from_str` does.
fn parse_u32_range(s: &Vec<char>, from: usize, to: usize) -> (r: Option<u32>)
    requires
        from <= to <= s.len(),
    ensures
        r == parse_u32_spec(s@.subrange(from as int, to as int)),
{
    let head = take_chars(s, to);
    let part = skip_chars(&head, from);
    assert(part@ =~= s@.subrange(from as int, to as int));
    parse_u32(&part)
}

/// The instant that a log file name's date and time give, read as UTC.
pub fn make_datetime(date: &Vec<char>, time: &Vec<char>) -> (r: Option<Timestamp>)
    ensures
        r == datetime_of(date@, time@),
{
    if date.len() < 8 || time.len() < 6 {
        return None;
    }
    let year_part = take_chars(date, 4);
    let year = parse_i32(&year_part);
    let month = parse_u32_range(date, 4, 6);
    let day = parse_u32_range(date, 6, 8);
    let hour = parse_u32_range(time, 0, 2);
    let minute = parse_u32_range(time, 2, 4);
    let second = parse_u32_range(time, 4, 6);
    assert(year_part@ =~= date@.subrange(0, 4));
    match (year, month, day, hour, minute, second) {
        (Some(y), Some(mo), Some(d), Some(h), Some(mi), Some(s)) => match utc_ymd_hms(
            y,
            mo,
            d,
            h,
            mi,
            s,
        ) {
            Some(t) => Some(Timestamp(t.0, t.1)),
            None => None,
        },
        _ => None,
    }
}

/// What a log file's name says.
#[derive(Debug, Clone, PartialEq, Eq)]
pub struct ChatLogFileParts {
    pub name: LogName,
    pub timestamp: Timestamp,
    pub character_id: CharacterId,
}

/// Whether `parts` is what a parsed name says.
pub open spec fn parts_match(parts: ChatLogFileParts, p: (Option<Seq<char>>, Timestamp, CharacterId)) -> bool {
    &&& match p.0 {
        None => parts.name == LogName::Game,
        Some(n) => parts.name matches LogName::Chat(c) && c@ == n,
    }
    &&& parts.timestamp == p.1
    &&& parts.character_id == p.2
}

/// A log file: its path and what its name says.
#[derive(Debug, Clone, PartialEq, Eq)]
pub struct LogFile {
    pub path: String,
    pub parts: ChatLogFileParts,
}

impl LogFile {
    /// A log file at `path` whose name says `parts`.
    pub fn new(path: String, parts: ChatLogFileParts) -> (r: Self)
        ensures
            r.path == path,
            r.parts == parts,
    {
        LogFile { path, parts }
    }

    /// The file's path.
    pub fn path(&self) -> (r: &str)
        ensures
            r@ == self.path@,
    {
        self.path.as_str()
    }

    /// The name part of the file's name.
    pub fn name(&self) -> (r: &LogName)
        ensures
            *r == self.parts.name,
    {
        &self.parts.name
    }

    /// The character whose log it is.
    pub fn character_id(&self) -> (r: CharacterId)
        ensures
            r == self.parts.character_id,
    {
        self.parts.character_id
    }

    /// When the log was opened.
    pub fn timestamp(&self) -> (r: &Timestamp)
        ensures
            *r == self.parts.timestamp,
    {
        &self.parts.timestamp
    }

    /// The log file at `path`, whose file name is `file_name`, if that name is one
    /// of a log in a directory of kind `dir_kind`.
    pub fn from_file_name(path: String, file_name: &str, dir_kind: LogDirKind) -> (r: Option<Self>)
        ensures
            match parse_log_file_name(file_name@, dir_kind) {
                Some(p) => r matches Some(f) && f.path == path && parts_match(f.parts, p),
                None => r is None,
            },
    {
        let name = chars_of(file_name);
        let (stem, ext) = match last_index(&name, '.') {
            Some(k) => {
                if k == 0 {
                    return None;
                }
                (take_chars(&name, k), skip_chars(&name, k + 1))
            },
            None => {
                return None;
            },
        };
        let ext_s = string_from_chars(&ext);
        if !crate::text::str_eq(ext_s.as_str(), "txt") {
            return None;
        }
        let (file, character_id) = match rsplit_once_chars(&stem, '_') {
            Some(p) => p,
            None => {
                return None;
            },
        };
        let (file, time) = match rsplit_once_chars(&file, '_') {
            Some(p) => p,
            None => {
                return None;
            },
        };
        let (log_name, date) = match dir_kind {
            LogDirKind::Game => (LogName::Game, file),
            LogDirKind::Chat => match rsplit_once_chars(&file, '_') {
                Some((n, d)) => (LogName::Chat(string_from_chars(&n)), d),
                None => {
                    return None;
                },
            },
        };
        let character_id = match parse_u32(&character_id) {
            Some(id) => id,
            None => {
                return None;
            },
        };
        let timestamp = match make_datetime(&date, &time) {
            Some(t) => t,
            None => {
                return None;
            },
        };
        Some(LogFile { path, parts: ChatLogFileParts { name: log_name, timestamp, character_id } })
    }

    /// The log file at `path`, if its file name is one of a log in a directory of
    /// kind `dir_kind`.
    pub fn from_path_buf(path: String, dir_kind: LogDirKind) -> (r: Option<Self>)
        ensures
            r matches Some(f) ==> f.path == path && exists|n: Seq<char>|
                #[trigger] parse_log_file_name(n, dir_kind) matches Some(p) && parts_match(
                    f.parts,
                    p,
                ),
            bare_file_name(path@) ==> match parse_log_file_name(path@, dir_kind) {
                Some(p) => r matches Some(f) && f.path == path && parts_match(f.parts, p),
                None => r is None,
            },
            plain_components(path@) ==> match parse_log_file_name(final_component(path@), dir_kind) {
                Some(p) => r matches Some(f) && f.path == path && parts_match(f.parts, p),
                None => r is None,
            },
            portable_path(path@) ==> match last_name(path_components(path@)) {
                Some(n) => match parse_log_file_name(n, dir_kind) {
                    Some(p) => r matches Some(f) && f.path == path && parts_match(f.parts, p),
                    None => r is None,
                },
                None => r is None,
            },
    {
        match path_file_name(path.as_str()) {
            Some(file_name) => Self::from_file_name(path, file_name.as_str(), dir_kind),
            None => None,
        }
    }

    /// The character log that this file belongs to; a group channel must be indexed.
    /// Private conversations are not supported.
    pub fn to_character_log(&self, index: &Index) -> (r: Result<CharacterLog, SolarError>)
        requires
            !(self.parts.name matches LogName::Chat(n) && n@ == "Private"@),
        ensures
            match log_kind_of_log_name(self.parts.name) {
                LogKind::Group => match self.parts.name {
                    LogName::Chat(n) => match key_index(index.channel_names.0@, n@) {
                        Some(i) => r == Ok::<CharacterLog, SolarError>(
                            CharacterLog::Group {
                                character_id: self.parts.character_id,
                                channel_id: index.channel_names.0@[i].id,
                            },
                        ),
                        None => r matches Err(SolarError::NotFound { noun, key }) && noun
                            == ErrNoun::ChannelName && key@ == n@,
                    },
                    LogName::Game => false,
                },
                k => r == Ok::<CharacterLog, SolarError>(
                    character_log_of_kind(k, self.parts.character_id, None),
                ),
            },
    {
        let log_kind = LogKind::from_log_file(self);
        let character_id = self.character_id();
        let channel_name_id = match log_kind {
            LogKind::Group => {
                let channel_name = match self.name().channel_name() {
                    Some(n) => n,
                    None => {
                        return Err(SolarError::not_found(ErrNoun::ChannelName, self.path()));
                    },
                };
                let idx = index.chat_channels().find(channel_name)?;
                Some(idx.id)
            },
            _ => None,
        };
        Ok(CharacterLog::from_kind(log_kind, character_id, channel_name_id))
    }
}

/// The character log that the file `f` belongs to, where its group channel, if it
/// is one, is indexed.
pub open spec fn file_character_log(f: LogFile, index: Index) -> Option<CharacterLog> {
    match log_kind_of_log_name(f.parts.name) {
        LogKind::Group => match f.parts.name {
            LogName::Chat(n) => match key_index(index.channel_names.0@, n@) {
                Some(i) => Some(
                    CharacterLog::Group {
                        character_id: f.parts.character_id,
                        channel_id: index.channel_names.0@[i].id,
                    },
                ),
                None => None,
            },
            LogName::Game => None,
        },
        k => Some(character_log_of_kind(k, f.parts.character_id, None)),
    }
}

impl LogKind {
    /// The log kind of a log file. Private conversations are not supported.
    pub fn from_log_file(file: &LogFile) -> (r: Self)
        requires
            !(file.parts.name matches LogName::Chat(n) && n@ == "Private"@),
        ensures
            r == log_kind_of_log_name(file.parts.name),
    {
        LogKind::from_log_name_of(file.name())
    }
}

impl NamedLog {
    /// The named log of a log file. Private conversations are not supported.
    pub fn from_log_file(file: LogFile) -> (r: Result<Self, SolarError>)
        requires
            !(file.parts.name matches LogName::Chat(n) && n@ == "Private"@),
        ensures
            match log_kind_of_log_name(file.parts.name) {
                LogKind::Game => r matches Ok(NamedLog::Game),
                LogKind::Local => r matches Ok(NamedLog::Local),
                LogKind::Alliance => r matches Ok(NamedLog::Alliance),
                LogKind::Corporation => r matches Ok(NamedLog::Corporation),
                LogKind::Fleet => r matches Ok(NamedLog::Fleet),
                LogKind::Group => r matches Ok(NamedLog::Group(g)) && file.parts.name matches LogName::Chat(n) && g@ == n@,
            },
    {
        let kind = LogKind::from_log_file(&file);
        match kind {
            LogKind::Game => Ok(NamedLog::Game),
            LogKind::Local => Ok(NamedLog::Local),
            LogKind::Alliance => Ok(NamedLog::Alliance),
            LogKind::Corporation => Ok(NamedLog::Corporation),
            LogKind::Fleet => Ok(NamedLog::Fleet),
            LogKind::Group => match file.parts.name {
                LogName::Chat(name) => Ok(NamedLog::Group(name)),
                LogName::Game => Err(
                    SolarError::msg(
                        message_with("Grup chat name not found for log file: ", file.path.as_str()),
                    ),
                ),
            },
        }
    }
}


/// The format of the stamp that begins each line of a log.
pub open spec fn log_stamp_format() -> Seq<char> {
    "[ %Y.%m.%d %H:%M:%S ] "@
}

/// What a line of a log says: when, who (none for a game log's line, which the
/// game writes), and what. The line is read without surrounding whitespace and
/// without a leading byte order mark; it must begin with `[`, and its first 24
/// characters are the stamp. In a chat log the author ends at the first ` > `;
/// the content starts that many characters further on as the author takes
/// bytes in UTF-8, plus three.
pub open spec fn line_parts(buf: Seq<char>, is_chat: bool) -> Option<(Timestamp, Option<Seq<char>>, Seq<char>)> {
    let line = crate::text::trim_start_char(crate::text::trim_ws(buf), '\u{feff}');
    if !(line.len() > 0 && line[0] == '[') {
        None
    } else {
        let stamp = if line.len() > 24 {
            line.take(24)
        } else {
            line
        };
        let rest = if line.len() > 24 {
            line.skip(24)
        } else {
            Seq::<char>::empty()
        };
        match crate::time::chrono_parse_naive_utc(stamp, log_stamp_format()) {
            None => None,
            Some(t) => if is_chat {
                match crate::text::find_sub(rest, " > "@) {
                    None => None,
                    Some(p) => {
                        let author = rest.take(p);
                        let start = crate::text::utf8_len(author) + 3;
                        let content = if start <= rest.len() {
                            rest.skip(start as int)
                        } else {
                            Seq::<char>::empty()
                        };
                        Some((Timestamp(t.0, t.1), Some(author), content))
                    },
                }
            } else {
                Some((Timestamp(t.0, t.1), None, rest))
            },
        }
    }
}

/// Reads a line of a log: when, who and what.
pub fn parse_log_line(buf: &str, is_chat: bool) -> (r: Option<(Timestamp, ChatAuthor, String)>)
    ensures
        match line_parts(buf@, is_chat) {
            None => r is None,
            Some(p) => r matches Some(x) && x.0 == p.0 && x.2@ == p.2 && match p.1 {
                None => x.1 == ChatAuthor::System,
                Some(a) => x.1 matches ChatAuthor::Character(n) && n@ == a,
            },
        },
{
    let cs = chars_of(buf);
    let trimmed = crate::text::trim_whitespace(&cs);
    let line = crate::text::trim_start_matches_char(&trimmed, '\u{feff}');
    if !(line.len() > 0 && line[0] == '[') {
        return None;
    }
    let stamp = take_chars(&line, 24);
    let rest = skip_chars(&line, 24);
    assert(line@.len() == 24 ==> line@.take(24) =~= line@);
    assert(line@.len() == 24 ==> line@.skip(24) =~= Seq::<char>::empty());
    assert(stamp@ == (if line@.len() > 24 {
        line@.take(24)
    } else {
        line@
    }));
    assert(rest@ == (if line@.len() > 24 {
        line@.skip(24)
    } else {
        Seq::<char>::empty()
    }));
    let stamp_s = string_from_chars(&stamp);
    let t = match crate::time::parse_naive_utc(stamp_s.as_str(), "[ %Y.%m.%d %H:%M:%S ] ") {
        Some(t) => t,
        None => {
            return None;
        },
    };
    let timestamp = Timestamp(t.0, t.1);
    if is_chat {
        let pat = chars_of(" > ");
        match crate::text::find_chars(&rest, &pat) {
            None => None,
            Some(p) => {
                let author = take_chars(&rest, p);
                let start = crate::text::utf8_length(&author) + 3;
                let content = if start <= rest.len() as u128 {
                    skip_chars(&rest, start as usize)
                } else {
                    Vec::new()
                };
                Some((timestamp, ChatAuthor::Character(string_from_chars(&author)), string_from_chars(&content)))
            },
        }
    } else {
        Some((timestamp, ChatAuthor::System, string_from_chars(&rest)))
    }
}

/// Whether `analyze` asks for the analysis `kind`.
pub fn asks_for(analyze: &Vec<AnalysisKind>, kind: AnalysisKind) -> (r: bool)
    ensures
        r == analyze@.contains(kind),
{
    let mut i: usize = 0;
    while i < analyze.len()
        invariant
            i <= analyze.len(),
            forall|k: int| 0 <= k < i ==> analyze@[k] != kind,
        decreases analyze.len() - i,
    {
        if analyze[i] == kind {
            assert(analyze@[i as int] == kind);
            return true;
        }
        i = i + 1;
    }
    false
}

/// Whether `a` holds the analyses that `analyze` asks for of the content `content`.
pub open spec fn analysis_of(a: LogAnalysis, content: Seq<char>, analyze: Seq<AnalysisKind>, map: StarMap) -> bool {
    &&& (a.intel is Some <==> analyze.contains(AnalysisKind::Intel))
    &&& (a.intel matches Some(i) ==> {
        &&& i.systems@ == intel_scan(map, words(content)).0
        &&& i.keywords@ == intel_scan(map, words(content)).1
        &&& i.ambiguous == (words(content).len() > i.systems@.len() + i.keywords@.len())
    })
    &&& (a.callout is Some <==> analyze.contains(AnalysisKind::Callout))
    &&& (a.callout matches Some(c) ==> c.call == callout_of(content))
}

/// The analyses that `analyze` asks for of a line's content.
pub fn analyze_content(content: &str, analyze: &Vec<AnalysisKind>, star_map: &StarMap) -> (r: LogAnalysis)
    ensures
        analysis_of(r, content@, analyze@, *star_map),
{
    let intel = if asks_for(analyze, AnalysisKind::Intel) {
        Some(IntelAnalyzer.analyze(content, star_map))
    } else {
        None
    };
    let callout = if asks_for(analyze, AnalysisKind::Callout) {
        Some(CalloutAnalyzer.analyze(content))
    } else {
        None
    };
    LogAnalysis { intel, callout }
}

/// Whether `e` is the entry of the log `character_log` that a line saying `p`
/// makes, with the analyses that `analyze` asks for.
pub open spec fn entry_of(
    e: LogEntry,
    character_log: CharacterLog,
    p: (Timestamp, Option<Seq<char>>, Seq<char>),
    analyze: Seq<AnalysisKind>,
    map: StarMap,
) -> bool {
    &&& e.character_log == character_log
    &&& e.timestamp == p.0
    &&& match p.1 {
        None => e.author == ChatAuthor::System,
        Some(a) => e.author matches ChatAuthor::Character(n) && n@ == a,
    }
    &&& e.content@ == p.2
    &&& analysis_of(e.analysis, p.2, analyze, map)
}

/// Whether a line was read whole: it is not empty and ends with a line break.
pub open spec fn complete_line(l: Seq<char>) -> bool {
    l.len() > 0 && l.last() == '\n'
}

/// How many lines are read: those before the first that is not whole.
pub open spec fn read_count(lines: Seq<Seq<char>>) -> nat
    decreases lines.len(),
{
    if lines.len() > 0 && complete_line(lines[0]) {
        1 + read_count(lines.drop_first())
    } else {
        0
    }
}

/// How far a line moves the cursor: its bytes in the file, which is UTF-8 for
/// game logs and UTF-16 for chat logs.
pub open spec fn line_size(l: Seq<char>, is_utf8: bool) -> nat {
    if is_utf8 {
        crate::text::utf8_len(l)
    } else {
        crate::text::utf16_len(l) * 2
    }
}

/// How far the lines `lines` move the cursor.
pub open spec fn lines_size(lines: Seq<Seq<char>>, is_utf8: bool) -> nat
    decreases lines.len(),
{
    if lines.len() == 0 {
        0
    } else {
        lines_size(lines.drop_last(), is_utf8) + line_size(lines.last(), is_utf8)
    }
}

/// The number of characters of the lines `lines` together.
pub open spec fn chars_total(lines: Seq<Seq<char>>) -> nat
    decreases lines.len(),
{
    if lines.len() == 0 {
        0
    } else {
        chars_total(lines.drop_last()) + lines.last().len()
    }
}

/// Whether every character of the lines is below `bound` as a code point.
pub open spec fn chars_below(lines: Seq<Seq<char>>, bound: u32) -> bool {
    forall|i: int, j: int|
        0 <= i < lines.len() && 0 <= j < lines[i].len() ==> (#[trigger] lines[i][j] as u32) < bound
}

/// A text of characters below `bound` (at most the first code point past the
/// basic plane) takes one UTF-16 code unit per character, and, below 0x80, one
/// UTF-8 byte per character.
proof fn lemma_narrow_text(l: Seq<char>, bound: u32)
    requires
        bound <= 0x10000,
        forall|j: int| 0 <= j < l.len() ==> (#[trigger] l[j] as u32) < bound,
    ensures
        crate::text::utf16_len(l) == l.len(),
        bound <= 0x80 ==> crate::text::utf8_len(l) == l.len(),
    decreases l.len(),
{
    if l.len() > 0 {
        let t = l.drop_last();
        assert forall|j: int| 0 <= j < t.len() implies (#[trigger] t[j] as u32) < bound by {
            assert(t[j] == l[j]);
        }
        lemma_narrow_text(t, bound);
        assert((l[l.len() - 1] as u32) < bound);
    }
}

/// Reading chat lines moves the cursor by their size in the file, which is
/// UTF-16LE: two bytes per code unit, so two bytes per character for characters
/// of the basic plane (an ASCII line of `k` characters moves it by `2k`), and
/// never less than two bytes per character. Reading game lines, which are UTF-8,
/// moves it by one byte per ASCII character.
pub proof fn lemma_cursor_bytes(lines: Seq<Seq<char>>)
    ensures
        lines_size(lines, false) >= 2 * chars_total(lines),
        lines_size(lines, false) % 2 == 0,
        chars_below(lines, 0x10000) ==> lines_size(lines, false) == 2 * chars_total(lines),
        chars_below(lines, 0x80) ==> lines_size(lines, true) == chars_total(lines),
    decreases lines.len(),
{
    if lines.len() > 0 {
        let t = lines.drop_last();
        let l = lines.last();
        lemma_cursor_bytes(t);
        lemma_utf16_at_least(l);
        if chars_below(lines, 0x10000) {
            assert forall|i: int, j: int| 0 <= i < t.len() && 0 <= j < t[i].len() implies (
            #[trigger] t[i][j] as u32) < 0x10000 by {
                assert(t[i] == lines[i]);
            }
            assert forall|j: int| 0 <= j < l.len() implies (#[trigger] l[j] as u32) < 0x10000 by {
                assert(l == lines[lines.len() - 1]);
            }
            lemma_narrow_text(l, 0x10000);
        }
        if chars_below(lines, 0x80) {
            assert forall|i: int, j: int| 0 <= i < t.len() && 0 <= j < t[i].len() implies (
            #[trigger] t[i][j] as u32) < 0x80 by {
                assert(t[i] == lines[i]);
            }
            assert forall|j: int| 0 <= j < l.len() implies (#[trigger] l[j] as u32) < 0x80 by {
                assert(l == lines[lines.len() - 1]);
            }
            lemma_narrow_text(l, 0x80);
        }
    }
}

/// A text takes at least one UTF-16 code unit per character.
proof fn lemma_utf16_at_least(l: Seq<char>)
    ensures
        crate::text::utf16_len(l) >= l.len(),
    decreases l.len(),
{
    if l.len() > 0 {
        lemma_utf16_at_least(l.drop_last());
    }
}

/// What the lines `lines` say, for those that say anything.
pub open spec fn lines_parts(lines: Seq<Seq<char>>, is_chat: bool) -> Seq<(Timestamp, Option<Seq<char>>, Seq<char>)>
    decreases lines.len(),
{
    if lines.len() == 0 {
        seq![]
    } else {
        let before = lines_parts(lines.drop_last(), is_chat);
        match line_parts(lines.last(), is_chat) {
            Some(p) => before.push(p),
            None => before,
        }
    }
}

/// What a read of a log file gives: the entries, and where the next read starts.
#[derive(Debug)]
pub struct LogRead {
    pub character_log: CharacterLog,
    pub cursor: u64,
    pub entries: Vec<LogEntry>,
}

proof fn lemma_read_count_step(lines: Seq<Seq<char>>, i: int)
    requires
        0 <= i < lines.len(),
        read_count(lines) == i + read_count(lines.skip(i)),
    ensures
        complete_line(lines[i]) ==> read_count(lines) == i + 1 + read_count(lines.skip(i + 1)),
        !complete_line(lines[i]) ==> read_count(lines) == i,
{
    let t = lines.skip(i);
    assert(t[0] == lines[i]);
    assert(t.drop_first() =~= lines.skip(i + 1));
}

/// Reads the lines of a log file from `cursor` on: the lines up to the first that
/// is not whole are read, each moves the cursor by its size in the file, and each
/// that says something becomes an entry of `character_log` with the analyses that
/// `analyze` asks for.
pub fn read_log_lines(
    character_log: CharacterLog,
    analyze: &Vec<AnalysisKind>,
    star_map: &StarMap,
    lines: &Vec<String>,
    cursor: u64,
) -> (r: LogRead)
    requires
        cursor + lines_size(
            crate::indices::str_views(lines@).take(read_count(crate::indices::str_views(lines@)) as int),
            character_log is Game,
        ) <= u64::MAX,
    ensures
        ({
            let ls = crate::indices::str_views(lines@);
            let n = read_count(ls) as int;
            &&& r.character_log == character_log
            &&& r.cursor == cursor + lines_size(ls.take(n), character_log is Game)
            &&& r.entries@.len() == lines_parts(ls.take(n), !(character_log is Game)).len()
            &&& forall|i: int|
                0 <= i < r.entries@.len() ==> entry_of(
                    #[trigger] r.entries@[i],
                    character_log,
                    lines_parts(ls.take(n), !(character_log is Game))[i],
                    analyze@,
                    *star_map,
                )
        }),
{
    let is_chat = character_log.is_chat();
    let is_utf8 = !is_chat;
    let ghost ls = crate::indices::str_views(lines@);
    let ghost total = read_count(ls) as int;
    let mut entries: Vec<LogEntry> = Vec::new();
    let mut cur: u64 = cursor;
    let mut i: usize = 0;
    assert(ls.skip(0) =~= ls);
    assert(ls.take(0) =~= Seq::<Seq<char>>::empty());
    proof {
        lemma_read_count_bound(ls);
        lemma_lines_size_prefix(ls, 0, total);
    }
    while i < lines.len()
        invariant
            ls == crate::indices::str_views(lines@),
            ls.len() == lines@.len(),
            total == read_count(ls),
            i <= lines.len(),
            is_chat == !(character_log is Game),
            is_utf8 == !is_chat,
            read_count(ls) == i + read_count(ls.skip(i as int)),
            cursor + lines_size(ls.take(total), is_utf8) <= u64::MAX,
            i <= total,
            total <= ls.len(),
            cur == cursor + lines_size(ls.take(i as int), is_utf8),
            entries@.len() == lines_parts(ls.take(i as int), is_chat).len(),
            forall|k: int|
                0 <= k < entries@.len() ==> entry_of(
                    #[trigger] entries@[k],
                    character_log,
                    lines_parts(ls.take(i as int), is_chat)[k],
                    analyze@,
                    *star_map,
                ),
        ensures
            i == total,
            cur == cursor + lines_size(ls.take(i as int), is_utf8),
            entries@.len() == lines_parts(ls.take(i as int), is_chat).len(),
            forall|k: int|
                0 <= k < entries@.len() ==> entry_of(
                    #[trigger] entries@[k],
                    character_log,
                    lines_parts(ls.take(i as int), is_chat)[k],
                    analyze@,
                    *star_map,
                ),
        decreases lines.len() - i,
    {
        let buf = &lines[i];
        assert(ls[i as int] == buf@);
        let cs = chars_of(buf.as_str());
        proof {
            lemma_read_count_step(ls, i as int);
        }
        if cs.len() == 0 || cs[cs.len() - 1] != '\n' {
            assert(!complete_line(ls[i as int]));
            break;
        }
        assert(complete_line(ls[i as int]));
        let size: u128 = if is_utf8 {
            crate::text::utf8_length(&cs)
        } else {
            crate::text::utf16_length(&cs) * 2
        };
        let ghost t = ls.take(i as int + 1);
        assert(t.drop_last() =~= ls.take(i as int));
        assert(t.last() == ls[i as int]);
        proof {
            lemma_lines_size_prefix(ls, i as int + 1, total);
        }
        cur = cur + size as u64;
        match parse_log_line(buf.as_str(), is_chat) {
            Some((timestamp, author, content)) => {
                let analysis = analyze_content(content.as_str(), analyze, star_map);
                let entry = LogEntry { character_log, timestamp, author, content, analysis };
                entries.push(entry);
            },
            None => {},
        }
        i = i + 1;
    }
    LogRead { character_log, cursor: cur, entries }
}

proof fn lemma_read_count_bound(ls: Seq<Seq<char>>)
    ensures
        read_count(ls) <= ls.len(),
    decreases ls.len(),
{
    if ls.len() > 0 && complete_line(ls[0]) {
        lemma_read_count_bound(ls.drop_first());
    }
}

/// A read takes the lines up to the first that is not whole: every line it takes
/// ends with a line break, and the line after them, if there is one, does not
/// (a line still being written is left for the next read).
pub proof fn lemma_read_count_whole(ls: Seq<Seq<char>>)
    ensures
        read_count(ls) <= ls.len(),
        forall|i: int| 0 <= i < read_count(ls) ==> #[trigger] ls[i].len() > 0 && ls[i].last() == '\n',
        read_count(ls) < ls.len() ==> !(ls[read_count(ls) as int].len() > 0 && ls[read_count(
            ls,
        ) as int].last() == '\n'),
    decreases ls.len(),
{
    if ls.len() > 0 && complete_line(ls[0]) {
        let t = ls.drop_first();
        lemma_read_count_whole(t);
        assert forall|i: int| 0 <= i < read_count(ls) implies #[trigger] ls[i].len() > 0 && ls[i].last()
            == '\n' by {
            if i > 0 {
                assert(ls[i] == t[i - 1]);
            }
        }
        if read_count(ls) < ls.len() {
            assert(ls[read_count(ls) as int] == t[read_count(t) as int]);
        }
    }
}

proof fn lemma_lines_size_prefix(ls: Seq<Seq<char>>, i: int, n: int)
    requires
        0 <= i <= n <= ls.len(),
    ensures
        lines_size(ls.take(i), true) <= lines_size(ls.take(n), true),
        lines_size(ls.take(i), false) <= lines_size(ls.take(n), false),
    decreases n - i,
{
    if i < n {
        lemma_lines_size_prefix(ls, i, n - 1);
        let t = ls.take(n);
        assert(t.drop_last() =~= ls.take(n - 1));
    }
}


/// The directory kind of a directory's name is the kind whose directory it is:
/// the names of the two kinds stand for them and for nothing else.
pub proof fn lemma_dir_name_round_trip(k: LogDirKind)
    ensures
        log_dir_kind_of(
            match k {
                LogDirKind::Game => "Gamelogs"@,
                LogDirKind::Chat => "Chatlogs"@,
            },
        ) == Some(k),
{
    reveal_strlit("Gamelogs");
    reveal_strlit("Chatlogs");
    assert("Gamelogs"@ != "Chatlogs"@) by {
        assert("Gamelogs"@[0] != "Chatlogs"@[0]);
    }
}

} // verus!
