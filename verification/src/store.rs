//! The logs being watched: for each character log, the entries read and not yet
//! taken, and for each character, the file it is read from and how far.

use vstd::prelude::*;
use crate::CharacterId;
use crate::log_kind::CharacterLog;
use crate::logs::{LogEntry, LogFile, LogRead, file_character_log};
use crate::indices::Index;
use crate::log_kind::LogName;
use crate::time::stamp_after;

verus! {

/// A file that a log is read from, and how far it has been read.
#[derive(Debug)]
pub struct LogSource {
    pub file: String,
    pub cursor: u64,
}

/// A watched log: the entries read and not yet taken, and the source of each
/// character's lines.
#[derive(Debug)]
pub struct Log {
    pub character_log: CharacterLog,
    pub entries: Vec<LogEntry>,
    pub sources: Vec<(CharacterId, LogSource)>,
}

/// The watched logs, each character log once.
#[derive(Debug)]
pub struct Logs(pub Vec<Log>);

/// A source as the contracts speak of it: the character, the file and the cursor.
pub open spec fn source_view(s: (CharacterId, LogSource)) -> (CharacterId, Seq<char>, u64) {
    (s.0, s.1.file@, s.1.cursor)
}

/// A log as the contracts speak of it.
pub open spec fn log_view(l: Log) -> (CharacterLog, Seq<LogEntry>, Seq<(CharacterId, Seq<char>, u64)>) {
    (l.character_log, l.entries@, l.sources@.map_values(|s: (CharacterId, LogSource)| source_view(s)))
}

/// The watched logs as the contracts speak of them.
pub open spec fn logs_view(logs: Logs) -> Seq<(CharacterLog, Seq<LogEntry>, Seq<(CharacterId, Seq<char>, u64)>)> {
    logs.0@.map_values(|l: Log| log_view(l))
}

/// The first position below `n` of the log of `c`.
pub open spec fn log_position_below(logs: Seq<Log>, c: CharacterLog, n: int) -> Option<int>
    decreases n,
{
    if n <= 0 {
        None
    } else {
        match log_position_below(logs, c, n - 1) {
            Some(i) => Some(i),
            None => if logs[n - 1].character_log == c {
                Some(n - 1)
            } else {
                None
            },
        }
    }
}

/// The position of the log of `c`.
pub open spec fn log_position(logs: Seq<Log>, c: CharacterLog) -> Option<int> {
    log_position_below(logs, c, logs.len() as int)
}

/// The first position below `n` of the source of the character `id`.
pub open spec fn source_position_below(s: Seq<(CharacterId, LogSource)>, id: CharacterId, n: int) -> Option<int>
    decreases n,
{
    if n <= 0 {
        None
    } else {
        match source_position_below(s, id, n - 1) {
            Some(i) => Some(i),
            None => if s[n - 1].0 == id {
                Some(n - 1)
            } else {
                None
            },
        }
    }
}

/// The position of the source of the character `id`.
pub open spec fn source_position(s: Seq<(CharacterId, LogSource)>, id: CharacterId) -> Option<int> {
    source_position_below(s, id, s.len() as int)
}

/// Whether no character log occurs twice, and in each log no character has two
/// sources.
pub open spec fn logs_wf(logs: Seq<Log>) -> bool {
    &&& forall|i: int, j: int|
        0 <= i < j < logs.len() ==> #[trigger] logs[i].character_log != #[trigger] logs[j].character_log
    &&& forall|i: int|
        0 <= i < logs.len() ==> #[trigger] sources_wf(logs[i].sources@)
}

/// Whether no character has two sources.
pub open spec fn sources_wf(s: Seq<(CharacterId, LogSource)>) -> bool {
    forall|i: int, j: int| 0 <= i < j < s.len() ==> #[trigger] s[i].0 != #[trigger] s[j].0
}

proof fn lemma_log_position(logs: Seq<Log>, c: CharacterLog, n: int)
    requires
        0 <= n <= logs.len(),
    ensures
        log_position_below(logs, c, n) matches Some(i) ==> 0 <= i < n && logs[i].character_log == c,
        log_position_below(logs, c, n) is None ==> forall|j: int|
            0 <= j < n ==> #[trigger] logs[j].character_log != c,
    decreases n,
{
    if n > 0 {
        lemma_log_position(logs, c, n - 1);
    }
}

proof fn lemma_log_found(logs: Seq<Log>, c: CharacterLog, m: int, n: int, i: int)
    requires
        log_position_below(logs, c, m) == Some(i),
        m <= n,
    ensures
        log_position_below(logs, c, n) == Some(i),
    decreases n - m,
{
    if n > m {
        lemma_log_found(logs, c, m, n - 1, i);
    }
}

proof fn lemma_source_position(s: Seq<(CharacterId, LogSource)>, id: CharacterId, n: int)
    requires
        0 <= n <= s.len(),
    ensures
        source_position_below(s, id, n) matches Some(i) ==> 0 <= i < n && s[i].0 == id,
        source_position_below(s, id, n) is None ==> forall|j: int| 0 <= j < n ==> #[trigger] s[j].0 != id,
    decreases n,
{
    if n > 0 {
        lemma_source_position(s, id, n - 1);
    }
}

proof fn lemma_source_found(s: Seq<(CharacterId, LogSource)>, id: CharacterId, m: int, n: int, i: int)
    requires
        source_position_below(s, id, m) == Some(i),
        m <= n,
    ensures
        source_position_below(s, id, n) == Some(i),
    decreases n - m,
{
    if n > m {
        lemma_source_found(s, id, m, n - 1, i);
    }
}

/// The position of the log of `c` in `logs`.
fn find_log(logs: &Vec<Log>, c: CharacterLog) -> (r: Option<usize>)
    ensures
        match r {
            Some(i) => log_position(logs@, c) == Some(i as int) && i < logs@.len(),
            None => log_position(logs@, c) is None,
        },
{
    let mut i: usize = 0;
    while i < logs.len()
        invariant
            i <= logs.len(),
            log_position_below(logs@, c, i as int) is None,
        decreases logs.len() - i,
    {
        if logs[i].character_log == c {
            proof {
                lemma_log_found(logs@, c, i as int + 1, logs@.len() as int, i as int);
            }
            return Some(i);
        }
        i = i + 1;
    }
    None
}

/// The position of the source of the character `id` in `s`.
fn find_source(s: &Vec<(CharacterId, LogSource)>, id: CharacterId) -> (r: Option<usize>)
    ensures
        match r {
            Some(i) => source_position(s@, id) == Some(i as int) && i < s@.len(),
            None => source_position(s@, id) is None,
        },
{
    let mut i: usize = 0;
    while i < s.len()
        invariant
            i <= s.len(),
            source_position_below(s@, id, i as int) is None,
        decreases s.len() - i,
    {
        if s[i].0 == id {
            proof {
                lemma_source_found(s@, id, i as int + 1, s@.len() as int, i as int);
            }
            return Some(i);
        }
        i = i + 1;
    }
    None
}

/// The sources of a log after a file of the character `id` at `path` was read up
/// to `cursor`: a character with no source gets one there; one whose source is
/// another file starts that file again from its beginning; one whose source is
/// this file keeps it.
pub open spec fn sources_after_push(
    s: Seq<(CharacterId, Seq<char>, u64)>,
    at: Option<int>,
    id: CharacterId,
    path: Seq<char>,
    cursor: u64,
) -> Seq<(CharacterId, Seq<char>, u64)> {
    match at {
        Some(k) => if s[k].1 == path {
            s
        } else {
            s.update(k, (id, path, 0u64))
        },
        None => s.push((id, path, cursor)),
    }
}

impl Logs {
    /// A log for each of the character logs `watch`, with no entries and no
    /// sources.
    pub fn watching(watch: &Vec<CharacterLog>) -> (r: Self)
        ensures
            logs_wf(r.0@),
            forall|c: CharacterLog| (#[trigger] log_position(r.0@, c) is Some) == watch@.contains(c),
            forall|i: int|
                0 <= i < r.0@.len() ==> (#[trigger] r.0@[i]).entries@.len() == 0
                    && r.0@[i].sources@.len() == 0,
    {
        let mut out: Vec<Log> = Vec::new();
        let mut i: usize = 0;
        while i < watch.len()
            invariant
                i <= watch.len(),
                logs_wf(out@),
                forall|c: CharacterLog|
                    (#[trigger] log_position(out@, c) is Some) == watch@.take(i as int).contains(c),
                forall|k: int|
                    0 <= k < out@.len() ==> (#[trigger] out@[k]).entries@.len() == 0
                        && out@[k].sources@.len() == 0,
            decreases watch.len() - i,
        {
            let c = watch[i];
            let ghost before = out@;
            proof {
                lemma_log_position(before, c, before.len() as int);
            }
            match find_log(&out, c) {
                Some(_) => {},
                None => {
                    out.push(Log { character_log: c, entries: Vec::new(), sources: Vec::new() });
                    proof {
                        assert forall|x: CharacterLog|
                            (#[trigger] log_position(out@, x) is Some) == (log_position(before, x) is Some
                                || x == c) by {
                            lemma_log_position(before, x, before.len() as int);
                            lemma_log_position(out@, x, out@.len() as int);
                            if log_position(before, x) is Some {
                                let j = log_position(before, x)->0;
                                assert(out@[j] == before[j]);
                                assert(out@[j].character_log == x);
                            }
                            if x == c {
                                assert(out@[before.len() as int].character_log == c);
                            }
                        }
                    }
                },
            }
            proof {
                assert forall|x: CharacterLog|
                    #[trigger] watch@.take(i as int + 1).contains(x) == (watch@.take(
                        i as int,
                    ).contains(x) || x == c) by {
                    let t = watch@.take(i as int + 1);
                    if t.contains(x) {
                        let j = choose|j: int| 0 <= j < t.len() && t[j] == x;
                        if j < i {
                            assert(watch@.take(i as int)[j] == x);
                        }
                    }
                    if watch@.take(i as int).contains(x) {
                        let j = choose|j: int|
                            0 <= j < i && watch@.take(i as int)[j] == x;
                        assert(t[j] == x);
                    }
                    if x == c {
                        assert(t[i as int] == x);
                    }
                }
            }
            i = i + 1;
        }
        assert(watch@.take(watch.len() as int) =~= watch@);
        Logs(out)
    }

    /// The log of `character_log`, to change; changing its character log breaks
    /// the rule that each occurs once.
    pub fn get_mut(&mut self, character_log: CharacterLog) -> (r: Option<&mut Log>)
        ensures
            match log_position(old(self).0@, character_log) {
                Some(i) => r.is_some() && *r.unwrap() == old(self).0@[i] && final(self).0@
                    == old(self).0@.update(i, *final(r.unwrap())) && (logs_wf(old(self).0@)
                    && final(r.unwrap()).character_log == character_log && sources_wf(
                    final(r.unwrap()).sources@,
                ) ==> logs_wf(final(self).0@)),
                None => r.is_none() && *final(self) == *old(self),
            },
    {
        match find_log(&self.0, character_log) {
            Some(i) => {
                proof {
                    lemma_log_position(self.0@, character_log, self.0@.len() as int);
                }
                Some(&mut self.0[i])
            },
            None => None,
        }
    }

    /// Adds what was read of the file `logfile` to the log of the read: its
    /// entries are appended, and the source of the file's character is kept, set
    /// or started again as [sources_after_push] says. A log that is not watched yet
    /// is added.
    pub fn push(&mut self, logfile: &LogFile, read: LogRead)
        requires
            logs_wf(old(self).0@),
        ensures
            logs_wf(final(self).0@),
            entries_of(final(self).0@, read.character_log) == entries_of(
                old(self).0@,
                read.character_log,
            ) + read.entries@,
            match log_position(old(self).0@, read.character_log) {
                Some(i) => logs_view(*final(self)) == logs_view(*old(self)).update(
                    i,
                    (
                        read.character_log,
                        old(self).0@[i].entries@ + read.entries@,
                        sources_after_push(
                            log_view(old(self).0@[i]).2,
                            source_position(old(self).0@[i].sources@, logfile.parts.character_id),
                            logfile.parts.character_id,
                            logfile.path@,
                            read.cursor,
                        ),
                    ),
                ),
                None => logs_view(*final(self)) == logs_view(*old(self)).push(
                    (
                        read.character_log,
                        read.entries@,
                        seq![(logfile.parts.character_id, logfile.path@, read.cursor)],
                    ),
                ),
            },
    {
        let ghost old_logs = self.0@;
        let id = logfile.character_id();
        let path = logfile.path();
        proof {
            lemma_log_position(old_logs, read.character_log, old_logs.len() as int);
        }
        match find_log(&self.0, read.character_log) {
            Some(i) => {
                let mut log = self.0.remove(i);
                let ghost old_log = log;
                let mut entries = read.entries;
                log.entries.append(&mut entries);
                let ghost old_sources = log.sources@;
                proof {
                    lemma_source_position(old_sources, id, old_sources.len() as int);
                    assert(sources_wf(old_logs[i as int].sources@));
                }
                match find_source(&log.sources, id) {
                    Some(k) => {
                        if !crate::text::str_eq(log.sources[k].1.file.as_str(), path) {
                            let (sid, _) = log.sources.remove(k);
                            log.sources.insert(
                                k,
                                (sid, LogSource { file: logfile.path.clone(), cursor: 0 }),
                            );
                            assert(log.sources@ =~= old_sources.update(
                                k as int,
                                (id, LogSource { file: logfile.path, cursor: 0 }),
                            ));
                        }
                    },
                    None => {
                        log.sources.push((id, LogSource { file: logfile.path.clone(), cursor: read.cursor }));
                    },
                }
                assert(log.sources@.map_values(|s: (CharacterId, LogSource)| source_view(s))
                    =~= sources_after_push(
                    old_sources.map_values(|s: (CharacterId, LogSource)| source_view(s)),
                    source_position(old_sources, id),
                    id,
                    logfile.path@,
                    read.cursor,
                ));
                assert(sources_wf(log.sources@));
                let ghost c = read.character_log;
                self.0.insert(i, log);
                assert(self.0@ =~= old_logs.update(i as int, log));
                assert(logs_view(*self) =~= old_logs.map_values(|l: Log| log_view(l)).update(i as int, log_view(log)));
                proof {
                    lemma_same_logs_position(self.0@, old_logs, c, old_logs.len() as int);
                }
            },
            None => {
                let mut sources: Vec<(CharacterId, LogSource)> = Vec::new();
                sources.push((id, LogSource { file: logfile.path.clone(), cursor: read.cursor }));
                let log = Log { character_log: read.character_log, entries: read.entries, sources };
                assert(log.sources@.map_values(|s: (CharacterId, LogSource)| source_view(s)) =~= seq![
                    (id, logfile.path@, read.cursor),
                ]);
                let ghost c = log.character_log;
                self.0.push(log);
                assert(logs_view(*self) =~= old_logs.map_values(|l: Log| log_view(l)).push(log_view(log)));
                proof {
                    lemma_same_logs_position(self.0@, old_logs, c, old_logs.len() as int);
                    assert(self.0@[old_logs.len() as int].character_log == c);
                }
            },
        }
    }

    /// Takes the entries of the log of `character_log`, leaving it none; nothing
    /// where that log is not watched.
    pub fn take_entries(&mut self, character_log: &CharacterLog) -> (r: Vec<LogEntry>)
        requires
            logs_wf(old(self).0@),
        ensures
            logs_wf(final(self).0@),
            r@ == entries_of(old(self).0@, *character_log),
            entries_of(final(self).0@, *character_log) == Seq::<LogEntry>::empty(),
            match log_position(old(self).0@, *character_log) {
                Some(i) => r@ == old(self).0@[i].entries@ && logs_view(*final(self)) == logs_view(
                    *old(self),
                ).update(i, (*character_log, Seq::<LogEntry>::empty(), log_view(old(self).0@[i]).2)),
                None => r@ == Seq::<LogEntry>::empty() && logs_view(*final(self)) == logs_view(
                    *old(self),
                ),
            },
    {
        let ghost old_logs = self.0@;
        proof {
            lemma_log_position(old_logs, *character_log, old_logs.len() as int);
        }
        match find_log(&self.0, *character_log) {
            Some(i) => {
                let mut log = self.0.remove(i);
                let mut taken: Vec<LogEntry> = Vec::new();
                std::mem::swap(&mut taken, &mut log.entries);
                self.0.insert(i, log);
                assert(self.0@ =~= old_logs.update(i as int, log));
                proof {
                    lemma_same_logs_position(self.0@, old_logs, *character_log, old_logs.len() as int);
                }
                assert(logs_view(*self) =~= old_logs.map_values(|l: Log| log_view(l)).update(i as int, log_view(log)));
                taken
            },
            None => {
                proof {
                    lemma_same_logs_position(self.0@, old_logs, *character_log, old_logs.len() as int);
                }
                Vec::new()
            },
        }
    }

    /// The offset to read the log of `character_log` from, for its character's
    /// file at `path`: a character with no source starts there from the
    /// beginning; one whose source is another file starts that file from its
    /// beginning; one whose source is this file goes on from its cursor.
    pub fn cursor_for(&mut self, character_log: CharacterLog, path: &str) -> (r: u64)
        requires
            logs_wf(old(self).0@),
            log_position(old(self).0@, character_log) is Some,
        ensures
            logs_wf(final(self).0@),
            ({
                let i = log_position(old(self).0@, character_log)->0;
                let s = log_view(old(self).0@[i]).2;
                let id = crate::log_kind::log_character(character_log);
                match source_position(old(self).0@[i].sources@, id) {
                    Some(k) => if s[k].1 == path@ {
                        r == s[k].2 && logs_view(*final(self)) == logs_view(*old(self))
                    } else {
                        r == 0 && logs_view(*final(self)) == logs_view(*old(self)).update(
                            i,
                            (character_log, old(self).0@[i].entries@, s.update(k, (id, path@, 0u64))),
                        )
                    },
                    None => r == 0 && logs_view(*final(self)) == logs_view(*old(self)).update(
                        i,
                        (character_log, old(self).0@[i].entries@, s.push((id, path@, 0u64))),
                    ),
                }
            }),
    {
        let ghost old_logs = self.0@;
        proof {
            lemma_log_position(old_logs, character_log, old_logs.len() as int);
        }
        let i = match find_log(&self.0, character_log) {
            Some(i) => i,
            None => {
                return 0;
            },
        };
        let id = character_log.character_id();
        let mut log = self.0.remove(i);
        let ghost old_sources = log.sources@;
        proof {
            lemma_source_position(old_sources, id, old_sources.len() as int);
            assert(sources_wf(old_logs[i as int].sources@));
        }
        let cursor = match find_source(&log.sources, id) {
            Some(k) => {
                if crate::text::str_eq(log.sources[k].1.file.as_str(), path) {
                    log.sources[k].1.cursor
                } else {
                    let (sid, _) = log.sources.remove(k);
                    log.sources.insert(k, (sid, LogSource { file: path.to_owned(), cursor: 0 }));
                    assert(log.sources@.map_values(|s: (CharacterId, LogSource)| source_view(s))
                        =~= old_sources.map_values(|s: (CharacterId, LogSource)| source_view(s)).update(
                        k as int,
                        (id, path@, 0u64),
                    ));
                    0
                }
            },
            None => {
                log.sources.push((id, LogSource { file: path.to_owned(), cursor: 0 }));
                assert(log.sources@.map_values(|s: (CharacterId, LogSource)| source_view(s))
                    =~= old_sources.map_values(|s: (CharacterId, LogSource)| source_view(s)).push(
                    (id, path@, 0u64),
                ));
                0
            },
        };
        assert(sources_wf(log.sources@));
        self.0.insert(i, log);
        assert(self.0@ =~= old_logs.update(i as int, log));
        assert(logs_view(*self) =~= old_logs.map_values(|l: Log| log_view(l)).update(i as int, log_view(log)));
        cursor
    }

    /// Records a read of the log of the read's character log, whose source was
    /// just given by [Logs::cursor_for]: the source's cursor moves to where the read
    /// ended, and the entries are appended.
    pub fn record_read(&mut self, read: LogRead)
        requires
            logs_wf(old(self).0@),
            log_position(old(self).0@, read.character_log) is Some,
        ensures
            logs_wf(final(self).0@),
            ({
                let i = log_position(old(self).0@, read.character_log)->0;
                let s = log_view(old(self).0@[i]).2;
                let id = crate::log_kind::log_character(read.character_log);
                logs_view(*final(self)) == logs_view(*old(self)).update(
                    i,
                    (
                        read.character_log,
                        old(self).0@[i].entries@ + read.entries@,
                        match source_position(old(self).0@[i].sources@, id) {
                            Some(k) => s.update(k, (id, s[k].1, read.cursor)),
                            None => s,
                        },
                    ),
                )
            }),
    {
        let ghost old_logs = self.0@;
        proof {
            lemma_log_position(old_logs, read.character_log, old_logs.len() as int);
        }
        let i = match find_log(&self.0, read.character_log) {
            Some(i) => i,
            None => {
                return;
            },
        };
        let id = read.character_log.character_id();
        let mut log = self.0.remove(i);
        let ghost old_sources = log.sources@;
        proof {
            lemma_source_position(old_sources, id, old_sources.len() as int);
            assert(sources_wf(old_logs[i as int].sources@));
        }
        match find_source(&log.sources, id) {
            Some(k) => {
                let (sid, src) = log.sources.remove(k);
                log.sources.insert(k, (sid, LogSource { file: src.file, cursor: read.cursor }));
                assert(log.sources@.map_values(|s: (CharacterId, LogSource)| source_view(s))
                    =~= old_sources.map_values(|s: (CharacterId, LogSource)| source_view(s)).update(
                    k as int,
                    (id, old_sources[k as int].1.file@, read.cursor),
                ));
            },
            None => {
                assert(log.sources@.map_values(|s: (CharacterId, LogSource)| source_view(s))
                    =~= old_sources.map_values(|s: (CharacterId, LogSource)| source_view(s)));
            },
        }
        let mut entries = read.entries;
        log.entries.append(&mut entries);
        assert(sources_wf(log.sources@));
        self.0.insert(i, log);
        assert(self.0@ =~= old_logs.update(i as int, log));
        assert(logs_view(*self) =~= old_logs.map_values(|l: Log| log_view(l)).update(i as int, log_view(log)));
    }
}


/// A log file with the character log it belongs to.
#[derive(Debug)]
pub struct CharacterLogFile {
    pub character_log: CharacterLog,
    pub file: LogFile,
}

/// The log file `file` with its character log, if its log is indexed and one of
/// `watch`. Private conversations are not supported.
pub fn watched_log_file(file: LogFile, index: &Index, watch: &Vec<CharacterLog>) -> (r: Option<CharacterLogFile>)
    requires
        !(file.parts.name matches LogName::Chat(n) && n@ == "Private"@),
    ensures
        match r {
            Some(f) => f.file == file && watch@.contains(f.character_log) && file_character_log(
                file,
                *index,
            ) == Some(f.character_log),
            None => !(file_character_log(file, *index) matches Some(c) && watch@.contains(c)),
        },
{
    let character_log = match file.to_character_log(index) {
        Ok(c) => c,
        Err(_) => {
            return None;
        },
    };
    assert(file_character_log(file, *index) == Some(character_log));
    let mut i: usize = 0;
    while i < watch.len()
        invariant
            i <= watch.len(),
            file_character_log(file, *index) == Some(character_log),
            forall|k: int| 0 <= k < i ==> watch@[k] != character_log,
        decreases watch.len() - i,
    {
        if watch[i] == character_log {
            assert(watch@[i as int] == character_log);
            assert(watch@.contains(character_log));
            return Some(CharacterLogFile { character_log, file });
        }
        i = i + 1;
    }
    None
}

/// Whether the file at position `i` is the latest of its character log: none of
/// that log is later, and none after it is as late.
pub open spec fn is_latest(files: Seq<CharacterLogFile>, i: int) -> bool {
    forall|j: int|
        0 <= j < files.len() && #[trigger] files[j].character_log == files[i].character_log ==> !stamp_after(
            files[j].file.parts.timestamp,
            files[i].file.parts.timestamp,
        ) && (j > i ==> stamp_after(files[i].file.parts.timestamp, files[j].file.parts.timestamp))
}

/// The position of the latest file of each character log among `files`: one
/// for each character log that occurs, in the order in which they first occur.
pub fn latest_positions(files: &Vec<CharacterLogFile>) -> (r: Vec<usize>)
    ensures
        forall|k: int| 0 <= k < r@.len() ==> (#[trigger] r@[k]) < files@.len() && is_latest(files@, r@[k] as int),
        forall|k: int, m: int|
            0 <= k < m < r@.len() ==> files@[#[trigger] r@[k] as int].character_log != files@[#[trigger] r@[m] as int].character_log,
        forall|j: int|
            0 <= j < files@.len() ==> exists|k: int|
                0 <= k < r@.len() && files@[#[trigger] r@[k] as int].character_log == #[trigger] files@[j].character_log,
{
    let mut out: Vec<usize> = Vec::new();
    let mut i: usize = 0;
    while i < files.len()
        invariant
            i <= files.len(),
            forall|k: int| 0 <= k < out@.len() ==> (#[trigger] out@[k]) < files@.len() && is_latest(files@, out@[k] as int),
            forall|k: int, m: int|
                0 <= k < m < out@.len() ==> files@[#[trigger] out@[k] as int].character_log != files@[#[trigger] out@[m] as int].character_log,
            forall|j: int|
                0 <= j < i ==> exists|k: int|
                    0 <= k < out@.len() && files@[#[trigger] out@[k] as int].character_log == #[trigger] files@[j].character_log,
        decreases files.len() - i,
    {
        let c = files[i].character_log;
        let mut seen = false;
        let mut k: usize = 0;
        while k < out.len()
            invariant
                k <= out.len(),
                forall|q: int| 0 <= q < out@.len() ==> (#[trigger] out@[q]) < files@.len(),
                seen ==> exists|q: int| 0 <= q < out@.len() && files@[#[trigger] out@[q] as int].character_log == c,
                !seen ==> forall|q: int| 0 <= q < k ==> files@[#[trigger] out@[q] as int].character_log != c,
            decreases out.len() - k,
        {
            if files[out[k]].character_log == c {
                seen = true;
            }
            k = k + 1;
        }
        if !seen {
            let mut best: usize = i;
            let mut j: usize = i + 1;
            while j < files.len()
                invariant
                    i < j <= files.len(),
                    i <= best < j,
                    files@[best as int].character_log == c,
                    c == files@[i as int].character_log,
                    forall|q: int|
                        0 <= q < j && #[trigger] files@[q].character_log == c ==> !stamp_after(
                            files@[q].file.parts.timestamp,
                            files@[best as int].file.parts.timestamp,
                        ) && (q > best ==> stamp_after(
                            files@[best as int].file.parts.timestamp,
                            files@[q].file.parts.timestamp,
                        )),
                    forall|q: int| 0 <= q < i ==> #[trigger] files@[q].character_log != c,
                decreases files.len() - j,
            {
                if files[j].character_log == c && !files[best].file.parts.timestamp.is_after(
                    &files[j].file.parts.timestamp,
                ) {
                    best = j;
                }
                j = j + 1;
            }
            let ghost before = out@;
            out.push(best);
            proof {
                assert forall|q: int| 0 <= q <= i implies exists|k: int|
                    0 <= k < out@.len() && files@[#[trigger] out@[k] as int].character_log
                        == #[trigger] files@[q].character_log by {
                    if q < i {
                        let k = choose|k: int|
                            0 <= k < before.len() && files@[before[k] as int].character_log
                                == files@[q].character_log;
                        assert(out@[k] == before[k]);
                    } else {
                        assert(out@[before.len() as int] == best);
                    }
                }
            }
        } else {
            proof {
                let w = choose|w: int|
                    0 <= w < out@.len() && files@[out@[w] as int].character_log == c;
                assert(files@[out@[w] as int].character_log == files@[i as int].character_log);
            }
        }
        i = i + 1;
    }
    out
}


/// The entries of the log of `c`; none where it is not watched.
pub open spec fn entries_of(logs: Seq<Log>, c: CharacterLog) -> Seq<LogEntry> {
    match log_position(logs, c) {
        Some(i) => logs[i].entries@,
        None => seq![],
    }
}

/// The entries that taking the logs `watch` in turn gives: those of each log, the
/// first time it comes.
pub open spec fn taken_entries(logs: Seq<Log>, watch: Seq<CharacterLog>) -> Seq<LogEntry>
    decreases watch.len(),
{
    if watch.len() == 0 {
        seq![]
    } else {
        taken_entries(logs, watch.drop_last()) + if watch.drop_last().contains(watch.last()) {
            seq![]
        } else {
            entries_of(logs, watch.last())
        }
    }
}

/// The logs `v` with the entries of the logs `watch` taken.
pub open spec fn emptied(
    v: Seq<(CharacterLog, Seq<LogEntry>, Seq<(CharacterId, Seq<char>, u64)>)>,
    watch: Seq<CharacterLog>,
) -> Seq<(CharacterLog, Seq<LogEntry>, Seq<(CharacterId, Seq<char>, u64)>)> {
    Seq::new(
        v.len(),
        |i: int|
            if watch.contains(v[i].0) {
                (v[i].0, Seq::<LogEntry>::empty(), v[i].2)
            } else {
                v[i]
            },
    )
}

proof fn lemma_same_logs_position(a: Seq<Log>, b: Seq<Log>, c: CharacterLog, n: int)
    requires
        0 <= n <= a.len(),
        n <= b.len(),
        forall|i: int| 0 <= i < n ==> #[trigger] a[i].character_log == b[i].character_log,
    ensures
        log_position_below(a, c, n) == log_position_below(b, c, n),
    decreases n,
{
    if n > 0 {
        lemma_same_logs_position(a, b, c, n - 1);
    }
}

impl Logs {
    /// Takes the entries of the logs `watch` in turn, leaving them none.
    pub fn take_watched(&mut self, watch: &Vec<CharacterLog>) -> (r: Vec<LogEntry>)
        requires
            logs_wf(old(self).0@),
        ensures
            logs_wf(final(self).0@),
            r@ == taken_entries(old(self).0@, watch@),
            logs_view(*final(self)) == emptied(logs_view(*old(self)), watch@),
    {
        let ghost start = self.0@;
        let ghost start_view = logs_view(*self);
        let mut out: Vec<LogEntry> = Vec::new();
        let mut k: usize = 0;
        assert(watch@.take(0) =~= Seq::<CharacterLog>::empty());
        assert(logs_view(*self) =~= emptied(start_view, watch@.take(0)));
        while k < watch.len()
            invariant
                k <= watch.len(),
                logs_wf(self.0@),
                start_view == start.map_values(|l: Log| log_view(l)),
                self.0@.len() == start.len(),
                out@ == taken_entries(start, watch@.take(k as int)),
                logs_view(*self) == emptied(start_view, watch@.take(k as int)),
            decreases watch.len() - k,
        {
            let c = watch[k];
            let ghost before = self.0@;
            let ghost before_view = logs_view(*self);
            let ghost prefix = watch@.take(k as int);
            let ghost t = watch@.take(k as int + 1);
            assert(t.drop_last() =~= prefix);
            assert(t.last() == c);
            proof {
                assert forall|i: int| 0 <= i < before.len() implies #[trigger] before[i].character_log
                    == start[i].character_log by {
                    assert(logs_view(*self)[i] == log_view(before[i]));
                    assert(emptied(start_view, prefix)[i].0 == start_view[i].0);
                }
                lemma_same_logs_position(before, start, c, before.len() as int);
                lemma_log_position(start, c, start.len() as int);
            }
            let mut taken = self.take_entries(&c);
            proof {
                if log_position(start, c) is Some {
                    let i = log_position(start, c)->0;
                    assert(before_view[i] == log_view(before[i]));
                    assert(before[i].entries@ == emptied(start_view, prefix)[i].1);
                }
            }
            out.append(&mut taken);
            proof {
                lemma_log_position(before, c, before.len() as int);
                assert(logs_view(*self).len() == self.0@.len());
                assert(before_view.len() == before.len());
                assert(before.len() == start.len());
                assert forall|i: int| 0 <= i < self.0@.len() implies #[trigger] logs_view(*self)[i]
                    == emptied(start_view, t)[i] by {
                    assert(before_view[i] == emptied(start_view, prefix)[i]);
                    assert(before_view[i] == log_view(before[i]));
                    assert(start_view[i] == log_view(start[i]));
                    assert(before[i].character_log == start[i].character_log);
                    let x = start_view[i].0;
                    assert(prefix.contains(x) ==> t.contains(x)) by {
                        if prefix.contains(x) {
                            let j = choose|j: int| 0 <= j < prefix.len() && prefix[j] == x;
                            assert(t[j] == prefix[j]);
                        }
                    }
                    assert(t.contains(x) ==> prefix.contains(x) || c == x) by {
                        if t.contains(x) {
                            let j = choose|j: int| 0 <= j < t.len() && t[j] == x;
                            if j < k {
                                assert(prefix[j] == t[j]);
                            }
                        }
                    }
                    assert(t.contains(c)) by {
                        assert(t[k as int] == c);
                    }
                    match log_position(before, c) {
                        Some(p) => {
                            if i != p {
                                assert(before[i].character_log != c) by {
                                    if before[i].character_log == c {
                                        assert(before[p].character_log == c);
                                        if i < p {
                                            assert(before[i].character_log != before[p].character_log);
                                        } else {
                                            assert(before[p].character_log != before[i].character_log);
                                        }
                                    }
                                }
                            }
                        },
                        None => {
                            assert(before[i].character_log != c);
                        },
                    }
                }
                assert(logs_view(*self) =~= emptied(start_view, t));
            }
            k = k + 1;
        }
        assert(watch@.take(watch.len() as int) =~= watch@);
        out
    }
}


/// Where the log of `c` is, it is the log of `c`; where it is not, no log is.
pub proof fn lemma_log_position_public(logs: Seq<Log>, c: CharacterLog)
    ensures
        log_position(logs, c) matches Some(i) ==> 0 <= i < logs.len() && logs[i].character_log == c,
        log_position(logs, c) is None ==> forall|j: int| 0 <= j < logs.len() ==> #[trigger] logs[j].character_log != c,
{
    lemma_log_position(logs, c, logs.len() as int);
}


/// Taking the entries of the same logs again takes nothing more.
pub proof fn lemma_emptied_again(
    v: Seq<(CharacterLog, Seq<LogEntry>, Seq<(CharacterId, Seq<char>, u64)>)>,
    watch: Seq<CharacterLog>,
)
    ensures
        emptied(emptied(v, watch), watch) == emptied(v, watch),
{
    assert(emptied(emptied(v, watch), watch) =~= emptied(v, watch));
}

proof fn lemma_taken_none(after: Seq<Log>, watch: Seq<CharacterLog>)
    requires
        forall|k: int| 0 <= k < watch.len() ==> entries_of(after, #[trigger] watch[k]) == Seq::<LogEntry>::empty(),
    ensures
        taken_entries(after, watch) == Seq::<LogEntry>::empty(),
    decreases watch.len(),
{
    if watch.len() > 0 {
        let t = watch.drop_last();
        assert forall|k: int| 0 <= k < t.len() implies entries_of(after, #[trigger] t[k]) == Seq::<LogEntry>::empty() by {
            assert(t[k] == watch[k]);
        }
        lemma_taken_none(after, t);
        assert(entries_of(after, watch[watch.len() - 1]) == Seq::<LogEntry>::empty());
        assert(taken_entries(after, watch) =~= Seq::<LogEntry>::empty());
    }
}

/// Once the entries of some logs are taken, taking them again gives none: what a
/// poll takes is gone.
pub proof fn lemma_taken_once(before: Seq<Log>, after: Seq<Log>, watch: Seq<CharacterLog>)
    requires
        after.map_values(|l: Log| log_view(l)) == emptied(before.map_values(|l: Log| log_view(l)), watch),
    ensures
        taken_entries(after, watch) == Seq::<LogEntry>::empty(),
{
    let va = after.map_values(|l: Log| log_view(l));
    let vb = before.map_values(|l: Log| log_view(l));
    assert(after.len() == before.len()) by {
        assert(va.len() == after.len());
        assert(vb.len() == before.len());
    }
    assert forall|i: int| 0 <= i < after.len() implies #[trigger] after[i].character_log == before[i].character_log by {
        assert(va[i] == log_view(after[i]));
        assert(vb[i] == log_view(before[i]));
    }
    assert forall|k: int| 0 <= k < watch.len() implies entries_of(after, #[trigger] watch[k]) == Seq::<LogEntry>::empty() by {
        let c = watch[k];
        lemma_log_position(after, c, after.len() as int);
        match log_position(after, c) {
            Some(i) => {
                assert(va[i] == log_view(after[i]));
                assert(vb[i] == log_view(before[i]));
                assert(watch.contains(c));
                assert(after[i].entries@ == emptied(vb, watch)[i].1);
            },
            None => {},
        }
    }
    lemma_taken_none(after, watch);
}

} // verus!
