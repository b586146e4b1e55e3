use solar_sonar::analysis::LogAnalysis;
use solar_sonar::log_kind::{CharacterLog, LogName};
use solar_sonar::logs::{ChatAuthor, ChatLogFileParts, LogEntry, LogFile, LogRead};
use solar_sonar::store::{latest_positions, CharacterLogFile, Logs};
use solar_sonar::time::Timestamp;

fn log(id: u32) -> CharacterLog {
    CharacterLog::Local { character_id: id }
}

fn entry(c: CharacterLog, ts: i64, text: &str) -> LogEntry {
    LogEntry {
        character_log: c,
        timestamp: Timestamp(ts, 0),
        author: ChatAuthor::System,
        content: text.to_string(),
        analysis: LogAnalysis { intel: None, callout: None },
    }
}

fn file(path: &str, id: u32, ts: i64) -> LogFile {
    LogFile::new(
        path.to_string(),
        ChatLogFileParts { name: LogName::Chat("Local".to_string()), timestamp: Timestamp(ts, 0), character_id: id },
    )
}

#[test]
fn pushed_entries_are_taken_once() {
    let mut logs = Logs::watching(&vec![log(1), log(2), log(1)]);
    assert_eq!(logs.0.len(), 2);
    let read = LogRead { character_log: log(1), cursor: 40, entries: vec![entry(log(1), 1, "a"), entry(log(1), 2, "b")] };
    logs.push(&file("/l/Local_1.txt", 1, 0), read);
    let taken = logs.take_entries(&log(1));
    assert_eq!(taken.iter().map(|e| e.content.as_str()).collect::<Vec<_>>(), vec!["a", "b"]);
    assert!(logs.take_entries(&log(1)).is_empty());
    assert!(logs.take_entries(&log(3)).is_empty());
}

#[test]
fn push_keeps_or_restarts_sources() {
    let mut logs = Logs::watching(&vec![log(1)]);
    logs.push(&file("/l/a.txt", 1, 0), LogRead { character_log: log(1), cursor: 10, entries: vec![] });
    assert_eq!(logs.0[0].sources[0].1.cursor, 10);
    logs.push(&file("/l/a.txt", 1, 0), LogRead { character_log: log(1), cursor: 99, entries: vec![] });
    assert_eq!(logs.0[0].sources[0].1.cursor, 10);
    logs.push(&file("/l/b.txt", 1, 0), LogRead { character_log: log(1), cursor: 99, entries: vec![] });
    assert_eq!(logs.0[0].sources[0].1.file, "/l/b.txt");
    assert_eq!(logs.0[0].sources[0].1.cursor, 0);
    logs.push(&file("/l/c.txt", 5, 0), LogRead { character_log: log(5), cursor: 7, entries: vec![entry(log(5), 1, "x")] });
    assert_eq!(logs.0.len(), 2);
    assert_eq!(logs.0[1].sources[0].1.cursor, 7);
}

#[test]
fn cursors_follow_the_file() {
    let mut logs = Logs::watching(&vec![log(1)]);
    assert_eq!(logs.cursor_for(log(1), "/l/a.txt"), 0);
    logs.record_read(LogRead { character_log: log(1), cursor: 64, entries: vec![entry(log(1), 3, "z")] });
    assert_eq!(logs.cursor_for(log(1), "/l/a.txt"), 64);
    assert_eq!(logs.cursor_for(log(1), "/l/b.txt"), 0);
    assert_eq!(logs.take_watched(&vec![log(1), log(1)]).len(), 1);
    assert!(logs.take_watched(&vec![log(1)]).is_empty());
}

#[test]
fn get_mut_reaches_the_watched_log() {
    let mut logs = Logs::watching(&vec![log(1)]);
    assert!(logs.get_mut(log(2)).is_none());
    logs.get_mut(log(1)).unwrap().entries.push(entry(log(1), 1, "m"));
    assert_eq!(logs.take_entries(&log(1)).len(), 1);
}

#[test]
fn latest_file_of_each_log_is_chosen() {
    let files = vec![
        CharacterLogFile { character_log: log(1), file: file("a", 1, 5) },
        CharacterLogFile { character_log: log(2), file: file("b", 2, 1) },
        CharacterLogFile { character_log: log(1), file: file("c", 1, 9) },
        CharacterLogFile { character_log: log(1), file: file("d", 1, 9) },
    ];
    let chosen: Vec<&str> = latest_positions(&files).iter().map(|&i| files[i].file.path.as_str()).collect();
    assert_eq!(chosen, vec!["d", "b"]);
}
