use solar_sonar::analysis::{IntelAnalysis, LogAnalysis, CalloutAnalysis, Callout};
use solar_sonar::ansi::{args_text, decimal_text, event_text, LogEntryAnsiTheme, CLR, RED, WHITE_ON_RED, YELLOW};
use solar_sonar::indices::{ChannelNameIndex, CharacterIndex, Index, ModeIndex};
use solar_sonar::log_kind::CharacterLog;
use solar_sonar::logs::{ChatAuthor, LogEntry};
use solar_sonar::run::DataEvent;
use solar_sonar::star_map::{StarMap, StarSystem};
use solar_sonar::time::Timestamp;

fn index() -> Index {
    Index::new(
        ModeIndex::try_new(vec![]).unwrap(),
        CharacterIndex::try_from_cfg(&vec![]).unwrap(),
        ChannelNameIndex::try_new(vec!["test.intel".to_string()]).unwrap(),
    )
}

fn map() -> StarMap {
    StarMap { systems: vec![StarSystem { id: 7, name: "UALX-3".to_string(), gates: vec![] }] }
}

#[test]
fn themes_follow_danger() {
    let e = LogEntry {
        character_log: CharacterLog::Local { character_id: 1 },
        timestamp: Timestamp(0, 0),
        author: ChatAuthor::System,
        content: String::new(),
        analysis: LogAnalysis { intel: None, callout: None },
    };
    let ix = index();
    let t = LogEntryAnsiTheme::from_entry(&e.display_ansi(&ix, false, true, false));
    assert_eq!(t.stamp_fg, WHITE_ON_RED);
    let t = LogEntryAnsiTheme::from_entry(&e.display_ansi(&ix, true, false, false));
    assert_eq!(t.focus_fg, YELLOW);
    let t = LogEntryAnsiTheme::from_entry(&e.display_ansi(&ix, false, false, false));
    assert_eq!(t.author_fg, "\x1b[90m");
}

#[test]
fn renders_an_entry_line() {
    let e = LogEntry {
        character_log: CharacterLog::Local { character_id: 1 },
        timestamp: Timestamp(1770868301, 0),
        author: ChatAuthor::Character("Scout".to_string()),
        content: "red ualx-3* nv".to_string(),
        analysis: LogAnalysis {
            intel: Some(IntelAnalysis { ambiguous: true, systems: vec![7], keywords: vec![] }),
            callout: None,
        },
    };
    let ix = index();
    let line = e.display_ansi(&ix, true, true, true).render(&map());
    let expected = format!(
        "{WHITE_ON_RED}02-12 03:51{CLR} {RED}{:<37}{CLR} {YELLOW}UALX-3{CLR} {RED}red nv{CLR}",
        "Scout"
    );
    assert_eq!(line, expected);
}

#[test]
fn renders_a_callout_with_its_channel() {
    let e = LogEntry {
        character_log: CharacterLog::Group { character_id: 1, channel_id: 0 },
        timestamp: Timestamp(0, 0),
        author: ChatAuthor::Character("Scout".to_string()),
        content: "neut in local".to_string(),
        analysis: LogAnalysis { intel: None, callout: Some(CalloutAnalysis { call: Some(Callout::Opponent) }) },
    };
    let ix = index();
    let line = e.display_ansi(&ix, false, true, true).render(&map());
    assert!(line.contains(&format!("{YELLOW}test.intel{CLR} ")));
    assert!(line.ends_with(&format!("{RED}neut in local{CLR}")));
}

#[test]
fn event_lines() {
    assert_eq!(event_text(&DataEvent::ClosedServer).unwrap(), "\x1b[32mdone\x1b[0m\n");
    assert_eq!(
        event_text(&DataEvent::Connect { to: "1.2.3.4:5".to_string(), success: false }).unwrap(),
        "\x1b[31m[sonar]\x1b[0m failed to connect to \x1b[35m1.2.3.4:5\x1b[0m\n"
    );
    assert_eq!(
        event_text(&DataEvent::Downloading { id: 1 }).unwrap(),
        "\x1b[36m[sonar]\x1b[0m downloading asset \x1b[35mVoice Model\x1b[0m ... "
    );
    assert!(event_text(&DataEvent::Downloading { id: 9 }).is_none());
    assert!(event_text(&DataEvent::PingFortune).is_none());
}

#[test]
fn start_lines() {
    let text = args_text(
        &vec!["UALX-3".to_string()],
        &vec!["test".to_string(), "alt".to_string()],
        &vec!["Local".to_string()],
        2,
        &vec!["1DQ1-A".to_string()],
    );
    assert_eq!(
        text,
        "\x1b[36m[sonar]\x1b[0m watching \x1b[94mUALX-3\x1b[0m for \x1b[35mtest, alt\x1b[0m in \x1b[32mLocal\x1b[0m\n\x1b[36m[sonar]\x1b[0m within 2 jumps: \x1b[94m1DQ1-A\x1b[0m\n"
    );
}

#[test]
fn decimals() {
    assert_eq!(decimal_text(0), "0");
    assert_eq!(decimal_text(255), "255");
    assert_eq!(decimal_text(1000), "1000");
}
