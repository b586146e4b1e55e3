use solar_sonar::event_log::{binlog_file_path, relog_file_path, relog_output};
use solar_sonar::analysis::{AnalysisKind, CalloutAnalyzer, Callout, IntelAnalyzer, IntelKeyword};
use solar_sonar::assets::{AssetDir, RemoteAssets};
use solar_sonar::indices::Index;
use solar_sonar::log_kind::{CharacterLog, IndexedLog, LogKind, PingKind};
use solar_sonar::logs::{parse_log_line, ChatAuthor, LogDirKind, LogFile};
use solar_sonar::replay::{RelogFormat, ReplaySource};
use solar_sonar::star_map::{StarMap, StarSystem};
use solar_sonar::time::Timestamp;
use solar_sonar::tls::{
    client_close_wait_ends, client_step, server_step, CertFileKind, CertFiles, ClientAction,
    ClientInput, ServerAction, ServerInput, ServerToClient,
};
use solar_sonar::run::DataEvent;

#[test]
fn hash_ids_are_xxh3() {
    assert_eq!(Index::hash_id(""), 0x2D06800538D394C2);
    assert_ne!(Index::hash_id("crab"), Index::hash_id("stand"));
}

#[test]
fn game_log_file_names() {
    let f = LogFile::from_path_buf("/eve/Gamelogs/20260212_035141_12345678.txt".to_string(), LogDirKind::Game).unwrap();
    assert_eq!(f.character_id(), 12345678);
    assert_eq!(f.path(), "/eve/Gamelogs/20260212_035141_12345678.txt");
    assert!(LogFile::from_path_buf("/eve/Chatlogs/Local_20260212_035141.txt".to_string(), LogDirKind::Chat).is_none());
    assert!(LogFile::from_path_buf("/eve/Chatlogs/Local_20260212_035141_1.log".to_string(), LogDirKind::Chat).is_none());
    assert!(LogFile::from_path_buf("/eve/Chatlogs/Local_20261312_035141_1.txt".to_string(), LogDirKind::Chat).is_none());
    assert_eq!(LogDirKind::from_file_path("/eve/Chatlogs/x.txt"), Some(LogDirKind::Chat));
    assert_eq!(LogDirKind::from_file_path("/eve/other/x.txt"), None);
    assert_eq!(LogDirKind::from_file_path("eve/Gamelogs/x.txt"), Some(LogDirKind::Game));
    assert_eq!(LogDirKind::from_file_path("Chatlogs/x.txt"), Some(LogDirKind::Chat));
    assert_eq!(LogDirKind::from_file_path("/x.txt"), None);
    assert_eq!(LogDirKind::from_file_path("/eve//Chatlogs/./x.txt"), Some(LogDirKind::Chat));
    assert_eq!(LogDirKind::from_file_path("./Gamelogs/x.txt"), Some(LogDirKind::Game));
    assert_eq!(LogDirKind::from_file_path("Chatlogs/../x.txt"), None);
}

#[test]
fn dir_names_round_trip() {
    for k in [LogDirKind::Game, LogDirKind::Chat] {
        assert_eq!(LogDirKind::from_dir_name(k.dir_name()), Some(k));
    }
}

#[test]
fn chat_lines_parse() {
    let (ts, author, content) = parse_log_line("\u{feff}[ 2026.02.12 03:51:41 ] Scout > UALX-3 nv\r\n", true).unwrap();
    assert_eq!(ts, Timestamp(1770868301, 0));
    assert_eq!(author, ChatAuthor::Character("Scout".to_string()));
    assert_eq!(content, "UALX-3 nv");
    let (_, author, content) = parse_log_line("[ 2026.02.12 03:51:41 ] (combat) hit\n", false).unwrap();
    assert_eq!(author, ChatAuthor::System);
    assert_eq!(content, "(combat) hit");
    assert!(parse_log_line("no stamp here\n", true).is_none());
    assert!(parse_log_line("[ 2026.02.12 03:51:41 ] no author\n", true).is_none());
}

#[test]
fn intel_and_callouts() {
    let map = StarMap { systems: vec![StarSystem { id: 7, name: "UALX-3".to_string(), gates: vec![] }] };
    let a = IntelAnalyzer.analyze("ualx-3* clr", &map);
    assert_eq!(a.systems, vec![7]);
    assert_eq!(a.keywords, vec![IntelKeyword::Clear]);
    assert!(!a.ambiguous);
    assert_eq!(CalloutAnalyzer.analyze("Neut! in local").call, Some(Callout::Opponent));
    assert_eq!(CalloutAnalyzer.analyze("no neut").call, None);
}

#[test]
fn inputs_name_kinds() {
    assert_eq!(AnalysisKind::try_from_input("Intel").unwrap(), AnalysisKind::Intel);
    assert!(AnalysisKind::try_from_input("radar").is_err());
    assert_eq!(LogKind::try_from_input("CORP").unwrap(), LogKind::Corporation);
    assert_eq!(PingKind::try_from_input("danger").unwrap(), PingKind::Danger);
    assert_eq!(LogKind::from_log_name("Fleet"), LogKind::Fleet);
    assert_eq!(LogKind::from_log_name("test.intel"), LogKind::Group);
    assert_eq!(LogKind::Corporation.pronounce(), "Corp");
}

#[test]
fn character_logs_round_trip() {
    for indexed in [IndexedLog::Game, IndexedLog::Local, IndexedLog::Fleet, IndexedLog::Group(42)] {
        let c = CharacterLog::from_indexed(indexed, 9);
        assert_eq!(c.to_indexed(), indexed);
        assert_eq!(c.character_id(), 9);
    }
    assert!(!CharacterLog::Game { character_id: 1 }.is_chat());
}

#[test]
fn stamps_order_like_the_derived_order() {
    let a = Timestamp(1, 5);
    let b = Timestamp(2, 0);
    let c = Timestamp(2, 1);
    assert!(b.is_after(&a) && !a.is_after(&b));
    assert!(c.is_after(&b) && c.is_after(&a));
    assert!(!a.is_after(&a));
    assert_eq!(b.is_after(&a), b > a);
    assert!(a.same(&Timestamp(1, 5)));
}

#[test]
fn relog_formats() {
    assert_eq!(RelogFormat::from_filename(Some("*.ron.log")), RelogFormat::Ron);
    assert_eq!(RelogFormat::from_filename(Some("*.bin.log")), RelogFormat::Binary);
    assert_eq!(RelogFormat::from_filename(None), RelogFormat::Binary);
    assert_eq!(RelogFormat::Ron.ext(), ".ron.log");
}

#[test]
fn replay_sources() {
    assert!(matches!(ReplaySource::try_from_path("/logs".to_string(), true, true), Ok(ReplaySource::LogDir(_))));
    assert!(matches!(ReplaySource::try_from_path("/relogs".to_string(), true, false), Ok(ReplaySource::RelogDir(_))));
    assert!(matches!(
        ReplaySource::try_from_path("/relogs/.bin.log".to_string(), false, false),
        Ok(ReplaySource::RelogFile(RelogFormat::Binary, _))
    ));
    match ReplaySource::try_from_path("/x/day.ron.log".to_string(), false, false) {
        Err(solar_sonar::error::SolarError::Msg { msg }) => assert_eq!(msg, "Invalid replay source path: /x/day.ron.log"),
        _ => panic!("a component must match whole"),
    }
    let src = ReplaySource::try_from_path("/relogs/.ron.log".to_string(), false, false).unwrap();
    assert_eq!(src.path(), "/relogs/.ron.log");
    match ReplaySource::try_from_path("/eve/Chatlogs/.txt".to_string(), false, false) {
        Err(solar_sonar::error::SolarError::Msg { msg }) => assert_eq!(msg, "Unable to parse log filename"),
        _ => panic!("a bare extension is no log file name"),
    }
    match ReplaySource::try_from_path("/eve/other/.txt".to_string(), false, false) {
        Err(solar_sonar::error::SolarError::Msg { msg }) => {
            assert_eq!(msg, "Unable to determine log kind from parent directory: /eve/other/.txt")
        },
        _ => panic!("the parent directory must be a log directory"),
    }
}

#[test]
fn assets_are_listed() {
    let all = RemoteAssets::all();
    assert_eq!(all.len(), 2);
    assert_eq!(all[0].filename, "en_US-libritts_r-medium.onnx.json");
    assert_eq!(all[1].name, "Voice Model");
    assert_eq!(RemoteAssets::VoiceModel.get().dir, AssetDir::Data);
}

#[test]
fn certificate_files() {
    assert_eq!(CertFileKind::AuthorityPrivate.file_name("server"), "authority_server.key.pem");
    assert_eq!(CertFileKind::EntityPublic.file_name("server"), "entity_server.pem");
    let files = CertFiles::new("/certs", "server");
    assert!(files.authority_public.ends_with("authority_server.pem"));
    assert!(files.entity_private.starts_with("/certs"));
}

#[test]
fn tls_links_stop_on_close() {
    assert_eq!(client_step(ClientInput::Cancelled), ClientAction::CloseThenStop);
    assert_eq!(client_step(ClientInput::Frame(ServerToClient::Close)), ClientAction::ReplyCloseThenStop);
    assert_eq!(client_step(ClientInput::Frame(ServerToClient::Event(DataEvent::PingFortune))), ClientAction::Forward(DataEvent::PingFortune));
    assert_eq!(client_step(ClientInput::Ended), ClientAction::Stop);
    assert_eq!(server_step(ServerInput::ClientClose), ServerAction::ReplyCloseThenStop);
    assert_eq!(server_step(ServerInput::EventsLost), ServerAction::CloseThenStop);
    assert_eq!(
        server_step(ServerInput::Event(DataEvent::GeneratingCerts)),
        ServerAction::Send(ServerToClient::Event(DataEvent::GeneratingCerts))
    );
    assert!(client_close_wait_ends(&Some(Ok(ServerToClient::Close))));
    assert!(!client_close_wait_ends(&Some(Ok(ServerToClient::Event(DataEvent::PingFortune)))));
    assert!(client_close_wait_ends(&None));
}

#[test]
fn log_kinds_from_enum_names() {
    assert_eq!(LogKind::try_from_enum("Corp").unwrap(), LogKind::Corporation);
    assert_eq!(LogKind::try_from_enum("GAME").unwrap(), LogKind::Game);
    assert_eq!(LogKind::try_from_enum("local").unwrap(), LogKind::Local);
    match LogKind::try_from_enum("group") {
        Err(solar_sonar::error::SolarError::Msg { msg }) => assert_eq!(msg, "Invalid log kind"),
        _ => panic!("only chat kinds and game are names"),
    }
}

#[test]
fn event_files_of_a_session_day() {
    let p = binlog_file_path("/out", 2026, 2, 12).unwrap();
    assert!(p.ends_with("solar_sonar_2026-02-12.binlog"));
    assert!(p.starts_with("/out"));
    assert_eq!(binlog_file_path("/out/.binlog", 2026, 2, 12).unwrap(), "/out/.binlog");
    assert!(binlog_file_path("/out", 2026, 2, 29).is_none());
    assert!(binlog_file_path("/out", 2024, 2, 29).is_some());
    assert!(binlog_file_path("/out", 2026, 13, 1).is_none());
    assert!(binlog_file_path("/out", 987, 3, 4).unwrap().ends_with("solar_sonar_0987-03-04.binlog"));
    assert!(binlog_file_path("/out", -5, 1, 1).unwrap().ends_with("solar_sonar_-0005-01-01.binlog"));
    assert!(binlog_file_path("/out", 10000, 1, 1).unwrap().ends_with("solar_sonar_+10000-01-01.binlog"));
    assert_eq!(relog_output("/out/*.ron.log"), ("/out".to_string(), RelogFormat::Ron));
    assert_eq!(relog_output("/out/*.bin.log"), ("/out".to_string(), RelogFormat::Binary));
    assert_eq!(relog_output("/out/events"), ("/out/events".to_string(), RelogFormat::Binary));
    let r = relog_file_path("/out", RelogFormat::Ron, 2026, 2, 12).unwrap();
    assert!(r.ends_with("solar_sonar_2026-02-12..ron.log"));
    assert_eq!(relog_file_path("/out/.log", RelogFormat::Binary, 2026, 2, 12).unwrap(), "/out/.log");
    assert!(relog_file_path("/out", RelogFormat::Binary, 2025, 4, 31).is_none());
}
