use solar_sonar::analysis::{Callout, CalloutAnalysis, IntelAnalysis, IntelKeyword, LogAnalysis};
use solar_sonar::config::{CharacterCfg, Cfg, ClientCfg, IpTable, LogCfg, ServerCfg, SettingsCfg, NamedModeCfg};
use solar_sonar::error::SolarError;
use solar_sonar::log_kind::{CharacterLog, IndexedLog};
use solar_sonar::logs::{ChatAuthor, LogEntry};
use solar_sonar::mode::{CombatAnalysisModeCfg, ModeCfg};
use solar_sonar::run::{
    dedup_logs, entry_events, fresh_entries, last_stamp, rest_secs, select_client, source_kind,
    Args, Cli, DataEvent, ParamsBuilder, Running, SourceKind,
};
use solar_sonar::star_map::{StarMap, StarSystem};
use solar_sonar::time::Timestamp;

fn strings(v: &[&str]) -> Vec<String> {
    v.iter().map(|s| s.to_string()).collect()
}

fn map() -> StarMap {
    StarMap {
        systems: vec![
            StarSystem { id: 1, name: "UALX-3".to_string(), gates: vec![2] },
            StarSystem { id: 2, name: "1DQ1-A".to_string(), gates: vec![1, 3] },
            StarSystem { id: 3, name: "K-6K16".to_string(), gates: vec![2] },
        ],
    }
}

fn cfg() -> Cfg {
    Cfg {
        settings: SettingsCfg { logs_dir: "/logs".to_string(), modes: strings(&["stand", "crab"]) },
        characters: vec![
            CharacterCfg { alias: "test_pilot".to_string(), id: 12345, name: "Test Pilot".to_string() },
            CharacterCfg { alias: "alt".to_string(), id: 777, name: "Alt".to_string() },
        ],
        modes: vec![NamedModeCfg {
            name: "crab".to_string(),
            cfg: ModeCfg { combat_analysis: CombatAnalysisModeCfg { cease_time: None, engagement: None, targeted: None, yellowboxers: None } },
        }],
        logs: vec![LogCfg {
            kind: "group".to_string(),
            modes: strings(&["crab"]),
            characters: strings(&["test_pilot", "alt"]),
            pings: strings(&["intel"]),
            name: Some("test.intel".to_string()),
        }],
        server: ServerCfg { serve: vec![] },
        client: ClientCfg { connect: vec![] },
    }
}

fn cli(characters: &str, systems: &str) -> Cli {
    Cli {
        mode: "crab".to_string(),
        watch_characters: characters.to_string(),
        watch_systems: systems.to_string(),
        jumps: Args::DEFAULT_JUMPS,
        stdio: true,
        audio: false,
        replay: None,
        relog: None,
        serve: None,
        connect: None,
    }
}

fn args(ids: Vec<u32>) -> Args {
    Args {
        mode: "crab".to_string(),
        watch_character_ids: ids,
        watch_system_ids: vec![1],
        jumps: 1,
        audio: false,
        stdio: false,
        server_profile: None,
        client_profile: None,
        replay_path: None,
        relog: None,
    }
}

fn entry(ts: i64, systems: Vec<u32>, keywords: Vec<IntelKeyword>, call: Option<Callout>) -> LogEntry {
    LogEntry {
        character_log: CharacterLog::Local { character_id: 12345 },
        timestamp: Timestamp(ts, 0),
        author: ChatAuthor::Character("Scout".to_string()),
        content: "report".to_string(),
        analysis: LogAnalysis {
            intel: Some(IntelAnalysis { ambiguous: false, systems, keywords }),
            callout: Some(CalloutAnalysis { call }),
        },
    }
}

#[test]
fn cli_args_look_up_characters_and_systems() {
    let p = cfg().build_with(Some("/logs".to_string()), &IpTable(vec![])).unwrap();
    let a = Args::from_cli(cli("TestPilot,alt", "ualx-3,1dq1-a"), &p.config, &map()).unwrap();
    assert_eq!(a.watch_character_ids, vec![12345, 777]);
    assert_eq!(a.watch_system_ids, vec![1, 2]);
    assert_eq!(a.jumps, 2);
    assert!(!a.is_replay());
}

#[test]
fn cli_args_report_unknown_names() {
    let p = cfg().build_with(Some("/logs".to_string()), &IpTable(vec![])).unwrap();
    match Args::from_cli(cli("nobody", "ualx-3"), &p.config, &map()) {
        Err(SolarError::Msg { msg }) => assert_eq!(msg, "Character unknown: nobody"),
        _ => panic!("expected an unknown character"),
    }
    match Args::from_cli(cli("alt", "jita"), &p.config, &map()) {
        Err(SolarError::Msg { msg }) => assert_eq!(msg, "System unknown: JITA"),
        _ => panic!("expected an unknown system"),
    }
    let mut both = cli("alt", "ualx-3");
    both.serve = Some("a".to_string());
    both.connect = Some("b".to_string());
    match Args::from_cli(both, &p.config, &map()) {
        Err(SolarError::Msg { msg }) => assert_eq!(msg, "Cannot both serve and connect"),
        _ => panic!("expected a conflict"),
    }
}

#[test]
fn builder_checks_what_it_holds() {
    let msg = |b: ParamsBuilder| match b.check() {
        Err(SolarError::Msg { msg }) => msg,
        Ok(()) => "ok".to_string(),
        Err(_) => "other".to_string(),
    };
    assert_eq!(msg(ParamsBuilder::new()), "Either Cli or Args & Cfg is required");
    assert_eq!(msg(ParamsBuilder::new().cfg(cfg())), "Args is required");
    assert_eq!(msg(ParamsBuilder::new().args(args(vec![]))), "Cfg is required");
    assert_eq!(msg(ParamsBuilder::new().cli(cli("a", "b")).cfg(cfg())), "Cli is mutually exclusive with Args & Cfg");
    assert_eq!(msg(ParamsBuilder::new().cli(cli("a", "b"))), "ok");
    assert_eq!(msg(ParamsBuilder::new().args(args(vec![])).cfg(cfg())), "ok");
}

#[test]
fn builder_builds_from_args_and_cfg() {
    let params = ParamsBuilder::new()
        .args(args(vec![12345]))
        .cfg(cfg())
        .build(None, &IpTable(vec![]), &map())
        .expect("supported")
        .expect("built");
    assert_eq!(params.mode_id, solar_sonar::indices::Index::hash_id("crab"));
    assert!(!params.opts.audio);
    let (run, opts) = Running::startup(params);
    assert!(!opts.stdio);
    let watched = run.watch_logs();
    let group = IndexedLog::Group(solar_sonar::indices::Index::hash_id("test.intel"));
    assert_eq!(watched, vec![CharacterLog::from_indexed(group, 12345)]);
    let stars = map();
    let range = run.watch_range(&stars);
    assert_eq!(range.iter().map(|s| s.id).collect::<Vec<_>>(), vec![2]);
    assert_eq!(run.mode_config().id, run.mode_id);
}

#[test]
fn unknown_mode_is_an_error() {
    let mut a = args(vec![]);
    a.mode = "solo".to_string();
    let r = ParamsBuilder::new().args(a).cfg(cfg()).build(None, &IpTable(vec![]), &map()).expect("supported");
    match r {
        Err(SolarError::NotFound { key, .. }) => assert_eq!(key, "solo"),
        _ => panic!("expected an unknown mode"),
    }
}

#[test]
fn watched_logs_cover_configured_characters() {
    let params = ParamsBuilder::new()
        .args(args(vec![777, 12345, 999]))
        .cfg(cfg())
        .build(None, &IpTable(vec![]), &map())
        .unwrap()
        .unwrap();
    let (run, _) = Running::startup(params);
    let group = IndexedLog::Group(solar_sonar::indices::Index::hash_id("test.intel"));
    let watched = run.watch_logs();
    assert!(watched.contains(&CharacterLog::from_indexed(group, 777)));
    assert!(watched.contains(&CharacterLog::from_indexed(group, 12345)));
    assert_eq!(watched.len(), 2);
}

#[test]
fn dedup_cuts_runs_only() {
    let a = CharacterLog::Local { character_id: 1 };
    let b = CharacterLog::Fleet { character_id: 1 };
    assert_eq!(dedup_logs(&vec![a, a, b, b, a]), vec![a, b, a]);
    assert_eq!(dedup_logs(&vec![]), vec![]);
}

#[test]
fn dangerous_entry_in_range_pings_its_systems() {
    let events = entry_events(entry(10, vec![2, 9], vec![], None), &vec![1, 2, 3]);
    assert_eq!(events.len(), 2);
    match &events[0] {
        DataEvent::LogEntry { in_range, in_danger, dangerous, .. } => {
            assert!(*in_range && *in_danger && *dangerous);
        },
        _ => panic!("expected the entry first"),
    }
    assert_eq!(events[1], DataEvent::PingSystems { system_ids: vec![2] });
}

#[test]
fn clear_report_raises_no_alert() {
    let events = entry_events(entry(10, vec![2], vec![IntelKeyword::Clear], None), &vec![2]);
    assert_eq!(events.len(), 1);
    match &events[0] {
        DataEvent::LogEntry { in_range, in_danger, dangerous, .. } => {
            assert!(*in_range && !*in_danger && !*dangerous);
        },
        _ => panic!("expected the entry"),
    }
}

#[test]
fn dangerous_callout_out_of_range_pings_the_channel() {
    let e = entry(10, vec![], vec![], Some(Callout::Opponent));
    let events = entry_events(e.clone(), &vec![1]);
    assert_eq!(events.len(), 2);
    assert_eq!(events[1], DataEvent::PingChannel { channel: e.character_log });
}

#[test]
fn polls_keep_only_fresh_entries() {
    let es = vec![entry(5, vec![1], vec![], None), entry(11, vec![], vec![], None), entry(12, vec![2], vec![], None)];
    let kept = fresh_entries(es.clone(), &Timestamp(10, 0), false);
    assert_eq!(kept.iter().map(|e| e.timestamp.0).collect::<Vec<_>>(), vec![11, 12]);
    let kept = fresh_entries(es.clone(), &Timestamp(10, 0), true);
    assert_eq!(kept.iter().map(|e| e.timestamp.0).collect::<Vec<_>>(), vec![12]);
    assert_eq!(last_stamp(Timestamp(3, 0), &es), Timestamp(12, 0));
    assert_eq!(last_stamp(Timestamp(3, 0), &vec![]), Timestamp(3, 0));
    assert_eq!(rest_secs(&Timestamp(3, 0), &Timestamp(3, 0)), 2);
    assert_eq!(rest_secs(&Timestamp(3, 0), &Timestamp(4, 0)), 0);
}

#[test]
fn client_batches_keep_entries_with_systems() {
    let events = vec![
        DataEvent::PingFortune,
        DataEvent::LogEntry { entry: entry(20, vec![1], vec![], None), in_range: true, in_danger: true, dangerous: true },
        DataEvent::LogEntry { entry: entry(21, vec![], vec![], None), in_range: false, in_danger: false, dangerous: false },
    ];
    let kept = select_client(events, &Timestamp(0, 0)).unwrap();
    assert_eq!(kept.len(), 1);
    assert!(select_client(vec![DataEvent::PingFortune], &Timestamp(0, 0)).is_none());
}

#[test]
fn source_follows_the_arguments() {
    let mut a = args(vec![]);
    assert_eq!(source_kind(&a), SourceKind::Logs);
    a.replay_path = Some("x.txt".to_string());
    assert_eq!(source_kind(&a), SourceKind::Replay);
    a.client_profile = Some("home".to_string());
    assert_eq!(source_kind(&a), SourceKind::Client);
}
