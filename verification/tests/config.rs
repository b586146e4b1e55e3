use solar_sonar::analysis::AnalysisKind;
use solar_sonar::config::{
    CharacterCfg, ClientCfg, ConnectCfg, IpAddress, IpTable, LogCfg, NamedModeCfg, ServeCfg,
    ServerCfg, SettingsCfg, TlsCfg, Cfg, TlsConfig,
};
use solar_sonar::error::{ErrNoun, SolarError};
use solar_sonar::indices::{Index, ModeIndex, ChannelNameIndex};
use solar_sonar::log_kind::IndexedLog;
use solar_sonar::mode::{CombatAnalysisModeCfg, CombatAnalysisModeConfig, EngagementKind, ModeCfg, TargetedKind};

fn strings(v: &[&str]) -> Vec<String> {
    v.iter().map(|s| s.to_string()).collect()
}

fn combat_cfg() -> CombatAnalysisModeCfg {
    CombatAnalysisModeCfg { cease_time: None, engagement: None, targeted: None, yellowboxers: Some(5) }
}

fn sample_cfg() -> Cfg {
    Cfg {
        settings: SettingsCfg { logs_dir: "/logs".to_string(), modes: strings(&["stand", "crab"]) },
        characters: vec![
            CharacterCfg { alias: "test".to_string(), id: 12345, name: "Test".to_string() },
            CharacterCfg { alias: "other".to_string(), id: 777, name: "Other".to_string() },
        ],
        modes: vec![NamedModeCfg { name: "crab".to_string(), cfg: ModeCfg { combat_analysis: combat_cfg() } }],
        logs: vec![
            LogCfg {
                kind: "Group".to_string(),
                modes: strings(&["crab"]),
                characters: strings(&["test"]),
                pings: strings(&["intel", "Callout"]),
                name: Some("test.intel".to_string()),
            },
            LogCfg {
                kind: "local".to_string(),
                modes: strings(&["stand"]),
                characters: strings(&["test", "other"]),
                pings: strings(&[]),
                name: None,
            },
        ],
        server: ServerCfg {
            serve: vec![ServeCfg { name: "home".to_string(), tls: TlsCfg { ip: "127.0.0.1".to_string(), port: 3232 } }],
        },
        client: ClientCfg {
            connect: vec![ConnectCfg { name: "home".to_string(), tls: TlsCfg { ip: "127.0.0.1".to_string(), port: 3232 } }],
        },
    }
}

fn ips() -> IpTable {
    IpTable(vec![("127.0.0.1".to_string(), IpAddress::V4([127, 0, 0, 1]))])
}

#[test]
fn builds_a_configuration() {
    let p = sample_cfg().build_with(Some("/logs".to_string()), &ips()).unwrap();
    assert_eq!(p.config.logs_dir, "/logs");
    assert_eq!(p.config.characters.len(), 2);
    assert_eq!(p.index.modes.0.len(), 2);
    assert_eq!(p.index.modes.0[1].id, Index::hash_id("crab"));
    assert_eq!(p.index.channel_names.0.len(), 1);
    assert_eq!(p.config.modes.len(), 1);
    assert_eq!(p.config.modes[0].id, Index::hash_id("crab"));
    assert_eq!(p.config.modes[0].combat_analysis.yellowbox_threshold, 5);
    assert_eq!(p.config.modes[0].combat_analysis.cease_time, 90);
    let group = &p.config.logs[0];
    assert_eq!(group.indexed, IndexedLog::Group(Index::hash_id("test.intel")));
    assert_eq!(group.characters, vec![12345]);
    assert_eq!(group.analysis, vec![AnalysisKind::Intel, AnalysisKind::Callout]);
    assert_eq!(p.config.logs[1].indexed, IndexedLog::Local);
    assert_eq!(p.config.logs[1].characters, vec![12345, 777]);
    assert_eq!(p.config.server_profiles[0].tls, TlsConfig { ip: IpAddress::V4([127, 0, 0, 1]), port: 3232 });
    assert_eq!(p.config.client_profiles[0].name, "home");
}

#[test]
fn watched_log_characters_are_configured() {
    let p = sample_cfg().build_with(Some("/logs".to_string()), &ips()).unwrap();
    for log in &p.config.logs {
        for id in &log.characters {
            assert!(p.config.characters.iter().any(|c| c.id == *id));
        }
    }
}

#[test]
fn build_reports_the_first_failure() {
    let mut cfg = sample_cfg();
    cfg.characters.push(CharacterCfg { alias: "test".to_string(), id: 1, name: "Twin".to_string() });
    match cfg.build_with(Some("/logs".to_string()), &ips()) {
        Err(SolarError::Duplicate { noun, item }) => {
            assert_eq!(noun, ErrNoun::Mode);
            assert_eq!(item, "test");
        },
        other => panic!("unexpected {:?}", other.map(|_| ())),
    }

    match sample_cfg().build_with(None, &ips()) {
        Err(SolarError::Msg { msg }) => assert_eq!(msg, "Environment expansion failed for settings.log_dir: /logs"),
        other => panic!("unexpected {:?}", other.map(|_| ())),
    }

    let mut cfg = sample_cfg();
    cfg.logs[0].characters = strings(&["nobody"]);
    match cfg.build_with(Some("/logs".to_string()), &ips()) {
        Err(SolarError::NotFound { key, .. }) => assert_eq!(key, "nobody"),
        other => panic!("unexpected {:?}", other.map(|_| ())),
    }

    let mut cfg = sample_cfg();
    cfg.logs[1].kind = "private".to_string();
    match cfg.build_with(Some("/logs".to_string()), &ips()) {
        Err(SolarError::Enum { noun, input }) => {
            assert_eq!(noun, ErrNoun::LogKind);
            assert_eq!(input, "private");
        },
        other => panic!("unexpected {:?}", other.map(|_| ())),
    }

    match sample_cfg().build_with(Some("/logs".to_string()), &IpTable(vec![])) {
        Err(SolarError::Msg { msg }) => assert_eq!(msg, "Invalid TLS server IP: 127.0.0.1"),
        other => panic!("unexpected {:?}", other.map(|_| ())),
    }
}

#[test]
fn build_expands_a_plain_logs_dir_to_itself() {
    let p = sample_cfg().build(&ips()).unwrap();
    assert_eq!(p.config.logs_dir, "/logs");
}

#[test]
fn mode_index_rejects_duplicates_and_finds_each() {
    match ModeIndex::try_new(strings(&["a", "b", "a"])) {
        Err(SolarError::Duplicate { noun, item }) => {
            assert_eq!(noun, ErrNoun::Mode);
            assert_eq!(item, "a");
        },
        _ => panic!("expected a duplicate"),
    }
    let names = strings(&["stand", "crab", "fleet"]);
    let index = ModeIndex::try_new(names.clone()).unwrap();
    for (i, n) in names.iter().enumerate() {
        let found = index.find(n).unwrap();
        assert_eq!(found.name, *n);
        assert_eq!(found.id, Index::hash_id(n));
        assert_eq!(index.get(i as u64).unwrap().name, *n);
    }
    assert!(index.find("solo").is_err());
}

#[test]
fn channel_index_adds_unknown_groups() {
    let mut index = ChannelNameIndex::try_new(strings(&["test.intel"])).unwrap();
    let known = index.index_named(solar_sonar::log_kind::NamedLog::Group("test.intel".to_string()));
    assert_eq!(known, IndexedLog::Group(Index::hash_id("test.intel")));
    assert_eq!(index.0.len(), 1);
    let added = index.index_named(solar_sonar::log_kind::NamedLog::Group("other.intel".to_string()));
    assert_eq!(added, IndexedLog::Group(Index::hash_id("other.intel")));
    assert_eq!(index.0.len(), 2);
    assert_eq!(index.index_named(solar_sonar::log_kind::NamedLog::Local), IndexedLog::Local);
}

#[test]
fn combat_defaults_fill_gaps() {
    let c = CombatAnalysisModeConfig::try_from_cfg(CombatAnalysisModeCfg {
        cease_time: Some(30),
        engagement: None,
        targeted: Some(TargetedKind::Watched),
        yellowboxers: None,
    })
    .unwrap();
    assert_eq!(c.cease_time, 30);
    assert_eq!(c.engagement_kind, EngagementKind::PVP);
    assert_eq!(c.yellowbox_threshold, 3);
}
