//! The configuration: what the files say ([Cfg] and its parts), and what the
//! library makes of it ([Config] and the [Index]).

use vstd::prelude::*;
use crate::{CharacterId, IndexId};
use crate::analysis::{AnalysisKind, analysis_kind_of};
use crate::error::{
    SolarError, ErrNoun, Fault, fault_of, collect_all, lemma_collect_all_fails,
    lemma_collect_all_step, lemma_collect_all_each, message_with,
};
use crate::indices::{
    IndexKey, Index, ModeIndex, ModeIdx, CharacterIndex, CharacterIdx, ChannelNameIndex,
    ChannelNameIdx, key_index, str_views, first_twin, data_keys, mode_index_of, channel_index_of,
    character_index_of,
};
use crate::paths::{plain_path, shell_expand_full};
use crate::log_kind::{IndexedLog, LogKind, log_kind_input_of, CharacterLog, indexed_of, log_character};
use crate::mode::{ModeConfig, ModeCfg, CombatAnalysisModeConfig, combat_config_of};
use crate::text::str_lower;

verus! {

/// A configured character.
#[derive(Debug, PartialEq, Eq)]
pub struct CharacterConfig {
    pub alias: String,
    pub id: CharacterId,
    pub name: String,
}

impl IndexKey for CharacterConfig {
    open spec fn spec_index_key(&self) -> Seq<char> {
        self.alias@
    }

    fn index_key(&self) -> (r: &str) {
        self.alias.as_str()
    }
}

/// A character as the characters file gives it.
#[derive(Debug, Clone, PartialEq, Eq)]
pub struct CharacterCfg {
    pub alias: String,
    pub id: CharacterId,
    pub name: String,
}

/// The characters file.
#[derive(Debug, Clone)]
pub struct CharactersCfg {
    pub characters: Vec<CharacterCfg>,
}

impl CharacterConfig {
    /// The configured character that the file gives.
    pub fn try_from_cfg(cfg: CharacterCfg) -> (r: Self)
        ensures
            r == (CharacterConfig { alias: cfg.alias, id: cfg.id, name: cfg.name }),
    {
        CharacterConfig { alias: cfg.alias, id: cfg.id, name: cfg.name }
    }
}

/// An IP address.
#[derive(Debug, Clone, Copy, PartialEq, Eq)]
pub enum IpAddress {
    V4([u8; 4]),
    V6([u16; 8]),
}

/// A TLS endpoint as a file gives it.
#[derive(Debug, Clone, PartialEq, Eq)]
pub struct TlsCfg {
    pub ip: String,
    pub port: u16,
}

/// A TLS endpoint.
#[derive(Debug, Clone, Copy, PartialEq, Eq)]
pub struct TlsConfig {
    pub ip: IpAddress,
    pub port: u16,
}

/// The TLS endpoint of `cfg`, whose address reads as `ip`.
pub open spec fn tls_config_of(cfg: TlsCfg, ip: Option<IpAddress>) -> Result<TlsConfig, Fault> {
    match ip {
        Some(a) => Ok(TlsConfig { ip: a, port: cfg.port }),
        None => Err(Fault::Msg("Invalid TLS server IP: "@ + cfg.ip@)),
    }
}

impl TlsConfig {
    /// The TLS endpoint of `cfg`, whose address text reads as the address `ip`
    /// (`None` where it is no IP address).
    pub fn try_from_cfg(cfg: TlsCfg, ip: Option<IpAddress>) -> (r: Result<Self, SolarError>)
        ensures
            match tls_config_of(cfg, ip) {
                Ok(t) => r == Ok::<TlsConfig, SolarError>(t),
                Err(f) => r matches Err(e) && fault_of(e) == f,
            },
    {
        match ip {
            Some(a) => Ok(TlsConfig { ip: a, port: cfg.port }),
            None => Err(SolarError::msg(message_with("Invalid TLS server IP: ", cfg.ip.as_str()))),
        }
    }
}

/// A served profile as the server file gives it.
#[derive(Debug, Clone, PartialEq, Eq)]
pub struct ServeCfg {
    pub name: String,
    pub tls: TlsCfg,
}

/// The server file.
#[derive(Debug, Clone, PartialEq, Eq)]
pub struct ServerCfg {
    pub serve: Vec<ServeCfg>,
}

/// A served profile.
#[derive(Debug, Clone, PartialEq, Eq)]
pub struct ServerProfileConfig {
    pub name: String,
    pub tls: TlsConfig,
}

impl ServerProfileConfig {
    /// The served profile that `cfg` gives, whose address reads as `ip`.
    pub fn try_from_cfg(cfg: ServeCfg, ip: Option<IpAddress>) -> (r: Result<Self, SolarError>)
        ensures
            match tls_config_of(cfg.tls, ip) {
                Ok(t) => r matches Ok(p) && p.name == cfg.name && p.tls == t,
                Err(f) => r matches Err(e) && fault_of(e) == f,
            },
    {
        let tls = TlsConfig::try_from_cfg(cfg.tls, ip)?;
        Ok(ServerProfileConfig { name: cfg.name, tls })
    }
}

/// A connection profile as the client file gives it.
#[derive(Debug, Clone, PartialEq, Eq)]
pub struct ConnectCfg {
    pub name: String,
    pub tls: TlsCfg,
}

/// The client file.
#[derive(Debug, Clone, PartialEq, Eq)]
pub struct ClientCfg {
    pub connect: Vec<ConnectCfg>,
}

/// A connection profile.
#[derive(Debug, Clone, PartialEq, Eq)]
pub struct ClientProfileConfig {
    pub name: String,
    pub tls: TlsConfig,
}

impl ClientProfileConfig {
    /// The connection profile that `cfg` gives, whose address reads as `ip`.
    pub fn try_from_cfg(cfg: ConnectCfg, ip: Option<IpAddress>) -> (r: Result<Self, SolarError>)
        ensures
            match tls_config_of(cfg.tls, ip) {
                Ok(t) => r matches Ok(p) && p.name == cfg.name && p.tls == t,
                Err(f) => r matches Err(e) && fault_of(e) == f,
            },
    {
        let tls = TlsConfig::try_from_cfg(cfg.tls, ip)?;
        Ok(ClientProfileConfig { name: cfg.name, tls })
    }
}

/// The settings file.
#[derive(Debug, Clone, PartialEq, Eq)]
pub struct SettingsCfg {
    pub logs_dir: String,
    pub modes: Vec<String>,
}

/// A log as the logs file gives it.
#[derive(Debug, Clone, PartialEq, Eq)]
pub struct LogCfg {
    pub kind: String,
    pub modes: Vec<String>,
    pub characters: Vec<String>,
    pub pings: Vec<String>,
    pub name: Option<String>,
}

/// The logs file.
#[derive(Debug, Clone, PartialEq, Eq)]
pub struct LogsCfg {
    pub logs: Vec<LogCfg>,
}

/// A watched log: which log, in which modes, of which characters, and which
/// analyses its lines get.
#[derive(Debug, Clone, PartialEq, Eq)]
pub struct LogConfig {
    pub indexed: IndexedLog,
    pub modes: Vec<IndexId>,
    pub characters: Vec<CharacterId>,
    pub analysis: Vec<AnalysisKind>,
}

/// The id of the mode named `name`.
pub open spec fn mode_step(index: Seq<ModeIdx>) -> spec_fn(String) -> Result<IndexId, Fault> {
    |name: String|
        match key_index(index, name@) {
            Some(i) => Ok(index[i].id),
            None => Err(Fault::NotFound(ErrNoun::Mode, name@)),
        }
}

/// The EVE id of the character with the alias `alias`.
pub open spec fn character_step(index: Seq<CharacterIdx>) -> spec_fn(String) -> Result<CharacterId, Fault> {
    |alias: String|
        match key_index(index, alias@) {
            Some(i) => Ok(index[i].character_id),
            None => Err(Fault::NotFound(ErrNoun::Mode, alias@)),
        }
}

/// The analysis that `name` asks for.
pub open spec fn ping_step() -> spec_fn(String) -> Result<AnalysisKind, Fault> {
    |name: String|
        match analysis_kind_of(str_lower(name@)) {
            Some(k) => Ok(k),
            None => Err(Fault::Enum(ErrNoun::AnalysisKind, name@)),
        }
}

/// The indexed log of a log kind and channel name.
pub open spec fn indexed_log_of(kind: LogKind, name: Option<String>, channels: Seq<ChannelNameIdx>) -> Result<IndexedLog, Fault> {
    match kind {
        LogKind::Alliance => Ok(IndexedLog::Alliance),
        LogKind::Corporation => Ok(IndexedLog::Corporation),
        LogKind::Fleet => Ok(IndexedLog::Fleet),
        LogKind::Game => Ok(IndexedLog::Game),
        LogKind::Local => Ok(IndexedLog::Local),
        LogKind::Group => match name {
            None => Err(Fault::Msg("Log kind expects Group, but channel name was not provided"@)),
            Some(n) => match key_index(channels, n@) {
                Some(i) => Ok(IndexedLog::Group(channels[i].id)),
                None => Err(Fault::NotFound(ErrNoun::ChannelName, n@)),
            },
        },
    }
}

/// What a log of the logs file makes, in the order it is checked: its kind, its
/// channel, its modes, its characters, its analyses.
pub open spec fn log_config_of(
    cfg: LogCfg,
    modes: Seq<ModeIdx>,
    characters: Seq<CharacterIdx>,
    channels: Seq<ChannelNameIdx>,
) -> Result<(IndexedLog, Seq<IndexId>, Seq<CharacterId>, Seq<AnalysisKind>), Fault> {
    match log_kind_input_of(str_lower(cfg.kind@)) {
        None => Err(Fault::Enum(ErrNoun::LogKind, cfg.kind@)),
        Some(kind) => match indexed_log_of(kind, cfg.name, channels) {
            Err(f) => Err(f),
            Ok(ix) => match collect_all(cfg.modes@, mode_step(modes)) {
                Err(f) => Err(f),
                Ok(m) => match collect_all(cfg.characters@, character_step(characters)) {
                    Err(f) => Err(f),
                    Ok(c) => match collect_all(cfg.pings@, ping_step()) {
                        Err(f) => Err(f),
                        Ok(p) => Ok((ix, m, c, p)),
                    },
                },
            },
        },
    }
}

/// The ids of the modes `names`.
fn lookup_modes(names: &Vec<String>, index: &ModeIndex) -> (r: Result<Vec<IndexId>, SolarError>)
    ensures
        match collect_all(names@, mode_step(index.0@)) {
            Ok(v) => r matches Ok(x) && x@ == v,
            Err(f) => r matches Err(e) && fault_of(e) == f,
        },
{
    let ghost step = mode_step(index.0@);
    let mut out: Vec<IndexId> = Vec::new();
    let mut i: usize = 0;
    assert(names@.take(0) =~= Seq::<String>::empty());
    while i < names.len()
        invariant
            step == mode_step(index.0@),
            i <= names.len(),
            collect_all(names@.take(i as int), step) == Ok::<Seq<IndexId>, Fault>(out@),
        decreases names.len() - i,
    {
        proof {
            lemma_collect_all_step(names@, step, i as int);
        }
        match index.find(names[i].as_str()) {
            Ok(m) => {
                out.push(m.id);
            },
            Err(e) => {
                proof {
                    lemma_collect_all_fails(names@, step, i as int + 1, names@.len() as int);
                    assert(names@.take(names@.len() as int) =~= names@);
                }
                return Err(e);
            },
        }
        i = i + 1;
    }
    assert(names@.take(names@.len() as int) =~= names@);
    Ok(out)
}

/// The EVE ids of the characters with the aliases `aliases`.
fn lookup_characters(aliases: &Vec<String>, index: &CharacterIndex) -> (r: Result<Vec<CharacterId>, SolarError>)
    ensures
        match collect_all(aliases@, character_step(index.0@)) {
            Ok(v) => r matches Ok(x) && x@ == v,
            Err(f) => r matches Err(e) && fault_of(e) == f,
        },
{
    let ghost step = character_step(index.0@);
    let mut out: Vec<CharacterId> = Vec::new();
    let mut i: usize = 0;
    assert(aliases@.take(0) =~= Seq::<String>::empty());
    while i < aliases.len()
        invariant
            step == character_step(index.0@),
            i <= aliases.len(),
            collect_all(aliases@.take(i as int), step) == Ok::<Seq<CharacterId>, Fault>(out@),
        decreases aliases.len() - i,
    {
        proof {
            lemma_collect_all_step(aliases@, step, i as int);
        }
        match index.find(aliases[i].as_str()) {
            Ok(c) => {
                out.push(c.character_id());
            },
            Err(e) => {
                proof {
                    lemma_collect_all_fails(aliases@, step, i as int + 1, aliases@.len() as int);
                    assert(aliases@.take(aliases@.len() as int) =~= aliases@);
                }
                return Err(e);
            },
        }
        i = i + 1;
    }
    assert(aliases@.take(aliases@.len() as int) =~= aliases@);
    Ok(out)
}

/// The analyses that the names `pings` ask for.
fn lookup_pings(pings: &Vec<String>) -> (r: Result<Vec<AnalysisKind>, SolarError>)
    ensures
        match collect_all(pings@, ping_step()) {
            Ok(v) => r matches Ok(x) && x@ == v,
            Err(f) => r matches Err(e) && fault_of(e) == f,
        },
{
    let ghost step = ping_step();
    let mut out: Vec<AnalysisKind> = Vec::new();
    let mut i: usize = 0;
    assert(pings@.take(0) =~= Seq::<String>::empty());
    while i < pings.len()
        invariant
            step == ping_step(),
            i <= pings.len(),
            collect_all(pings@.take(i as int), step) == Ok::<Seq<AnalysisKind>, Fault>(out@),
        decreases pings.len() - i,
    {
        proof {
            lemma_collect_all_step(pings@, step, i as int);
        }
        match AnalysisKind::try_from_input(pings[i].as_str()) {
            Ok(k) => {
                out.push(k);
            },
            Err(e) => {
                proof {
                    lemma_collect_all_fails(pings@, step, i as int + 1, pings@.len() as int);
                    assert(pings@.take(pings@.len() as int) =~= pings@);
                }
                return Err(e);
            },
        }
        i = i + 1;
    }
    assert(pings@.take(pings@.len() as int) =~= pings@);
    Ok(out)
}

impl LogConfig {
    /// The watched log that `cfg` gives, checked against the indices.
    pub fn try_from_cfg(
        cfg: &LogCfg,
        mode_index: &ModeIndex,
        character_index: &CharacterIndex,
        channel_index: &ChannelNameIndex,
    ) -> (r: Result<Self, SolarError>)
        ensures
            match log_config_of(*cfg, mode_index.0@, character_index.0@, channel_index.0@) {
                Ok(v) => r matches Ok(x) && x.indexed == v.0 && x.modes@ == v.1 && x.characters@
                    == v.2 && x.analysis@ == v.3,
                Err(f) => r matches Err(e) && fault_of(e) == f,
            },
    {
        let kind = LogKind::try_from_input(cfg.kind.as_str())?;
        let name: Option<&str> = match &cfg.name {
            Some(n) => Some(n.as_str()),
            None => None,
        };
        let indexed = IndexedLog::try_from_kind(kind, name, channel_index)?;
        let modes = lookup_modes(&cfg.modes, mode_index)?;
        let characters = lookup_characters(&cfg.characters, character_index)?;
        let analysis = lookup_pings(&cfg.pings)?;
        Ok(LogConfig { indexed, modes, characters, analysis })
    }
}

/// A mode's settings with its name.
#[derive(Debug, Clone, PartialEq, Eq)]
pub struct NamedModeCfg {
    pub name: String,
    pub cfg: ModeCfg,
}

impl ModeConfig {
    /// The mode that `cfg` gives; its name must be in the mode index.
    pub fn try_from_cfg(cfg: NamedModeCfg, mode_index: &ModeIndex) -> (r: Result<Self, SolarError>)
        ensures
            match key_index(mode_index.0@, cfg.name@) {
                Some(i) => r matches Ok(m) && m.id == mode_index.0@[i].id && m.combat_analysis
                    == crate::mode::combat_config_of(cfg.cfg.combat_analysis),
                None => r matches Err(e) && fault_of(e) == Fault::NotFound(ErrNoun::Mode, cfg.name@),
            },
    {
        let id = mode_index.find(cfg.name.as_str())?.id;
        let combat_analysis = CombatAnalysisModeConfig::try_from_cfg(cfg.cfg.combat_analysis)?;
        Ok(ModeConfig { id, combat_analysis })
    }
}

/// The configuration, as the library uses it.
#[derive(Debug, PartialEq, Eq)]
pub struct Config {
    pub logs_dir: String,
    pub characters: Vec<CharacterConfig>,
    pub logs: Vec<LogConfig>,
    pub modes: Vec<ModeConfig>,
    pub server_profiles: Vec<ServerProfileConfig>,
    pub client_profiles: Vec<ClientProfileConfig>,
}

/// Whether a watched log is the log `c`.
pub open spec fn log_config_for(l: LogConfig, c: CharacterLog) -> bool {
    l.indexed == indexed_of(c) && l.characters@.contains(log_character(c))
}

/// The first position below `n` of a watched log that is the log `c`.
pub open spec fn log_config_below(logs: Seq<LogConfig>, c: CharacterLog, n: int) -> Option<int>
    decreases n,
{
    if n <= 0 {
        None
    } else {
        match log_config_below(logs, c, n - 1) {
            Some(i) => Some(i),
            None => if log_config_for(logs[n - 1], c) {
                Some(n - 1)
            } else {
                None
            },
        }
    }
}

proof fn lemma_log_config_found(logs: Seq<LogConfig>, c: CharacterLog, m: int, n: int, i: int)
    requires
        log_config_below(logs, c, m) == Some(i),
        m <= n,
    ensures
        log_config_below(logs, c, n) == Some(i),
    decreases n - m,
{
    if n > m {
        lemma_log_config_found(logs, c, m, n - 1, i);
    }
}

/// Whether `v` holds `x`.
pub fn contains_character(v: &Vec<CharacterId>, x: CharacterId) -> (r: bool)
    ensures
        r == v@.contains(x),
{
    let mut i: usize = 0;
    while i < v.len()
        invariant
            i <= v.len(),
            forall|k: int| 0 <= k < i ==> v@[k] != x,
        decreases v.len() - i,
    {
        if v[i] == x {
            assert(v@[i as int] == x);
            return true;
        }
        i = i + 1;
    }
    false
}

impl Config {
    /// The first watched log that is the log `character_log`.
    pub fn find_character_log(&self, character_log: &CharacterLog) -> (r: Result<&LogConfig, SolarError>)
        ensures
            match log_config_below(self.logs@, *character_log, self.logs@.len() as int) {
                Some(i) => r matches Ok(l) && *l == self.logs@[i],
                None => r matches Err(e) && fault_of(e) == Fault::Msg(
                    "Log config not found for character"@,
                ),
            },
    {
        let indexed_log = character_log.to_indexed();
        let character_id = character_log.character_id();
        let mut i: usize = 0;
        while i < self.logs.len()
            invariant
                i <= self.logs.len(),
                indexed_log == indexed_of(*character_log),
                character_id == log_character(*character_log),
                log_config_below(self.logs@, *character_log, i as int) is None,
            decreases self.logs.len() - i,
        {
            let l = &self.logs[i];
            if l.indexed == indexed_log && contains_character(&l.characters, character_id) {
                proof {
                    lemma_log_config_found(
                        self.logs@,
                        *character_log,
                        i as int + 1,
                        self.logs@.len() as int,
                        i as int,
                    );
                }
                return Ok(l);
            }
            i = i + 1;
        }
        Err(SolarError::msg_str("Log config not found for character"))
    }
}

/// The text of IP addresses, each with the address it reads as.
#[derive(Debug)]
pub struct IpTable(pub Vec<(String, IpAddress)>);

/// The first position below `n` whose text is `text`.
pub open spec fn ip_index_below(t: Seq<(String, IpAddress)>, text: Seq<char>, n: int) -> Option<int>
    decreases n,
{
    if n <= 0 {
        None
    } else {
        match ip_index_below(t, text, n - 1) {
            Some(i) => Some(i),
            None => if t[n - 1].0@ == text {
                Some(n - 1)
            } else {
                None
            },
        }
    }
}

/// The address that the table gives the text `text`.
pub open spec fn ip_lookup(t: Seq<(String, IpAddress)>, text: Seq<char>) -> Option<IpAddress> {
    match ip_index_below(t, text, t.len() as int) {
        Some(i) => Some(t[i].1),
        None => None,
    }
}

proof fn lemma_ip_found(t: Seq<(String, IpAddress)>, text: Seq<char>, m: int, n: int, i: int)
    requires
        ip_index_below(t, text, m) == Some(i),
        m <= n,
    ensures
        ip_index_below(t, text, n) == Some(i),
    decreases n - m,
{
    if n > m {
        lemma_ip_found(t, text, m, n - 1, i);
    }
}

impl IpTable {
    /// The address of the text `text`, as the first entry for it gives it.
    pub fn lookup(&self, text: &str) -> (r: Option<IpAddress>)
        ensures
            r == ip_lookup(self.0@, text@),
    {
        let mut i: usize = 0;
        while i < self.0.len()
            invariant
                i <= self.0.len(),
                ip_index_below(self.0@, text@, i as int) is None,
            decreases self.0.len() - i,
        {
            if crate::text::str_eq(self.0[i].0.as_str(), text) {
                proof {
                    lemma_ip_found(self.0@, text@, i as int + 1, self.0@.len() as int, i as int);
                }
                return Some(self.0[i].1);
            }
            i = i + 1;
        }
        None
    }
}

/// The configuration as its files give it.
#[derive(Debug)]
pub struct Cfg {
    pub settings: SettingsCfg,
    pub characters: Vec<CharacterCfg>,
    pub modes: Vec<NamedModeCfg>,
    pub logs: Vec<LogCfg>,
    pub server: ServerCfg,
    pub client: ClientCfg,
}

/// The result of building a [Cfg]: the configuration and the index.
#[derive(Debug)]
pub struct CfgParam {
    pub config: Config,
    pub index: Index,
}

/// The configured character of a character of the characters file.
pub open spec fn character_config_of(c: CharacterCfg) -> CharacterConfig {
    CharacterConfig { alias: c.alias, id: c.id, name: c.name }
}

/// The configured characters of the characters file.
pub open spec fn character_configs_of(cs: Seq<CharacterCfg>) -> Seq<CharacterConfig> {
    cs.map_values(|c: CharacterCfg| character_config_of(c))
}

/// The mode that a mode's file gives, checked against the mode index.
pub open spec fn mode_config_step(index: Seq<ModeIdx>) -> spec_fn(NamedModeCfg) -> Result<ModeConfig, Fault> {
    |m: NamedModeCfg|
        match key_index(index, m.name@) {
            Some(i) => Ok(
                ModeConfig { id: index[i].id, combat_analysis: combat_config_of(m.cfg.combat_analysis) },
            ),
            None => Err(Fault::NotFound(ErrNoun::Mode, m.name@)),
        }
}

/// The channel names of the logs file: the name of each log that has one, in order.
pub open spec fn log_channel_names(logs: Seq<LogCfg>) -> Seq<String>
    decreases logs.len(),
{
    if logs.len() == 0 {
        seq![]
    } else {
        let rest = log_channel_names(logs.drop_last());
        match logs.last().name {
            Some(n) => rest.push(n),
            None => rest,
        }
    }
}

/// What a log of the logs file makes, checked against the indices.
pub open spec fn log_step(
    modes: Seq<ModeIdx>,
    characters: Seq<CharacterIdx>,
    channels: Seq<ChannelNameIdx>,
) -> spec_fn(LogCfg) -> Result<(IndexedLog, Seq<IndexId>, Seq<CharacterId>, Seq<AnalysisKind>), Fault> {
    |l: LogCfg| log_config_of(l, modes, characters, channels)
}

/// A watched log as the contracts speak of it.
pub open spec fn log_config_view(l: LogConfig) -> (IndexedLog, Seq<IndexId>, Seq<CharacterId>, Seq<AnalysisKind>) {
    (l.indexed, l.modes@, l.characters@, l.analysis@)
}

/// The served profile of a profile of the server file, its address read by the
/// table `ips`.
pub open spec fn server_profile_step(ips: Seq<(String, IpAddress)>) -> spec_fn(ServeCfg) -> Result<ServerProfileConfig, Fault> {
    |c: ServeCfg|
        match tls_config_of(c.tls, ip_lookup(ips, c.tls.ip@)) {
            Ok(t) => Ok(ServerProfileConfig { name: c.name, tls: t }),
            Err(f) => Err(f),
        }
}

/// The connection profile of a profile of the client file, its address read by
/// the table `ips`.
pub open spec fn client_profile_step(ips: Seq<(String, IpAddress)>) -> spec_fn(ConnectCfg) -> Result<ClientProfileConfig, Fault> {
    |c: ConnectCfg|
        match tls_config_of(c.tls, ip_lookup(ips, c.tls.ip@)) {
            Ok(t) => Ok(ClientProfileConfig { name: c.name, tls: t }),
            Err(f) => Err(f),
        }
}

/// The message of a logs directory whose variables could not be expanded.
pub open spec fn logs_dir_fault(dir: Seq<char>) -> Fault {
    Fault::Msg("Environment expansion failed for settings.log_dir: "@ + dir)
}

/// Whether building `cfg` succeeds, with the expanded logs directory `logs_dir`
/// and the addresses `ips`; where it fails, the fault of the first check that
/// fails, in the order: character aliases, logs directory, mode names, modes,
/// channel names, logs, served profiles, connection profiles.
pub open spec fn cfg_outcome(cfg: Cfg, logs_dir: Option<Seq<char>>, ips: Seq<(String, IpAddress)>) -> Result<(), Fault> {
    let characters = character_configs_of(cfg.characters@);
    let modes = mode_index_of(cfg.settings.modes@);
    let names = log_channel_names(cfg.logs@);
    match first_twin(data_keys(characters)) {
        Some(i) => Err(Fault::Duplicate(ErrNoun::Mode, characters[i].alias@)),
        None => match logs_dir {
            None => Err(logs_dir_fault(cfg.settings.logs_dir@)),
            Some(_) => match first_twin(str_views(cfg.settings.modes@)) {
                Some(i) => Err(Fault::Duplicate(ErrNoun::Mode, cfg.settings.modes@[i]@)),
                None => match collect_all(cfg.modes@, mode_config_step(modes)) {
                    Err(f) => Err(f),
                    Ok(_) => match first_twin(str_views(names)) {
                        Some(i) => Err(Fault::Duplicate(ErrNoun::ChannelName, names[i]@)),
                        None => match collect_all(
                            cfg.logs@,
                            log_step(modes, character_index_of(characters), channel_index_of(names)),
                        ) {
                            Err(f) => Err(f),
                            Ok(_) => match collect_all(cfg.server.serve@, server_profile_step(ips)) {
                                Err(f) => Err(f),
                                Ok(_) => match collect_all(
                                    cfg.client.connect@,
                                    client_profile_step(ips),
                                ) {
                                    Err(f) => Err(f),
                                    Ok(_) => Ok(()),
                                },
                            },
                        },
                    },
                },
            },
        },
    }
}

/// Whether `p` is what building `cfg` makes, with the expanded logs directory
/// `logs_dir` and the addresses `ips`.
pub open spec fn cfg_built(p: CfgParam, cfg: Cfg, logs_dir: Seq<char>, ips: Seq<(String, IpAddress)>) -> bool {
    let characters = character_configs_of(cfg.characters@);
    let modes = mode_index_of(cfg.settings.modes@);
    let channels = channel_index_of(log_channel_names(cfg.logs@));
    &&& p.config.logs_dir@ == logs_dir
    &&& p.config.characters@ == characters
    &&& p.index.characters.0@ == character_index_of(characters)
    &&& p.index.modes.0@ == modes
    &&& p.index.channel_names.0@ == channels
    &&& collect_all(cfg.modes@, mode_config_step(modes)) == Ok::<Seq<ModeConfig>, Fault>(
        p.config.modes@,
    )
    &&& collect_all(cfg.logs@, log_step(modes, character_index_of(characters), channels)) == Ok::<
        Seq<(IndexedLog, Seq<IndexId>, Seq<CharacterId>, Seq<AnalysisKind>)>,
        Fault,
    >(p.config.logs@.map_values(|l: LogConfig| log_config_view(l)))
    &&& collect_all(cfg.server.serve@, server_profile_step(ips)) == Ok::<
        Seq<ServerProfileConfig>,
        Fault,
    >(p.config.server_profiles@)
    &&& collect_all(cfg.client.connect@, client_profile_step(ips)) == Ok::<
        Seq<ClientProfileConfig>,
        Fault,
    >(p.config.client_profiles@)
}

/// Whether `r` is what building `cfg` gives, with the expanded logs directory
/// `logs_dir` and the addresses `ips`.
pub open spec fn cfg_result(
    r: Result<CfgParam, SolarError>,
    cfg: Cfg,
    logs_dir: Option<Seq<char>>,
    ips: Seq<(String, IpAddress)>,
) -> bool {
    match cfg_outcome(cfg, logs_dir, ips) {
        Err(f) => r matches Err(e) && fault_of(e) == f,
        Ok(_) => r matches Ok(p) && logs_dir matches Some(d) && cfg_built(p, cfg, d, ips),
    }
}

/// A copy of the strings `v`.
fn copy_strings(v: &Vec<String>) -> (r: Vec<String>)
    ensures
        r@ == v@,
{
    let mut out: Vec<String> = Vec::new();
    let mut i: usize = 0;
    while i < v.len()
        invariant
            i <= v.len(),
            out@ == v@.take(i as int),
        decreases v.len() - i,
    {
        out.push(v[i].clone());
        i = i + 1;
        assert(out@ =~= v@.take(i as int));
    }
    assert(v@.take(v.len() as int) =~= v@);
    out
}

/// The configured characters of the characters file.
fn character_configs(cs: &Vec<CharacterCfg>) -> (r: Vec<CharacterConfig>)
    ensures
        r@ == character_configs_of(cs@),
{
    let mut out: Vec<CharacterConfig> = Vec::new();
    let mut i: usize = 0;
    while i < cs.len()
        invariant
            i <= cs.len(),
            out@.len() == i,
            forall|k: int| 0 <= k < i ==> #[trigger] out@[k] == character_config_of(cs@[k]),
        decreases cs.len() - i,
    {
        let c = &cs[i];
        let cfg = CharacterCfg { alias: c.alias.clone(), id: c.id, name: c.name.clone() };
        out.push(CharacterConfig::try_from_cfg(cfg));
        i = i + 1;
    }
    assert(out@ =~= character_configs_of(cs@));
    out
}

/// The modes that the modes' files give, checked against the mode index.
fn mode_configs(cfgs: &Vec<NamedModeCfg>, index: &ModeIndex) -> (r: Result<Vec<ModeConfig>, SolarError>)
    ensures
        match collect_all(cfgs@, mode_config_step(index.0@)) {
            Ok(v) => r matches Ok(x) && x@ == v,
            Err(f) => r matches Err(e) && fault_of(e) == f,
        },
{
    let ghost step = mode_config_step(index.0@);
    let mut out: Vec<ModeConfig> = Vec::new();
    let mut i: usize = 0;
    assert(cfgs@.take(0) =~= Seq::<NamedModeCfg>::empty());
    while i < cfgs.len()
        invariant
            step == mode_config_step(index.0@),
            i <= cfgs.len(),
            collect_all(cfgs@.take(i as int), step) == Ok::<Seq<ModeConfig>, Fault>(out@),
        decreases cfgs.len() - i,
    {
        proof {
            lemma_collect_all_step(cfgs@, step, i as int);
        }
        let c = NamedModeCfg { name: cfgs[i].name.clone(), cfg: cfgs[i].cfg };
        match ModeConfig::try_from_cfg(c, index) {
            Ok(m) => {
                out.push(m);
            },
            Err(e) => {
                proof {
                    lemma_collect_all_fails(cfgs@, step, i as int + 1, cfgs@.len() as int);
                    assert(cfgs@.take(cfgs@.len() as int) =~= cfgs@);
                }
                return Err(e);
            },
        }
        i = i + 1;
    }
    assert(cfgs@.take(cfgs@.len() as int) =~= cfgs@);
    Ok(out)
}

/// The channel names of the logs file.
fn channel_names_of(logs: &Vec<LogCfg>) -> (r: Vec<String>)
    ensures
        r@ == log_channel_names(logs@),
{
    let mut out: Vec<String> = Vec::new();
    let mut i: usize = 0;
    assert(logs@.take(0) =~= Seq::<LogCfg>::empty());
    while i < logs.len()
        invariant
            i <= logs.len(),
            out@ == log_channel_names(logs@.take(i as int)),
        decreases logs.len() - i,
    {
        let ghost t = logs@.take(i as int + 1);
        assert(t.drop_last() =~= logs@.take(i as int));
        assert(t.last() == logs@[i as int]);
        match &logs[i].name {
            Some(n) => {
                out.push(n.clone());
            },
            None => {},
        }
        i = i + 1;
    }
    assert(logs@.take(logs@.len() as int) =~= logs@);
    out
}

/// The watched logs that the logs file gives, checked against the indices.
fn log_configs(
    cfgs: &Vec<LogCfg>,
    modes: &ModeIndex,
    characters: &CharacterIndex,
    channels: &ChannelNameIndex,
) -> (r: Result<Vec<LogConfig>, SolarError>)
    ensures
        match collect_all(cfgs@, log_step(modes.0@, characters.0@, channels.0@)) {
            Ok(v) => r matches Ok(x) && x@.map_values(|l: LogConfig| log_config_view(l)) == v,
            Err(f) => r matches Err(e) && fault_of(e) == f,
        },
{
    let ghost step = log_step(modes.0@, characters.0@, channels.0@);
    let mut out: Vec<LogConfig> = Vec::new();
    let mut i: usize = 0;
    assert(cfgs@.take(0) =~= Seq::<LogCfg>::empty());
    assert(out@.map_values(|l: LogConfig| log_config_view(l)) =~= Seq::empty());
    while i < cfgs.len()
        invariant
            step == log_step(modes.0@, characters.0@, channels.0@),
            i <= cfgs.len(),
            collect_all(cfgs@.take(i as int), step) == Ok::<
                Seq<(IndexedLog, Seq<IndexId>, Seq<CharacterId>, Seq<AnalysisKind>)>,
                Fault,
            >(out@.map_values(|l: LogConfig| log_config_view(l))),
        decreases cfgs.len() - i,
    {
        proof {
            lemma_collect_all_step(cfgs@, step, i as int);
        }
        match LogConfig::try_from_cfg(&cfgs[i], modes, characters, channels) {
            Ok(l) => {
                let ghost before = out@;
                out.push(l);
                assert(out@.map_values(|l: LogConfig| log_config_view(l)) =~= before.map_values(
                    |l: LogConfig| log_config_view(l),
                ).push(log_config_view(l)));
            },
            Err(e) => {
                proof {
                    lemma_collect_all_fails(cfgs@, step, i as int + 1, cfgs@.len() as int);
                    assert(cfgs@.take(cfgs@.len() as int) =~= cfgs@);
                }
                return Err(e);
            },
        }
        i = i + 1;
    }
    assert(cfgs@.take(cfgs@.len() as int) =~= cfgs@);
    Ok(out)
}

/// The served profiles of the server file.
fn server_profiles(cfgs: &Vec<ServeCfg>, ips: &IpTable) -> (r: Result<Vec<ServerProfileConfig>, SolarError>)
    ensures
        match collect_all(cfgs@, server_profile_step(ips.0@)) {
            Ok(v) => r matches Ok(x) && x@ == v,
            Err(f) => r matches Err(e) && fault_of(e) == f,
        },
{
    let ghost step = server_profile_step(ips.0@);
    let mut out: Vec<ServerProfileConfig> = Vec::new();
    let mut i: usize = 0;
    assert(cfgs@.take(0) =~= Seq::<ServeCfg>::empty());
    while i < cfgs.len()
        invariant
            step == server_profile_step(ips.0@),
            i <= cfgs.len(),
            collect_all(cfgs@.take(i as int), step) == Ok::<Seq<ServerProfileConfig>, Fault>(out@),
        decreases cfgs.len() - i,
    {
        proof {
            lemma_collect_all_step(cfgs@, step, i as int);
        }
        let c = &cfgs[i];
        let ip = ips.lookup(c.tls.ip.as_str());
        let cfg = ServeCfg {
            name: c.name.clone(),
            tls: TlsCfg { ip: c.tls.ip.clone(), port: c.tls.port },
        };
        match ServerProfileConfig::try_from_cfg(cfg, ip) {
            Ok(p) => {
                out.push(p);
            },
            Err(e) => {
                proof {
                    lemma_collect_all_fails(cfgs@, step, i as int + 1, cfgs@.len() as int);
                    assert(cfgs@.take(cfgs@.len() as int) =~= cfgs@);
                }
                return Err(e);
            },
        }
        i = i + 1;
    }
    assert(cfgs@.take(cfgs@.len() as int) =~= cfgs@);
    Ok(out)
}

/// The connection profiles of the client file.
fn client_profiles(cfgs: &Vec<ConnectCfg>, ips: &IpTable) -> (r: Result<Vec<ClientProfileConfig>, SolarError>)
    ensures
        match collect_all(cfgs@, client_profile_step(ips.0@)) {
            Ok(v) => r matches Ok(x) && x@ == v,
            Err(f) => r matches Err(e) && fault_of(e) == f,
        },
{
    let ghost step = client_profile_step(ips.0@);
    let mut out: Vec<ClientProfileConfig> = Vec::new();
    let mut i: usize = 0;
    assert(cfgs@.take(0) =~= Seq::<ConnectCfg>::empty());
    while i < cfgs.len()
        invariant
            step == client_profile_step(ips.0@),
            i <= cfgs.len(),
            collect_all(cfgs@.take(i as int), step) == Ok::<Seq<ClientProfileConfig>, Fault>(out@),
        decreases cfgs.len() - i,
    {
        proof {
            lemma_collect_all_step(cfgs@, step, i as int);
        }
        let c = &cfgs[i];
        let ip = ips.lookup(c.tls.ip.as_str());
        let cfg = ConnectCfg {
            name: c.name.clone(),
            tls: TlsCfg { ip: c.tls.ip.clone(), port: c.tls.port },
        };
        match ClientProfileConfig::try_from_cfg(cfg, ip) {
            Ok(p) => {
                out.push(p);
            },
            Err(e) => {
                proof {
                    lemma_collect_all_fails(cfgs@, step, i as int + 1, cfgs@.len() as int);
                    assert(cfgs@.take(cfgs@.len() as int) =~= cfgs@);
                }
                return Err(e);
            },
        }
        i = i + 1;
    }
    assert(cfgs@.take(cfgs@.len() as int) =~= cfgs@);
    Ok(out)
}

impl Cfg {
    /// The configuration and the index that `self` gives, with the logs directory
    /// as expansion gave it (`None` where expansion failed) and the addresses of
    /// the TLS endpoints read by `ips`.
    pub fn build_with(self, logs_dir: Option<String>, ips: &IpTable) -> (r: Result<CfgParam, SolarError>)
        ensures
            cfg_result(
                r,
                self,
                match logs_dir {
                    Some(d) => Some(d@),
                    None => None,
                },
                ips.0@,
            ),
    {
        let ghost cfg = self;
        let characters = character_configs(&self.characters);
        let character_index = CharacterIndex::try_from_cfg(&characters)?;
        let logs_dir = match logs_dir {
            Some(d) => d,
            None => {
                return Err(
                    SolarError::msg(
                        message_with(
                            "Environment expansion failed for settings.log_dir: ",
                            self.settings.logs_dir.as_str(),
                        ),
                    ),
                );
            },
        };
        let mode_index = ModeIndex::try_new(copy_strings(&self.settings.modes))?;
        let modes = mode_configs(&self.modes, &mode_index)?;
        let names = channel_names_of(&self.logs);
        let channel_index = ChannelNameIndex::try_new(names)?;
        let logs = log_configs(&self.logs, &mode_index, &character_index, &channel_index)?;
        let server_profiles = server_profiles(&self.server.serve, ips)?;
        let client_profiles = client_profiles(&self.client.connect, ips)?;
        let config = Config {
            logs_dir,
            characters,
            logs,
            modes,
            server_profiles,
            client_profiles,
        };
        let index = Index::new(mode_index, character_index, channel_index);
        Ok(CfgParam { config, index })
    }

    /// The configuration and the index that `self` gives, with the logs directory
    /// expanded from the environment and the addresses of the TLS endpoints read by
    /// `ips`. What the expansion gives depends on the environment: the result is
    /// that of [Cfg::build_with] for one outcome of it, and a logs directory that
    /// holds no `$` and no leading `~` is taken as it is.
    pub fn build(self, ips: &IpTable) -> (r: Result<CfgParam, SolarError>)
        ensures
            exists|d: Option<Seq<char>>|
                #[trigger] cfg_result(r, self, d, ips.0@) && (plain_path(self.settings.logs_dir@)
                    ==> d == Some(self.settings.logs_dir@)),
    {
        let expanded = shell_expand_full(self.settings.logs_dir.as_str());
        let ghost d = match &expanded {
            Some(s) => Some(s@),
            None => None,
        };
        let ghost cfg = self;
        let r = self.build_with(expanded, ips);
        assert(cfg_result(r, cfg, d, ips.0@));
        r
    }
}


/// A character of a configuration built into a program.
#[derive(Debug)]
pub struct CharacterCfgConst {
    pub alias: &'static str,
    pub id: CharacterId,
    pub name: &'static str,
}

/// The settings of a configuration built into a program.
#[derive(Debug)]
pub struct SettingsCfgConst {
    pub logs_dir: &'static str,
    pub modes: &'static [&'static str],
}

/// A TLS endpoint of a configuration built into a program.
#[derive(Debug)]
pub struct TlsCfgConst {
    pub ip: &'static str,
    pub port: u16,
}

/// A served profile of a configuration built into a program.
#[derive(Debug)]
pub struct ServeCfgConst {
    pub name: &'static str,
    pub tls: TlsCfgConst,
}

/// The served profiles of a configuration built into a program.
#[derive(Debug)]
pub struct ServerCfgConst {
    pub serve: &'static [ServeCfgConst],
}

/// A connection profile of a configuration built into a program.
#[derive(Debug)]
pub struct ConnectCfgConst {
    pub name: &'static str,
    pub tls: TlsCfgConst,
}

/// The connection profiles of a configuration built into a program.
#[derive(Debug)]
pub struct ClientCfgConst {
    pub connect: &'static [ConnectCfgConst],
}

/// A mode of a configuration built into a program.
#[derive(Debug)]
pub struct NamedModeCfgConst {
    pub name: &'static str,
    pub combat_analysis: crate::mode::CombatAnalysisModeCfgConst,
}

/// A watched log of a configuration built into a program.
#[derive(Debug)]
pub struct LogCfgConst {
    pub kind: LogKind,
    pub name: Option<&'static str>,
    pub characters: &'static [&'static str],
    pub modes: &'static [&'static str],
    pub analysis: &'static [AnalysisKind],
}

/// A configuration built into a program.
#[derive(Debug)]
pub struct CfgConst {
    pub characters: &'static [CharacterCfgConst],
    pub settings: SettingsCfgConst,
    pub server: ServerCfgConst,
    pub client: ClientCfgConst,
    pub logs: &'static [LogCfgConst],
    pub modes: &'static [NamedModeCfgConst],
}

/// How a log kind is written in the logs file.
pub open spec fn log_kind_input_text(k: LogKind) -> Seq<char> {
    match k {
        LogKind::Game => "game"@,
        LogKind::Local => "local"@,
        LogKind::Alliance => "alliance"@,
        LogKind::Corporation => "corp"@,
        LogKind::Fleet => "fleet"@,
        LogKind::Group => "group"@,
    }
}

/// How an analysis kind is written in the logs file.
pub open spec fn analysis_input_text(k: AnalysisKind) -> Seq<char> {
    match k {
        AnalysisKind::Callout => "callout"@,
        AnalysisKind::Combat => "combat"@,
        AnalysisKind::Intel => "intel"@,
        AnalysisKind::Message => "message"@,
    }
}

/// The strings of the static texts `v`.
fn strings_of(v: &[&'static str]) -> (r: Vec<String>)
    ensures
        r@.len() == v@.len(),
        forall|i: int| 0 <= i < v@.len() ==> #[trigger] r@[i]@ == v@[i]@,
{
    let mut out: Vec<String> = Vec::new();
    let mut i: usize = 0;
    while i < v.len()
        invariant
            i <= v@.len(),
            out@.len() == i,
            forall|k: int| 0 <= k < i ==> #[trigger] out@[k]@ == v@[k]@,
        decreases v@.len() - i,
    {
        out.push(v[i].to_owned());
        i = i + 1;
    }
    out
}

impl CharacterCfgConst {
    /// The character as the characters file would give it.
    pub fn to_cfg(&self) -> (r: CharacterCfg)
        ensures
            r.alias@ == self.alias@,
            r.id == self.id,
            r.name@ == self.name@,
    {
        CharacterCfg { alias: self.alias.to_owned(), id: self.id, name: self.name.to_owned() }
    }
}

impl SettingsCfgConst {
    /// The settings as the settings file would give them.
    pub fn to_cfg(&self) -> (r: SettingsCfg)
        ensures
            r.logs_dir@ == self.logs_dir@,
            r.modes@.len() == self.modes@.len(),
            forall|i: int| 0 <= i < self.modes@.len() ==> #[trigger] r.modes@[i]@ == self.modes@[i]@,
    {
        SettingsCfg { logs_dir: self.logs_dir.to_owned(), modes: strings_of(self.modes) }
    }
}

impl TlsCfgConst {
    /// The endpoint as a file would give it.
    pub fn to_cfg(&self) -> (r: TlsCfg)
        ensures
            r.ip@ == self.ip@,
            r.port == self.port,
    {
        TlsCfg { ip: self.ip.to_owned(), port: self.port }
    }
}

impl ServerCfgConst {
    /// The served profiles as the server file would give them.
    pub fn to_cfg(&self) -> (r: ServerCfg)
        ensures
            r.serve@.len() == self.serve@.len(),
            forall|i: int|
                0 <= i < self.serve@.len() ==> (#[trigger] r.serve@[i]).name@ == self.serve@[i].name@
                    && r.serve@[i].tls.ip@ == self.serve@[i].tls.ip@ && r.serve@[i].tls.port
                    == self.serve@[i].tls.port,
    {
        let mut out: Vec<ServeCfg> = Vec::new();
        let mut i: usize = 0;
        while i < self.serve.len()
            invariant
                i <= self.serve@.len(),
                out@.len() == i,
                forall|k: int|
                    0 <= k < i ==> (#[trigger] out@[k]).name@ == self.serve@[k].name@
                        && out@[k].tls.ip@ == self.serve@[k].tls.ip@ && out@[k].tls.port
                        == self.serve@[k].tls.port,
            decreases self.serve@.len() - i,
        {
            let c = &self.serve[i];
            out.push(ServeCfg { name: c.name.to_owned(), tls: c.tls.to_cfg() });
            i = i + 1;
        }
        ServerCfg { serve: out }
    }
}

impl ClientCfgConst {
    /// The connection profiles as the client file would give them.
    pub fn to_cfg(&self) -> (r: ClientCfg)
        ensures
            r.connect@.len() == self.connect@.len(),
            forall|i: int|
                0 <= i < self.connect@.len() ==> (#[trigger] r.connect@[i]).name@
                    == self.connect@[i].name@ && r.connect@[i].tls.ip@ == self.connect@[i].tls.ip@
                    && r.connect@[i].tls.port == self.connect@[i].tls.port,
    {
        let mut out: Vec<ConnectCfg> = Vec::new();
        let mut i: usize = 0;
        while i < self.connect.len()
            invariant
                i <= self.connect@.len(),
                out@.len() == i,
                forall|k: int|
                    0 <= k < i ==> (#[trigger] out@[k]).name@ == self.connect@[k].name@
                        && out@[k].tls.ip@ == self.connect@[k].tls.ip@ && out@[k].tls.port
                        == self.connect@[k].tls.port,
            decreases self.connect@.len() - i,
        {
            let c = &self.connect[i];
            out.push(ConnectCfg { name: c.name.to_owned(), tls: c.tls.to_cfg() });
            i = i + 1;
        }
        ClientCfg { connect: out }
    }
}

impl NamedModeCfgConst {
    /// The mode as its files would give it.
    pub fn to_cfg(&self) -> (r: NamedModeCfg)
        ensures
            r.name@ == self.name@,
            r.cfg.combat_analysis == crate::mode::combat_cfg_of_const(self.combat_analysis),
    {
        NamedModeCfg {
            name: self.name.to_owned(),
            cfg: ModeCfg { combat_analysis: crate::mode::CombatAnalysisModeCfg::from(&self.combat_analysis) },
        }
    }
}

impl LogCfgConst {
    /// The watched log as the logs file would give it: its kind and analyses
    /// written as the file writes them.
    pub fn to_cfg(&self) -> (r: LogCfg)
        ensures
            r.kind@ == log_kind_input_text(self.kind),
            match self.name {
                Some(n) => r.name matches Some(m) && m@ == n@,
                None => r.name is None,
            },
            r.characters@.len() == self.characters@.len(),
            forall|i: int|
                0 <= i < self.characters@.len() ==> #[trigger] r.characters@[i]@ == self.characters@[i]@,
            r.modes@.len() == self.modes@.len(),
            forall|i: int| 0 <= i < self.modes@.len() ==> #[trigger] r.modes@[i]@ == self.modes@[i]@,
            r.pings@.len() == self.analysis@.len(),
            forall|i: int|
                0 <= i < self.analysis@.len() ==> #[trigger] r.pings@[i]@ == analysis_input_text(
                    self.analysis@[i],
                ),
    {
        let kind = match self.kind {
            LogKind::Game => "game",
            LogKind::Local => "local",
            LogKind::Alliance => "alliance",
            LogKind::Corporation => "corp",
            LogKind::Fleet => "fleet",
            LogKind::Group => "group",
        };
        let mut pings: Vec<String> = Vec::new();
        let mut i: usize = 0;
        while i < self.analysis.len()
            invariant
                i <= self.analysis@.len(),
                pings@.len() == i,
                forall|k: int|
                    0 <= k < i ==> #[trigger] pings@[k]@ == analysis_input_text(self.analysis@[k]),
            decreases self.analysis@.len() - i,
        {
            let text = match self.analysis[i] {
                AnalysisKind::Callout => "callout",
                AnalysisKind::Combat => "combat",
                AnalysisKind::Intel => "intel",
                AnalysisKind::Message => "message",
            };
            proof {
                reveal_strlit("callout");
                reveal_strlit("combat");
                reveal_strlit("intel");
                reveal_strlit("message");
            }
            pings.push(text.to_owned());
            i = i + 1;
        }
        let name = match self.name {
            Some(n) => Some(n.to_owned()),
            None => None,
        };
        proof {
            reveal_strlit("game");
            reveal_strlit("local");
            reveal_strlit("alliance");
            reveal_strlit("corp");
            reveal_strlit("fleet");
            reveal_strlit("group");
        }
        LogCfg {
            kind: kind.to_owned(),
            modes: strings_of(self.modes),
            characters: strings_of(self.characters),
            pings,
            name,
        }
    }
}

impl Cfg {
    /// The configuration that a configuration built into a program gives, as its
    /// files would give it.
    pub fn from_const(v: &CfgConst) -> (r: Cfg)
        ensures
            r.characters@.len() == v.characters@.len(),
            forall|i: int|
                0 <= i < v.characters@.len() ==> (#[trigger] r.characters@[i]).alias@
                    == v.characters@[i].alias@ && r.characters@[i].id == v.characters@[i].id
                    && r.characters@[i].name@ == v.characters@[i].name@,
            r.settings.logs_dir@ == v.settings.logs_dir@,
            r.settings.modes@.len() == v.settings.modes@.len(),
            r.logs@.len() == v.logs@.len(),
            r.modes@.len() == v.modes@.len(),
            forall|i: int|
                0 <= i < v.modes@.len() ==> (#[trigger] r.modes@[i]).name@ == v.modes@[i].name@,
            r.server.serve@.len() == v.server.serve@.len(),
            r.client.connect@.len() == v.client.connect@.len(),
    {
        let mut characters: Vec<CharacterCfg> = Vec::new();
        let mut i: usize = 0;
        while i < v.characters.len()
            invariant
                i <= v.characters@.len(),
                characters@.len() == i,
                forall|k: int|
                    0 <= k < i ==> (#[trigger] characters@[k]).alias@ == v.characters@[k].alias@
                        && characters@[k].id == v.characters@[k].id && characters@[k].name@
                        == v.characters@[k].name@,
            decreases v.characters@.len() - i,
        {
            characters.push(v.characters[i].to_cfg());
            i = i + 1;
        }
        let mut logs: Vec<LogCfg> = Vec::new();
        let mut j: usize = 0;
        while j < v.logs.len()
            invariant
                j <= v.logs@.len(),
                logs@.len() == j,
            decreases v.logs@.len() - j,
        {
            logs.push(v.logs[j].to_cfg());
            j = j + 1;
        }
        let mut modes: Vec<NamedModeCfg> = Vec::new();
        let mut k: usize = 0;
        while k < v.modes.len()
            invariant
                k <= v.modes@.len(),
                modes@.len() == k,
                forall|m: int| 0 <= m < k ==> (#[trigger] modes@[m]).name@ == v.modes@[m].name@,
            decreases v.modes@.len() - k,
        {
            modes.push(v.modes[k].to_cfg());
            k = k + 1;
        }
        Cfg {
            settings: v.settings.to_cfg(),
            characters,
            modes,
            logs,
            server: v.server.to_cfg(),
            client: v.client.to_cfg(),
        }
    }
}


/// In a built configuration, every character that a watched log lists is a
/// configured character: the one whose alias the logs file names.
pub proof fn lemma_log_characters_configured(
    p: CfgParam,
    cfg: Cfg,
    logs_dir: Seq<char>,
    ips: Seq<(String, IpAddress)>,
    k: int,
    q: int,
)
    requires
        cfg_built(p, cfg, logs_dir, ips),
        0 <= k < p.config.logs@.len(),
        0 <= q < p.config.logs@[k].characters@.len(),
    ensures
        exists|j: int|
            0 <= j < p.config.characters@.len() && #[trigger] p.config.characters@[j].id
                == p.config.logs@[k].characters@[q],
{
    let characters = character_configs_of(cfg.characters@);
    let modes = mode_index_of(cfg.settings.modes@);
    let channels = channel_index_of(log_channel_names(cfg.logs@));
    let cidx = character_index_of(characters);
    let views = p.config.logs@.map_values(|l: LogConfig| log_config_view(l));
    lemma_collect_all_each(cfg.logs@, log_step(modes, cidx, channels), views);
    let l = cfg.logs@[k];
    assert(log_step(modes, cidx, channels)(l) == Ok::<
        (IndexedLog, Seq<IndexId>, Seq<CharacterId>, Seq<AnalysisKind>),
        Fault,
    >(views[k]));
    assert(views[k] == log_config_view(p.config.logs@[k]));
    match log_kind_input_of(str_lower(l.kind@)) {
        None => {},
        Some(kind) => match indexed_log_of(kind, l.name, channels) {
            Err(_) => {},
            Ok(_) => match collect_all(l.modes@, mode_step(modes)) {
                Err(_) => {},
                Ok(_) => match collect_all(l.characters@, character_step(cidx)) {
                    Err(_) => {},
                    Ok(cs) => {
                        assert(cs == p.config.logs@[k].characters@);
                        lemma_collect_all_each(l.characters@, character_step(cidx), cs);
                        let alias = l.characters@[q];
                        assert(character_step(cidx)(alias) == Ok::<CharacterId, Fault>(cs[q]));
                        crate::indices::lemma_key_index_bounds(cidx, alias@, cidx.len() as int);
                        let j = key_index(cidx, alias@)->0;
                        assert(cidx[j].character_id == characters[j].id);
                        assert(p.config.characters@[j].id == cs[q]);
                    },
                },
            },
        },
    }
}

} // verus!
