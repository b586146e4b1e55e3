//! A run of the sonar: the arguments it is given, the parameters it starts from,
//! which logs and systems it watches, and what each entry it reads makes it
//! announce.

use vstd::prelude::*;
use crate::{CharacterId, StarId, ModeId};
use crate::config::{
    Cfg, CfgParam, Config, CharacterConfig, IpTable, ServerProfileConfig, ClientProfileConfig,
    LogConfig, IpAddress, cfg_result, cfg_built, cfg_outcome,
};
use crate::error::{
    SolarError, ErrNoun, Fault, fault_of, message_with, collect_all, lemma_collect_all_fails,
    lemma_collect_all_step,
};
use crate::indices::{Index, ChannelNameIdx, key_index, xxh3_str};
use crate::log_kind::{
    CharacterLog, IndexedLog, NamedLog, LogName, LogKind, character_log_of, log_kind_of_name,
};
use crate::logs::{
    LogDirKind, LogFile, LogEntry, parse_log_file_name, portable_dir_kind, portable_path,
    path_components, last_name, parts_match,
};
use crate::paths::{expand_path, plain_path};
use crate::star_map::{StarMap, StarSystem, StarNavigator, range_ids};
use crate::text::{split_on, split_on_char, heck_snake_case, to_snake_case, str_upper, to_uppercase};
use crate::mode::ModeConfig;
use crate::time::{Timestamp, stamp_after};

verus! {

/// The command line: the mode, the characters and systems to watch (each list
/// separated by commas), the jump range, the outputs, and the optional replay
/// file, event log directory, served profile and connection profile.
#[derive(Debug, Clone)]
pub struct Cli {
    pub mode: String,
    pub watch_characters: String,
    pub watch_systems: String,
    pub jumps: u8,
    pub stdio: bool,
    pub audio: bool,
    pub replay: Option<String>,
    pub relog: Option<String>,
    pub serve: Option<String>,
    pub connect: Option<String>,
}

/// The arguments of a run.
#[derive(Debug, Clone, PartialEq, Eq)]
pub struct Args {
    pub mode: String,
    pub watch_character_ids: Vec<CharacterId>,
    pub watch_system_ids: Vec<StarId>,
    pub jumps: u8,
    pub audio: bool,
    pub stdio: bool,
    pub server_profile: Option<String>,
    pub client_profile: Option<String>,
    pub replay_path: Option<String>,
    pub relog: Option<String>,
}

/// The arguments of a run, checked: with the id of the mode and the logs that
/// the arguments name.
#[derive(Debug)]
pub struct ArgParam {
    pub args: Args,
    pub mode_id: ModeId,
    pub arg_indexed_logs: Vec<IndexedLog>,
}

/// The first position below `n` of a configured character with the alias `alias`.
pub open spec fn alias_position_below(cs: Seq<CharacterConfig>, alias: Seq<char>, n: int) -> Option<int>
    decreases n,
{
    if n <= 0 {
        None
    } else {
        match alias_position_below(cs, alias, n - 1) {
            Some(i) => Some(i),
            None => if cs[n - 1].alias@ == alias {
                Some(n - 1)
            } else {
                None
            },
        }
    }
}

/// The first position below `n` of a configured character with the id `id`.
pub open spec fn id_position_below(cs: Seq<CharacterConfig>, id: CharacterId, n: int) -> Option<int>
    decreases n,
{
    if n <= 0 {
        None
    } else {
        match id_position_below(cs, id, n - 1) {
            Some(i) => Some(i),
            None => if cs[n - 1].id == id {
                Some(n - 1)
            } else {
                None
            },
        }
    }
}

proof fn lemma_alias_found(cs: Seq<CharacterConfig>, alias: Seq<char>, m: int, n: int, i: int)
    requires
        alias_position_below(cs, alias, m) == Some(i),
        m <= n,
    ensures
        alias_position_below(cs, alias, n) == Some(i),
    decreases n - m,
{
    if n > m {
        lemma_alias_found(cs, alias, m, n - 1, i);
    }
}

proof fn lemma_id_found(cs: Seq<CharacterConfig>, id: CharacterId, m: int, n: int, i: int)
    requires
        id_position_below(cs, id, m) == Some(i),
        m <= n,
    ensures
        id_position_below(cs, id, n) == Some(i),
    decreases n - m,
{
    if n > m {
        lemma_id_found(cs, id, m, n - 1, i);
    }
}

proof fn lemma_id_position(cs: Seq<CharacterConfig>, id: CharacterId, n: int)
    requires
        0 <= n <= cs.len(),
    ensures
        id_position_below(cs, id, n) matches Some(i) ==> 0 <= i < n && cs[i].id == id,
    decreases n,
{
    if n > 0 {
        lemma_id_position(cs, id, n - 1);
    }
}

/// The EVE id of the character that a piece of the watch list names: the piece is
/// put in snake case and looked up by alias.
pub open spec fn character_id_step(cs: Seq<CharacterConfig>) -> spec_fn(Seq<char>) -> Result<CharacterId, Fault> {
    |piece: Seq<char>|
        {
            let snake = heck_snake_case(piece);
            match alias_position_below(cs, snake, cs.len() as int) {
                Some(i) => Ok(cs[i].id),
                None => Err(Fault::Msg("Character unknown: "@ + snake)),
            }
        }
}

/// The id of the system that a piece of the system list names: the piece is put
/// in upper case and looked up by name.
pub open spec fn system_id_step(map: StarMap) -> spec_fn(Seq<char>) -> Result<StarId, Fault> {
    |piece: Seq<char>|
        {
            let up = str_upper(piece);
            match map.named(up) {
                Some(s) => Ok(s.id),
                None => Err(Fault::Msg("System unknown: "@ + up)),
            }
        }
}

/// What is wrong with a command line before its paths are expanded, if anything:
/// serving and connecting at once, an unknown character, an unknown system.
pub open spec fn cli_fault(cli: Cli, cs: Seq<CharacterConfig>, map: StarMap) -> Option<Fault> {
    if cli.connect is Some && cli.serve is Some {
        Some(Fault::Msg("Cannot both serve and connect"@))
    } else {
        match collect_all(split_on(cli.watch_characters@, ','), character_id_step(cs)) {
            Err(f) => Some(f),
            Ok(_) => match collect_all(split_on(cli.watch_systems@, ','), system_id_step(map)) {
                Err(f) => Some(f),
                Ok(_) => None,
            },
        }
    }
}

/// Whether `e` is an expansion of the path `given`: none where none is given, and
/// the path itself where it is plain.
pub open spec fn expanded_from(e: Option<String>, given: Option<String>) -> bool {
    match given {
        None => e is None,
        Some(p) => e matches Some(x) && (plain_path(p@) ==> x@ == p@),
    }
}

/// Whether `a` are the arguments that the command line `cli` gives.
pub open spec fn args_of_cli(a: Args, cli: Cli, cs: Seq<CharacterConfig>, map: StarMap) -> bool {
    &&& collect_all(split_on(cli.watch_characters@, ','), character_id_step(cs)) == Ok::<
        Seq<CharacterId>,
        Fault,
    >(a.watch_character_ids@)
    &&& collect_all(split_on(cli.watch_systems@, ','), system_id_step(map)) == Ok::<
        Seq<StarId>,
        Fault,
    >(a.watch_system_ids@)
    &&& a.mode == cli.mode
    &&& a.jumps == cli.jumps
    &&& a.audio == cli.audio
    &&& a.stdio == cli.stdio
    &&& a.server_profile == cli.serve
    &&& a.client_profile == cli.connect
    &&& expanded_from(a.replay_path, cli.replay)
    &&& expanded_from(a.relog, cli.relog)
}

/// The EVE ids of the characters that the comma-separated list `text` names.
fn character_ids_of(text: &str, cs: &Vec<CharacterConfig>) -> (r: Result<Vec<CharacterId>, SolarError>)
    ensures
        match collect_all(split_on(text@, ','), character_id_step(cs@)) {
            Ok(v) => r matches Ok(x) && x@ == v,
            Err(f) => r matches Err(e) && fault_of(e) == f,
        },
{
    let pieces = split_on_char(text, ',');
    let ghost pv = pieces@.map_values(|x: String| x@);
    let ghost step = character_id_step(cs@);
    let mut out: Vec<CharacterId> = Vec::new();
    let mut i: usize = 0;
    assert(pv.take(0) =~= Seq::<Seq<char>>::empty());
    while i < pieces.len()
        invariant
            pv == pieces@.map_values(|x: String| x@),
            pv == split_on(text@, ','),
            step == character_id_step(cs@),
            i <= pieces.len(),
            collect_all(pv.take(i as int), step) == Ok::<Seq<CharacterId>, Fault>(out@),
        decreases pieces.len() - i,
    {
        proof {
            lemma_collect_all_step(pv, step, i as int);
        }
        assert(pv[i as int] == pieces@[i as int]@);
        let snake = to_snake_case(pieces[i].as_str());
        let mut k: usize = 0;
        let mut found: Option<CharacterId> = None;
        while k < cs.len()
            invariant
                k <= cs.len(),
                found is None ==> alias_position_below(cs@, snake@, k as int) is None,
                found matches Some(id) ==> alias_position_below(cs@, snake@, cs@.len() as int)
                    matches Some(j) && cs@[j].id == id,
            decreases cs.len() - k,
        {
            if found.is_none() && crate::text::str_eq(cs[k].alias.as_str(), snake.as_str()) {
                proof {
                    lemma_alias_found(cs@, snake@, k as int + 1, cs@.len() as int, k as int);
                }
                found = Some(cs[k].id);
            }
            k = k + 1;
        }
        match found {
            Some(id) => {
                out.push(id);
            },
            None => {
                proof {
                    lemma_collect_all_fails(pv, step, i as int + 1, pv.len() as int);
                    assert(pv.take(pv.len() as int) =~= pv);
                }
                return Err(SolarError::msg(message_with("Character unknown: ", snake.as_str())));
            },
        }
        i = i + 1;
    }
    assert(pv.take(pv.len() as int) =~= pv);
    Ok(out)
}

/// The ids of the systems that the comma-separated list `text` names.
fn system_ids_of(text: &str, map: &StarMap) -> (r: Result<Vec<StarId>, SolarError>)
    ensures
        match collect_all(split_on(text@, ','), system_id_step(*map)) {
            Ok(v) => r matches Ok(x) && x@ == v,
            Err(f) => r matches Err(e) && fault_of(e) == f,
        },
{
    let pieces = split_on_char(text, ',');
    let ghost pv = pieces@.map_values(|x: String| x@);
    let ghost step = system_id_step(*map);
    let mut out: Vec<StarId> = Vec::new();
    let mut i: usize = 0;
    assert(pv.take(0) =~= Seq::<Seq<char>>::empty());
    while i < pieces.len()
        invariant
            pv == pieces@.map_values(|x: String| x@),
            pv == split_on(text@, ','),
            step == system_id_step(*map),
            i <= pieces.len(),
            collect_all(pv.take(i as int), step) == Ok::<Seq<StarId>, Fault>(out@),
        decreases pieces.len() - i,
    {
        proof {
            lemma_collect_all_step(pv, step, i as int);
        }
        assert(pv[i as int] == pieces@[i as int]@);
        let up = to_uppercase(pieces[i].as_str());
        match map.get_system_named(up.as_str()) {
            Some(sys) => {
                out.push(sys.id);
            },
            None => {
                proof {
                    lemma_collect_all_fails(pv, step, i as int + 1, pv.len() as int);
                    assert(pv.take(pv.len() as int) =~= pv);
                }
                return Err(SolarError::msg(message_with("System unknown: ", up.as_str())));
            },
        }
        i = i + 1;
    }
    assert(pv.take(pv.len() as int) =~= pv);
    Ok(out)
}

/// The expansion of an optional path.
fn expand_optional(path: Option<String>) -> (r: Result<Option<String>, SolarError>)
    ensures
        match r {
            Ok(e) => expanded_from(e, path),
            Err(e) => path matches Some(p) && fault_of(e) == Fault::Path(p@) && !plain_path(p@),
        },
{
    match path {
        Some(p) => match expand_path(p.as_str()) {
            Ok(e) => Ok(Some(e)),
            Err(e) => Err(e),
        },
        None => Ok(None),
    }
}

/// Whether the log file is that of a private conversation, which the sonar does
/// not support.
pub open spec fn private_log(f: LogFile) -> bool {
    f.parts.name matches LogName::Chat(n) && n@ == "Private"@
}

fn is_private_log(f: &LogFile) -> (r: bool)
    ensures
        r == private_log(*f),
{
    match &f.parts.name {
        LogName::Chat(n) => crate::text::str_eq(n.as_str(), "Private"),
        LogName::Game => false,
    }
}

/// The name, stamp and character that the file name of a portable replay path
/// gives, read in the kind of directory that holds it (a chat log where that is no
/// log directory); none where its last component is no name.
pub open spec fn replay_parts(p: Seq<char>) -> Option<(Option<Seq<char>>, Timestamp, CharacterId)> {
    let kind = match portable_dir_kind(p) {
        Some(k) => k,
        None => LogDirKind::Chat,
    };
    match last_name(path_components(p)) {
        Some(n) => parse_log_file_name(n, kind),
        None => None,
    }
}

/// Whether `e` is the error of expanding one of the command line's paths, which
/// happens only to a path that needs expanding.
pub open spec fn path_fault(cli: Cli, e: SolarError) -> bool {
    ||| (cli.replay matches Some(p) && fault_of(e) == Fault::Path(p@) && !plain_path(p@))
    ||| (cli.relog matches Some(p) && fault_of(e) == Fault::Path(p@) && !plain_path(p@))
}

/// What [Args::try_from_cli] gives for the command line `cli`, with the configured
/// characters `cs` and the star map `map`, over the index `before`, with the index
/// `after` it leaves: the fault of the command line; or what [Args::build] gives
/// for its arguments; or the error of expanding a path that needs expanding.
pub open spec fn cli_result(
    cli: Cli,
    cs: Seq<CharacterConfig>,
    map: StarMap,
    before: Index,
    after: Index,
    r: Option<Result<ArgParam, SolarError>>,
) -> bool {
    match cli_fault(cli, cs, map) {
        Some(f) => r matches Some(Err(e)) && fault_of(e) == f && after == before,
        None => (exists|a: Args|
            #[trigger] args_of_cli(a, cli, cs, map) && build_result(a, before, after, r)) || (
        r matches Some(Err(e)) && path_fault(cli, e) && after == before),
    }
}

/// Whether a log file's name part is that of a private conversation.
pub open spec fn private_name(nm: Option<Seq<char>>) -> bool {
    nm == Some("Private"@)
}

/// The indexed log that a log file's name part stands for, over the channel names
/// `names`: a game log, a fixed channel, or a group channel with the id it has in
/// `names` (the hash of its name where it has none).
pub open spec fn indexed_log_of(names: Seq<ChannelNameIdx>, nm: Option<Seq<char>>) -> IndexedLog {
    match nm {
        None => IndexedLog::Game,
        Some(n) => match log_kind_of_name(n) {
            LogKind::Game => IndexedLog::Game,
            LogKind::Local => IndexedLog::Local,
            LogKind::Alliance => IndexedLog::Alliance,
            LogKind::Corporation => IndexedLog::Corporation,
            LogKind::Fleet => IndexedLog::Fleet,
            LogKind::Group => match key_index(names, n) {
                Some(i) => IndexedLog::Group(names[i].id),
                None => IndexedLog::Group(xxh3_str(n)),
            },
        },
    }
}

/// Whether `after` are the channel names `names` once the log file's name part
/// `nm` is indexed: a group channel that `names` lacks is added at the end, with
/// the hash of its name as its id; otherwise nothing changes.
pub open spec fn names_after(names: Seq<ChannelNameIdx>, nm: Option<Seq<char>>, after: Seq<ChannelNameIdx>) -> bool {
    match nm {
        Some(n) => if log_kind_of_name(n) == LogKind::Group && key_index(names, n) is None {
            &&& after.len() == names.len() + 1
            &&& after.take(names.len() as int) == names
            &&& after.last().id == xxh3_str(n)
            &&& after.last().name@ == n
        } else {
            after == names
        },
        None => after == names,
    }
}

/// What [Args::build] gives for the arguments `a` over the index `before`, with
/// the index `after` it leaves. Where the replay path is not portable, how it
/// splits into directory and file name depends on the platform, and only the
/// outcome's shape is fixed.
pub open spec fn build_result(a: Args, before: Index, after: Index, r: Option<Result<ArgParam, SolarError>>) -> bool {
    &&& after.modes == before.modes
    &&& after.characters == before.characters
    &&& match a.replay_path {
        None => after == before && match key_index(before.modes.0@, a.mode@) {
            Some(i) => r matches Some(Ok(p)) && p.args == a && p.arg_indexed_logs@.len() == 0
                && p.mode_id == before.modes.0@[i].id,
            None => r matches Some(Err(e)) && fault_of(e) == Fault::NotFound(ErrNoun::Mode, a.mode@),
        },
        Some(path) => if portable_path(path@) {
            match replay_parts(path@) {
                None => r matches Some(Err(e)) && fault_of(e) == Fault::Msg("Invalid replay log file"@)
                    && after == before,
                Some(pp) => if private_name(pp.0) {
                    r is None && after == before
                } else {
                    &&& names_after(before.channel_names.0@, pp.0, after.channel_names.0@)
                    &&& match key_index(before.modes.0@, a.mode@) {
                        Some(i) => r matches Some(Ok(p)) && p.args == a && p.arg_indexed_logs@
                            == seq![indexed_log_of(before.channel_names.0@, pp.0)] && p.mode_id
                            == before.modes.0@[i].id,
                        None => r matches Some(Err(e)) && fault_of(e) == Fault::NotFound(
                            ErrNoun::Mode,
                            a.mode@,
                        ),
                    }
                },
            }
        } else {
            match r {
                None => true,
                Some(Ok(p)) => p.args == a && p.arg_indexed_logs@.len() == 1 && (key_index(
                    before.modes.0@,
                    a.mode@,
                ) matches Some(i) && p.mode_id == before.modes.0@[i].id),
                Some(Err(e)) => fault_of(e) == Fault::Msg("Invalid replay log file"@) || (
                fault_of(e) == Fault::NotFound(ErrNoun::Mode, a.mode@) && key_index(
                    before.modes.0@,
                    a.mode@,
                ) is None),
            }
        },
    }
}

impl Args {
    /// The jump range when none is given.
    pub const DEFAULT_JUMPS: u8 = 2;

    /// Whether audio alerts are on when not said.
    pub const DEFAULT_AUDIO: bool = true;

    /// Whether terminal output is on when not said.
    pub const DEFAULT_STDIO: bool = true;

    /// The arguments that the command line `cli` gives, with the characters
    /// looked up in `cfg` and the systems in `star_map`, and the paths expanded.
    pub fn from_cli(cli: Cli, cfg: &Config, star_map: &StarMap) -> (r: Result<Args, SolarError>)
        ensures
            match cli_fault(cli, cfg.characters@, *star_map) {
                Some(f) => r matches Err(e) && fault_of(e) == f,
                None => match r {
                    Ok(a) => args_of_cli(a, cli, cfg.characters@, *star_map),
                    Err(e) => (cli.replay matches Some(p) && fault_of(e) == Fault::Path(p@)
                        && !plain_path(p@)) || (cli.relog matches Some(p) && fault_of(e)
                        == Fault::Path(p@) && !plain_path(p@)),
                },
            },
    {
        if cli.connect.is_some() && cli.serve.is_some() {
            return Err(SolarError::msg_str("Cannot both serve and connect"));
        }
        let watch_character_ids = character_ids_of(cli.watch_characters.as_str(), &cfg.characters)?;
        let watch_system_ids = system_ids_of(cli.watch_systems.as_str(), star_map)?;
        let replay_path = expand_optional(cli.replay)?;
        let relog = expand_optional(cli.relog)?;
        Ok(
            Args {
                mode: cli.mode,
                watch_character_ids,
                watch_system_ids,
                jumps: cli.jumps,
                audio: cli.audio,
                stdio: cli.stdio,
                server_profile: cli.serve,
                client_profile: cli.connect,
                replay_path,
                relog,
            },
        )
    }

    /// The checked arguments of the command line `cli`: [Args::from_cli], then
    /// [Args::build]. `None` where the replay file is a private conversation's log,
    /// which is not supported.
    pub fn try_from_cli(cli: Cli, cfg: &Config, index: &mut Index, star_map: &StarMap) -> (r: Option<
        Result<ArgParam, SolarError>,
    >)
        ensures
            cli_result(cli, cfg.characters@, *star_map, *old(index), *final(index), r),
            cli_fault(cli, cfg.characters@, *star_map) is None && cli.replay is None && (
            cli.relog matches Some(p) ==> plain_path(p@)) && key_index(
                old(index).modes.0@,
                cli.mode@,
            ) is Some ==> r matches Some(Ok(_)),
            r matches Some(Ok(p)) ==> args_of_cli(p.args, cli, cfg.characters@, *star_map) && (
            key_index(old(index).modes.0@, p.args.mode@) matches Some(i) && p.mode_id == old(
                index,
            ).modes.0@[i].id),
            final(index).modes == old(index).modes,
            final(index).characters == old(index).characters,
    {
        let ghost c = cli;
        match Args::from_cli(cli, cfg, star_map) {
            Ok(a) => {
                let ghost a0 = a;
                let r = a.build(index);
                assert(args_of_cli(a0, c, cfg.characters@, *star_map));
                r
            },
            Err(e) => Some(Err(e)),
        }
    }

    /// The checked arguments: the mode must be indexed, and a replay file must be a
    /// log file, whose log is added to the arguments' logs (a group channel that
    /// the index does not know yet is added to it). `None` where the replay file is
    /// a private conversation's log, which is not supported.
    pub fn build(self, index: &mut Index) -> (r: Option<Result<ArgParam, SolarError>>)
        ensures
            build_result(self, *old(index), *final(index), r),
    {
        let mut arg_indexed_logs: Vec<IndexedLog> = Vec::new();
        match &self.replay_path {
            Some(p) => {
                let dir_kind = match LogDirKind::from_file_path(p.as_str()) {
                    Some(k) => k,
                    None => LogDirKind::Chat,
                };
                let log_file = match LogFile::from_path_buf(p.clone(), dir_kind) {
                    Some(f) => f,
                    None => {
                        return Some(Err(SolarError::msg_str("Invalid replay log file")));
                    },
                };
                if is_private_log(&log_file) {
                    return None;
                }
                let ghost parts = log_file.parts;
                let named = match NamedLog::from_log_file(log_file) {
                    Ok(n) => n,
                    Err(e) => {
                        return Some(Err(e));
                    },
                };
                let ghost names0 = index.channel_names.0@;
                let indexed = index.channel_names.index_named(named);
                proof {
                    if portable_path(p@) {
                        let pp = replay_parts(p@)->0;
                        assert(parts_match(parts, pp));
                        if index.channel_names.0@.len() == names0.len() + 1 {
                            assert(index.channel_names.0@.take(names0.len() as int) =~= names0);
                        }
                        assert(names_after(names0, pp.0, index.channel_names.0@));
                        assert(indexed == indexed_log_of(names0, pp.0));
                    }
                }
                arg_indexed_logs.push(indexed);
            },
            None => {},
        }
        let mode_id = match index.modes().find(self.mode.as_str()) {
            Ok(m) => m.id,
            Err(e) => {
                return Some(Err(e));
            },
        };
        Some(Ok(ArgParam { args: self, arg_indexed_logs, mode_id }))
    }

    /// The configured characters that the arguments watch: for each watched id, the
    /// first configured character with it; ids with none are passed over.
    pub fn watch_characters<'a>(&self, cfg: &'a Config) -> (r: Vec<&'a CharacterConfig>)
        ensures
            r@.map_values(|c: &CharacterConfig| *c) == watched_characters(
                self.watch_character_ids@,
                cfg.characters@,
            ),
    {
        let ids = &self.watch_character_ids;
        let mut out: Vec<&'a CharacterConfig> = Vec::new();
        let mut i: usize = 0;
        assert(ids@.take(0) =~= Seq::<CharacterId>::empty());
        assert(out@.map_values(|c: &CharacterConfig| *c) =~= Seq::<CharacterConfig>::empty());
        while i < ids.len()
            invariant
                i <= ids.len(),
                out@.map_values(|c: &CharacterConfig| *c) == watched_characters(
                    ids@.take(i as int),
                    cfg.characters@,
                ),
            decreases ids.len() - i,
        {
            let ghost t = ids@.take(i as int + 1);
            assert(t.drop_last() =~= ids@.take(i as int));
            assert(t.last() == ids@[i as int]);
            let id = ids[i];
            let mut k: usize = 0;
            let mut found: Option<usize> = None;
            while k < cfg.characters.len()
                invariant
                    k <= cfg.characters.len(),
                    found is None ==> id_position_below(cfg.characters@, id, k as int) is None,
                    found matches Some(j) ==> id_position_below(
                        cfg.characters@,
                        id,
                        cfg.characters@.len() as int,
                    ) == Some(j as int) && j < cfg.characters@.len(),
                decreases cfg.characters.len() - k,
            {
                if found.is_none() && cfg.characters[k].id == id {
                    proof {
                        lemma_id_found(
                            cfg.characters@,
                            id,
                            k as int + 1,
                            cfg.characters@.len() as int,
                            k as int,
                        );
                    }
                    found = Some(k);
                }
                k = k + 1;
            }
            let ghost before = out@;
            match found {
                Some(j) => {
                    out.push(&cfg.characters[j]);
                    assert(out@.map_values(|c: &CharacterConfig| *c) =~= before.map_values(
                        |c: &CharacterConfig| *c,
                    ).push(cfg.characters@[j as int]));
                },
                None => {},
            }
            i = i + 1;
        }
        assert(ids@.take(ids.len() as int) =~= ids@);
        out
    }

    /// The systems that the arguments watch; the map must hold each.
    pub fn watch_systems<'a>(&self, star_map: &'a StarMap) -> (r: Vec<&'a StarSystem>)
        requires
            forall|i: int|
                0 <= i < self.watch_system_ids@.len() ==> star_map.has(
                    #[trigger] self.watch_system_ids@[i],
                ),
        ensures
            r@.len() == self.watch_system_ids@.len(),
            forall|i: int|
                0 <= i < r@.len() ==> *#[trigger] r@[i] == star_map.system_of(
                    self.watch_system_ids@[i],
                ),
    {
        star_map.systems(crate::star_map::copy_ids(&self.watch_system_ids))
    }

    /// Whether the run replays a log file.
    pub fn is_replay(&self) -> (r: bool)
        ensures
            r == self.replay_path is Some,
    {
        self.replay_path.is_some()
    }
}

/// The configured characters that the ids watch: for each id, the first
/// configured character with it; ids with none are passed over.
pub open spec fn watched_characters(ids: Seq<CharacterId>, cs: Seq<CharacterConfig>) -> Seq<CharacterConfig>
    decreases ids.len(),
{
    if ids.len() == 0 {
        seq![]
    } else {
        let w = watched_characters(ids.drop_last(), cs);
        match id_position_below(cs, ids.last(), cs.len() as int) {
            Some(i) => w.push(cs[i]),
            None => w,
        }
    }
}


/// Which outputs a run drives.
#[derive(Debug, Clone, Copy, PartialEq, Eq, Structural)]
pub struct SonarOptions {
    pub audio: bool,
    pub stdio: bool,
}

/// The parameters a run starts from.
#[derive(Debug)]
pub struct Params {
    pub cfg: Config,
    pub index: Index,
    pub args: Args,
    pub arg_indexed_logs: Vec<IndexedLog>,
    pub opts: SonarOptions,
    pub mode_id: ModeId,
}

/// Gathers what a run starts from: a command line, or arguments and a
/// configuration.
#[derive(Debug)]
pub struct ParamsBuilder {
    pub cli: Option<Cli>,
    pub args: Option<Args>,
    pub cfg: Option<Cfg>,
}

/// What is wrong with what a builder holds, if anything: a command line goes
/// alone, arguments go with a configuration.
pub open spec fn builder_fault(cli: bool, args: bool, cfg: bool) -> Option<Seq<char>> {
    if (cli && !args && !cfg) || (!cli && args && cfg) {
        None
    } else if cli {
        Some("Cli is mutually exclusive with Args & Cfg"@)
    } else if !args && cfg {
        Some("Args is required"@)
    } else if args && !cfg {
        Some("Cfg is required"@)
    } else {
        Some("Either Cli or Args & Cfg is required"@)
    }
}

/// The configuration that a builder's `build` builds: the one read from disk
/// where the builder holds a command line, else the builder's own.
pub open spec fn built_cfg(b: ParamsBuilder, disk_cfg: Option<Cfg>) -> Cfg {
    if b.cli is Some {
        disk_cfg->0
    } else {
        b.cfg->0
    }
}

/// Whether `config` is what building `cfg` gives for some expansion `d` of its
/// logs directory (the directory itself where it needs no expansion).
pub open spec fn config_built_from(config: Config, cfg: Cfg, ips: Seq<(String, IpAddress)>) -> bool {
    exists|d: Seq<char>, cp: CfgParam|
        #[trigger] cfg_built(cp, cfg, d, ips) && cfg_outcome(cfg, Some(d), ips) is Ok
            && cp.config == config && (plain_path(cfg.settings.logs_dir@) ==> d
            == cfg.settings.logs_dir@)
}

/// A configuration that `Cfg::build` gave is built from its source.
proof fn lemma_config_built(cp: CfgParam, cfg: Cfg, ips: Seq<(String, IpAddress)>)
    requires
        exists|d: Option<Seq<char>>|
            #[trigger] cfg_result(Ok::<CfgParam, SolarError>(cp), cfg, d, ips) && (plain_path(
                cfg.settings.logs_dir@,
            ) ==> d == Some(cfg.settings.logs_dir@)),
    ensures
        config_built_from(cp.config, cfg, ips),
{
    let d = choose|d: Option<Seq<char>>|
        #[trigger] cfg_result(Ok::<CfgParam, SolarError>(cp), cfg, d, ips) && (plain_path(
            cfg.settings.logs_dir@,
        ) ==> d == Some(cfg.settings.logs_dir@));
    let dd = d->0;
    assert(cfg_built(cp, cfg, dd, ips));
}

/// What a run's parameters are once the configuration is built into `config` and
/// the arguments into `ar`, leaving the index `after`: no run where the replay log
/// is a private conversation's; the arguments' error; the error of a served
/// profile that is not configured; or the parameters.
pub open spec fn params_result(
    config: Config,
    after: Index,
    ar: Option<Result<ArgParam, SolarError>>,
    r: Option<Result<Params, SolarError>>,
) -> bool {
    match ar {
        None => r is None,
        Some(Err(e)) => r matches Some(Err(e2)) && e2 == e,
        Some(Ok(ap)) => if server_profile_ok(ap.args, config) {
            r matches Some(Ok(p)) && p.cfg == config && p.index == after && p.args == ap.args
                && p.arg_indexed_logs == ap.arg_indexed_logs && p.mode_id == ap.mode_id && p.opts == (
            SonarOptions { audio: ap.args.audio, stdio: ap.args.stdio })
        } else {
            r matches Some(Err(e)) && fault_of(e) == Fault::Msg(
                "Server profile not found: "@ + ap.args.server_profile->0@,
            )
        },
    }
}

/// How a builder's arguments are built over the built configuration `cp`: from its
/// command line by [Args::try_from_cli], else by [Args::build].
pub open spec fn args_step(
    b: ParamsBuilder,
    cp: CfgParam,
    after: Index,
    ar: Option<Result<ArgParam, SolarError>>,
    map: StarMap,
) -> bool {
    match b.cli {
        Some(cli) => cli_result(cli, cp.config.characters@, map, cp.index, after, ar),
        None => build_result(b.args->0, cp.index, after, ar),
    }
}

/// What a builder's `build` gives, where what it holds goes together, for the
/// configuration `c` and the expansion `d` of its logs directory: the
/// configuration's fault; or, with the configuration built, what the arguments
/// and the served profile give.
pub open spec fn params_from(
    b: ParamsBuilder,
    c: Cfg,
    d: Option<Seq<char>>,
    ips: Seq<(String, IpAddress)>,
    map: StarMap,
    r: Option<Result<Params, SolarError>>,
) -> bool {
    match cfg_outcome(c, d, ips) {
        Err(f) => r matches Some(Err(e)) && fault_of(e) == f,
        Ok(_) => d is Some && exists|
            cp: CfgParam,
            after: Index,
            ar: Option<Result<ArgParam, SolarError>>,
        |
            #[trigger] params_result(cp.config, after, ar, r) && cfg_built(cp, c, d->0, ips)
                && args_step(b, cp, after, ar, map),
    }
}

/// The first position below `n` of a profile named `name`.
pub open spec fn server_profile_below(ps: Seq<ServerProfileConfig>, name: Seq<char>, n: int) -> Option<int>
    decreases n,
{
    if n <= 0 {
        None
    } else {
        match server_profile_below(ps, name, n - 1) {
            Some(i) => Some(i),
            None => if ps[n - 1].name@ == name {
                Some(n - 1)
            } else {
                None
            },
        }
    }
}

/// The first position below `n` of a profile named `name`.
pub open spec fn client_profile_below(ps: Seq<ClientProfileConfig>, name: Seq<char>, n: int) -> Option<int>
    decreases n,
{
    if n <= 0 {
        None
    } else {
        match client_profile_below(ps, name, n - 1) {
            Some(i) => Some(i),
            None => if ps[n - 1].name@ == name {
                Some(n - 1)
            } else {
                None
            },
        }
    }
}

proof fn lemma_server_found(ps: Seq<ServerProfileConfig>, name: Seq<char>, m: int, n: int, i: int)
    requires
        server_profile_below(ps, name, m) == Some(i),
        m <= n,
    ensures
        server_profile_below(ps, name, n) == Some(i),
    decreases n - m,
{
    if n > m {
        lemma_server_found(ps, name, m, n - 1, i);
    }
}

proof fn lemma_client_found(ps: Seq<ClientProfileConfig>, name: Seq<char>, m: int, n: int, i: int)
    requires
        client_profile_below(ps, name, m) == Some(i),
        m <= n,
    ensures
        client_profile_below(ps, name, n) == Some(i),
    decreases n - m,
{
    if n > m {
        lemma_client_found(ps, name, m, n - 1, i);
    }
}

/// The served profile that the arguments name, if they name one and it is
/// configured.
pub fn find_server_profile<'a>(args: &Args, cfg: &'a Config) -> (r: Option<&'a ServerProfileConfig>)
    ensures
        match args.server_profile {
            Some(n) => match server_profile_below(
                cfg.server_profiles@,
                n@,
                cfg.server_profiles@.len() as int,
            ) {
                Some(i) => r matches Some(p) && *p == cfg.server_profiles@[i],
                None => r is None,
            },
            None => r is None,
        },
{
    match &args.server_profile {
        Some(name) => {
            let mut i: usize = 0;
            while i < cfg.server_profiles.len()
                invariant
                    i <= cfg.server_profiles.len(),
                    server_profile_below(cfg.server_profiles@, name@, i as int) is None,
                    args.server_profile matches Some(n) && n@ == name@,
                decreases cfg.server_profiles.len() - i,
            {
                if crate::text::str_eq(cfg.server_profiles[i].name.as_str(), name.as_str()) {
                    proof {
                        lemma_server_found(
                            cfg.server_profiles@,
                            name@,
                            i as int + 1,
                            cfg.server_profiles@.len() as int,
                            i as int,
                        );
                    }
                    return Some(&cfg.server_profiles[i]);
                }
                i = i + 1;
            }
            None
        },
        None => None,
    }
}

/// The connection profile that the arguments name, if they name one and it is
/// configured.
pub fn find_client_profile<'a>(args: &Args, cfg: &'a Config) -> (r: Option<&'a ClientProfileConfig>)
    ensures
        match args.client_profile {
            Some(n) => match client_profile_below(
                cfg.client_profiles@,
                n@,
                cfg.client_profiles@.len() as int,
            ) {
                Some(i) => r matches Some(p) && *p == cfg.client_profiles@[i],
                None => r is None,
            },
            None => r is None,
        },
{
    match &args.client_profile {
        Some(name) => {
            let mut i: usize = 0;
            while i < cfg.client_profiles.len()
                invariant
                    i <= cfg.client_profiles.len(),
                    client_profile_below(cfg.client_profiles@, name@, i as int) is None,
                    args.client_profile matches Some(n) && n@ == name@,
                decreases cfg.client_profiles.len() - i,
            {
                if crate::text::str_eq(cfg.client_profiles[i].name.as_str(), name.as_str()) {
                    proof {
                        lemma_client_found(
                            cfg.client_profiles@,
                            name@,
                            i as int + 1,
                            cfg.client_profiles@.len() as int,
                            i as int,
                        );
                    }
                    return Some(&cfg.client_profiles[i]);
                }
                i = i + 1;
            }
            None
        },
        None => None,
    }
}

/// Whether the served profile that the arguments name, if any, is configured.
pub open spec fn server_profile_ok(args: Args, cfg: Config) -> bool {
    args.server_profile matches Some(n) ==> server_profile_below(
        cfg.server_profiles@,
        n@,
        cfg.server_profiles@.len() as int,
    ) is Some
}

/// Checks that the served profile that the arguments name, if any, is configured.
pub fn check_server_profile(args: &Args, cfg: &Config) -> (r: Result<(), SolarError>)
    ensures
        match args.server_profile {
            Some(n) => if server_profile_ok(*args, *cfg) {
                r is Ok
            } else {
                r matches Err(e) && fault_of(e) == Fault::Msg("Server profile not found: "@ + n@)
            },
            None => r is Ok,
        },
{
    match &args.server_profile {
        Some(name) => match find_server_profile(args, cfg) {
            Some(_) => Ok(()),
            None => Err(SolarError::msg(message_with("Server profile not found: ", name.as_str()))),
        },
        None => Ok(()),
    }
}

impl ParamsBuilder {
    /// A builder that holds nothing.
    pub fn new() -> (r: Self)
        ensures
            r.cli is None && r.args is None && r.cfg is None,
    {
        ParamsBuilder { cli: None, args: None, cfg: None }
    }

    /// The builder with the command line `cli`.
    pub fn cli(self, cli: Cli) -> (r: Self)
        ensures
            r.cli == Some(cli) && r.args == self.args && r.cfg == self.cfg,
    {
        ParamsBuilder { cli: Some(cli), args: self.args, cfg: self.cfg }
    }

    /// The builder with the arguments `args`.
    pub fn args(self, args: Args) -> (r: Self)
        ensures
            r.args == Some(args) && r.cli == self.cli && r.cfg == self.cfg,
    {
        ParamsBuilder { cli: self.cli, args: Some(args), cfg: self.cfg }
    }

    /// The builder with the configuration `cfg`.
    pub fn cfg(self, cfg: Cfg) -> (r: Self)
        ensures
            r.cfg == Some(cfg) && r.cli == self.cli && r.args == self.args,
    {
        ParamsBuilder { cli: self.cli, args: self.args, cfg: Some(cfg) }
    }

    /// Checks that the builder holds a command line alone, or arguments with a
    /// configuration.
    pub fn check(&self) -> (r: Result<(), SolarError>)
        ensures
            match builder_fault(self.cli is Some, self.args is Some, self.cfg is Some) {
                Some(m) => r matches Err(e) && fault_of(e) == Fault::Msg(m),
                None => r is Ok,
            },
    {
        let is_cli = self.cli.is_some();
        let is_args = self.args.is_some();
        let is_cfg = self.cfg.is_some();
        if (is_cli && !is_args && !is_cfg) || (!is_cli && is_args && is_cfg) {
            Ok(())
        } else if is_cli {
            Err(SolarError::msg_str("Cli is mutually exclusive with Args & Cfg"))
        } else if !is_args && is_cfg {
            Err(SolarError::msg_str("Args is required"))
        } else if is_args && !is_cfg {
            Err(SolarError::msg_str("Cfg is required"))
        } else {
            Err(SolarError::msg_str("Either Cli or Args & Cfg is required"))
        }
    }

    /// The parameters of a run. With a command line, `disk_cfg` is the
    /// configuration read from the configuration directory; the command line's
    /// characters and systems are looked up in it and in `star_map`. The addresses
    /// of the TLS endpoints are read by `ips`. The served profile that the
    /// arguments name must be configured. `None` where the replay file is a private
    /// conversation's log, which is not supported.
    pub fn build(self, disk_cfg: Option<Cfg>, ips: &IpTable, star_map: &StarMap) -> (r: Option<
        Result<Params, SolarError>,
    >)
        requires
            self.cli is Some ==> disk_cfg is Some,
        ensures
            builder_fault(self.cli is Some, self.args is Some, self.cfg is Some) matches Some(m)
                ==> r matches Some(Err(e)) && fault_of(e) == Fault::Msg(m),
            r matches Some(Ok(p)) ==> {
                &&& builder_fault(self.cli is Some, self.args is Some, self.cfg is Some) is None
                &&& p.opts == (SonarOptions { audio: p.args.audio, stdio: p.args.stdio })
                &&& server_profile_ok(p.args, p.cfg)
                &&& key_index(p.index.modes.0@, p.args.mode@) matches Some(i)
                &&& p.mode_id == p.index.modes.0@[key_index(p.index.modes.0@, p.args.mode@)->0].id
                &&& (self.cli matches Some(c) ==> args_of_cli(
                    p.args,
                    c,
                    p.cfg.characters@,
                    *star_map,
                ))
                &&& (self.cli is None ==> self.args == Some(p.args))
                &&& config_built_from(p.cfg, built_cfg(self, disk_cfg), ips.0@)
            },
            builder_fault(self.cli is Some, self.args is Some, self.cfg is Some) is None ==> exists|
                d: Option<Seq<char>>,
            |
                #[trigger] params_from(self, built_cfg(self, disk_cfg), d, ips.0@, *star_map, r)
                    && (plain_path(built_cfg(self, disk_cfg).settings.logs_dir@) ==> d == Some(
                    built_cfg(self, disk_cfg).settings.logs_dir@,
                )),
    {
        match self.check() {
            Err(e) => {
                return Some(Err(e));
            },
            Ok(()) => {},
        }
        let ghost b0 = self;
        let ghost c0 = built_cfg(self, disk_cfg);
        let ParamsBuilder { cli, args, cfg } = self;
        let source = if cli.is_some() {
            match disk_cfg {
                Some(c) => c,
                None => {
                    return Some(Err(SolarError::msg_str("Cfg is required")));
                },
            }
        } else {
            match cfg {
                Some(c) => c,
                None => {
                    return Some(Err(SolarError::msg_str("Cfg is required")));
                },
            }
        };
        assert(source == c0);
        let built = source.build(ips);
        let ghost d = choose|d: Option<Seq<char>>|
            #[trigger] cfg_result(built, c0, d, ips.0@) && (plain_path(c0.settings.logs_dir@) ==> d
                == Some(c0.settings.logs_dir@));
        let mut cp = match built {
            Ok(cp) => cp,
            Err(e) => {
                let r = Some(Err(e));
                assert(params_from(b0, c0, d, ips.0@, *star_map, r));
                return r;
            },
        };
        let ghost cp0 = cp;
        proof {
            lemma_config_built(cp, c0, ips.0@);
        }
        let ar = match cli {
            Some(cl) => Args::try_from_cli(cl, &cp.config, &mut cp.index, star_map),
            None => match args {
                Some(a) => a.build(&mut cp.index),
                None => {
                    return Some(Err(SolarError::msg_str("Args is required")));
                },
            },
        };
        let ghost ar0 = ar;
        let ghost after = cp.index;
        assert(args_step(b0, cp0, after, ar0, *star_map));
        assert(cp.config == cp0.config);
        let r = match ar {
            None => None,
            Some(Err(e)) => Some(Err(e)),
            Some(Ok(ap)) => {
                let CfgParam { config, index } = cp;
                let ArgParam { args, arg_indexed_logs, mode_id } = ap;
                match check_server_profile(&args, &config) {
                    Err(e) => Some(Err(e)),
                    Ok(()) => {
                        let opts = SonarOptions { audio: args.audio, stdio: args.stdio };
                        Some(Ok(Params { cfg: config, index, args, arg_indexed_logs, opts, mode_id }))
                    },
                }
            },
        };
        assert(params_result(cp0.config, after, ar0, r));
        assert(cfg_built(cp0, c0, d->0, ips.0@));
        assert(params_from(b0, c0, d, ips.0@, *star_map, r));
        r
    }
}

/// A running sonar: its arguments, configuration and index.
#[derive(Debug)]
pub struct Running {
    pub args: Args,
    pub arg_indexed_logs: Vec<IndexedLog>,
    pub index: Index,
    pub cfg: Config,
    pub mode_id: ModeId,
}

/// The character logs of the indexed log `indexed` for each of the characters
/// `ids` that `chars` holds, in the order of `ids`.
pub open spec fn log_watch(indexed: IndexedLog, chars: Seq<CharacterId>, ids: Seq<CharacterId>) -> Seq<CharacterLog>
    decreases ids.len(),
{
    if ids.len() == 0 {
        seq![]
    } else {
        let w = log_watch(indexed, chars, ids.drop_last());
        if chars.contains(ids.last()) {
            w.push(character_log_of(indexed, ids.last()))
        } else {
            w
        }
    }
}

/// The character logs that the watched logs of the configuration give the
/// characters `ids`, log by log.
pub open spec fn config_watch(logs: Seq<LogConfig>, ids: Seq<CharacterId>) -> Seq<CharacterLog>
    decreases logs.len(),
{
    if logs.len() == 0 {
        seq![]
    } else {
        config_watch(logs.drop_last(), ids) + log_watch(
            logs.last().indexed,
            logs.last().characters@,
            ids,
        )
    }
}

/// The character logs of the logs the arguments name, for each of the characters
/// `ids`.
pub open spec fn arg_watch(indexed: Seq<IndexedLog>, ids: Seq<CharacterId>) -> Seq<CharacterLog>
    decreases indexed.len(),
{
    if indexed.len() == 0 {
        seq![]
    } else {
        arg_watch(indexed.drop_last(), ids) + ids.map_values(
            |id: CharacterId| character_log_of(indexed.last(), id),
        )
    }
}

/// `s` with each run of equal neighbours cut down to one.
pub open spec fn dedup_runs(s: Seq<CharacterLog>) -> Seq<CharacterLog>
    decreases s.len(),
{
    if s.len() == 0 {
        seq![]
    } else {
        let d = dedup_runs(s.drop_last());
        if d.len() > 0 && d.last() == s.last() {
            d
        } else {
            d.push(s.last())
        }
    }
}

/// The ids of the characters that the arguments watch and the configuration
/// knows.
pub open spec fn watched_ids(args: Args, cfg: Config) -> Seq<CharacterId> {
    watched_characters(args.watch_character_ids@, cfg.characters@).map_values(
        |c: CharacterConfig| c.id,
    )
}

/// The character logs a run watches.
pub open spec fn watch_logs_of(run: Running) -> Seq<CharacterLog> {
    let ids = watched_ids(run.args, run.cfg);
    dedup_runs(config_watch(run.cfg.logs@, ids) + arg_watch(run.arg_indexed_logs@, ids))
}

/// The ids that the range searches from each of the systems `ids` report, in
/// turn.
pub open spec fn ranges_of(map: StarMap, jumps: nat, ids: Seq<StarId>) -> Seq<StarId>
    decreases ids.len(),
{
    if ids.len() == 0 {
        seq![]
    } else {
        ranges_of(map, jumps, ids.drop_last()) + range_ids(map, jumps, map.system_of(ids.last()))
    }
}

/// Appends the character logs of `indexed` for each of `ids` that `chars` holds.
fn push_log_watch(out: &mut Vec<CharacterLog>, indexed: IndexedLog, chars: &Vec<CharacterId>, ids: &Vec<CharacterId>)
    ensures
        final(out)@ == old(out)@ + log_watch(indexed, chars@, ids@),
{
    let ghost start = out@;
    let mut i: usize = 0;
    assert(ids@.take(0) =~= Seq::<CharacterId>::empty());
    assert(out@ =~= start + log_watch(indexed, chars@, ids@.take(0)));
    while i < ids.len()
        invariant
            i <= ids.len(),
            out@ == start + log_watch(indexed, chars@, ids@.take(i as int)),
        decreases ids.len() - i,
    {
        let ghost t = ids@.take(i as int + 1);
        assert(t.drop_last() =~= ids@.take(i as int));
        assert(t.last() == ids@[i as int]);
        if crate::config::contains_character(chars, ids[i]) {
            out.push(CharacterLog::from_indexed(indexed, ids[i]));
        }
        proof {
            assert(out@ =~= start + log_watch(indexed, chars@, t));
        }
        i = i + 1;
    }
    assert(ids@.take(ids.len() as int) =~= ids@);
}

/// `v` with each run of equal neighbours cut down to one.
pub fn dedup_logs(v: &Vec<CharacterLog>) -> (r: Vec<CharacterLog>)
    ensures
        r@ == dedup_runs(v@),
{
    let mut out: Vec<CharacterLog> = Vec::new();
    let mut i: usize = 0;
    assert(v@.take(0) =~= Seq::<CharacterLog>::empty());
    while i < v.len()
        invariant
            i <= v.len(),
            out@ == dedup_runs(v@.take(i as int)),
        decreases v.len() - i,
    {
        let ghost t = v@.take(i as int + 1);
        assert(t.drop_last() =~= v@.take(i as int));
        assert(t.last() == v@[i as int]);
        let n = out.len();
        if n > 0 && out[n - 1] == v[i] {
        } else {
            out.push(v[i]);
        }
        i = i + 1;
    }
    assert(v@.take(v.len() as int) =~= v@);
    out
}

impl Running {
    /// The running sonar of the parameters `params`, and the outputs it drives.
    pub fn startup(params: Params) -> (r: (Running, SonarOptions))
        ensures
            r.0.args == params.args,
            r.0.arg_indexed_logs == params.arg_indexed_logs,
            r.0.index == params.index,
            r.0.cfg == params.cfg,
            r.0.mode_id == params.mode_id,
            r.1 == params.opts,
    {
        let Params { cfg, index, args, arg_indexed_logs, opts, mode_id } = params;
        (Running { args, arg_indexed_logs, index, cfg, mode_id }, opts)
    }

    /// The character logs the run watches: for each watched log of the
    /// configuration, that log of each watched character it is configured for; then
    /// each log the arguments name, for each watched character; with runs of the
    /// same log cut down to one.
    pub fn watch_logs(&self) -> (r: Vec<CharacterLog>)
        ensures
            r@ == watch_logs_of(*self),
    {
        let chars = self.args.watch_characters(&self.cfg);
        let mut ids: Vec<CharacterId> = Vec::new();
        let mut k: usize = 0;
        while k < chars.len()
            invariant
                k <= chars.len(),
                ids@ == chars@.take(k as int).map_values(|c: &CharacterConfig| c.id),
            decreases chars.len() - k,
        {
            ids.push(chars[k].id);
            k = k + 1;
            assert(ids@ =~= chars@.take(k as int).map_values(|c: &CharacterConfig| c.id));
        }
        assert(chars@.take(chars@.len() as int) =~= chars@);
        assert(ids@ =~= watched_ids(self.args, self.cfg)) by {
            assert(chars@.map_values(|c: &CharacterConfig| *c) == watched_characters(
                self.args.watch_character_ids@,
                self.cfg.characters@,
            ));
            assert forall|j: int| 0 <= j < ids@.len() implies ids@[j] == watched_ids(
                self.args,
                self.cfg,
            )[j] by {
                assert(chars@.map_values(|c: &CharacterConfig| *c)[j] == *chars@[j]);
            }
        }
        let mut all: Vec<CharacterLog> = Vec::new();
        let mut i: usize = 0;
        assert(self.cfg.logs@.take(0) =~= Seq::<LogConfig>::empty());
        while i < self.cfg.logs.len()
            invariant
                i <= self.cfg.logs.len(),
                ids@ == watched_ids(self.args, self.cfg),
                all@ == config_watch(self.cfg.logs@.take(i as int), ids@),
            decreases self.cfg.logs.len() - i,
        {
            let ghost t = self.cfg.logs@.take(i as int + 1);
            assert(t.drop_last() =~= self.cfg.logs@.take(i as int));
            assert(t.last() == self.cfg.logs@[i as int]);
            push_log_watch(&mut all, self.cfg.logs[i].indexed, &self.cfg.logs[i].characters, &ids);
            i = i + 1;
        }
        assert(self.cfg.logs@.take(self.cfg.logs@.len() as int) =~= self.cfg.logs@);
        let ghost from_cfg = all@;
        let mut j: usize = 0;
        assert(self.arg_indexed_logs@.take(0) =~= Seq::<IndexedLog>::empty());
        assert(all@ =~= from_cfg + arg_watch(self.arg_indexed_logs@.take(0), ids@));
        while j < self.arg_indexed_logs.len()
            invariant
                j <= self.arg_indexed_logs.len(),
                all@ == from_cfg + arg_watch(self.arg_indexed_logs@.take(j as int), ids@),
            decreases self.arg_indexed_logs.len() - j,
        {
            let ghost t = self.arg_indexed_logs@.take(j as int + 1);
            assert(t.drop_last() =~= self.arg_indexed_logs@.take(j as int));
            assert(t.last() == self.arg_indexed_logs@[j as int]);
            let indexed = self.arg_indexed_logs[j];
            let ghost before = all@;
            let mut m: usize = 0;
            while m < ids.len()
                invariant
                    m <= ids.len(),
                    all@ == before + ids@.take(m as int).map_values(
                        |id: CharacterId| character_log_of(indexed, id),
                    ),
                decreases ids.len() - m,
            {
                all.push(CharacterLog::from_indexed(indexed, ids[m]));
                m = m + 1;
                assert(all@ =~= before + ids@.take(m as int).map_values(
                    |id: CharacterId| character_log_of(indexed, id),
                ));
            }
            assert(ids@.take(ids@.len() as int) =~= ids@);
            assert(all@ =~= from_cfg + arg_watch(t, ids@));
            j = j + 1;
        }
        assert(self.arg_indexed_logs@.take(self.arg_indexed_logs@.len() as int)
            =~= self.arg_indexed_logs@);
        dedup_logs(&all)
    }

    /// The systems within the jump range of the watched systems: the range of each
    /// in turn. The map's gates must lead to systems of the map, and it must hold
    /// each watched system.
    pub fn watch_range<'a>(&self, star_map: &'a StarMap) -> (r: Vec<&'a StarSystem>)
        requires
            star_map.wf(),
            forall|i: int|
                0 <= i < self.args.watch_system_ids@.len() ==> star_map.has(
                    #[trigger] self.args.watch_system_ids@[i],
                ),
        ensures
            r@.len() == ranges_of(*star_map, self.args.jumps as nat, self.args.watch_system_ids@).len(),
            forall|i: int|
                0 <= i < r@.len() ==> *#[trigger] r@[i] == star_map.system_of(
                    ranges_of(*star_map, self.args.jumps as nat, self.args.watch_system_ids@)[i],
                ),
    {
        let nav = StarNavigator::new(star_map);
        let systems = self.args.watch_systems(star_map);
        let ghost ids = self.args.watch_system_ids@;
        let ghost jumps = self.args.jumps as nat;
        let mut out: Vec<&'a StarSystem> = Vec::new();
        let mut i: usize = 0;
        assert(ids.take(0) =~= Seq::<StarId>::empty());
        while i < systems.len()
            invariant
                i <= systems.len(),
                systems@.len() == ids.len(),
                star_map.wf(),
                nav.star_map == star_map,
                forall|k: int| 0 <= k < ids.len() ==> star_map.has(#[trigger] ids[k]),
                forall|k: int|
                    0 <= k < systems@.len() ==> *#[trigger] systems@[k] == star_map.system_of(ids[k]),
                jumps == self.args.jumps as nat,
                ids == self.args.watch_system_ids@,
                out@.len() == ranges_of(*star_map, jumps, ids.take(i as int)).len(),
                forall|k: int|
                    0 <= k < out@.len() ==> *#[trigger] out@[k] == star_map.system_of(
                        ranges_of(*star_map, jumps, ids.take(i as int))[k],
                    ),
            decreases systems.len() - i,
        {
            let ghost t = ids.take(i as int + 1);
            assert(t.drop_last() =~= ids.take(i as int));
            assert(t.last() == ids[i as int]);
            let from = systems[i];
            proof {
                assert(star_map.has(ids[i as int]));
                crate::star_map::lemma_system_of_in_map(*star_map, ids[i as int]);
            }
            let more = nav.systems_in_range(self.args.jumps, from);
            let ghost before = out@;
            let ghost prefix = ranges_of(*star_map, jumps, ids.take(i as int));
            let ghost added = range_ids(*star_map, jumps, star_map.system_of(ids[i as int]));
            let mut m: usize = 0;
            while m < more.len()
                invariant
                    m <= more.len(),
                    more@.len() == added.len(),
                    forall|k: int|
                        0 <= k < more@.len() ==> *#[trigger] more@[k] == star_map.system_of(added[k]),
                    out@.len() == before.len() + m,
                    before.len() == prefix.len(),
                    forall|k: int|
                        0 <= k < before.len() ==> *#[trigger] before[k] == star_map.system_of(prefix[k]),
                    forall|k: int| 0 <= k < before.len() ==> out@[k] == before[k],
                    forall|k: int|
                        0 <= k < m ==> *#[trigger] out@[before.len() + k] == star_map.system_of(
                            added[k],
                        ),
                decreases more.len() - m,
            {
                out.push(more[m]);
                m = m + 1;
            }
            assert(ranges_of(*star_map, jumps, t) == prefix + added);
            assert forall|k: int| 0 <= k < out@.len() implies *#[trigger] out@[k]
                == star_map.system_of(ranges_of(*star_map, jumps, t)[k]) by {
                if k < before.len() {
                    assert(out@[k] == before[k]);
                } else {
                    assert(out@[before.len() + (k - before.len())] == out@[k]);
                }
            }
            i = i + 1;
        }
        assert(ids.take(ids.len() as int) =~= ids);
        out
    }

    /// The served profile that the arguments name, if configured.
    pub fn server_profile(&self) -> (r: Option<&ServerProfileConfig>)
        ensures
            match self.args.server_profile {
                Some(n) => match server_profile_below(
                    self.cfg.server_profiles@,
                    n@,
                    self.cfg.server_profiles@.len() as int,
                ) {
                    Some(i) => r matches Some(p) && *p == self.cfg.server_profiles@[i],
                    None => r is None,
                },
                None => r is None,
            },
    {
        find_server_profile(&self.args, &self.cfg)
    }

    /// The connection profile that the arguments name, if configured.
    pub fn client_profile(&self) -> (r: Option<&ClientProfileConfig>)
        ensures
            match self.args.client_profile {
                Some(n) => match client_profile_below(
                    self.cfg.client_profiles@,
                    n@,
                    self.cfg.client_profiles@.len() as int,
                ) {
                    Some(i) => r matches Some(p) && *p == self.cfg.client_profiles@[i],
                    None => r is None,
                },
                None => r is None,
            },
    {
        find_client_profile(&self.args, &self.cfg)
    }

    /// The index.
    pub fn index(&self) -> (r: &Index)
        ensures
            *r == self.index,
    {
        &self.index
    }

    /// The configuration of the run's mode: the first configured mode with its id,
    /// which must exist.
    pub fn mode_config(&self) -> (r: &ModeConfig)
        requires
            exists|i: int| 0 <= i < self.cfg.modes@.len() && #[trigger] self.cfg.modes@[i].id == self.mode_id,
        ensures
            r.id == self.mode_id,
            exists|i: int|
                0 <= i < self.cfg.modes@.len() && *r == self.cfg.modes@[i] && forall|j: int|
                    0 <= j < i ==> #[trigger] self.cfg.modes@[j].id != self.mode_id,
    {
        let mut i: usize = 0;
        while i < self.cfg.modes.len()
            invariant
                i <= self.cfg.modes.len(),
                forall|j: int| 0 <= j < i ==> #[trigger] self.cfg.modes@[j].id != self.mode_id,
                exists|j: int| 0 <= j < self.cfg.modes@.len() && #[trigger] self.cfg.modes@[j].id == self.mode_id,
            decreases self.cfg.modes.len() - i,
        {
            if self.cfg.modes[i].id == self.mode_id {
                return &self.cfg.modes[i];
            }
            i = i + 1;
        }
        proof {
            let j = choose|j: int| 0 <= j < self.cfg.modes@.len() && #[trigger] self.cfg.modes@[j].id == self.mode_id;
            assert(self.cfg.modes@[j].id != self.mode_id);
        }
        &self.cfg.modes[0]
    }
}


/// What a run announces to its outputs.
#[derive(Debug, Clone, PartialEq, Eq)]
pub enum DataEvent {
    Args(ArgsData),
    ClosingServer,
    ClosedServer,
    ClosingClient,
    ClosedClient,
    Connecting { to: String },
    Connect { to: String, success: bool },
    Downloading { id: u8 },
    Download { id: u8, success: bool },
    GeneratingCerts,
    GenerateCerts { success: bool },
    LogEntry { entry: LogEntry, in_range: bool, in_danger: bool, dangerous: bool },
    PingFortune,
    PingChannel { channel: CharacterLog },
    PingSystems { system_ids: Vec<StarId> },
}

/// What a run watches, as it announces it when it starts.
#[derive(Debug, Clone, PartialEq, Eq)]
pub struct ArgsData {
    pub system_ids: Vec<StarId>,
    pub character_ids: Vec<CharacterId>,
    pub channels: Vec<CharacterLog>,
    pub jumps: u8,
    pub system_range: Vec<StarId>,
}

/// A recorded sequence of events.
#[derive(Debug, Clone, PartialEq, Eq)]
pub struct DataLog {
    pub events: Vec<DataEvent>,
}

impl DataLog {
    /// The record of the events `events`.
    pub fn new(events: Vec<DataEvent>) -> (r: Self)
        ensures
            r.events == events,
    {
        DataLog { events }
    }
}

/// Where a run's entries come from.
#[derive(Debug, Clone, Copy, PartialEq, Eq, Structural)]
pub enum SourceKind {
    Logs,
    Replay,
    Client,
}

/// The source of a run's entries: a server it connects to, else a replayed file,
/// else the log directories.
pub fn source_kind(args: &Args) -> (r: SourceKind)
    ensures
        r == (if args.client_profile is Some {
            SourceKind::Client
        } else if args.replay_path is Some {
            SourceKind::Replay
        } else {
            SourceKind::Logs
        }),
{
    if args.client_profile.is_some() {
        SourceKind::Client
    } else if args.replay_path.is_some() {
        SourceKind::Replay
    } else {
        SourceKind::Logs
    }
}

/// The ids of `ids` that `range` holds, in order.
pub open spec fn in_range_ids(ids: Seq<StarId>, range: Seq<StarId>) -> Seq<StarId>
    decreases ids.len(),
{
    if ids.len() == 0 {
        seq![]
    } else {
        let w = in_range_ids(ids.drop_last(), range);
        if range.contains(ids.last()) {
            w.push(ids.last())
        } else {
            w
        }
    }
}

/// Whether an entry names a system in the watched range.
pub open spec fn entry_in_range(e: LogEntry, range: Seq<StarId>) -> bool {
    in_range_ids(e.analysis.spec_system_ids(), range).len() > 0
}

/// Whether an entry is a dangerous callout.
pub open spec fn entry_dangerous_callout(e: LogEntry) -> bool {
    e.analysis.callout matches Some(c) && c.call == Some(crate::analysis::Callout::Opponent)
}

/// Whether an entry puts the watched characters in danger: it is dangerous, and
/// it names a system in range or is a dangerous callout.
pub open spec fn entry_in_danger(e: LogEntry, range: Seq<StarId>) -> bool {
    e.analysis.spec_dangerous() && (entry_in_range(e, range) || entry_dangerous_callout(e))
}

/// What an entry read makes the run announce: the entry, with whether it is in
/// range, in danger and dangerous; then, for an entry in danger, a ping of the
/// systems in range that it names, or, where it names none, of its channel for a
/// dangerous callout.
pub fn entry_events(entry: LogEntry, range: &Vec<StarId>) -> (r: Vec<DataEvent>)
    ensures
        r@.len() >= 1,
        r@[0] == (DataEvent::LogEntry {
            entry,
            in_range: entry_in_range(entry, range@),
            in_danger: entry_in_danger(entry, range@),
            dangerous: entry.analysis.spec_dangerous(),
        }),
        r@.len() == (if entry_in_danger(entry, range@) { 2int } else { 1int }),
        entry_in_danger(entry, range@) && entry_in_range(entry, range@) ==> (r@[1] matches DataEvent::PingSystems { system_ids } && system_ids@ == in_range_ids(
            entry.analysis.spec_system_ids(),
            range@,
        )),
        entry_in_danger(entry, range@) && !entry_in_range(entry, range@) ==> r@[1]
            == (DataEvent::PingChannel { channel: entry.character_log }),
{
    let ids = entry.analysis.system_ids();
    let mut matched: Vec<StarId> = Vec::new();
    let mut i: usize = 0;
    assert(ids@.take(0) =~= Seq::<StarId>::empty());
    while i < ids.len()
        invariant
            i <= ids.len(),
            matched@ == in_range_ids(ids@.take(i as int), range@),
        decreases ids.len() - i,
    {
        let ghost t = ids@.take(i as int + 1);
        assert(t.drop_last() =~= ids@.take(i as int));
        assert(t.last() == ids@[i as int]);
        if crate::star_map::contains_id(range, ids[i]) {
            matched.push(ids[i]);
        }
        i = i + 1;
    }
    assert(ids@.take(ids@.len() as int) =~= ids@);
    let in_range = matched.len() > 0;
    let dangerous = entry.analysis.dangerous();
    let dangerous_callout = entry.analysis.dangerous_callout();
    let in_danger = dangerous && (in_range || dangerous_callout);
    let channel = entry.character_log;
    let mut events: Vec<DataEvent> = Vec::new();
    events.push(DataEvent::LogEntry { entry, in_range, in_danger, dangerous });
    if in_danger {
        if in_range {
            events.push(DataEvent::PingSystems { system_ids: matched });
        } else if dangerous_callout {
            events.push(DataEvent::PingChannel { channel });
        }
    }
    events
}

/// The entries of `entries` after `stamp`, and, where `need_systems`, that name a
/// system, in order.
pub open spec fn fresh(entries: Seq<LogEntry>, stamp: Timestamp, need_systems: bool) -> Seq<LogEntry>
    decreases entries.len(),
{
    if entries.len() == 0 {
        seq![]
    } else {
        let w = fresh(entries.drop_last(), stamp, need_systems);
        let e = entries.last();
        if stamp_after(e.timestamp, stamp) && (!need_systems || e.analysis.spec_system_ids().len() > 0) {
            w.push(e)
        } else {
            w
        }
    }
}

/// The entries of `entries` after `stamp`, and, where `need_systems`, that name a
/// system, in order.
pub fn fresh_entries(entries: Vec<LogEntry>, stamp: &Timestamp, need_systems: bool) -> (r: Vec<LogEntry>)
    ensures
        r@ == fresh(entries@, *stamp, need_systems),
{
    let ghost all = entries@;
    let mut rest = entries;
    let mut out: Vec<LogEntry> = Vec::new();
    let mut k: usize = 0;
    let n = rest.len();
    assert(all.len() == n);
    assert(all.take(0) =~= Seq::<LogEntry>::empty());
    assert(rest@ =~= all.skip(0));
    while rest.len() > 0
        invariant
            k <= all.len(),
            all.len() <= usize::MAX,
            rest@ == all.skip(k as int),
            out@ == fresh(all.take(k as int), *stamp, need_systems),
        decreases rest.len(),
    {
        let e = rest.remove(0);
        let ghost t = all.take(k as int + 1);
        assert(t.drop_last() =~= all.take(k as int));
        assert(e == all[k as int]);
        assert(t.last() == all[k as int]);
        assert(rest@ =~= all.skip(k as int + 1));
        let keep = e.timestamp.is_after(stamp) && (!need_systems || e.analysis.system_ids().len() > 0);
        if keep {
            out.push(e);
        }
        k = k + 1;
    }
    assert(all.take(all.len() as int) =~= all);
    out
}

/// The last stamp after a batch of entries: that of the last entry, or `stamp`
/// where there is none.
pub fn last_stamp(stamp: Timestamp, activity: &Vec<LogEntry>) -> (r: Timestamp)
    ensures
        r == (if activity@.len() == 0 {
            stamp
        } else {
            activity@.last().timestamp
        }),
{
    let n = activity.len();
    if n == 0 {
        stamp
    } else {
        activity[n - 1].timestamp
    }
}

/// How long to rest before the next poll, in seconds: a while where nothing new
/// came, none otherwise.
pub fn rest_secs(stamp: &Timestamp, last: &Timestamp) -> (r: u64)
    ensures
        r == (if *stamp == *last { 2u64 } else { 0u64 }),
{
    if stamp.same(last) {
        2
    } else {
        0
    }
}

impl Running {
    /// What the run announces that it watches.
    pub fn args_data(&self, channels: Vec<CharacterLog>, range: &Vec<&StarSystem>) -> (r: ArgsData)
        ensures
            r.system_ids@ == self.args.watch_system_ids@,
            r.character_ids@ == self.args.watch_character_ids@,
            r.channels == channels,
            r.jumps == self.args.jumps,
            r.system_range@.len() == range@.len(),
            forall|i: int| 0 <= i < range@.len() ==> #[trigger] r.system_range@[i] == range@[i].id,
    {
        let mut ids: Vec<StarId> = Vec::new();
        let mut i: usize = 0;
        while i < range.len()
            invariant
                i <= range.len(),
                ids@.len() == i,
                forall|k: int| 0 <= k < i ==> #[trigger] ids@[k] == range@[k].id,
            decreases range.len() - i,
        {
            ids.push(range[i].id);
            i = i + 1;
        }
        let mut character_ids: Vec<CharacterId> = Vec::new();
        let mut j: usize = 0;
        while j < self.args.watch_character_ids.len()
            invariant
                j <= self.args.watch_character_ids.len(),
                character_ids@ == self.args.watch_character_ids@.take(j as int),
            decreases self.args.watch_character_ids.len() - j,
        {
            character_ids.push(self.args.watch_character_ids[j]);
            j = j + 1;
            assert(character_ids@ =~= self.args.watch_character_ids@.take(j as int));
        }
        assert(self.args.watch_character_ids@.take(self.args.watch_character_ids@.len() as int)
            =~= self.args.watch_character_ids@);
        ArgsData {
            system_ids: crate::star_map::copy_ids(&self.args.watch_system_ids),
            character_ids,
            channels,
            jumps: self.args.jumps,
            system_range: ids,
        }
    }
}

impl crate::store::Logs {
    /// A log for each character log that the run watches, with no entries and no
    /// sources.
    pub fn new_watch(run: &Running) -> (r: Self)
        ensures
            crate::store::logs_wf(r.0@),
            forall|c: CharacterLog|
                (#[trigger] crate::store::log_position(r.0@, c) is Some) == watch_logs_of(
                    *run,
                ).contains(c),
            forall|i: int|
                0 <= i < r.0@.len() ==> (#[trigger] r.0@[i]).entries@.len() == 0
                    && r.0@[i].sources@.len() == 0,
    {
        crate::store::Logs::watching(&run.watch_logs())
    }
}


/// What a poll of the log directories gives: the entries of the watched logs,
/// taken in turn, that came after `stamp`; `None` where there is none.
pub fn select_watched(logs: &mut crate::store::Logs, watch: &Vec<CharacterLog>, stamp: &Timestamp) -> (r: Option<Vec<LogEntry>>)
    requires
        crate::store::logs_wf(old(logs).0@),
    ensures
        crate::store::logs_wf(final(logs).0@),
        crate::store::logs_view(*final(logs)) == crate::store::emptied(
            crate::store::logs_view(*old(logs)),
            watch@,
        ),
        match r {
            Some(v) => v@ == fresh(crate::store::taken_entries(old(logs).0@, watch@), *stamp, false)
                && v@.len() > 0,
            None => fresh(crate::store::taken_entries(old(logs).0@, watch@), *stamp, false).len() == 0,
        },
{
    let taken = logs.take_watched(watch);
    let activity = fresh_entries(taken, stamp, false);
    if activity.len() == 0 {
        None
    } else {
        Some(activity)
    }
}

/// What a poll of a replayed log gives: the entries of `character_log`, taken,
/// that came after `stamp` and name a system; `None` where there is none. The
/// store loses the entries of that log and nothing else.
pub fn select_replay(logs: &mut crate::store::Logs, character_log: &CharacterLog, stamp: &Timestamp) -> (r: Option<Vec<LogEntry>>)
    requires
        crate::store::logs_wf(old(logs).0@),
    ensures
        crate::store::logs_wf(final(logs).0@),
        match crate::store::log_position(old(logs).0@, *character_log) {
            Some(i) => crate::store::logs_view(*final(logs)) == crate::store::logs_view(*old(logs)).update(
                i,
                (
                    *character_log,
                    Seq::<LogEntry>::empty(),
                    crate::store::log_view(old(logs).0@[i]).2,
                ),
            ),
            None => crate::store::logs_view(*final(logs)) == crate::store::logs_view(*old(logs)),
        },
        match r {
            Some(v) => v@ == fresh(crate::store::entries_of(old(logs).0@, *character_log), *stamp, true)
                && v@.len() > 0,
            None => fresh(crate::store::entries_of(old(logs).0@, *character_log), *stamp, true).len()
                == 0,
        },
{
    proof {
        crate::store::lemma_log_position_public(old(logs).0@, *character_log);
    }
    let taken = logs.take_entries(character_log);
    let activity = fresh_entries(taken, stamp, true);
    if activity.len() == 0 {
        None
    } else {
        Some(activity)
    }
}

/// The entries that a batch of events from a server carries.
pub open spec fn event_entries(events: Seq<DataEvent>) -> Seq<LogEntry>
    decreases events.len(),
{
    if events.len() == 0 {
        seq![]
    } else {
        let w = event_entries(events.drop_last());
        match events.last() {
            DataEvent::LogEntry { entry, .. } => w.push(entry),
            _ => w,
        }
    }
}

/// What a batch of events from a server gives: the entries it carries that came
/// after `stamp` and name a system; `None` where there is none.
pub fn select_client(events: Vec<DataEvent>, stamp: &Timestamp) -> (r: Option<Vec<LogEntry>>)
    ensures
        match r {
            Some(v) => v@ == fresh(event_entries(events@), *stamp, true) && v@.len() > 0,
            None => fresh(event_entries(events@), *stamp, true).len() == 0,
        },
{
    let ghost all = events@;
    let mut rest = events;
    let mut entries: Vec<LogEntry> = Vec::new();
    let mut k: usize = 0;
    let n = rest.len();
    assert(all.len() == n);
    assert(all.take(0) =~= Seq::<DataEvent>::empty());
    assert(rest@ =~= all.skip(0));
    while rest.len() > 0
        invariant
            k <= all.len(),
            all.len() <= usize::MAX,
            rest@ == all.skip(k as int),
            entries@ == event_entries(all.take(k as int)),
        decreases rest.len(),
    {
        let e = rest.remove(0);
        let ghost t = all.take(k as int + 1);
        assert(t.drop_last() =~= all.take(k as int));
        assert(e == all[k as int]);
        assert(t.last() == all[k as int]);
        assert(rest@ =~= all.skip(k as int + 1));
        match e {
            DataEvent::LogEntry { entry, .. } => {
                entries.push(entry);
            },
            _ => {},
        }
        k = k + 1;
    }
    assert(all.take(all.len() as int) =~= all);
    let activity = fresh_entries(entries, stamp, true);
    if activity.len() == 0 {
        None
    } else {
        Some(activity)
    }
}


/// No two neighbours of a list cut down by [dedup_runs] are the same log.
pub proof fn lemma_dedup_no_repeats(s: Seq<CharacterLog>)
    ensures
        forall|i: int, j: int|
            0 <= i && j == i + 1 && j < dedup_runs(s).len() ==> #[trigger] dedup_runs(s)[i]
                != #[trigger] dedup_runs(s)[j],
    decreases s.len(),
{
    if s.len() > 0 {
        let t = s.drop_last();
        lemma_dedup_no_repeats(t);
        let d = dedup_runs(t);
        if d.len() > 0 && d.last() == s.last() {
        } else {
            let e = d.push(s.last());
            assert forall|i: int, j: int|
                0 <= i && j == i + 1 && j < e.len() implies #[trigger] e[i] != #[trigger] e[j] by {
                if j < d.len() {
                    assert(e[i] == d[i] && e[j] == d[j]);
                } else {
                    assert(e[i] == d.last());
                }
            }
        }
    }
}

/// A list cut down by [dedup_runs] holds exactly the logs of the list.
pub proof fn lemma_dedup_members(s: Seq<CharacterLog>)
    ensures
        forall|x: CharacterLog| #[trigger] dedup_runs(s).contains(x) == s.contains(x),
    decreases s.len(),
{
    if s.len() > 0 {
        let t = s.drop_last();
        lemma_dedup_members(t);
        let d = dedup_runs(t);
        assert forall|x: CharacterLog| #[trigger] dedup_runs(s).contains(x) == s.contains(x) by {
            if s.contains(x) {
                let k = choose|k: int| 0 <= k < s.len() && s[k] == x;
                if k < t.len() {
                    assert(t[k] == x);
                    assert(t.contains(x));
                    assert(d.contains(x));
                    let m = choose|m: int| 0 <= m < d.len() && d[m] == x;
                    if !(d.len() > 0 && d.last() == s.last()) {
                        assert(d.push(s.last())[m] == x);
                    }
                } else {
                    if d.len() > 0 && d.last() == s.last() {
                        assert(d[d.len() - 1] == x);
                    } else {
                        assert(d.push(s.last())[d.len() as int] == x);
                    }
                }
            }
            if dedup_runs(s).contains(x) {
                let m = choose|m: int| 0 <= m < dedup_runs(s).len() && dedup_runs(s)[m] == x;
                if m < d.len() {
                    if !(d.len() > 0 && d.last() == s.last()) {
                        assert(d.push(s.last())[m] == d[m]);
                    }
                    assert(d.contains(x));
                    let k = choose|k: int| 0 <= k < t.len() && t[k] == x;
                    assert(s[k] == x);
                } else {
                    assert(s[s.len() - 1] == x);
                }
            }
        }
    }
}

proof fn lemma_log_watch_has(indexed: IndexedLog, chars: Seq<CharacterId>, ids: Seq<CharacterId>, id: CharacterId)
    requires
        ids.contains(id),
        chars.contains(id),
    ensures
        log_watch(indexed, chars, ids).contains(character_log_of(indexed, id)),
    decreases ids.len(),
{
    let t = ids.drop_last();
    let w = log_watch(indexed, chars, t);
    if ids.last() == id {
        assert(log_watch(indexed, chars, ids) == w.push(character_log_of(indexed, id)));
        assert(w.push(character_log_of(indexed, id))[w.len() as int] == character_log_of(indexed, id));
    } else {
        let k = choose|k: int| 0 <= k < ids.len() && ids[k] == id;
        assert(t[k] == id);
        lemma_log_watch_has(indexed, chars, t, id);
        let m = choose|m: int| 0 <= m < w.len() && w[m] == character_log_of(indexed, id);
        if chars.contains(ids.last()) {
            assert(w.push(character_log_of(indexed, ids.last()))[m] == w[m]);
        }
    }
}

proof fn lemma_config_watch_has(logs: Seq<LogConfig>, ids: Seq<CharacterId>, k: int, id: CharacterId)
    requires
        0 <= k < logs.len(),
        ids.contains(id),
        logs[k].characters@.contains(id),
    ensures
        config_watch(logs, ids).contains(character_log_of(logs[k].indexed, id)),
    decreases logs.len(),
{
    let t = logs.drop_last();
    let before = config_watch(t, ids);
    let last = log_watch(logs.last().indexed, logs.last().characters@, ids);
    assert(config_watch(logs, ids) == before + last);
    if k == logs.len() - 1 {
        lemma_log_watch_has(logs.last().indexed, logs.last().characters@, ids, id);
        let m = choose|m: int| 0 <= m < last.len() && last[m] == character_log_of(logs[k].indexed, id);
        assert((before + last)[before.len() + m] == last[m]);
    } else {
        assert(t[k] == logs[k]);
        lemma_config_watch_has(t, ids, k, id);
        let m = choose|m: int| 0 <= m < before.len() && before[m] == character_log_of(logs[k].indexed, id);
        assert((before + last)[m] == before[m]);
    }
}

/// A run watches, for every watched character that the configuration knows, each
/// log that the configuration watches for that character.
pub proof fn lemma_watch_logs_cover(run: Running, k: int, id: CharacterId)
    requires
        0 <= k < run.cfg.logs@.len(),
        watched_ids(run.args, run.cfg).contains(id),
        run.cfg.logs@[k].characters@.contains(id),
    ensures
        watch_logs_of(run).contains(character_log_of(run.cfg.logs@[k].indexed, id)),
{
    let ids = watched_ids(run.args, run.cfg);
    let c = character_log_of(run.cfg.logs@[k].indexed, id);
    lemma_config_watch_has(run.cfg.logs@, ids, k, id);
    let a = config_watch(run.cfg.logs@, ids);
    let b = arg_watch(run.arg_indexed_logs@, ids);
    let m = choose|m: int| 0 <= m < a.len() && a[m] == c;
    assert((a + b)[m] == c);
    lemma_dedup_members(a + b);
}

/// Every entry a poll keeps came after its stamp, is one of the entries polled,
/// and, where systems are needed, names one.
pub proof fn lemma_fresh_entries(entries: Seq<LogEntry>, stamp: Timestamp, need_systems: bool)
    ensures
        forall|e: LogEntry|
            #[trigger] fresh(entries, stamp, need_systems).contains(e) ==> stamp_after(
                e.timestamp,
                stamp,
            ) && entries.contains(e) && (need_systems ==> e.analysis.spec_system_ids().len() > 0),
    decreases entries.len(),
{
    if entries.len() > 0 {
        let t = entries.drop_last();
        lemma_fresh_entries(t, stamp, need_systems);
        let w = fresh(t, stamp, need_systems);
        assert forall|e: LogEntry| #[trigger] fresh(entries, stamp, need_systems).contains(e) implies stamp_after(
            e.timestamp,
            stamp,
        ) && entries.contains(e) && (need_systems ==> e.analysis.spec_system_ids().len() > 0) by {
            let f = fresh(entries, stamp, need_systems);
            let m = choose|m: int| 0 <= m < f.len() && f[m] == e;
            if m < w.len() {
                assert(f[m] == w[m]);
                assert(w.contains(e));
                let q = choose|q: int| 0 <= q < t.len() && t[q] == e;
                assert(entries[q] == e);
            } else {
                assert(e == entries.last());
                assert(entries[entries.len() - 1] == e);
            }
        }
    }
}

/// The systems an entry pings are exactly the systems it names that are in the
/// watched range.
pub proof fn lemma_pinged_in_range(ids: Seq<StarId>, range: Seq<StarId>)
    ensures
        forall|x: StarId| #[trigger] in_range_ids(ids, range).contains(x) == (ids.contains(x) && range.contains(x)),
    decreases ids.len(),
{
    if ids.len() > 0 {
        let t = ids.drop_last();
        lemma_pinged_in_range(t, range);
        let w = in_range_ids(t, range);
        assert forall|x: StarId| #[trigger] in_range_ids(ids, range).contains(x) == (ids.contains(x)
            && range.contains(x)) by {
            let f = in_range_ids(ids, range);
            if f.contains(x) {
                let m = choose|m: int| 0 <= m < f.len() && f[m] == x;
                if m < w.len() {
                    assert(f[m] == w[m]);
                    assert(w.contains(x));
                    let q = choose|q: int| 0 <= q < t.len() && t[q] == x;
                    assert(ids[q] == x);
                } else {
                    assert(ids[ids.len() - 1] == x);
                }
            }
            if ids.contains(x) && range.contains(x) {
                let q = choose|q: int| 0 <= q < ids.len() && ids[q] == x;
                if q < t.len() {
                    assert(t[q] == x);
                    assert(w.contains(x));
                    let m = choose|m: int| 0 <= m < w.len() && w[m] == x;
                    if range.contains(ids.last()) {
                        assert(w.push(ids.last())[m] == x);
                    }
                } else {
                    assert(w.push(ids.last())[w.len() as int] == x);
                }
            }
        }
    }
}

/// An entry raises an alert only when it is dangerous: it pings systems only when
/// it names one in the watched range, and its channel only when it is a dangerous
/// callout that names none.
pub proof fn lemma_alerts_need_danger(e: LogEntry, range: Seq<StarId>)
    ensures
        entry_in_danger(e, range) ==> e.analysis.spec_dangerous(),
        entry_in_danger(e, range) && !entry_in_range(e, range) ==> entry_dangerous_callout(e),
        entry_in_range(e, range) ==> exists|x: StarId|
            #[trigger] e.analysis.spec_system_ids().contains(x) && range.contains(x),
{
    if entry_in_range(e, range) {
        lemma_pinged_in_range(e.analysis.spec_system_ids(), range);
        let w = in_range_ids(e.analysis.spec_system_ids(), range);
        assert(w.contains(w[0]));
    }
}


/// Where the sonar keeps its files, where the environment says so; the user's
/// directories otherwise.
#[derive(Debug)]
pub struct SolarSonarEnv {
    pub config_dir: Option<String>,
    pub data_dir: Option<String>,
}

impl Default for SolarSonarEnv {
    fn default() -> (r: Self)
        ensures
            r.config_dir is None && r.data_dir is None,
    {
        SolarSonarEnv { config_dir: None, data_dir: None }
    }
}

} // verus!
