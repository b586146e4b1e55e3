//! The ways a log is described:
//! - [LogKind] a fieldless enum that describes only the type of log.
//! - [NamedLog] extends log kind to include a String channel name for Group chat logs
//! - [IndexedLog] extends log kind to include an indexed ID of a Group channel name instead of a String
//! - [CharacterLog] extends an indexed log to include a specific character id

use vstd::prelude::*;
use crate::{CharacterId, IndexId};
use crate::error::{SolarError, ErrNoun};
use crate::indices::{ChannelNameIndex, Index, key_index};
use crate::text::{str_eq, str_lower, to_lowercase};

verus! {

/// The kind of a chat log, as its channel name tells it.
#[derive(Debug, Clone, Copy, PartialEq, Eq, Structural, Hash)]
pub enum ChatLogKind {
    Alliance,
    Corporation,
    Fleet,
    Group,
    Local,
    Private,
}

/// The chat log kind that a channel name stands for.
pub open spec fn chat_log_kind_of(name: Seq<char>) -> ChatLogKind {
    if name == "Alliance"@ {
        ChatLogKind::Alliance
    } else if name == "Corp"@ {
        ChatLogKind::Corporation
    } else if name == "Local"@ {
        ChatLogKind::Local
    } else if name == "Fleet"@ {
        ChatLogKind::Fleet
    } else if name == "Private"@ {
        ChatLogKind::Private
    } else {
        ChatLogKind::Group
    }
}

/// The chat log kind that a lower-case input names.
pub open spec fn chat_log_kind_input_of(s: Seq<char>) -> Option<ChatLogKind> {
    if s == "alliance"@ {
        Some(ChatLogKind::Alliance)
    } else if s == "corp"@ {
        Some(ChatLogKind::Corporation)
    } else if s == "local"@ {
        Some(ChatLogKind::Local)
    } else if s == "fleet"@ {
        Some(ChatLogKind::Fleet)
    } else {
        None
    }
}

impl ChatLogKind {
    /// The chat log kind that `s` names, in any case.
    pub fn try_from_enum(s: &str) -> (r: Result<Self, SolarError>)
        ensures
            match chat_log_kind_input_of(str_lower(s@)) {
                Some(k) => r == Ok::<ChatLogKind, SolarError>(k),
                None => r matches Err(SolarError::Msg { msg }) && msg@ == "Invalid chat log kind"@,
            },
    {
        let lower = to_lowercase(s);
        let l = lower.as_str();
        if str_eq(l, "alliance") {
            Ok(ChatLogKind::Alliance)
        } else if str_eq(l, "corp") {
            Ok(ChatLogKind::Corporation)
        } else if str_eq(l, "local") {
            Ok(ChatLogKind::Local)
        } else if str_eq(l, "fleet") {
            Ok(ChatLogKind::Fleet)
        } else {
            Err(SolarError::msg_str("Invalid chat log kind"))
        }
    }

    /// The chat log kind that a channel name stands for.
    pub fn from_log_name(name: &str) -> (r: Self)
        ensures
            r == chat_log_kind_of(name@),
    {
        if str_eq(name, "Alliance") {
            ChatLogKind::Alliance
        } else if str_eq(name, "Corp") {
            ChatLogKind::Corporation
        } else if str_eq(name, "Local") {
            ChatLogKind::Local
        } else if str_eq(name, "Fleet") {
            ChatLogKind::Fleet
        } else if str_eq(name, "Private") {
            ChatLogKind::Private
        } else {
            ChatLogKind::Group
        }
    }
}

/// The type of a log.
#[derive(Debug, Clone, Copy, PartialEq, Eq, Structural, Hash)]
pub enum LogKind {
    Game,
    Local,
    Alliance,
    Corporation,
    Fleet,
    Group,
}

/// The log kind that a lower-case input names.
pub open spec fn log_kind_input_of(s: Seq<char>) -> Option<LogKind> {
    if s == "game"@ {
        Some(LogKind::Game)
    } else if s == "local"@ {
        Some(LogKind::Local)
    } else if s == "alliance"@ {
        Some(LogKind::Alliance)
    } else if s == "corp"@ {
        Some(LogKind::Corporation)
    } else if s == "fleet"@ {
        Some(LogKind::Fleet)
    } else if s == "group"@ {
        Some(LogKind::Group)
    } else {
        None
    }
}

/// The log kind that a log's name stands for; any name but the fixed ones is a
/// group channel.
pub open spec fn log_kind_of_name(name: Seq<char>) -> LogKind {
    if name == "Game"@ {
        LogKind::Game
    } else if name == "Local"@ {
        LogKind::Local
    } else if name == "Alliance"@ {
        LogKind::Alliance
    } else if name == "Corp"@ {
        LogKind::Corporation
    } else if name == "Fleet"@ {
        LogKind::Fleet
    } else {
        LogKind::Group
    }
}

/// How a log kind is spoken.
pub open spec fn pronounced(k: LogKind) -> Seq<char> {
    match k {
        LogKind::Game => "Game"@,
        LogKind::Local => "Local"@,
        LogKind::Alliance => "Alliance"@,
        LogKind::Corporation => "Corp"@,
        LogKind::Fleet => "Fleet"@,
        LogKind::Group => "Chat"@,
    }
}

/// The log kind of a chat log kind. An input names only the four fixed channels;
/// a group or private conversation, which no input names, counts as a group.
pub open spec fn chat_input_log_kind(k: ChatLogKind) -> LogKind {
    match k {
        ChatLogKind::Alliance => LogKind::Alliance,
        ChatLogKind::Corporation => LogKind::Corporation,
        ChatLogKind::Fleet => LogKind::Fleet,
        ChatLogKind::Local => LogKind::Local,
        ChatLogKind::Group => LogKind::Group,
        ChatLogKind::Private => LogKind::Group,
    }
}

impl LogKind {
    /// The log kind that `s` names, in any case, as a chat log kind does (see
    /// [ChatLogKind::try_from_enum]) or as `game`.
    pub fn try_from_enum(s: &str) -> (r: Result<Self, SolarError>)
        ensures
            match chat_log_kind_input_of(str_lower(s@)) {
                Some(k) => r == Ok::<LogKind, SolarError>(chat_input_log_kind(k)),
                None => if str_lower(s@) == "game"@ {
                    r == Ok::<LogKind, SolarError>(LogKind::Game)
                } else {
                    r matches Err(SolarError::Msg { msg }) && msg@ == "Invalid log kind"@
                },
            },
    {
        match ChatLogKind::try_from_enum(s) {
            Ok(k) => match k {
                ChatLogKind::Alliance => Ok(LogKind::Alliance),
                ChatLogKind::Corporation => Ok(LogKind::Corporation),
                ChatLogKind::Fleet => Ok(LogKind::Fleet),
                ChatLogKind::Local => Ok(LogKind::Local),
                ChatLogKind::Group => Ok(LogKind::Group),
                ChatLogKind::Private => Ok(LogKind::Group),
            },
            Err(_) => {
                let lower = to_lowercase(s);
                if str_eq(lower.as_str(), "game") {
                    Ok(LogKind::Game)
                } else {
                    Err(SolarError::msg_str("Invalid log kind"))
                }
            },
        }
    }
}

impl LogKind {
    /// The log kind that `s` names, in any case.
    pub fn try_from_input(s: &str) -> (r: Result<Self, SolarError>)
        ensures
            match log_kind_input_of(str_lower(s@)) {
                Some(k) => r == Ok::<LogKind, SolarError>(k),
                None => r matches Err(SolarError::Enum { noun, input }) && noun == ErrNoun::LogKind
                    && input@ == s@,
            },
    {
        let lower = to_lowercase(s);
        let l = lower.as_str();
        if str_eq(l, "game") {
            Ok(LogKind::Game)
        } else if str_eq(l, "local") {
            Ok(LogKind::Local)
        } else if str_eq(l, "alliance") {
            Ok(LogKind::Alliance)
        } else if str_eq(l, "corp") {
            Ok(LogKind::Corporation)
        } else if str_eq(l, "fleet") {
            Ok(LogKind::Fleet)
        } else if str_eq(l, "group") {
            Ok(LogKind::Group)
        } else {
            Err(SolarError::err_enum(ErrNoun::LogKind, s))
        }
    }

    /// The log kind that a log's name stands for. Private conversations are not
    /// supported.
    pub fn from_log_name(name: &str) -> (r: Self)
        requires
            name@ != "Private"@,
        ensures
            r == log_kind_of_name(name@),
    {
        if str_eq(name, "Game") {
            LogKind::Game
        } else if str_eq(name, "Local") {
            LogKind::Local
        } else if str_eq(name, "Alliance") {
            LogKind::Alliance
        } else if str_eq(name, "Corp") {
            LogKind::Corporation
        } else if str_eq(name, "Fleet") {
            LogKind::Fleet
        } else {
            LogKind::Group
        }
    }

    /// The log kind of a log file: a game log, or the kind its channel name stands
    /// for. Private conversations are not supported.
    pub fn from_log_name_of(name: &LogName) -> (r: Self)
        requires
            !(name matches LogName::Chat(n) && n@ == "Private"@),
        ensures
            r == log_kind_of_log_name(*name),
    {
        match name {
            LogName::Game => LogKind::Game,
            LogName::Chat(n) => LogKind::from_log_name(n.as_str()),
        }
    }

    /// How this log kind is spoken.
    pub fn pronounce(&self) -> (r: &'static str)
        ensures
            r@ == pronounced(*self),
    {
        match self {
            LogKind::Game => "Game",
            LogKind::Local => "Local",
            LogKind::Alliance => "Alliance",
            LogKind::Corporation => "Corp",
            LogKind::Fleet => "Fleet",
            LogKind::Group => "Chat",
        }
    }
}

/// The name part of a log file's name: a game log, or the chat channel's name.
#[derive(Debug, Clone, PartialEq, Eq)]
pub enum LogName {
    Game,
    Chat(String),
}

/// The log kind of a log file's name.
pub open spec fn log_kind_of_log_name(name: LogName) -> LogKind {
    match name {
        LogName::Game => LogKind::Game,
        LogName::Chat(n) => log_kind_of_name(n@),
    }
}

impl LogName {
    /// The chat channel's name, for a chat log.
    pub fn channel_name(&self) -> (r: Option<&str>)
        ensures
            match self {
                LogName::Game => r is None,
                LogName::Chat(n) => r matches Some(s) && s@ == n@,
            },
    {
        match self {
            LogName::Game => None,
            LogName::Chat(name) => Some(name.as_str()),
        }
    }
}

/// A log kind with the name of a group channel.
#[derive(Debug, Clone, PartialEq, Eq)]
pub enum NamedLog {
    Game,
    Local,
    Alliance,
    Corporation,
    Fleet,
    Group(String),
}

/// A log kind with the indexed id of a group channel.
#[derive(Debug, Clone, Copy, PartialEq, Eq, Structural, Hash)]
pub enum IndexedLog {
    Alliance,
    Corporation,
    Fleet,
    Game,
    Local,
    Group(IndexId),
}

impl IndexedLog {
    /// The indexed log of a log kind; a group log needs a channel name that the
    /// index knows.
    pub fn try_from_kind(kind: LogKind, name: Option<&str>, channel_name_index: &ChannelNameIndex) -> (r:
        Result<Self, SolarError>)
        ensures
            match kind {
                LogKind::Alliance => r == Ok::<IndexedLog, SolarError>(IndexedLog::Alliance),
                LogKind::Corporation => r == Ok::<IndexedLog, SolarError>(IndexedLog::Corporation),
                LogKind::Fleet => r == Ok::<IndexedLog, SolarError>(IndexedLog::Fleet),
                LogKind::Game => r == Ok::<IndexedLog, SolarError>(IndexedLog::Game),
                LogKind::Local => r == Ok::<IndexedLog, SolarError>(IndexedLog::Local),
                LogKind::Group => match name {
                    None => r matches Err(SolarError::Msg { msg }) && msg@
                        == "Log kind expects Group, but channel name was not provided"@,
                    Some(n) => match key_index(channel_name_index.0@, n@) {
                        Some(i) => r == Ok::<IndexedLog, SolarError>(
                            IndexedLog::Group(channel_name_index.0@[i].id),
                        ),
                        None => r matches Err(SolarError::NotFound { noun, key }) && noun
                            == ErrNoun::ChannelName && key@ == n@,
                    },
                },
            },
    {
        match kind {
            LogKind::Alliance => Ok(IndexedLog::Alliance),
            LogKind::Corporation => Ok(IndexedLog::Corporation),
            LogKind::Fleet => Ok(IndexedLog::Fleet),
            LogKind::Game => Ok(IndexedLog::Game),
            LogKind::Local => Ok(IndexedLog::Local),
            LogKind::Group => {
                match name {
                    None => Err(
                        SolarError::msg_str(
                            "Log kind expects Group, but channel name was not provided",
                        ),
                    ),
                    Some(n) => {
                        let idx = channel_name_index.find(n)?;
                        Ok(IndexedLog::Group(idx.id))
                    },
                }
            },
        }
    }
}

/// A log of one character.
#[derive(Debug, Clone, Copy, PartialEq, Eq, Structural, Hash)]
pub enum CharacterLog {
    Game { character_id: CharacterId },
    Local { character_id: CharacterId },
    Alliance { character_id: CharacterId },
    Corporation { character_id: CharacterId },
    Fleet { character_id: CharacterId },
    Group { character_id: CharacterId, channel_id: IndexId },
}

/// The character whose log it is.
pub open spec fn log_character(c: CharacterLog) -> CharacterId {
    match c {
        CharacterLog::Game { character_id } => character_id,
        CharacterLog::Local { character_id } => character_id,
        CharacterLog::Alliance { character_id } => character_id,
        CharacterLog::Corporation { character_id } => character_id,
        CharacterLog::Fleet { character_id } => character_id,
        CharacterLog::Group { character_id, .. } => character_id,
    }
}

/// The character log of an indexed log.
pub open spec fn character_log_of(indexed: IndexedLog, character_id: CharacterId) -> CharacterLog {
    match indexed {
        IndexedLog::Game => CharacterLog::Game { character_id },
        IndexedLog::Local => CharacterLog::Local { character_id },
        IndexedLog::Alliance => CharacterLog::Alliance { character_id },
        IndexedLog::Corporation => CharacterLog::Corporation { character_id },
        IndexedLog::Fleet => CharacterLog::Fleet { character_id },
        IndexedLog::Group(channel_id) => CharacterLog::Group { character_id, channel_id },
    }
}

/// The indexed log of a character log.
pub open spec fn indexed_of(c: CharacterLog) -> IndexedLog {
    match c {
        CharacterLog::Game { .. } => IndexedLog::Game,
        CharacterLog::Local { .. } => IndexedLog::Local,
        CharacterLog::Alliance { .. } => IndexedLog::Alliance,
        CharacterLog::Corporation { .. } => IndexedLog::Corporation,
        CharacterLog::Fleet { .. } => IndexedLog::Fleet,
        CharacterLog::Group { channel_id, .. } => IndexedLog::Group(channel_id),
    }
}

/// The log kind of a character log.
pub open spec fn kind_of(c: CharacterLog) -> LogKind {
    match c {
        CharacterLog::Game { .. } => LogKind::Game,
        CharacterLog::Local { .. } => LogKind::Local,
        CharacterLog::Alliance { .. } => LogKind::Alliance,
        CharacterLog::Corporation { .. } => LogKind::Corporation,
        CharacterLog::Fleet { .. } => LogKind::Fleet,
        CharacterLog::Group { .. } => LogKind::Group,
    }
}

/// The character log of a log kind; a group log carries its channel's id.
pub open spec fn character_log_of_kind(kind: LogKind, character_id: CharacterId, channel_id: Option<IndexId>) -> CharacterLog {
    match kind {
        LogKind::Game => CharacterLog::Game { character_id },
        LogKind::Local => CharacterLog::Local { character_id },
        LogKind::Alliance => CharacterLog::Alliance { character_id },
        LogKind::Corporation => CharacterLog::Corporation { character_id },
        LogKind::Fleet => CharacterLog::Fleet { character_id },
        LogKind::Group => CharacterLog::Group { character_id, channel_id: channel_id->0 },
    }
}

impl CharacterLog {
    /// The character whose log it is.
    pub fn character_id(&self) -> (r: CharacterId)
        ensures
            r == log_character(*self),
    {
        match self {
            CharacterLog::Game { character_id }
            | CharacterLog::Local { character_id }
            | CharacterLog::Alliance { character_id }
            | CharacterLog::Corporation { character_id }
            | CharacterLog::Fleet { character_id }
            | CharacterLog::Group { character_id, .. } => *character_id,
        }
    }

    /// The group channel's id, for a group log.
    pub fn channel_name_id(&self) -> (r: Option<IndexId>)
        ensures
            r == (match *self {
                CharacterLog::Group { channel_id, .. } => Some(channel_id),
                _ => None,
            }),
    {
        match self {
            CharacterLog::Group { channel_id, .. } => Some(*channel_id),
            _ => None,
        }
    }

    /// Whether it is a chat log (not a game log).
    pub fn is_chat(&self) -> (r: bool)
        ensures
            r == !(*self is Game),
    {
        match self {
            CharacterLog::Game { .. } => false,
            _ => true,
        }
    }

    /// How the log is shown: its kind, or a group channel's name.
    pub fn display_str<'a>(&self, index: &'a Index) -> (r: &'a str)
        requires
            *self matches CharacterLog::Group { channel_id, .. } ==> (channel_id as int)
                < index.channel_names.0@.len(),
        ensures
            r@ == match *self {
                CharacterLog::Group { channel_id, .. } => index.channel_names.0@[channel_id as int].name@,
                _ => pronounced_display(kind_of(*self)),
            },
    {
        match self {
            CharacterLog::Game { .. } => "Game",
            CharacterLog::Local { .. } => "Local",
            CharacterLog::Alliance { .. } => "Alliance",
            CharacterLog::Corporation { .. } => "Corp",
            CharacterLog::Fleet { .. } => "Fleet",
            CharacterLog::Group { channel_id, .. } => {
                let channels = index.chat_channels();
                let idx = channels.get(*channel_id);
                match idx {
                    Ok(c) => c.name.as_str(),
                    Err(_) => "",
                }
            },
        }
    }

    /// The character log of a log kind; a group log needs its channel's id.
    pub fn from_kind(kind: LogKind, character_id: CharacterId, channel_id: Option<IndexId>) -> (r: Self)
        requires
            kind == LogKind::Group ==> channel_id is Some,
        ensures
            r == character_log_of_kind(kind, character_id, channel_id),
    {
        match kind {
            LogKind::Game => CharacterLog::Game { character_id },
            LogKind::Local => CharacterLog::Local { character_id },
            LogKind::Alliance => CharacterLog::Alliance { character_id },
            LogKind::Corporation => CharacterLog::Corporation { character_id },
            LogKind::Fleet => CharacterLog::Fleet { character_id },
            LogKind::Group => CharacterLog::Group { character_id, channel_id: channel_id.unwrap() },
        }
    }

    /// The log kind of the log.
    pub fn to_kind(&self) -> (r: LogKind)
        ensures
            r == kind_of(*self),
    {
        match self {
            CharacterLog::Game { .. } => LogKind::Game,
            CharacterLog::Local { .. } => LogKind::Local,
            CharacterLog::Alliance { .. } => LogKind::Alliance,
            CharacterLog::Corporation { .. } => LogKind::Corporation,
            CharacterLog::Fleet { .. } => LogKind::Fleet,
            CharacterLog::Group { .. } => LogKind::Group,
        }
    }

    /// The character log of an indexed log.
    pub fn from_indexed(indexed: IndexedLog, character_id: CharacterId) -> (r: Self)
        ensures
            r == character_log_of(indexed, character_id),
    {
        match indexed {
            IndexedLog::Game => CharacterLog::Game { character_id },
            IndexedLog::Local => CharacterLog::Local { character_id },
            IndexedLog::Alliance => CharacterLog::Alliance { character_id },
            IndexedLog::Corporation => CharacterLog::Corporation { character_id },
            IndexedLog::Fleet => CharacterLog::Fleet { character_id },
            IndexedLog::Group(channel_id) => CharacterLog::Group { character_id, channel_id },
        }
    }

    /// The indexed log of the log.
    pub fn to_indexed(&self) -> (r: IndexedLog)
        ensures
            r == indexed_of(*self),
    {
        match self {
            CharacterLog::Game { .. } => IndexedLog::Game,
            CharacterLog::Local { .. } => IndexedLog::Local,
            CharacterLog::Alliance { .. } => IndexedLog::Alliance,
            CharacterLog::Corporation { .. } => IndexedLog::Corporation,
            CharacterLog::Fleet { .. } => IndexedLog::Fleet,
            CharacterLog::Group { channel_id, .. } => IndexedLog::Group(*channel_id),
        }
    }
}

/// How a character log of a fixed kind is shown.
pub open spec fn pronounced_display(k: LogKind) -> Seq<char> {
    match k {
        LogKind::Game => "Game"@,
        LogKind::Local => "Local"@,
        LogKind::Alliance => "Alliance"@,
        LogKind::Corporation => "Corp"@,
        LogKind::Fleet => "Fleet"@,
        LogKind::Group => "Group"@,
    }
}

/// A character log taken apart into its indexed log and character, and put back
/// together, is the same log; and the other way round.
pub proof fn lemma_character_log_round_trip(c: CharacterLog, indexed: IndexedLog, character_id: CharacterId)
    ensures
        character_log_of(indexed_of(c), log_character(c)) == c,
        indexed_of(character_log_of(indexed, character_id)) == indexed,
        log_character(character_log_of(indexed, character_id)) == character_id,
{
}

/// What a ping reports.
#[derive(Debug, Clone, Copy, PartialEq, Eq, Structural)]
pub enum PingKind {
    Combat,
    Danger,
    Intel,
    Message,
}

/// The ping kind that a lower-case input names.
pub open spec fn ping_kind_input_of(s: Seq<char>) -> Option<PingKind> {
    if s == "combat"@ {
        Some(PingKind::Combat)
    } else if s == "danger"@ {
        Some(PingKind::Danger)
    } else if s == "intel"@ {
        Some(PingKind::Intel)
    } else if s == "message"@ {
        Some(PingKind::Message)
    } else {
        None
    }
}

impl PingKind {
    /// The ping kind that `s` names, in any case.
    pub fn try_from_input(s: &str) -> (r: Result<Self, SolarError>)
        ensures
            match ping_kind_input_of(str_lower(s@)) {
                Some(k) => r == Ok::<PingKind, SolarError>(k),
                None => r matches Err(SolarError::Enum { noun, input }) && noun == ErrNoun::PingKind
                    && input@ == s@,
            },
    {
        let lower = to_lowercase(s);
        let l = lower.as_str();
        if str_eq(l, "combat") {
            Ok(PingKind::Combat)
        } else if str_eq(l, "danger") {
            Ok(PingKind::Danger)
        } else if str_eq(l, "intel") {
            Ok(PingKind::Intel)
        } else if str_eq(l, "message") {
            Ok(PingKind::Message)
        } else {
            Err(SolarError::err_enum(ErrNoun::PingKind, s))
        }
    }
}

/// The fixed channel names stand for their kinds: a kind's spoken name, which is
/// the name of its log (`Game`, `Local`, `Alliance`, `Corp`, `Fleet`), names
/// that kind back, and a chat log's kind agrees with its chat log kind (a
/// corporation's log, `Corp`, is the corporation's); any other channel is a group.
pub proof fn lemma_log_kind_names(k: LogKind, name: Seq<char>)
    ensures
        k != LogKind::Group ==> log_kind_of_name(pronounced(k)) == k,
        name != "Game"@ && chat_log_kind_of(name) != ChatLogKind::Private ==> log_kind_of_name(name)
            == chat_input_log_kind(chat_log_kind_of(name)),
        log_kind_of_name(name) == LogKind::Group <==> (name != "Game"@ && name != "Local"@ && name
            != "Alliance"@ && name != "Corp"@ && name != "Fleet"@),
{
    reveal_strlit("Game");
    reveal_strlit("Local");
    reveal_strlit("Alliance");
    reveal_strlit("Corp");
    reveal_strlit("Fleet");
    reveal_strlit("Chat");
    reveal_strlit("Private");
    assert("Game"@ != "Local"@ && "Game"@ != "Alliance"@ && "Game"@ != "Corp"@ && "Game"@ != "Fleet"@) by {
        assert("Game"@[0] != "Local"@[0] && "Game"@[0] != "Alliance"@[0] && "Game"@[0] != "Corp"@[0]
            && "Game"@[0] != "Fleet"@[0]);
    }
    assert("Local"@ != "Alliance"@ && "Local"@ != "Corp"@ && "Local"@ != "Fleet"@) by {
        assert("Local"@[0] != "Alliance"@[0] && "Local"@[0] != "Corp"@[0] && "Local"@[0] != "Fleet"@[0]);
    }
    assert("Alliance"@ != "Corp"@ && "Alliance"@ != "Fleet"@) by {
        assert("Alliance"@[0] != "Corp"@[0] && "Alliance"@[0] != "Fleet"@[0]);
    }
    assert("Corp"@ != "Fleet"@) by {
        assert("Corp"@[0] != "Fleet"@[0]);
    }
    assert("Chat"@ != "Game"@ && "Chat"@ != "Local"@ && "Chat"@ != "Alliance"@ && "Chat"@ != "Corp"@
        && "Chat"@ != "Fleet"@) by {
        assert("Chat"@[0] != "Game"@[0] && "Chat"@[0] != "Local"@[0] && "Chat"@[0] != "Alliance"@[0]
            && "Chat"@[1] != "Corp"@[1] && "Chat"@[0] != "Fleet"@[0]);
    }
    assert("Private"@ != "Local"@ && "Private"@ != "Alliance"@ && "Private"@ != "Corp"@ && "Private"@
        != "Fleet"@) by {
        assert("Private"@[0] != "Local"@[0] && "Private"@[0] != "Alliance"@[0] && "Private"@[0]
            != "Corp"@[0] && "Private"@[0] != "Fleet"@[0]);
    }
}

/// The inputs that name log kinds agree with those that name chat log kinds: an
/// input that names a chat log kind names the log kind of that chat log, and
/// only `game` and `group` name log kinds that are no chat log kind's.
pub proof fn lemma_log_kind_inputs(s: Seq<char>)
    ensures
        chat_log_kind_input_of(s) matches Some(c) ==> log_kind_input_of(s) == Some(
            chat_input_log_kind(c),
        ),
        log_kind_input_of(s) is Some && chat_log_kind_input_of(s) is None ==> (s == "game"@ || s
            == "group"@),
{
    reveal_strlit("game");
    reveal_strlit("local");
    reveal_strlit("alliance");
    reveal_strlit("corp");
    reveal_strlit("fleet");
    reveal_strlit("group");
    assert("local"@ != "game"@) by { assert("local"@[0] != "game"@[0]); }
    assert("alliance"@ != "game"@ && "alliance"@ != "local"@) by {
        assert("alliance"@[0] != "game"@[0] && "alliance"@[0] != "local"@[0]);
    }
    assert("corp"@ != "game"@ && "corp"@ != "local"@ && "corp"@ != "alliance"@) by {
        assert("corp"@[0] != "game"@[0] && "corp"@[0] != "local"@[0] && "corp"@[0] != "alliance"@[0]);
    }
    assert("fleet"@ != "game"@ && "fleet"@ != "local"@ && "fleet"@ != "alliance"@ && "fleet"@
        != "corp"@) by {
        assert("fleet"@[0] != "game"@[0] && "fleet"@[0] != "local"@[0] && "fleet"@[0] != "alliance"@[0]
            && "fleet"@[0] != "corp"@[0]);
    }
}

} // verus!
