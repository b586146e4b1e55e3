//! The analyses of a chat line: intel reports (systems and keywords), callouts,
//! and combat.

use vstd::prelude::*;
use crate::{CharacterId, StarId};
use crate::mode::{CombatAnalysisModeConfig, ModeConfig};
use crate::star_map::{StarMap, lemma_name_index_bounds};
use crate::text::{
    chars_of, split_whitespace, words, trim_end_matches_char, trim_end_char, string_from_chars,
    to_uppercase, to_lowercase, str_upper, str_lower, str_eq, views,
};
use crate::time::Timestamp;
use crate::error::{SolarError, ErrNoun};

verus! {

/// An analysis that can judge a line dangerous.
pub trait Analysis {
    fn dangerous(&self) -> (r: bool);
}

/// An analysis that names solar systems.
pub trait SystemContextAnalysis {
    fn system_ids(&self) -> (r: &Vec<StarId>);
}

/// What a callout warns of.
#[derive(Debug, Clone, Copy, PartialEq, Eq, Structural, Hash)]
pub enum Callout {
    Opponent,
}

/// A word that makes a line a callout.
#[derive(Debug, Clone, Copy, PartialEq, Eq, Structural, Hash)]
pub enum CalloutKeyword {
    Nuet,
}

/// The callout keyword that `word` is.
pub open spec fn callout_keyword_of(word: Seq<char>) -> Option<CalloutKeyword> {
    if word == "neut"@ || word == "neut!"@ || word == "nuet"@ || word == "nuet!"@ {
        Some(CalloutKeyword::Nuet)
    } else {
        None
    }
}

impl CalloutKeyword {
    /// The callout keyword that `word` is, if any.
    pub fn matches_word(word: &str) -> (r: Option<Self>)
        ensures
            r == callout_keyword_of(word@),
    {
        if str_eq(word, "neut") || str_eq(word, "neut!") || str_eq(word, "nuet") || str_eq(
            word,
            "nuet!",
        ) {
            Some(CalloutKeyword::Nuet)
        } else {
            None
        }
    }
}

/// The callout analysis of a line.
#[derive(Debug, Clone, Copy, PartialEq, Eq, Structural, Hash)]
pub struct CalloutAnalysis {
    pub call: Option<Callout>,
}

/// The callout that a line's content makes: its first word, in lower case, is a
/// callout keyword.
pub open spec fn callout_of(content: Seq<char>) -> Option<Callout> {
    let ws = words(content);
    if ws.len() > 0 && callout_keyword_of(str_lower(ws[0])) is Some {
        Some(Callout::Opponent)
    } else {
        None
    }
}

impl CalloutAnalysis {
    /// Whether the line is a callout.
    pub fn has_callout(&self) -> (r: bool)
        ensures
            r == self.call is Some,
    {
        self.call.is_some()
    }

    /// The callout the line makes.
    pub fn callout(&self) -> (r: Option<&Callout>)
        ensures
            match r {
                Some(c) => self.call == Some(*c),
                None => self.call is None,
            },
    {
        self.call.as_ref()
    }
}

impl Analysis for CalloutAnalysis {
    fn dangerous(&self) -> (r: bool)
        ensures
            r == (self.call == Some(Callout::Opponent)),
    {
        match self.call {
            Some(c) => {
                assert(c == Callout::Opponent);
                true
            },
            None => false,
        }
    }
}

/// Finds callouts in chat lines.
pub struct CalloutAnalyzer;

impl CalloutAnalyzer {
    /// The callout analysis of a line's content.
    pub fn analyze(self, content: &str) -> (r: CalloutAnalysis)
        ensures
            r.call == callout_of(content@),
    {
        let cs = chars_of(content);
        let ws = split_whitespace(&cs);
        let mut call: Option<Callout> = None;
        if ws.len() > 0 {
            assert(views(ws@)[0] == ws@[0]@);
            let first = string_from_chars(&ws[0]);
            let lower = to_lowercase(first.as_str());
            if let Some(keyword) = CalloutKeyword::matches_word(lower.as_str()) {
                call = Some(
                    match keyword {
                        CalloutKeyword::Nuet => Callout::Opponent,
                    },
                );
            }
        }
        CalloutAnalysis { call }
    }
}

/// A word of an intel report that says something about the reported system.
#[derive(Debug, Clone, Copy, PartialEq, Eq, Structural, Hash)]
pub enum IntelKeyword {
    Clear,
    NoVisual,
    Status,
}

/// The intel keyword that the upper-case word `word` is.
pub open spec fn intel_keyword_of(word: Seq<char>) -> Option<IntelKeyword> {
    if word == "CLEAR"@ || word == "CLR"@ {
        Some(IntelKeyword::Clear)
    } else if word == "NV"@ {
        Some(IntelKeyword::NoVisual)
    } else if word == "STATUS"@ || word == "STATUS?"@ || word == "CLR?"@ || word == "CLEAR?"@ {
        Some(IntelKeyword::Status)
    } else {
        None
    }
}

/// Whether a keyword makes a report dangerous, given whether the report has words
/// that are neither keywords nor systems.
pub open spec fn keyword_danger(k: IntelKeyword, has_unknown: bool) -> bool {
    match k {
        IntelKeyword::Clear => has_unknown,
        IntelKeyword::NoVisual => true,
        IntelKeyword::Status => has_unknown,
    }
}

impl IntelKeyword {
    /// The intel keyword that the upper-case word `word` is, if any.
    pub fn matches(word: &str) -> (r: Option<Self>)
        ensures
            r == intel_keyword_of(word@),
    {
        if str_eq(word, "CLEAR") || str_eq(word, "CLR") {
            Some(IntelKeyword::Clear)
        } else if str_eq(word, "NV") {
            Some(IntelKeyword::NoVisual)
        } else if str_eq(word, "STATUS") || str_eq(word, "STATUS?") || str_eq(word, "CLR?")
            || str_eq(word, "CLEAR?") {
            Some(IntelKeyword::Status)
        } else {
            None
        }
    }

    /// Whether this keyword makes a report dangerous.
    pub fn danger(&self, has_unknown: bool) -> (r: bool)
        ensures
            r == keyword_danger(*self, has_unknown),
    {
        match (self, has_unknown) {
            (IntelKeyword::Clear, false) => false,
            (IntelKeyword::Clear, true) => true,
            (IntelKeyword::NoVisual, _) => true,
            (IntelKeyword::Status, false) => false,
            (IntelKeyword::Status, true) => true,
        }
    }
}

/// The intel analysis of a line: the systems and keywords it names, and whether
/// it has other words.
#[derive(Debug, Clone, PartialEq, Eq, Hash)]
pub struct IntelAnalysis {
    pub ambiguous: bool,
    pub systems: Vec<StarId>,
    pub keywords: Vec<IntelKeyword>,
}

/// Whether an intel report is dangerous: it names a system, and either it has no
/// keyword or one of its keywords is dangerous.
pub open spec fn intel_dangerous(ambiguous: bool, systems: Seq<StarId>, keywords: Seq<IntelKeyword>) -> bool {
    systems.len() > 0 && (keywords.len() == 0 || exists|i: int|
        0 <= i < keywords.len() && keyword_danger(#[trigger] keywords[i], ambiguous))
}

impl IntelAnalysis {
    /// A copy of this analysis.
    pub fn duplicate(&self) -> (r: Self)
        ensures
            r.ambiguous == self.ambiguous,
            r.systems@ == self.systems@,
            r.keywords@ == self.keywords@,
    {
        let mut systems: Vec<StarId> = Vec::new();
        let mut i: usize = 0;
        while i < self.systems.len()
            invariant
                i <= self.systems.len(),
                systems@ == self.systems@.take(i as int),
            decreases self.systems.len() - i,
        {
            systems.push(self.systems[i]);
            i = i + 1;
            assert(systems@ =~= self.systems@.take(i as int));
        }
        let mut keywords: Vec<IntelKeyword> = Vec::new();
        let mut k: usize = 0;
        while k < self.keywords.len()
            invariant
                k <= self.keywords.len(),
                keywords@ == self.keywords@.take(k as int),
            decreases self.keywords.len() - k,
        {
            keywords.push(self.keywords[k]);
            k = k + 1;
            assert(keywords@ =~= self.keywords@.take(k as int));
        }
        assert(systems@ =~= self.systems@);
        assert(keywords@ =~= self.keywords@);
        IntelAnalysis { ambiguous: self.ambiguous, systems, keywords }
    }
}

impl Analysis for IntelAnalysis {
    fn dangerous(&self) -> (r: bool)
        ensures
            r == intel_dangerous(self.ambiguous, self.systems@, self.keywords@),
    {
        if self.systems.len() == 0 {
            return false;
        }
        if self.keywords.len() == 0 {
            return true;
        }
        let mut i: usize = 0;
        while i < self.keywords.len()
            invariant
                i <= self.keywords.len(),
                self.systems@.len() > 0,
                forall|k: int| 0 <= k < i ==> !keyword_danger(#[trigger] self.keywords@[k], self.ambiguous),
            decreases self.keywords.len() - i,
        {
            if self.keywords[i].danger(self.ambiguous) {
                assert(keyword_danger(self.keywords@[i as int], self.ambiguous));
                return true;
            }
            i = i + 1;
        }
        false
    }
}

impl SystemContextAnalysis for IntelAnalysis {
    fn system_ids(&self) -> (r: &Vec<StarId>)
        ensures
            r@ == self.systems@,
    {
        &self.systems
    }
}

/// A word of a report as the intel analysis reads it: without trailing `*`, in upper case.
pub open spec fn normalize_word(w: Seq<char>) -> Seq<char> {
    str_upper(trim_end_char(w, '*'))
}

/// The systems and keywords that the words `ws` name, in order: a word that is a
/// keyword counts as one, otherwise a word that names a system counts as that system.
pub open spec fn intel_scan(map: StarMap, ws: Seq<Seq<char>>) -> (Seq<StarId>, Seq<IntelKeyword>)
    decreases ws.len(),
{
    if ws.len() == 0 {
        (seq![], seq![])
    } else {
        let (systems, keywords) = intel_scan(map, ws.drop_last());
        let w = normalize_word(ws.last());
        match intel_keyword_of(w) {
            Some(k) => (systems, keywords.push(k)),
            None => match map.named(w) {
                Some(s) => (systems.push(s.id), keywords),
                None => (systems, keywords),
            },
        }
    }
}

/// Reads intel reports.
pub struct IntelAnalyzer;

impl IntelAnalyzer {
    /// The intel analysis of a line's content, with the system names of `star_map`.
    pub fn analyze(self, content: &str, star_map: &StarMap) -> (r: IntelAnalysis)
        ensures
            r.systems@ == intel_scan(*star_map, words(content@)).0,
            r.keywords@ == intel_scan(*star_map, words(content@)).1,
            r.ambiguous == (words(content@).len() > r.systems@.len() + r.keywords@.len()),
    {
        let cs = chars_of(content);
        let ws = split_whitespace(&cs);
        let ghost wv = views(ws@);
        let mut keywords: Vec<IntelKeyword> = Vec::new();
        let mut systems: Vec<StarId> = Vec::new();
        let mut num_words: usize = 0;
        let mut i: usize = 0;
        assert(wv.take(0) =~= Seq::<Seq<char>>::empty());
        while i < ws.len()
            invariant
                wv == views(ws@),
                wv.len() == ws@.len(),
                i <= ws.len(),
                num_words == i,
                systems@ == intel_scan(*star_map, wv.take(i as int)).0,
                keywords@ == intel_scan(*star_map, wv.take(i as int)).1,
                systems@.len() + keywords@.len() <= i,
            decreases ws.len() - i,
        {
            proof {
                let t = wv.take(i as int + 1);
                assert(t.drop_last() =~= wv.take(i as int));
                assert(t.last() == ws@[i as int]@);
            }
            num_words = num_words + 1;
            let trimmed = trim_end_matches_char(&ws[i], '*');
            let trimmed_s = string_from_chars(&trimmed);
            let word = to_uppercase(trimmed_s.as_str());
            if let Some(keyword) = IntelKeyword::matches(word.as_str()) {
                keywords.push(keyword);
            } else {
                let found = star_map.get_system_named(word.as_str());
                if let Some(system) = found {
                    systems.push(system.id);
                }
            }
            i = i + 1;
        }
        assert(wv.take(ws.len() as int) =~= wv);
        let ambiguous = num_words > systems.len() + keywords.len();
        IntelAnalysis { ambiguous, systems, keywords }
    }
}

/// Whether a combat is between players or against the environment.
#[derive(Debug, Clone, Copy, PartialEq, Eq, Structural, Hash)]
pub enum CombatKind {
    /// Player vs Player
    PVP,
    /// Player vs Environment
    PVE,
}

/// A side of a combat.
#[derive(Debug, Clone, PartialEq, Eq, Hash)]
pub enum Combatant {
    KnownCharacter(CharacterId),
    Character { name: String, corporation: String, alliance: String },
    /// Non-Player Character
    NPC { name: String },
}

/// A combat that a line reports.
#[derive(Debug, Clone, PartialEq, Eq, Hash)]
pub struct Combat {
    /// pvp or pve
    pub kind: CombatKind,
    /// player or npc
    pub attacker: Combatant,
    /// player or npc
    pub target: Combatant,
    /// attacker and target are in the same alliance / corp
    pub friendly_fire: bool,
}

/// The combat analysis of a line.
#[derive(Debug, Clone, PartialEq, Eq, Hash)]
pub struct CombatAnalysis {
    pub combat: Option<Combat>,
}

impl Analysis for CombatAnalysis {
    fn dangerous(&self) -> (r: bool)
        ensures
            r == (self.combat matches Some(c) && c.kind == CombatKind::PVP && !c.friendly_fire),
    {
        match &self.combat {
            Some(combat) => combat.kind == CombatKind::PVP && !combat.friendly_fire,
            None => false,
        }
    }
}

/// What the combat analysis remembers between lines.
#[derive(Debug, Clone, Copy, PartialEq, Eq, Structural)]
pub struct CombatAnalyzerState {
    pub last_combat_time: Timestamp,
    pub last_yellowbox_time: Timestamp,
}

impl CombatAnalyzerState {
    /// The state before any line.
    pub fn new() -> (r: Self)
        ensures
            r.last_combat_time == Timestamp(0, 0),
            r.last_yellowbox_time == Timestamp(0, 0),
    {
        CombatAnalyzerState { last_combat_time: Timestamp::zero(), last_yellowbox_time: Timestamp::zero() }
    }
}

/// What all analyses remember between lines.
#[derive(Debug, Clone, Copy, PartialEq, Eq, Structural)]
pub struct AnalyzerState {
    pub combat: CombatAnalyzerState,
}

impl AnalyzerState {
    /// The state before any line.
    pub fn new() -> (r: Self)
        ensures
            r.combat == CombatAnalyzerState::new_spec(),
    {
        AnalyzerState { combat: CombatAnalyzerState::new() }
    }
}

impl CombatAnalyzerState {
    /// The state before any line.
    pub open spec fn new_spec() -> Self {
        CombatAnalyzerState { last_combat_time: Timestamp(0, 0), last_yellowbox_time: Timestamp(0, 0) }
    }
}

/// Reads combat from lines, under a mode's settings.
pub struct CombatAnalyzer<'a> {
    pub cfg: &'a CombatAnalysisModeConfig,
    pub state: &'a AnalyzerState,
}

impl<'a> CombatAnalyzer<'a> {
    /// An analyzer with the combat settings of `cfg` and the combat state of `state`.
    pub fn new(cfg: &'a ModeConfig, state: &'a AnalyzerState) -> (r: Self)
        ensures
            *r.cfg == cfg.combat_analysis,
            *r.state == *state,
    {
        CombatAnalyzer { cfg: &cfg.combat_analysis, state }
    }

    /// The combat analysis of a line; no combat is read from lines yet.
    pub fn analyze(self, content: &str, time: &Timestamp) -> (r: CombatAnalysis)
        ensures
            r.combat is None,
    {
        CombatAnalysis { combat: None }
    }
}

/// The analyses that a log can ask for.
#[derive(Debug, Clone, Copy, PartialEq, Eq, Structural)]
pub enum AnalysisKind {
    Callout,
    Combat,
    Intel,
    Message,
}

/// The analysis kind that the lower-case name `s` gives.
pub open spec fn analysis_kind_of(s: Seq<char>) -> Option<AnalysisKind> {
    if s == "callout"@ {
        Some(AnalysisKind::Callout)
    } else if s == "combat"@ {
        Some(AnalysisKind::Combat)
    } else if s == "intel"@ {
        Some(AnalysisKind::Intel)
    } else if s == "message"@ {
        Some(AnalysisKind::Message)
    } else {
        None
    }
}

impl AnalysisKind {
    /// The analysis kind that `s` names, in any case.
    pub fn try_from_input(s: &str) -> (r: Result<Self, SolarError>)
        ensures
            match analysis_kind_of(str_lower(s@)) {
                Some(k) => r == Ok::<AnalysisKind, SolarError>(k),
                None => r matches Err(SolarError::Enum { noun, input }) && noun
                    == ErrNoun::AnalysisKind && input@ == s@,
            },
    {
        let lower = to_lowercase(s);
        let l = lower.as_str();
        if str_eq(l, "callout") {
            Ok(AnalysisKind::Callout)
        } else if str_eq(l, "combat") {
            Ok(AnalysisKind::Combat)
        } else if str_eq(l, "intel") {
            Ok(AnalysisKind::Intel)
        } else if str_eq(l, "message") {
            Ok(AnalysisKind::Message)
        } else {
            Err(SolarError::err_enum(ErrNoun::AnalysisKind, s))
        }
    }
}

/// The analyses of a log line.
#[derive(Debug, Clone, PartialEq, Eq, Hash)]
pub struct LogAnalysis {
    pub intel: Option<IntelAnalysis>,
    pub callout: Option<CalloutAnalysis>,
}

impl LogAnalysis {
    /// Whether the line is dangerous: its intel or its callout is.
    pub open spec fn spec_dangerous(&self) -> bool {
        (self.intel matches Some(i) && intel_dangerous(i.ambiguous, i.systems@, i.keywords@)) || (
        self.callout matches Some(c) && c.call == Some(Callout::Opponent))
    }

    /// The systems the line names.
    pub open spec fn spec_system_ids(&self) -> Seq<StarId> {
        match self.intel {
            Some(i) => i.systems@,
            None => seq![],
        }
    }

    /// The intel analysis of the line.
    pub fn intel(&self) -> (r: Option<&IntelAnalysis>)
        ensures
            match r {
                Some(i) => self.intel == Some(*i),
                None => self.intel is None,
            },
    {
        self.intel.as_ref()
    }

    /// Whether the line is a callout.
    pub fn has_callout(&self) -> (r: bool)
        ensures
            r == (self.callout matches Some(c) && c.call is Some),
    {
        match &self.callout {
            Some(c) => c.has_callout(),
            None => false,
        }
    }

    /// Whether the line is a dangerous callout.
    pub fn dangerous_callout(&self) -> (r: bool)
        ensures
            r == (self.callout matches Some(c) && c.call == Some(Callout::Opponent)),
    {
        match &self.callout {
            Some(c) => c.dangerous(),
            None => false,
        }
    }

    /// The callout the line makes.
    pub fn callout(&self) -> (r: Option<&Callout>)
        ensures
            match r {
                Some(c) => self.callout matches Some(ca) && ca.call == Some(*c),
                None => !(self.callout matches Some(ca) && ca.call is Some),
            },
    {
        match &self.callout {
            Some(c) => c.callout(),
            None => None,
        }
    }

    /// The systems the line names.
    pub fn system_ids(&self) -> (r: Vec<StarId>)
        ensures
            r@ == self.spec_system_ids(),
    {
        match &self.intel {
            Some(i) => i.duplicate().systems,
            None => Vec::new(),
        }
    }

    /// Whether the line names exactly one system.
    pub fn has_single_system(&self) -> (r: bool)
        ensures
            r == (self.intel matches Some(i) && i.systems@.len() == 1),
    {
        match &self.intel {
            Some(i) => i.systems.len() == 1,
            None => false,
        }
    }

    /// Whether the line is dangerous: its intel or its callout is.
    pub fn dangerous(&self) -> (r: bool)
        ensures
            r == self.spec_dangerous(),
    {
        let mut danger = false;
        if let Some(intel) = &self.intel {
            danger = danger || intel.dangerous();
        }
        if let Some(callout) = &self.callout {
            danger = danger || callout.dangerous();
        }
        danger
    }

    /// Whether the line is worth showing: it is dangerous.
    pub fn display_worthy(&self) -> (r: bool)
        ensures
            r == self.spec_dangerous(),
    {
        if self.dangerous() {
            true
        } else {
            false
        }
    }
}

/// What makes an intel report dangerous: it must name a system. A report with
/// words that are neither keywords nor systems is then always dangerous. A report
/// with none is dangerous exactly when it has no keyword or says "no visual"
/// (`NV`): a report that names a system and says `NV` is dangerous whatever else
/// it says, while one that only clears or asks for status is not.
pub proof fn lemma_intel_danger(ambiguous: bool, systems: Seq<StarId>, keywords: Seq<IntelKeyword>)
    ensures
        systems.len() == 0 ==> !intel_dangerous(ambiguous, systems, keywords),
        systems.len() > 0 && ambiguous ==> intel_dangerous(ambiguous, systems, keywords),
        systems.len() > 0 && !ambiguous ==> (intel_dangerous(ambiguous, systems, keywords) <==> (
        keywords.len() == 0 || keywords.contains(IntelKeyword::NoVisual))),
        systems.len() > 0 && keywords.contains(IntelKeyword::NoVisual) ==> intel_dangerous(
            ambiguous,
            systems,
            keywords,
        ),
{
    if systems.len() > 0 && keywords.len() > 0 {
        if ambiguous {
            assert(keyword_danger(keywords[0], ambiguous));
        }
        if keywords.contains(IntelKeyword::NoVisual) {
            let k = choose|k: int| 0 <= k < keywords.len() && keywords[k] == IntelKeyword::NoVisual;
            assert(keyword_danger(keywords[k], ambiguous));
        }
        if !ambiguous && intel_dangerous(ambiguous, systems, keywords) {
            let k = choose|k: int| 0 <= k < keywords.len() && keyword_danger(#[trigger] keywords[k], ambiguous);
            assert(keywords[k] == IntelKeyword::NoVisual);
        }
    }
}

/// A line whose first word, in any case, is `neut` or `nuet` (with or without
/// `!`) is a callout of an opponent, and a line whose first word is anything else,
/// or that has no word, is no callout.
pub proof fn lemma_callout_words(content: Seq<char>)
    ensures
        ({
            let ws = words(content);
            ws.len() > 0 && (str_lower(ws[0]) == "neut"@ || str_lower(ws[0]) == "neut!"@ || str_lower(
                ws[0],
            ) == "nuet"@ || str_lower(ws[0]) == "nuet!"@)
        }) <==> callout_of(content) == Some(Callout::Opponent),
        callout_of(content) is None || callout_of(content) == Some(Callout::Opponent),
{
}

/// The intel keywords, by the upper-case words that say them: `CLEAR` and `CLR`
/// clear a system, `NV` reports no visual, and `STATUS`, `STATUS?`, `CLR?` and
/// `CLEAR?` ask for status; no other word is a keyword.
pub proof fn lemma_intel_keyword_words(word: Seq<char>)
    ensures
        intel_keyword_of(word) == Some(IntelKeyword::Clear) <==> (word == "CLEAR"@ || word == "CLR"@),
        intel_keyword_of(word) == Some(IntelKeyword::NoVisual) <==> word == "NV"@,
        intel_keyword_of(word) == Some(IntelKeyword::Status) <==> (word == "STATUS"@ || word
            == "STATUS?"@ || word == "CLR?"@ || word == "CLEAR?"@),
{
    reveal_strlit("CLEAR");
    reveal_strlit("CLR");
    reveal_strlit("NV");
    reveal_strlit("STATUS");
    reveal_strlit("STATUS?");
    reveal_strlit("CLR?");
    reveal_strlit("CLEAR?");
    assert("NV"@ != "CLEAR"@ && "NV"@ != "CLR"@) by {
        assert("NV"@[0] != "CLEAR"@[0] && "NV"@[0] != "CLR"@[0]);
    }
    assert("STATUS"@ != "CLEAR"@ && "STATUS"@ != "CLR"@ && "STATUS"@ != "NV"@) by {
        assert("STATUS"@[0] != "CLEAR"@[0] && "STATUS"@[0] != "CLR"@[0] && "STATUS"@[0] != "NV"@[0]);
    }
    assert("STATUS?"@ != "CLEAR"@ && "STATUS?"@ != "CLR"@ && "STATUS?"@ != "NV"@) by {
        assert("STATUS?"@[0] != "CLEAR"@[0] && "STATUS?"@[0] != "CLR"@[0] && "STATUS?"@[0] != "NV"@[0]);
    }
    assert("CLR?"@ != "CLEAR"@ && "CLR?"@ != "CLR"@ && "CLR?"@ != "NV"@) by {
        assert("CLR?"@[2] != "CLEAR"@[2] && "CLR?"@.len() != "CLR"@.len() && "CLR?"@[0] != "NV"@[0]);
    }
    assert("CLEAR?"@ != "CLEAR"@ && "CLEAR?"@ != "CLR"@ && "CLEAR?"@ != "NV"@) by {
        assert("CLEAR?"@.len() != "CLEAR"@.len() && "CLEAR?"@[2] != "CLR"@[2] && "CLEAR?"@[0] != "NV"@[0]);
    }
}

/// Whether the normalized word `w` is the name of the system `x` on the map.
pub open spec fn word_names(map: StarMap, w: Seq<char>, x: StarId) -> bool {
    map.named(w) matches Some(s) && s.id == x
}

/// An intel report names exactly the systems and keywords its words say: a
/// system is reported where a word that is no keyword names it on the map, a
/// keyword where a word says it; and no word counts twice.
pub proof fn lemma_intel_scan_words(map: StarMap, ws: Seq<Seq<char>>)
    ensures
        forall|x: StarId| #[trigger] intel_scan(map, ws).0.contains(x) <==> exists|i: int|
            0 <= i < ws.len() && intel_keyword_of(normalize_word(#[trigger] ws[i])) is None
                && word_names(map, normalize_word(ws[i]), x),
        forall|k: IntelKeyword| #[trigger] intel_scan(map, ws).1.contains(k) <==> exists|i: int|
            0 <= i < ws.len() && intel_keyword_of(normalize_word(#[trigger] ws[i])) == Some(k),
        intel_scan(map, ws).0.len() + intel_scan(map, ws).1.len() <= ws.len(),
    decreases ws.len(),
{
    if ws.len() > 0 {
        let t = ws.drop_last();
        lemma_intel_scan_words(map, t);
        let (sy, kw) = intel_scan(map, t);
        let w = normalize_word(ws.last());
        let last = ws.len() - 1;
        assert(ws[last] == ws.last());
        assert forall|x: StarId| #[trigger] intel_scan(map, ws).0.contains(x) <==> exists|i: int|
            0 <= i < ws.len() && intel_keyword_of(normalize_word(#[trigger] ws[i])) is None
                && word_names(map, normalize_word(ws[i]), x) by {
            let r = intel_scan(map, ws).0;
            if r.contains(x) {
                if sy.contains(x) {
                    let i = choose|i: int|
                        0 <= i < t.len() && intel_keyword_of(normalize_word(#[trigger] t[i])) is None
                            && word_names(map, normalize_word(t[i]), x);
                    assert(ws[i] == t[i]);
                } else {
                    let j = choose|j: int| 0 <= j < r.len() && r[j] == x;
                    if j < sy.len() {
                        assert(r[j] == sy[j]);
                    }
                    assert(ws[last] == ws.last());
                }
            }
            if exists|i: int|
                0 <= i < ws.len() && intel_keyword_of(normalize_word(#[trigger] ws[i])) is None
                    && word_names(map, normalize_word(ws[i]), x) {
                let i = choose|i: int|
                    0 <= i < ws.len() && intel_keyword_of(normalize_word(#[trigger] ws[i])) is None
                        && word_names(map, normalize_word(ws[i]), x);
                if i < t.len() {
                    assert(ws[i] == t[i]);
                    assert(sy.contains(x));
                    let j = choose|j: int| 0 <= j < sy.len() && sy[j] == x;
                    assert(r[j] == x);
                } else {
                    assert(r[r.len() - 1] == x);
                }
            }
        }
        assert forall|k: IntelKeyword| #[trigger] intel_scan(map, ws).1.contains(k) <==> exists|i: int|
            0 <= i < ws.len() && intel_keyword_of(normalize_word(#[trigger] ws[i])) == Some(k) by {
            let r = intel_scan(map, ws).1;
            if r.contains(k) {
                if kw.contains(k) {
                    let i = choose|i: int|
                        0 <= i < t.len() && intel_keyword_of(normalize_word(#[trigger] t[i])) == Some(k);
                    assert(ws[i] == t[i]);
                } else {
                    let j = choose|j: int| 0 <= j < r.len() && r[j] == k;
                    if j < kw.len() {
                        assert(r[j] == kw[j]);
                    }
                    assert(ws[last] == ws.last());
                }
            }
            if exists|i: int| 0 <= i < ws.len() && intel_keyword_of(normalize_word(#[trigger] ws[i])) == Some(k) {
                let i = choose|i: int| 0 <= i < ws.len() && intel_keyword_of(normalize_word(#[trigger] ws[i])) == Some(k);
                if i < t.len() {
                    assert(ws[i] == t[i]);
                    assert(kw.contains(k));
                    let j = choose|j: int| 0 <= j < kw.len() && kw[j] == k;
                    assert(r[j] == k);
                } else {
                    assert(r[r.len() - 1] == k);
                }
            }
        }
    }
}

} // verus!
