//! Operating modes and the combat analysis settings that each mode carries.

use vstd::prelude::*;
use crate::ModeId;

verus! {

/// Whose combat counts as a target.
#[derive(Debug, Clone, Copy, PartialEq, Eq, Structural, Hash)]
pub enum TargetedKind {
    Watched,
    Alliance,
    Any,
}

/// Which engagements count.
#[derive(Debug, Clone, Copy, PartialEq, Eq, Structural, Hash)]
pub enum EngagementKind {
    PVP,
    Any,
}

/// The combat analysis settings of a mode.
#[derive(Debug, Clone, Copy, PartialEq, Eq, Structural)]
pub struct CombatAnalysisModeConfig {
    /// in seconds
    pub cease_time: u16,
    pub engagement_kind: EngagementKind,
    pub targeted_kind: TargetedKind,
    pub yellowbox_threshold: u8,
}

/// The settings that apply where a mode gives none.
pub open spec fn default_combat_config() -> CombatAnalysisModeConfig {
    CombatAnalysisModeConfig {
        cease_time: 90,
        engagement_kind: EngagementKind::PVP,
        targeted_kind: TargetedKind::Watched,
        yellowbox_threshold: 3,
    }
}

/// The combat analysis settings as a mode's file gives them: each may be absent.
#[derive(Debug, Clone, Copy, PartialEq, Eq, Structural, Hash)]
pub struct CombatAnalysisModeCfg {
    pub cease_time: Option<u16>,
    pub engagement: Option<EngagementKind>,
    pub targeted: Option<TargetedKind>,
    pub yellowboxers: Option<u8>,
}

/// The settings that `cfg` gives, with the defaults where it gives none.
pub open spec fn combat_config_of(cfg: CombatAnalysisModeCfg) -> CombatAnalysisModeConfig {
    CombatAnalysisModeConfig {
        cease_time: match cfg.cease_time {
            Some(v) => v,
            None => default_combat_config().cease_time,
        },
        engagement_kind: match cfg.engagement {
            Some(v) => v,
            None => default_combat_config().engagement_kind,
        },
        targeted_kind: match cfg.targeted {
            Some(v) => v,
            None => default_combat_config().targeted_kind,
        },
        yellowbox_threshold: match cfg.yellowboxers {
            Some(v) => v,
            None => default_combat_config().yellowbox_threshold,
        },
    }
}

impl CombatAnalysisModeConfig {
    /// The settings that apply where a mode gives none.
    pub fn default_config() -> (r: Self)
        ensures
            r == default_combat_config(),
    {
        CombatAnalysisModeConfig {
            cease_time: 90,
            engagement_kind: EngagementKind::PVP,
            targeted_kind: TargetedKind::Watched,
            yellowbox_threshold: 3,
        }
    }

    /// The settings of `cfg`, with the defaults where it gives none.
    pub fn try_from_cfg(cfg: CombatAnalysisModeCfg) -> (r: Result<Self, crate::error::SolarError>)
        ensures
            r matches Ok(c) && c == combat_config_of(cfg),
    {
        let d = Self::default_config();
        let cease_time = match cfg.cease_time {
            Some(v) => v,
            None => d.cease_time,
        };
        let engagement_kind = match cfg.engagement {
            Some(v) => v,
            None => d.engagement_kind,
        };
        let targeted_kind = match cfg.targeted {
            Some(v) => v,
            None => d.targeted_kind,
        };
        let yellowbox_threshold = match cfg.yellowboxers {
            Some(v) => v,
            None => d.yellowbox_threshold,
        };
        Ok(CombatAnalysisModeConfig { cease_time, engagement_kind, targeted_kind, yellowbox_threshold })
    }
}

impl Default for CombatAnalysisModeConfig {
    fn default() -> (r: Self)
        ensures
            r == default_combat_config(),
    {
        Self::default_config()
    }
}

/// A mode: its id in the mode index and its settings.
#[derive(Debug, Clone, Copy, PartialEq, Eq, Structural)]
pub struct ModeConfig {
    pub id: ModeId,
    pub combat_analysis: CombatAnalysisModeConfig,
}

/// A mode's settings as its files give them.
#[derive(Debug, Clone, Copy, PartialEq, Eq, Structural, Hash)]
pub struct ModeCfg {
    pub combat_analysis: CombatAnalysisModeCfg,
}


/// The combat analysis settings of a mode of a configuration built into a program.
#[derive(Debug, Clone, Copy, PartialEq, Eq, Structural)]
pub struct CombatAnalysisModeCfgConst {
    pub cease_time: Option<u16>,
    pub engagement: Option<EngagementKind>,
    pub targeted: Option<TargetedKind>,
    pub yellowboxers: Option<u8>,
}

/// The settings as a mode's file would give them.
pub open spec fn combat_cfg_of_const(v: CombatAnalysisModeCfgConst) -> CombatAnalysisModeCfg {
    CombatAnalysisModeCfg {
        cease_time: v.cease_time,
        engagement: v.engagement,
        targeted: v.targeted,
        yellowboxers: v.yellowboxers,
    }
}

impl From<&CombatAnalysisModeCfgConst> for CombatAnalysisModeCfg {
    fn from(v: &CombatAnalysisModeCfgConst) -> (r: Self) {
        CombatAnalysisModeCfg {
            cease_time: v.cease_time,
            engagement: v.engagement,
            targeted: v.targeted,
            yellowboxers: v.yellowboxers,
        }
    }
}

impl vstd::std_specs::convert::FromSpecImpl<&CombatAnalysisModeCfgConst> for CombatAnalysisModeCfg {
    open spec fn obeys_from_spec() -> bool {
        true
    }

    open spec fn from_spec(v: &CombatAnalysisModeCfgConst) -> Self {
        combat_cfg_of_const(*v)
    }
}

} // verus!
