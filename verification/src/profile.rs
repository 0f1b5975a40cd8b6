//! The four energy performance profiles, from the most performance to the most
//! power saving, with the token that the kernel knows each by.

use crate::text::is_whitespace;
use vstd::prelude::*;

verus! {

/// A profile: a trade-off between performance and power saving.
#[derive(Debug, Clone, Copy, PartialEq, Eq, Structural)]
pub enum EppValue {
    Performance,
    BalancePerformance,
    BalancePower,
    Power,
}

impl EppValue {
    /// The token written to a control file to select the profile.
    pub open spec fn token(self) -> Seq<char> {
        match self {
            EppValue::Performance => "performance"@,
            EppValue::BalancePerformance => "balance_performance"@,
            EppValue::BalancePower => "balance_power"@,
            EppValue::Power => "power"@,
        }
    }

    /// What the profile does, in two lines for a reader.
    pub open spec fn description_text(self) -> Seq<char> {
        match self {
            EppValue::Performance => "Prioritizes performance above power saving.\nCPU reaches higher clock speeds aggressively."@,
            EppValue::BalancePerformance => "Aims for a balance but leans towards performance.\nThis is the default value in many systems."@,
            EppValue::BalancePower => "Aims for a balance but leans towards power saving.\nMore conservative clock speed increases."@,
            EppValue::Power => "Strongly prioritizes power saving.\nFavors lower frequencies, may limit peak performance."@,
        }
    }

    /// The level of the profile: its place from 0, the most performance, to 3,
    /// the most power saving.
    pub open spec fn level(self) -> u8 {
        match self {
            EppValue::Performance => 0,
            EppValue::BalancePerformance => 1,
            EppValue::BalancePower => 2,
            EppValue::Power => 3,
        }
    }

    /// The profile at a level, if the level is one of 0 to 3.
    pub open spec fn at_level(level: u8) -> Option<EppValue> {
        if level == 0 {
            Some(EppValue::Performance)
        } else if level == 1 {
            Some(EppValue::BalancePerformance)
        } else if level == 2 {
            Some(EppValue::BalancePower)
        } else if level == 3 {
            Some(EppValue::Power)
        } else {
            None
        }
    }

    /// The token written to a control file to select the profile.
    pub fn as_str(&self) -> (s: &'static str)
        ensures
            s@ == self.token(),
    {
        match self {
            EppValue::Performance => "performance",
            EppValue::BalancePerformance => "balance_performance",
            EppValue::BalancePower => "balance_power",
            EppValue::Power => "power",
        }
    }

    /// What the profile does, in two lines for a reader.
    pub fn description(&self) -> (s: &'static str)
        ensures
            s@ == self.description_text(),
    {
        match self {
            EppValue::Performance => "Prioritizes performance above power saving.\nCPU reaches higher clock speeds aggressively.",
            EppValue::BalancePerformance => "Aims for a balance but leans towards performance.\nThis is the default value in many systems.",
            EppValue::BalancePower => "Aims for a balance but leans towards power saving.\nMore conservative clock speed increases.",
            EppValue::Power => "Strongly prioritizes power saving.\nFavors lower frequencies, may limit peak performance.",
        }
    }

    /// The profile at a level: levels 0 to 3 each have one, no other level
    /// has any.
    pub fn from_level(level: u8) -> (profile: Option<Self>)
        ensures
            profile == Self::at_level(level),
            profile is Some <==> level <= 3,
            profile matches Some(p) ==> p.level() == level,
    {
        match level {
            0 => Some(EppValue::Performance),
            1 => Some(EppValue::BalancePerformance),
            2 => Some(EppValue::BalancePower),
            3 => Some(EppValue::Power),
            _ => None,
        }
    }

    /// The four profiles, by ascending level.
    pub fn value_variants() -> (all: Vec<EppValue>)
        ensures
            all@ == seq![
                EppValue::Performance,
                EppValue::BalancePerformance,
                EppValue::BalancePower,
                EppValue::Power,
            ],
    {
        let mut all: Vec<EppValue> = Vec::new();
        all.push(EppValue::Performance);
        all.push(EppValue::BalancePerformance);
        all.push(EppValue::BalancePower);
        all.push(EppValue::Power);
        proof {
            assert(all@ =~= seq![
                EppValue::Performance,
                EppValue::BalancePerformance,
                EppValue::BalancePower,
                EppValue::Power,
            ]);
        }
        all
    }
}

/// Levels and profiles correspond one to one: every profile has a level from
/// 0 to 3 at which it is found, and the profiles found at two different levels
/// differ.
pub proof fn lemma_levels_and_profiles_correspond(profile: EppValue, a: u8, b: u8)
    ensures
        profile.level() <= 3,
        EppValue::at_level(profile.level()) == Some(profile),
        a <= 3 ==> EppValue::at_level(a) is Some && EppValue::at_level(a)->Some_0.level() == a,
        a <= 3 && b <= 3 && EppValue::at_level(a) == EppValue::at_level(b) ==> a == b,
        a > 3 ==> EppValue::at_level(a) is None,
{
}

/// No token is empty, and none holds whitespace.
pub proof fn lemma_token_has_no_whitespace(profile: EppValue)
    ensures
        profile.token().len() > 0,
        forall|i: int| 0 <= i < profile.token().len() ==> !is_whitespace(#[trigger] profile.token()[i]),
{
    reveal_strlit("performance");
    reveal_strlit("balance_performance");
    reveal_strlit("balance_power");
    reveal_strlit("power");
}

} // verus!
