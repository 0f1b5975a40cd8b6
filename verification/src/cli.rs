//! What an invocation selects, and the steps that it takes: help needs
//! nothing; everything else needs the control files, so the base directory is
//! listed first.

use crate::discovery::{discovered, well_formed, AmdEppMgr, DirEntry, DirEntryView};
use crate::error::{EppError, EppErrorView};
use crate::help::{get_profile_help_section, profile_help};
use crate::location::Location;
use crate::profile::EppValue;
use crate::sorting::views;
use vstd::prelude::*;

verus! {

/// The options of the command line.
#[derive(Debug, Clone, Copy, PartialEq, Eq)]
pub struct Cli {
    /// Set the profile `performance`.
    pub performance: bool,
    /// Set the profile `balance_performance`.
    pub balance_performance: bool,
    /// Set the profile `balance_power`.
    pub balance_power: bool,
    /// Set the profile `power`.
    pub power: bool,
    /// Set the profile at this level.
    pub profile_level: Option<u8>,
    /// Show the current value of every core.
    pub show: bool,
}

/// The one thing that an invocation selects.
#[derive(Debug, Clone, Copy, PartialEq, Eq, Structural)]
pub enum Selection {
    Performance,
    BalancePerformance,
    BalancePower,
    Power,
    Level(u8),
    Show,
    Help,
}

/// What a selection asks for.
#[derive(Debug, Clone, Copy, PartialEq, Eq, Structural)]
pub enum Action {
    /// Apply this profile to every core.
    Apply(EppValue),
    /// Show the current value of every core.
    Show,
    /// Print the help text.
    Help,
}

/// One if the option is given, zero if not.
pub open spec fn one_if(given: bool) -> nat {
    if given {
        1
    } else {
        0
    }
}

impl Cli {
    /// The number of options that are given.
    pub open spec fn given(self) -> nat {
        one_if(self.performance) + one_if(self.balance_performance) + one_if(self.balance_power)
            + one_if(self.power) + one_if(self.profile_level is Some) + one_if(self.show)
    }

    /// The selection that the options make: that of the one option that is
    /// given, help where none is. Several options together select nothing.
    pub open spec fn selected(self) -> Option<Selection> {
        if self.given() > 1 {
            None
        } else if self.performance {
            Some(Selection::Performance)
        } else if self.balance_performance {
            Some(Selection::BalancePerformance)
        } else if self.balance_power {
            Some(Selection::BalancePower)
        } else if self.power {
            Some(Selection::Power)
        } else if let Some(level) = self.profile_level {
            Some(Selection::Level(level))
        } else if self.show {
            Some(Selection::Show)
        } else {
            Some(Selection::Help)
        }
    }

    /// Computes `selected`.
    pub fn selection(&self) -> (selection: Option<Selection>)
        ensures
            selection == self.selected(),
    {
        let mut given: u8 = 0;
        let mut selection: Selection = Selection::Help;
        if self.show {
            given = given + 1;
            selection = Selection::Show;
        }
        if let Some(level) = self.profile_level {
            given = given + 1;
            selection = Selection::Level(level);
        }
        if self.power {
            given = given + 1;
            selection = Selection::Power;
        }
        if self.balance_power {
            given = given + 1;
            selection = Selection::BalancePower;
        }
        if self.balance_performance {
            given = given + 1;
            selection = Selection::BalancePerformance;
        }
        if self.performance {
            given = given + 1;
            selection = Selection::Performance;
        }
        if given > 1 {
            None
        } else {
            Some(selection)
        }
    }
}

impl Selection {
    /// What the selection asks for. A level stands for the profile at that
    /// level; a level that has no profile is an invalid argument.
    pub open spec fn chosen(self) -> Result<Action, EppErrorView> {
        match self {
            Selection::Performance => Ok(Action::Apply(EppValue::Performance)),
            Selection::BalancePerformance => Ok(Action::Apply(EppValue::BalancePerformance)),
            Selection::BalancePower => Ok(Action::Apply(EppValue::BalancePower)),
            Selection::Power => Ok(Action::Apply(EppValue::Power)),
            Selection::Level(level) => match EppValue::at_level(level) {
                Some(profile) => Ok(Action::Apply(profile)),
                None => Err(EppErrorView::InvalidArgument { level }),
            },
            Selection::Show => Ok(Action::Show),
            Selection::Help => Ok(Action::Help),
        }
    }

    /// Computes `chosen`.
    pub fn action(&self) -> (action: Result<Action, EppError>)
        ensures
            match action {
                Ok(a) => self.chosen() == Ok::<Action, EppErrorView>(a),
                Err(e) => self.chosen() == Err::<Action, EppErrorView>(e@),
            },
    {
        match self {
            Selection::Performance => Ok(Action::Apply(EppValue::Performance)),
            Selection::BalancePerformance => Ok(Action::Apply(EppValue::BalancePerformance)),
            Selection::BalancePower => Ok(Action::Apply(EppValue::BalancePower)),
            Selection::Power => Ok(Action::Apply(EppValue::Power)),
            Selection::Level(level) => match EppValue::from_level(*level) {
                Some(profile) => Ok(Action::Apply(profile)),
                None => Err(EppError::InvalidArgument { level: *level }),
            },
            Selection::Show => Ok(Action::Show),
            Selection::Help => Ok(Action::Help),
        }
    }
}

/// The next step of an invocation.
#[derive(Debug, PartialEq, Eq)]
pub enum Step {
    /// Print the help text, with this section at its end, which explains the
    /// profiles. Nothing else is to be done.
    Help(String),
    /// List the base directory, and come back with the listing.
    List,
    /// Apply the profile to the control files.
    Apply { mgr: AmdEppMgr, profile: EppValue },
    /// Show the current values of the control files.
    Show { mgr: AmdEppMgr },
}

/// A step as a mathematical value.
pub enum StepView {
    Help(Seq<char>),
    List,
    Apply { locations: Seq<Location>, profile: EppValue },
    Show { locations: Seq<Location> },
}

impl View for Step {
    type V = StepView;

    open spec fn view(&self) -> StepView {
        match self {
            Step::Help(section) => StepView::Help(section@),
            Step::List => StepView::List,
            Step::Apply { mgr, profile } => StepView::Apply { locations: mgr@, profile: *profile },
            Step::Show { mgr } => StepView::Show { locations: mgr@ },
        }
    }
}

/// What is known of the base directory: nothing while it has not been listed,
/// then its listing or why it could not be listed.
pub open spec fn known_listing(listing: Option<Result<Vec<DirEntry>, String>>) -> Option<
    Result<Seq<DirEntryView>, Seq<char>>,
> {
    match listing {
        None => None,
        Some(Ok(entries)) => Some(Ok(views(entries@))),
        Some(Err(cause)) => Some(Err(cause@)),
    }
}

/// The next step of an invocation.
///
/// Help is printed whatever the base directory holds, listed or not, and
/// ends with the section that explains the profiles. Any other selection
/// needs the control files: the base directory is listed, and
/// discovery is made on the listing. An error of discovery ends the invocation;
/// after discovery a level that has no profile does.
pub open spec fn planned(
    selection: Selection,
    base: Seq<char>,
    listing: Option<Result<Seq<DirEntryView>, Seq<char>>>,
) -> Result<StepView, EppErrorView> {
    if selection == Selection::Help {
        Ok(StepView::Help(profile_help()))
    } else {
        match listing {
            None => Ok(StepView::List),
            Some(listed) => match discovered(base, listed) {
                Err(error) => Err(error),
                Ok(locations) => match selection.chosen() {
                    Err(error) => Err(error),
                    Ok(Action::Apply(profile)) => Ok(StepView::Apply { locations, profile }),
                    Ok(Action::Show) => Ok(StepView::Show { locations }),
                    Ok(Action::Help) => Ok(StepView::Help(profile_help())),
                },
            },
        }
    }
}

/// Settles the next step of an invocation from what it selects and from what
/// is known of the base directory. `listing` is `None` until the directory
/// has been listed.
pub fn run_app(
    selection: Selection,
    base: &str,
    listing: Option<Result<Vec<DirEntry>, String>>,
) -> (step: Result<Step, EppError>)
    ensures
        match step {
            Ok(s) => planned(selection, base@, known_listing(listing)) == Ok::<
                StepView,
                EppErrorView,
            >(s@),
            Err(e) => planned(selection, base@, known_listing(listing)) == Err::<
                StepView,
                EppErrorView,
            >(e@),
        },
        step matches Ok(Step::Apply { mgr, .. }) ==> well_formed(mgr@),
        step matches Ok(Step::Show { mgr }) ==> well_formed(mgr@),
{
    if let Selection::Help = selection {
        return Ok(Step::Help(get_profile_help_section()));
    }
    let listed: Result<Vec<DirEntry>, String> = match listing {
        None => { return Ok(Step::List); },
        Some(listed) => listed,
    };
    let mgr: AmdEppMgr = match AmdEppMgr::new(base, listed) {
        Ok(mgr) => mgr,
        Err(error) => { return Err(error); },
    };
    match selection.action() {
        Ok(Action::Apply(profile)) => Ok(Step::Apply { mgr, profile }),
        Ok(Action::Show) => Ok(Step::Show { mgr }),
        Ok(Action::Help) => Ok(Step::Help(get_profile_help_section())),
        Err(error) => Err(error),
    }
}

} // verus!
