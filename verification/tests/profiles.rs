use amd_epp::cli::{run_app, Action, Cli, Selection, Step};
use amd_epp::discovery::DirEntry;
use amd_epp::error::{EppError, ErrorKind};
use amd_epp::help::{get_profile_help_section, push_indented};
use amd_epp::profile::EppValue;

fn no_options() -> Cli {
    Cli {
        performance: false,
        balance_performance: false,
        balance_power: false,
        power: false,
        profile_level: None,
        show: false,
    }
}

fn one_core() -> Result<Vec<DirEntry>, String> {
    Ok(vec![DirEntry { name: "cpu0".to_string(), is_dir: true, has_control_file: true }])
}

#[test]
fn tokens_are_the_kernel_words() {
    assert_eq!(EppValue::Performance.as_str(), "performance");
    assert_eq!(EppValue::BalancePerformance.as_str(), "balance_performance");
    assert_eq!(EppValue::BalancePower.as_str(), "balance_power");
    assert_eq!(EppValue::Power.as_str(), "power");
}

#[test]
fn no_token_is_blank() {
    for profile in EppValue::value_variants() {
        let token = profile.as_str();
        assert!(!token.is_empty());
        assert!(!token.chars().any(|c| c.is_whitespace()));
        assert_eq!(token.trim(), token);
    }
}

#[test]
fn descriptions_have_two_lines() {
    assert_eq!(
        EppValue::Performance.description(),
        "Prioritizes performance above power saving.\nCPU reaches higher clock speeds aggressively."
    );
    assert_eq!(
        EppValue::BalancePerformance.description(),
        "Aims for a balance but leans towards performance.\nThis is the default value in many systems."
    );
    assert_eq!(
        EppValue::BalancePower.description(),
        "Aims for a balance but leans towards power saving.\nMore conservative clock speed increases."
    );
    assert_eq!(
        EppValue::Power.description(),
        "Strongly prioritizes power saving.\nFavors lower frequencies, may limit peak performance."
    );
}

#[test]
fn levels_zero_to_three_map_to_the_four_profiles() {
    assert_eq!(EppValue::from_level(0), Some(EppValue::Performance));
    assert_eq!(EppValue::from_level(1), Some(EppValue::BalancePerformance));
    assert_eq!(EppValue::from_level(2), Some(EppValue::BalancePower));
    assert_eq!(EppValue::from_level(3), Some(EppValue::Power));
}

#[test]
fn levels_from_four_up_are_invalid() {
    for level in 4..=u8::MAX {
        assert_eq!(EppValue::from_level(level), None);
    }
}

#[test]
fn level_mapping_is_one_to_one_and_onto() {
    let found: Vec<EppValue> = (0..4u8).map(|l| EppValue::from_level(l).unwrap()).collect();
    assert_eq!(found, EppValue::value_variants());
    for i in 0..found.len() {
        for j in 0..found.len() {
            assert_eq!(found[i] == found[j], i == j);
        }
    }
}

#[test]
fn value_variants_go_from_performance_to_power() {
    assert_eq!(
        EppValue::value_variants(),
        vec![
            EppValue::Performance,
            EppValue::BalancePerformance,
            EppValue::BalancePower,
            EppValue::Power
        ]
    );
}

#[test]
fn help_section_lists_every_profile() {
    let expected = "EPP Profiles Explanations:\n\
- performance\n\
\x20 Prioritizes performance above power saving.\n\
\x20 CPU reaches higher clock speeds aggressively.\n\
- balance_performance\n\
\x20 Aims for a balance but leans towards performance.\n\
\x20 This is the default value in many systems.\n\
- balance_power\n\
\x20 Aims for a balance but leans towards power saving.\n\
\x20 More conservative clock speed increases.\n\
- power\n\
\x20 Strongly prioritizes power saving.\n\
\x20 Favors lower frequencies, may limit peak performance.\n";
    assert_eq!(get_profile_help_section(), expected);
}

#[test]
fn help_section_matches_line_by_line_assembly() {
    let mut expected = String::from("EPP Profiles Explanations:\n");
    for variant in EppValue::value_variants() {
        expected.push_str(&format!("- {}\n", variant.as_str()));
        for line in variant.description().lines() {
            expected.push_str(&format!("  {}\n", line));
        }
    }
    assert_eq!(get_profile_help_section(), expected);
}

#[test]
fn indenting_handles_empty_and_terminated_text() {
    let cases = ["", "a", "a\n", "a\nb", "a\n\nb", "\n", "\n\n", "one\ntwo\nthree\n", "é\nü"];
    for text in cases {
        let mut out = String::from(">");
        push_indented(&mut out, text, "  ");
        let mut expected = String::from(">");
        for line in text.lines() {
            expected.push_str("  ");
            expected.push_str(line);
            expected.push('\n');
        }
        assert_eq!(out, expected, "text {:?}", text);
    }
}

#[test]
fn no_option_selects_help() {
    assert_eq!(no_options().selection(), Some(Selection::Help));
    assert_eq!(Selection::Help.action(), Ok(Action::Help));
}

#[test]
fn each_option_selects_its_action() {
    let mut cli = no_options();
    cli.performance = true;
    assert_eq!(cli.selection(), Some(Selection::Performance));
    assert_eq!(Selection::Performance.action(), Ok(Action::Apply(EppValue::Performance)));
    let mut cli = no_options();
    cli.balance_performance = true;
    assert_eq!(cli.selection(), Some(Selection::BalancePerformance));
    assert_eq!(
        Selection::BalancePerformance.action(),
        Ok(Action::Apply(EppValue::BalancePerformance))
    );
    let mut cli = no_options();
    cli.balance_power = true;
    assert_eq!(cli.selection(), Some(Selection::BalancePower));
    assert_eq!(Selection::BalancePower.action(), Ok(Action::Apply(EppValue::BalancePower)));
    let mut cli = no_options();
    cli.power = true;
    assert_eq!(cli.selection(), Some(Selection::Power));
    assert_eq!(Selection::Power.action(), Ok(Action::Apply(EppValue::Power)));
    let mut cli = no_options();
    cli.show = true;
    assert_eq!(cli.selection(), Some(Selection::Show));
    assert_eq!(Selection::Show.action(), Ok(Action::Show));
    for level in 0..=u8::MAX {
        let mut cli = no_options();
        cli.profile_level = Some(level);
        assert_eq!(cli.selection(), Some(Selection::Level(level)));
    }
    for level in 0..4u8 {
        assert_eq!(
            Selection::Level(level).action(),
            Ok(Action::Apply(EppValue::from_level(level).unwrap()))
        );
    }
}

#[test]
fn level_out_of_range_is_an_invalid_argument() {
    let error = Selection::Level(4).action().unwrap_err();
    assert_eq!(error, EppError::InvalidArgument { level: 4 });
    assert_eq!(error.kind(), ErrorKind::InvalidArgument);
    assert_eq!(error.message(), "Invalid profile level: 4. Must be between 0 and 3.");
    assert_eq!(
        Selection::Level(255).action().unwrap_err().message(),
        "Invalid profile level: 255. Must be between 0 and 3."
    );
}

#[test]
fn options_given_together_select_nothing() {
    let flags = [false, true];
    for performance in flags {
        for balance_performance in flags {
            for balance_power in flags {
                for power in flags {
                    for profile_level in [None, Some(0u8), Some(9u8)] {
                        for show in flags {
                            let cli = Cli {
                                performance,
                                balance_performance,
                                balance_power,
                                power,
                                profile_level,
                                show,
                            };
                            let given = [performance, balance_performance, balance_power, power, show]
                                .iter()
                                .filter(|f| **f)
                                .count()
                                + profile_level.iter().count();
                            assert_eq!(cli.selection().is_some(), given <= 1, "{:?}", cli);
                        }
                    }
                }
            }
        }
    }
    let mut cli = no_options();
    cli.show = true;
    cli.profile_level = Some(2);
    assert_eq!(cli.selection(), None);
    let mut cli = no_options();
    cli.performance = true;
    cli.power = true;
    assert_eq!(cli.selection(), None);
}

#[test]
fn help_does_not_depend_on_discovery() {
    let help = Ok(Step::Help(get_profile_help_section()));
    assert_eq!(run_app(Selection::Help, "/base", None), help);
    assert_eq!(run_app(Selection::Help, "/base", Some(Ok(vec![]))), help);
    assert_eq!(run_app(Selection::Help, "/base", Some(Err("gone".to_string()))), help);
    assert_eq!(run_app(Selection::Help, "/base", Some(one_core())), help);
    assert_eq!(run_app(Selection::Help, "", None), help);
    match run_app(Selection::Help, "/base", None) {
        Ok(Step::Help(section)) => {
            assert!(section.starts_with("EPP Profiles Explanations:\n- performance\n"));
            assert!(section.ends_with("  Favors lower frequencies, may limit peak performance.\n"));
        },
        other => panic!("{:?}", other),
    }
}

#[test]
fn every_other_selection_asks_for_the_listing_first() {
    let selections = [
        Selection::Performance,
        Selection::BalancePerformance,
        Selection::BalancePower,
        Selection::Power,
        Selection::Level(0),
        Selection::Level(3),
        Selection::Level(4),
        Selection::Show,
    ];
    for selection in selections {
        assert_eq!(run_app(selection, "/base", None), Ok(Step::List));
    }
}

#[test]
fn run_app_plans_the_selected_action() {
    let step = run_app(Selection::Level(1), "/sys/devices/system/cpu/", Some(one_core())).unwrap();
    match step {
        Step::Apply { mgr, profile } => {
            assert_eq!(profile, EppValue::BalancePerformance);
            assert_eq!(mgr.locations.len(), 1);
            assert_eq!(
                mgr.locations[0].path,
                "/sys/devices/system/cpu/cpu0/cpufreq/energy_performance_preference"
            );
            assert_eq!(mgr.locations[0].index, 0);
        },
        other => panic!("{:?}", other),
    }
    match run_app(Selection::Power, "/base", Some(one_core())).unwrap() {
        Step::Apply { mgr, profile } => {
            assert_eq!(profile, EppValue::Power);
            assert_eq!(mgr.locations[0].path, "/base/cpu0/cpufreq/energy_performance_preference");
        },
        other => panic!("{:?}", other),
    }
    match run_app(Selection::Show, "/base", Some(one_core())).unwrap() {
        Step::Show { mgr } => {
            assert_eq!(mgr.locations[0].path, "/base/cpu0/cpufreq/energy_performance_preference");
        },
        other => panic!("{:?}", other),
    }
}

#[test]
fn run_app_reports_discovery_errors_before_an_invalid_level() {
    let level = Selection::Level(9);
    assert_eq!(run_app(level, "/base", Some(Ok(vec![]))), Err(EppError::NotFound));
    assert_eq!(
        run_app(level, "/base", Some(Err("gone".to_string()))).unwrap_err().kind(),
        ErrorKind::IOError
    );
    assert_eq!(
        run_app(level, "/base", Some(one_core())),
        Err(EppError::InvalidArgument { level: 9 })
    );
    assert_eq!(run_app(Selection::Show, "/base", Some(Ok(vec![]))), Err(EppError::NotFound));
    assert_eq!(run_app(Selection::Power, "/base", Some(Ok(vec![]))), Err(EppError::NotFound));
}
