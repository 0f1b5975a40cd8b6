use amd_epp::discovery::AmdEppMgr;
use amd_epp::error::{EppError, ErrorKind, IoStage};
use amd_epp::location::ControlLocation;
use amd_epp::numeral::NumeralFault;
use amd_epp::report::{
    collect_readings, format_report, label_of, report_readings, FileReading, ReadResult,
    COLUMN_SPACING, NUM_COLUMNS,
};

fn path_of(core: &str) -> String {
    format!("/sys/devices/system/cpu/{}/cpufreq/energy_performance_preference", core)
}

fn location(core: &str, index: u32) -> ControlLocation {
    ControlLocation { index, path: path_of(core) }
}

fn entry(label: &str, value: &str) -> ReadResult {
    ReadResult { label: label.to_string(), value: value.to_string() }
}

fn reading(core: &str, content: &str) -> FileReading {
    FileReading {
        path: format!("/sys/devices/system/cpu/{}/cpufreq/energy_performance_preference", core),
        content: Ok(content.to_string()),
    }
}

fn unreadable(core: &str, cause: &str) -> FileReading {
    FileReading {
        path: format!("/sys/devices/system/cpu/{}/cpufreq/energy_performance_preference", core),
        content: Err(cause.to_string()),
    }
}

/// The report as three columns of left-aligned entries, written with std.
fn expected_lines(entries: &[ReadResult]) -> Vec<String> {
    let texts: Vec<String> = entries.iter().map(|e| format!("{}: {}", e.label, e.value)).collect();
    let width = texts.iter().map(|t| t.chars().count()).max().unwrap_or(0);
    texts
        .chunks(3)
        .map(|row| {
            row.iter()
                .map(|t| format!("{:width$}", t, width = width))
                .collect::<Vec<String>>()
                .join("  ")
        })
        .collect()
}

#[test]
fn report_has_three_columns_two_spaces_apart() {
    assert_eq!(NUM_COLUMNS, 3);
    assert_eq!(COLUMN_SPACING, 2);
}

#[test]
fn four_entries_fill_two_lines() {
    let entries = vec![
        entry("CPU00", "performance"),
        entry("CPU01", "power"),
        entry("CPU02", "balance_power"),
        entry("CPU03", "balance_performance"),
    ];
    let lines = format_report(&entries);
    assert_eq!(
        lines,
        vec![
            "CPU00: performance          CPU01: power                CPU02: balance_power      ",
            "CPU03: balance_performance",
        ]
    );
    assert_eq!(lines.len(), 2);
    let width = "CPU03: balance_performance".len();
    assert_eq!(width, 26);
    assert_eq!(lines[0].len(), 3 * width + 2 * 2);
    assert_eq!(&lines[0][0..width], format!("{:26}", "CPU00: performance"));
    assert_eq!(&lines[0][width..width + 2], "  ");
    assert_eq!(&lines[0][width + 2..2 * width + 2], format!("{:26}", "CPU01: power"));
    assert_eq!(&lines[0][2 * width + 2..2 * width + 4], "  ");
    assert_eq!(&lines[0][2 * width + 4..], format!("{:26}", "CPU02: balance_power"));
    assert_eq!(lines[1], "CPU03: balance_performance");
}

#[test]
fn formatting_keeps_the_order_given() {
    let entries = vec![entry("CPU02", "b"), entry("CPU00", "a"), entry("CPU01", "c")];
    assert_eq!(format_report(&entries), vec!["CPU02: b  CPU00: a  CPU01: c"]);
}

#[test]
fn formatting_nothing_gives_no_line() {
    assert_eq!(format_report(&Vec::new()), Vec::<String>::new());
}

#[test]
fn formatting_fills_rows_left_to_right() {
    for count in 0..11usize {
        let entries: Vec<ReadResult> = (0..count)
            .map(|i| entry(&format!("CPU{:02}", i), if i % 2 == 0 { "power" } else { "performance" }))
            .collect();
        let lines = format_report(&entries);
        assert_eq!(lines.len(), (count + 2) / 3);
        assert_eq!(lines, expected_lines(&entries));
    }
}

#[test]
fn formatting_pads_the_last_entry_of_a_short_row() {
    let entries = vec![entry("CPU00", "balance_performance"), entry("CPU01", "power")];
    assert_eq!(
        format_report(&entries),
        vec!["CPU00: balance_performance  CPU01: power              "]
    );
    let entries = vec![
        entry("CPU00", "balance_performance"),
        entry("CPU01", "power"),
        entry("CPU02", "power"),
        entry("CPU03", "power"),
    ];
    assert_eq!(format_report(&entries)[1], "CPU03: power              ");
}

#[test]
fn width_counts_characters() {
    let entries = vec![entry("CPU00", "é"), entry("CPU01", "abc")];
    assert_eq!(format_report(&entries), vec!["CPU00: é    CPU01: abc"]);
    assert_eq!(format_report(&entries), expected_lines(&entries));
}

#[test]
fn labels_are_zero_padded_to_two_digits() {
    assert_eq!(label_of(0), "CPU00");
    assert_eq!(label_of(7), "CPU07");
    assert_eq!(label_of(10), "CPU10");
    assert_eq!(label_of(99), "CPU99");
    assert_eq!(label_of(100), "CPU100");
    assert_eq!(label_of(4294967295), "CPU4294967295");
    for n in [0u32, 3, 12, 128, 1024] {
        assert_eq!(label_of(n), format!("CPU{:02}", n));
    }
}

#[test]
fn labels_below_a_hundred_sort_like_their_indices() {
    for a in 0..100u32 {
        for b in 0..100u32 {
            assert_eq!(label_of(a) <= label_of(b), a <= b);
        }
    }
}

#[test]
fn readings_are_trimmed_labelled_and_sorted() {
    let readings = vec![
        reading("cpu0", "performance\n"),
        reading("cpu10", "  power  \n"),
        reading("cpu2", "balance_power"),
    ];
    let collected = collect_readings(&readings);
    assert!(collected.skipped.is_empty());
    assert_eq!(
        collected.result,
        Ok(vec![
            entry("CPU00", "performance"),
            entry("CPU02", "balance_power"),
            entry("CPU10", "power"),
        ])
    );
}

#[test]
fn report_of_discovered_files() {
    let readings = vec![
        reading("cpu0", "performance\n"),
        reading("cpu1", "power\n"),
        reading("cpu10", "balance_performance\n"),
        reading("cpu2", "balance_power\n"),
    ];
    let report = report_readings(&readings);
    assert!(report.skipped.is_empty());
    assert_eq!(
        report.result,
        Ok(vec![
            "CPU00: performance          CPU01: power                CPU02: balance_power      "
                .to_string(),
            "CPU10: balance_performance".to_string(),
        ])
    );
}

#[test]
fn report_of_no_files_is_empty() {
    let report = report_readings(&Vec::new());
    assert!(report.skipped.is_empty());
    assert_eq!(report.result, Ok(Vec::new()));
}

#[test]
fn path_that_names_no_core_is_passed_over() {
    let odd = FileReading { path: "/tmp/node/cpufreq/epp".to_string(), content: Ok("x".to_string()) };
    let short = FileReading { path: "epp".to_string(), content: Err("unread".to_string()) };
    let readings = vec![reading("cpu1", "power\n"), odd, short, reading("cpu0", "performance\n")];
    let collected = collect_readings(&readings);
    assert_eq!(collected.skipped, vec!["/tmp/node/cpufreq/epp".to_string(), "epp".to_string()]);
    assert_eq!(collected.result, Ok(vec![entry("CPU00", "performance"), entry("CPU01", "power")]));
    let report = report_readings(&readings);
    assert_eq!(report.skipped, vec!["/tmp/node/cpufreq/epp".to_string(), "epp".to_string()]);
    assert_eq!(report.result, Ok(vec!["CPU00: performance  CPU01: power      ".to_string()]));
}

#[test]
fn malformed_index_is_invalid_data() {
    let readings = vec![reading("cpu0", "power\n"), reading("cpuX", "power\n")];
    let report = report_readings(&readings);
    let error = report.result.unwrap_err();
    assert_eq!(
        error,
        EppError::InvalidData {
            path: "/sys/devices/system/cpu/cpuX/cpufreq/energy_performance_preference".to_string(),
            fault: NumeralFault::InvalidDigit
        }
    );
    assert_eq!(error.kind(), ErrorKind::InvalidData);
    assert_eq!(error.message(), "Invalid CPU number in path: invalid digit found in string");
    let said = [
        ("cpu", "Invalid CPU number in path: cannot parse integer from empty string"),
        ("cpu4294967296", "Invalid CPU number in path: number too large to fit in target type"),
        ("cpu+1", "Invalid CPU number in path: invalid digit found in string"),
        ("cpufreq", "Invalid CPU number in path: invalid digit found in string"),
    ];
    for (name, message) in said {
        let collected = collect_readings(&vec![reading(name, "power\n")]);
        let error = collected.result.unwrap_err();
        assert_eq!(error.kind(), ErrorKind::InvalidData);
        assert_eq!(error.message(), message);
    }
}

#[test]
fn unreadable_file_is_an_io_error() {
    let readings = vec![
        reading("cpu0", "power\n"),
        unreadable("cpu1", "Input/output error (os error 5)"),
        reading("cpu2", "power\n"),
    ];
    let report = report_readings(&readings);
    let error = report.result.unwrap_err();
    assert_eq!(
        error,
        EppError::IOError {
            stage: IoStage::Read,
            path: "/sys/devices/system/cpu/cpu1/cpufreq/energy_performance_preference".to_string(),
            cause: "Input/output error (os error 5)".to_string()
        }
    );
    assert_eq!(error.kind(), ErrorKind::IOError);
    assert_eq!(
        error.message(),
        "\nFailed to read /sys/devices/system/cpu/cpu1/cpufreq/energy_performance_preference.\nError details: Input/output error (os error 5)"
    );
}

#[test]
fn first_failing_location_decides_the_error() {
    let readings = vec![unreadable("cpu0", "gone"), reading("cpuX", "power\n")];
    assert_eq!(collect_readings(&readings).result.unwrap_err().kind(), ErrorKind::IOError);
    let readings = vec![reading("cpuX", "power\n"), unreadable("cpu0", "gone")];
    assert_eq!(collect_readings(&readings).result.unwrap_err().kind(), ErrorKind::InvalidData);
    let readings = vec![unreadable("cpuX", "gone")];
    assert_eq!(collect_readings(&readings).result.unwrap_err().kind(), ErrorKind::InvalidData);
}

#[test]
fn paths_passed_over_before_a_failure_are_still_named() {
    let odd = FileReading { path: "/a/b/c/d".to_string(), content: Ok("x".to_string()) };
    let later = FileReading { path: "/e/f/g/h".to_string(), content: Ok("x".to_string()) };
    let readings = vec![odd, unreadable("cpu3", "gone"), later];
    let report = report_readings(&readings);
    assert_eq!(report.skipped, vec!["/a/b/c/d".to_string()]);
    assert_eq!(report.result.unwrap_err().kind(), ErrorKind::IOError);
}

#[test]
fn unreadable_file_of_a_path_passed_over_is_no_error() {
    let odd = FileReading { path: "/a/b/c/d".to_string(), content: Err("gone".to_string()) };
    let collected = collect_readings(&vec![odd, reading("cpu4", "power")]);
    assert_eq!(collected.skipped, vec!["/a/b/c/d".to_string()]);
    assert_eq!(collected.result, Ok(vec![entry("CPU04", "power")]));
}

#[test]
fn results_of_equal_label_keep_their_order() {
    let readings = vec![
        reading("cpu1", "second\n"),
        reading("cpu01", "third\n"),
        reading("cpu0", "first\n"),
        reading("cpu001", "fourth\n"),
    ];
    let collected = collect_readings(&readings);
    assert_eq!(
        collected.result,
        Ok(vec![
            entry("CPU00", "first"),
            entry("CPU01", "second"),
            entry("CPU01", "third"),
            entry("CPU01", "fourth"),
        ])
    );
}

#[test]
fn labels_sort_as_text_from_a_hundred_cores_on() {
    let readings = vec![reading("cpu11", "a"), reading("cpu100", "b"), reading("cpu9", "c")];
    let collected = collect_readings(&readings);
    assert_eq!(
        collected.result,
        Ok(vec![entry("CPU09", "c"), entry("CPU100", "b"), entry("CPU11", "a")])
    );
}

#[test]
fn session_reads_one_file_at_a_time() {
    let mgr = AmdEppMgr {
        locations: vec![location("cpu0", 0), location("cpu1", 1), location("cpu2", 2)],
    };
    let mut session = mgr.read_profile();
    assert_eq!(session.result(), None);
    assert_eq!(session.pending(), Some(path_of("cpu0")));
    assert_eq!(session.pending(), Some(path_of("cpu0")));
    session.record(Ok("power\n".to_string()));
    assert_eq!(session.pending(), Some(path_of("cpu1")));
    session.record(Ok("performance\n".to_string()));
    assert_eq!(session.result(), None);
    assert_eq!(session.pending(), Some(path_of("cpu2")));
    session.record(Ok(" balance_power \n".to_string()));
    assert_eq!(session.pending(), None);
    let report = session.result().unwrap();
    assert!(report.skipped.is_empty());
    assert_eq!(
        report.result,
        Ok(vec!["CPU00: power          CPU01: performance    CPU02: balance_power".to_string()])
    );
    session.record(Ok("late".to_string()));
    assert_eq!(session.pending(), None);
    assert_eq!(session.result().unwrap(), report);
}

#[test]
fn session_reads_no_file_after_a_failure() {
    let mgr = AmdEppMgr {
        locations: vec![location("cpu0", 0), location("cpu1", 1), location("cpu2", 2)],
    };
    let mut session = mgr.read_profile();
    session.record(Ok("power\n".to_string()));
    session.record(Err("Input/output error (os error 5)".to_string()));
    assert_eq!(session.pending(), None);
    let report = session.result().unwrap();
    assert_eq!(
        report.result,
        Err(EppError::IOError {
            stage: IoStage::Read,
            path: path_of("cpu1"),
            cause: "Input/output error (os error 5)".to_string()
        })
    );
}

#[test]
fn session_does_not_read_a_path_that_names_no_core() {
    let odd = ControlLocation { index: 0, path: "/tmp/node/cpufreq/epp".to_string() };
    let mgr = AmdEppMgr {
        locations: vec![odd.clone(), location("cpu4", 4), odd.clone(), odd],
    };
    let mut session = mgr.read_profile();
    assert_eq!(session.pending(), Some(path_of("cpu4")));
    session.record(Ok("power".to_string()));
    assert_eq!(session.pending(), None);
    let report = session.result().unwrap();
    assert_eq!(report.skipped, vec!["/tmp/node/cpufreq/epp".to_string(); 3]);
    assert_eq!(report.result, Ok(vec!["CPU04: power".to_string()]));
}

#[test]
fn session_ends_at_a_malformed_index_without_reading() {
    let bad = ControlLocation { index: 0, path: path_of("cpuX") };
    let mgr = AmdEppMgr { locations: vec![location("cpu0", 0), bad, location("cpu2", 2)] };
    let mut session = mgr.read_profile();
    assert_eq!(session.pending(), Some(path_of("cpu0")));
    session.record(Ok("power".to_string()));
    assert_eq!(session.pending(), None);
    let error = session.result().unwrap().result.unwrap_err();
    assert_eq!(
        error,
        EppError::InvalidData { path: path_of("cpuX"), fault: NumeralFault::InvalidDigit }
    );

    let first = AmdEppMgr {
        locations: vec![ControlLocation { index: 0, path: path_of("cpu") }, location("cpu1", 1)],
    };
    let session = first.read_profile();
    assert_eq!(session.pending(), None);
    assert_eq!(session.result().unwrap().result.unwrap_err().kind(), ErrorKind::InvalidData);
}

#[test]
fn session_over_no_location_reports_nothing() {
    let session = AmdEppMgr { locations: Vec::new() }.read_profile();
    assert_eq!(session.pending(), None);
    let report = session.result().unwrap();
    assert!(report.skipped.is_empty());
    assert_eq!(report.result, Ok(Vec::new()));
}

#[test]
fn session_gives_the_report_of_all_readings() {
    let listings: Vec<Vec<(&str, Result<&str, &str>)>> = vec![
        vec![("cpu1", Ok("a\n")), ("cpu0", Ok("b\n")), ("cpu10", Ok("c"))],
        vec![("node", Err("x")), ("cpu3", Ok("a")), ("other", Ok("y")), ("cpu2", Ok("b"))],
        vec![("cpu3", Ok("a")), ("cpu", Ok("b")), ("cpu4", Err("gone"))],
        vec![("cpu3", Err("gone")), ("cpuX", Ok("b")), ("cpu4", Ok("c"))],
        vec![("node", Ok("a")), ("cpu5", Err("gone")), ("node", Ok("b")), ("cpu6", Ok("c"))],
    ];
    for listing in listings {
        let readings: Vec<FileReading> = listing
            .iter()
            .map(|(core, content)| FileReading {
                path: path_of(core),
                content: content.map(|t| t.to_string()).map_err(|c| c.to_string()),
            })
            .collect();
        let mgr = AmdEppMgr {
            locations: readings
                .iter()
                .map(|r| ControlLocation { index: 0, path: r.path.clone() })
                .collect(),
        };
        let mut session = mgr.read_profile();
        let mut reads = 0;
        while let Some(path) = session.pending() {
            let at = readings.iter().position(|r| r.path == path).unwrap();
            session.record(readings[at].content.clone());
            reads += 1;
            assert!(reads <= readings.len());
        }
        assert_eq!(session.result().unwrap(), report_readings(&readings));
    }
}
