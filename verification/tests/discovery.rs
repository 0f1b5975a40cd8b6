use amd_epp::discovery::{cpu_base_dir, AmdEppMgr, DirEntry};
use amd_epp::error::{EppError, ErrorKind, IoStage};
use amd_epp::location::{
    control_file_path, core_index_of_name, core_index_of_path, ControlLocation, CoreIndex,
};
use amd_epp::numeral::NumeralFault;
use amd_epp::sorting::sort_by_key;

fn dir(name: &str) -> DirEntry {
    DirEntry { name: name.to_string(), is_dir: true, has_control_file: true }
}

fn paths(mgr: &AmdEppMgr) -> Vec<String> {
    mgr.locations.iter().map(|l| l.path.clone()).collect()
}

#[test]
fn base_directory_is_the_cpu_topology() {
    assert_eq!(cpu_base_dir(), "/sys/devices/system/cpu/");
}

#[test]
fn discovery_orders_by_path_not_by_index() {
    let listing = vec![dir("cpu0"), dir("cpu2"), dir("cpu10"), dir("cpufreq")];
    let mgr = AmdEppMgr::new("/sys/devices/system/cpu/", Ok(listing)).unwrap();
    assert_eq!(
        paths(&mgr),
        vec![
            "/sys/devices/system/cpu/cpu0/cpufreq/energy_performance_preference",
            "/sys/devices/system/cpu/cpu10/cpufreq/energy_performance_preference",
            "/sys/devices/system/cpu/cpu2/cpufreq/energy_performance_preference",
        ]
    );
    let indices: Vec<u32> = mgr.locations.iter().map(|l| l.index).collect();
    assert_eq!(indices, vec![0, 10, 2]);
}

#[test]
fn discovery_does_not_depend_on_listing_order() {
    let a = AmdEppMgr::new("/b", Ok(vec![dir("cpu3"), dir("cpu11"), dir("cpu1"), dir("cpu0")]));
    let b = AmdEppMgr::new("/b", Ok(vec![dir("cpu0"), dir("cpu1"), dir("cpu11"), dir("cpu3")]));
    assert_eq!(a, b);
    let got = paths(&a.unwrap());
    let mut sorted = got.clone();
    sorted.sort();
    assert_eq!(got, sorted);
    assert_eq!(got.len(), 4);
}

#[test]
fn discovery_matches_the_standard_sort_on_many_cores() {
    let listing: Vec<DirEntry> = (0..130u32).rev().map(|i| dir(&format!("cpu{}", i))).collect();
    let mgr = AmdEppMgr::new("/sys/devices/system/cpu", Ok(listing)).unwrap();
    let mut expected: Vec<String> = (0..130u32)
        .map(|i| format!("/sys/devices/system/cpu/cpu{}/cpufreq/energy_performance_preference", i))
        .collect();
    expected.sort();
    assert_eq!(paths(&mgr), expected);
    for location in &mgr.locations {
        assert_eq!(core_index_of_path(&location.path), CoreIndex::Index(location.index));
    }
}

#[test]
fn discovery_keeps_only_core_directories_with_a_control_file() {
    let listing = vec![
        DirEntry { name: "cpu0".to_string(), is_dir: true, has_control_file: false },
        DirEntry { name: "cpu1".to_string(), is_dir: false, has_control_file: true },
        dir("cpu"),
        dir("cpux"),
        dir("cpu1x"),
        dir("cpu+5"),
        dir("cpu-5"),
        dir("cpu 5"),
        dir("CPU5"),
        dir("xcpu5"),
        dir("cpuidle"),
        dir("cpufreq"),
        dir("cpu4294967296"),
        dir("cpu7"),
        dir("cpu007"),
        dir("cpu4294967295"),
        dir(""),
    ];
    let mgr = AmdEppMgr::new("/b/", Ok(listing)).unwrap();
    assert_eq!(
        mgr.locations,
        vec![
            ControlLocation {
                index: 7,
                path: "/b/cpu007/cpufreq/energy_performance_preference".to_string()
            },
            ControlLocation {
                index: 4294967295,
                path: "/b/cpu4294967295/cpufreq/energy_performance_preference".to_string()
            },
            ControlLocation {
                index: 7,
                path: "/b/cpu7/cpufreq/energy_performance_preference".to_string()
            },
        ]
    );
}

#[test]
fn distinct_names_give_distinct_paths() {
    let listing: Vec<DirEntry> =
        ["cpu1", "cpu01", "cpu001", "cpu10", "cpu0"].iter().map(|n| dir(n)).collect();
    let mgr = AmdEppMgr::new("/b", Ok(listing)).unwrap();
    let got = paths(&mgr);
    for i in 0..got.len() {
        for j in 0..got.len() {
            assert_eq!(got[i] == got[j], i == j);
        }
    }
    for pair in got.windows(2) {
        assert!(pair[0] < pair[1]);
    }
}

#[test]
fn discovery_without_a_qualifying_entry_is_not_found() {
    assert_eq!(AmdEppMgr::new("/b", Ok(vec![])), Err(EppError::NotFound));
    let listing = vec![
        dir("cpufreq"),
        dir("cpuidle"),
        DirEntry { name: "cpu0".to_string(), is_dir: true, has_control_file: false },
        DirEntry { name: "cpu1".to_string(), is_dir: false, has_control_file: true },
    ];
    let error = AmdEppMgr::new("/b", Ok(listing)).unwrap_err();
    assert_eq!(error, EppError::NotFound);
    assert_eq!(error.kind(), ErrorKind::NotFound);
    assert_eq!(error.message(), "Error: No CPU energy preference files found.");
}

#[test]
fn unreadable_base_directory_is_an_io_error() {
    let error = AmdEppMgr::new("/missing", Err("No such file or directory".to_string()))
        .unwrap_err();
    assert_eq!(
        error,
        EppError::IOError {
            stage: IoStage::List,
            path: "/missing".to_string(),
            cause: "No such file or directory".to_string()
        }
    );
    assert_eq!(error.kind(), ErrorKind::IOError);
    assert_ne!(error, EppError::NotFound);
    assert_eq!(
        error.message(),
        "\nFailed to list /missing.\nError details: No such file or directory"
    );
}

#[test]
fn control_path_joins_with_one_separator() {
    let want = "/sys/devices/system/cpu/cpu3/cpufreq/energy_performance_preference";
    assert_eq!(control_file_path("/sys/devices/system/cpu/", "cpu3"), want);
    assert_eq!(control_file_path("/sys/devices/system/cpu", "cpu3"), want);
    assert_eq!(control_file_path("", "cpu3"), "cpu3/cpufreq/energy_performance_preference");
    assert_eq!(control_file_path("/", "cpu3"), "/cpu3/cpufreq/energy_performance_preference");
    assert_eq!(control_file_path("rel", "cpu3"), "rel/cpu3/cpufreq/energy_performance_preference");
}

#[test]
fn control_path_agrees_with_std_path_join() {
    for base in ["/sys/devices/system/cpu/", "/sys/devices/system/cpu", "", "/", "a/b"] {
        for name in ["cpu0", "cpu12"] {
            let want = std::path::Path::new(base)
                .join(name)
                .join("cpufreq/energy_performance_preference");
            assert_eq!(control_file_path(base, name), want.to_str().unwrap());
        }
    }
}

#[test]
fn core_index_is_read_from_a_name() {
    assert_eq!(core_index_of_name("cpu0"), CoreIndex::Index(0));
    assert_eq!(core_index_of_name("cpu15"), CoreIndex::Index(15));
    assert_eq!(core_index_of_name("cpu0015"), CoreIndex::Index(15));
    assert_eq!(core_index_of_name("cpu4294967295"), CoreIndex::Index(u32::MAX));
    assert_eq!(core_index_of_name("cpu4294967296"), CoreIndex::Malformed(NumeralFault::TooLarge));
    assert_eq!(
        core_index_of_name("cpu99999999999999999999999999"),
        CoreIndex::Malformed(NumeralFault::TooLarge)
    );
    assert_eq!(core_index_of_name("cpu"), CoreIndex::Malformed(NumeralFault::Empty));
    assert_eq!(core_index_of_name("cpufreq"), CoreIndex::Malformed(NumeralFault::InvalidDigit));
    assert_eq!(core_index_of_name("cpu+5"), CoreIndex::Malformed(NumeralFault::InvalidDigit));
    assert_eq!(core_index_of_name("cpu5 "), CoreIndex::Malformed(NumeralFault::InvalidDigit));
    assert_eq!(core_index_of_name("cpu٣"), CoreIndex::Malformed(NumeralFault::InvalidDigit));
    assert_eq!(core_index_of_name("cp"), CoreIndex::Absent);
    assert_eq!(core_index_of_name(""), CoreIndex::Absent);
    assert_eq!(core_index_of_name("Cpu1"), CoreIndex::Absent);
    assert_eq!(core_index_of_name("acpu1"), CoreIndex::Absent);
}

#[test]
fn core_index_is_read_from_the_third_component_from_the_end() {
    assert_eq!(
        core_index_of_path("/sys/devices/system/cpu/cpu12/cpufreq/energy_performance_preference"),
        CoreIndex::Index(12)
    );
    assert_eq!(core_index_of_path("cpu7/cpufreq/epp"), CoreIndex::Index(7));
    assert_eq!(core_index_of_path("/cpu7/a/b"), CoreIndex::Index(7));
    assert_eq!(core_index_of_path("/x/cpu7/a/b/c"), CoreIndex::Absent);
    assert_eq!(core_index_of_path("/x/cpuZ/a/b"), CoreIndex::Malformed(NumeralFault::InvalidDigit));
    assert_eq!(core_index_of_path("/x/cpu/a/b"), CoreIndex::Malformed(NumeralFault::Empty));
    assert_eq!(core_index_of_path("/x/core7/a/b"), CoreIndex::Absent);
    assert_eq!(core_index_of_path("/a/b"), CoreIndex::Absent);
    assert_eq!(core_index_of_path("a/b"), CoreIndex::Absent);
    assert_eq!(core_index_of_path("cpu7/b"), CoreIndex::Absent);
    assert_eq!(core_index_of_path("cpu7"), CoreIndex::Absent);
    assert_eq!(core_index_of_path(""), CoreIndex::Absent);
    assert_eq!(core_index_of_path("/é/cpu3/ü/ß"), CoreIndex::Index(3));
}

#[test]
fn core_index_agrees_with_std_path_on_discovered_shapes() {
    for path in [
        "/sys/devices/system/cpu/cpu12/cpufreq/energy_performance_preference",
        "cpu7/cpufreq/energy_performance_preference",
        "/cpu0/cpufreq/energy_performance_preference",
        "/tmp/tree/node/cpufreq/energy_performance_preference",
        "cpufreq/energy_performance_preference",
        "/sys/devices/system/cpu/cpufreq/cpufreq/energy_performance_preference",
        "/sys/devices/system/cpu/cpu/cpufreq/energy_performance_preference",
        "/sys/devices/system/cpu/cpu4294967296/cpufreq/energy_performance_preference",
    ] {
        let name = std::path::Path::new(path)
            .parent()
            .and_then(|p| p.parent())
            .and_then(|p| p.file_name())
            .and_then(|s| s.to_str())
            .and_then(|s| s.strip_prefix("cpu"));
        let want = match name {
            None => CoreIndex::Absent,
            Some(digits) => match digits.parse::<u32>() {
                Ok(n) => CoreIndex::Index(n),
                Err(_) => CoreIndex::Malformed(NumeralFault::Empty),
            },
        };
        let got = match core_index_of_path(path) {
            CoreIndex::Malformed(_) => CoreIndex::Malformed(NumeralFault::Empty),
            other => other,
        };
        assert_eq!(got, want, "path {:?}", path);
    }
}

#[test]
fn sort_is_stable_for_equal_keys() {
    let items = vec![
        ControlLocation { index: 1, path: "b".to_string() },
        ControlLocation { index: 2, path: "a".to_string() },
        ControlLocation { index: 3, path: "b".to_string() },
        ControlLocation { index: 4, path: "a".to_string() },
        ControlLocation { index: 5, path: "".to_string() },
        ControlLocation { index: 6, path: "ab".to_string() },
    ];
    let sorted = sort_by_key(items);
    let order: Vec<u32> = sorted.iter().map(|l| l.index).collect();
    assert_eq!(order, vec![5, 2, 4, 6, 1, 3]);
}

#[test]
fn sort_of_nothing_is_nothing() {
    let sorted: Vec<ControlLocation> = sort_by_key(Vec::new());
    assert!(sorted.is_empty());
}
