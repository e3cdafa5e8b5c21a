use benchpin::bench::{benchmark_args, command_path, header_line, render_list, split_output};
use benchpin::selector::{core_handle, select_core, PinError};
use benchpin::settings::{Arguments, Settings, SettingsError};
use benchpin::text::{parse_u32_str, to_decimal};
use benchpin::topology::{ProzessorSpecs, TopologyError};

fn eight_threads() -> ProzessorSpecs {
    ProzessorSpecs::from_counts("Test CPU".to_string(), 8, 4).unwrap()
}

fn settings(kerne: Vec<u32>, n: Vec<u32>, t: u32) -> Settings {
    Settings {
        programm: "bench".to_string(),
        kerne,
        n,
        t,
        log: "log".to_string(),
        flagge: false,
    }
}

fn arguments() -> Arguments {
    Arguments {
        program: Some("bench".to_string()),
        program_is_file: true,
        cores: Some("[0,1]".to_string()),
        sizes: Some("[20,10]".to_string()),
        threads: Some("4".to_string()),
        log: Some("out.log".to_string()),
        verbose: true,
    }
}

#[test]
fn size_list_is_sorted_and_deduplicated() {
    assert_eq!(Settings::n_umwandeln("[5,1,3,1]"), Ok(vec![1, 3, 5]));
}

#[test]
fn size_list_tokens_are_trimmed() {
    assert_eq!(Settings::n_umwandeln("[ 10 , 2 ,\t7]"), Ok(vec![2, 7, 10]));
}

#[test]
fn size_list_accepts_plus_sign_and_largest_value() {
    assert_eq!(Settings::n_umwandeln("[+7,4294967295]"), Ok(vec![7, 4294967295]));
}

#[test]
fn size_list_rejects_malformed_input() {
    assert_eq!(Settings::n_umwandeln("1,2"), Err(()));
    assert_eq!(Settings::n_umwandeln("[1,2"), Err(()));
    assert_eq!(Settings::n_umwandeln("[]"), Err(()));
    assert_eq!(Settings::n_umwandeln("[1,,2]"), Err(()));
    assert_eq!(Settings::n_umwandeln("[a]"), Err(()));
    assert_eq!(Settings::n_umwandeln("[-1]"), Err(()));
    assert_eq!(Settings::n_umwandeln("[4294967296]"), Err(()));
    assert_eq!(Settings::n_umwandeln("["), Err(()));
    assert_eq!(Settings::n_umwandeln("2-4"), Err(()));
}

#[test]
fn size_list_has_no_topology_bound() {
    assert_eq!(Settings::n_umwandeln("[100000]"), Ok(vec![100000]));
}

#[test]
fn core_list_is_sorted_and_deduplicated() {
    let p = eight_threads();
    assert_eq!(Settings::kern_umwandeln("[7,0,7,3]", &p), Ok(vec![0, 3, 7]));
}

#[test]
fn core_list_with_id_beyond_topology_is_rejected() {
    let p = eight_threads();
    assert_eq!(Settings::kern_umwandeln("[1,8]", &p), Err(()));
    assert_eq!(Settings::kern_umwandeln("[0,1,2,100]", &p), Err(()));
}

#[test]
fn core_range_expands_inclusively() {
    let p = eight_threads();
    assert_eq!(Settings::kern_umwandeln("2-5", &p), Ok(vec![2, 3, 4, 5]));
    assert_eq!(Settings::kern_umwandeln("6-6", &p), Ok(vec![6]));
    assert_eq!(Settings::kern_umwandeln(" 0 - 7 ", &p), Ok(vec![0, 1, 2, 3, 4, 5, 6, 7]));
}

#[test]
fn core_range_rejects_inverted_or_out_of_bounds() {
    let p = eight_threads();
    assert_eq!(Settings::kern_umwandeln("5-2", &p), Err(()));
    assert_eq!(Settings::kern_umwandeln("2-8", &p), Err(()));
    assert_eq!(Settings::kern_umwandeln("1-2-3", &p), Err(()));
}

#[test]
fn malformed_core_arguments_fail() {
    let p = eight_threads();
    assert_eq!(Settings::kern_umwandeln("3-", &p), Err(()));
    assert_eq!(Settings::kern_umwandeln("abc", &p), Err(()));
    assert_eq!(Settings::kern_umwandeln("-3", &p), Err(()));
    assert_eq!(Settings::kern_umwandeln("[1-2]", &p), Err(()));
}

#[test]
fn selector_takes_highest_fully_free_physical_core() {
    let p = eight_threads();
    // physical cores 0 and 1 are taken; 2 and 3 are free, and 3 comes first
    assert_eq!(select_core(&vec![0, 1, 2, 3], &p), 6);
    // only physical core 2 is free
    assert_eq!(select_core(&vec![0, 1, 2, 3, 7], &p), 4);
}

#[test]
fn selector_takes_highest_free_logical_core() {
    let p = eight_threads();
    assert_eq!(select_core(&vec![0, 2, 4, 6], &p), 7);
}

#[test]
fn selector_falls_back_to_last_core() {
    let p = eight_threads();
    assert_eq!(select_core(&vec![0, 1, 2, 3, 4, 5, 6, 7], &p), 7);
}

#[test]
fn selector_without_reservations_takes_last_physical_core() {
    let p = eight_threads();
    assert_eq!(select_core(&vec![], &p), 6);
    assert_eq!(select_core(&vec![7], &p), 4);
}

#[test]
fn benchmark_arguments_are_rendered() {
    let s = settings(vec![0, 1], vec![10, 20], 4);
    assert_eq!(benchmark_args(&s), vec!["[0,1]".to_string(), "[10,20]".to_string(), "4".to_string()]);
}

#[test]
fn empty_list_renders_as_brackets() {
    assert_eq!(render_list(&vec![]), "[]");
    assert_eq!(render_list(&vec![0, 4294967295]), "[0,4294967295]");
}

#[test]
fn output_is_cut_into_trimmed_tokens() {
    assert_eq!(split_output("1.5,2.75\n"), vec!["1.5".to_string(), "2.75".to_string()]);
    assert_eq!(split_output(" 1.5 , x ,2 "), vec!["1.5".to_string(), "x".to_string(), "2".to_string()]);
    assert_eq!(split_output(""), vec!["".to_string()]);
}

#[test]
fn header_joins_name_and_counts() {
    let p = eight_threads();
    assert_eq!(header_line(&p), "Test CPU482");
}

#[test]
fn command_path_is_anchored() {
    assert_eq!(command_path("bench"), "./bench");
    assert_eq!(command_path("bin/bench"), "./bin/bench");
    assert_eq!(command_path("/usr/bin/bench"), "/usr/bin/bench");
}

#[test]
fn thread_count_is_not_trimmed() {
    assert_eq!(parse_u32_str("42"), Some(42));
    assert_eq!(parse_u32_str(" 42"), None);
    assert_eq!(parse_u32_str(""), None);
    assert_eq!(parse_u32_str("+"), None);
}

#[test]
fn decimal_rendering() {
    assert_eq!(to_decimal(0), "0");
    assert_eq!(to_decimal(907), "907");
    assert_eq!(to_decimal(4294967295), "4294967295");
}

#[test]
fn topology_from_processor_description() {
    let text = "processor\t: 0\nmodel name\t: Intel Foo  \r\ncpu cores\t: 4\nmodel name\t: Other\n";
    let p = ProzessorSpecs::from_cpuinfo(text, 8).unwrap();
    assert_eq!(p.name, "Intel Foo");
    assert_eq!(p.physisch, 4);
    assert_eq!(p.logisch, 8);
    assert_eq!(p.threads, 2);
}

#[test]
fn topology_with_missing_or_zero_field_is_rejected() {
    assert_eq!(ProzessorSpecs::from_cpuinfo("cpu cores\t: 4\n", 8).err(), Some(TopologyError::Unreadable));
    assert_eq!(
        ProzessorSpecs::from_cpuinfo("model name\t: X\ncpu cores\t: 0\n", 8).err(),
        Some(TopologyError::Unreadable)
    );
    assert_eq!(
        ProzessorSpecs::from_cpuinfo("model name\t: X\ncpu cores\t: 4\n", 0).err(),
        Some(TopologyError::Unreadable)
    );
    assert_eq!(ProzessorSpecs::from_cpuinfo("model name X\ncpu cores\t: 4\n", 8).err(), Some(TopologyError::Unreadable));
    assert_eq!(ProzessorSpecs::from_counts("X".to_string(), 2, 4).err(), Some(TopologyError::Unreadable));
}

#[test]
fn topology_of_this_machine() {
    let p = ProzessorSpecs::new("model name\t: Some CPU\ncpu cores\t: 1\n").unwrap();
    assert_eq!(p.name, "Some CPU");
    assert_eq!(p.physisch, 1);
    assert!(p.logisch >= 1);
    assert_eq!(p.threads, p.logisch);
}

#[test]
fn settings_are_validated() {
    let p = eight_threads();
    let s = Settings::new(arguments(), &p).unwrap();
    assert_eq!(s.programm, "bench");
    assert_eq!(s.kerne, vec![0, 1]);
    assert_eq!(s.n, vec![10, 20]);
    assert_eq!(s.t, 4);
    assert_eq!(s.log, "out.log");
    assert!(s.flagge);
}

#[test]
fn settings_errors_come_in_option_order() {
    let p = eight_threads();
    let mut a = arguments();
    a.program = None;
    a.cores = None;
    assert_eq!(Settings::new(a, &p).err(), Some(SettingsError::MissingProgram));
    let mut a = arguments();
    a.program_is_file = false;
    assert_eq!(Settings::new(a, &p).err(), Some(SettingsError::ProgramNotFound));
    let mut a = arguments();
    a.cores = None;
    assert_eq!(Settings::new(a, &p).err(), Some(SettingsError::MissingCores));
    let mut a = arguments();
    a.cores = Some("[9]".to_string());
    assert_eq!(Settings::new(a, &p).err(), Some(SettingsError::MalformedCores));
    let mut a = arguments();
    a.sizes = None;
    assert_eq!(Settings::new(a, &p).err(), Some(SettingsError::MissingSizes));
    let mut a = arguments();
    a.sizes = Some("1-3".to_string());
    assert_eq!(Settings::new(a, &p).err(), Some(SettingsError::MalformedSizes));
    let mut a = arguments();
    a.threads = None;
    assert_eq!(Settings::new(a, &p).err(), Some(SettingsError::MissingThreads));
    let mut a = arguments();
    a.threads = Some("four".to_string());
    assert_eq!(Settings::new(a, &p).err(), Some(SettingsError::MalformedThreads));
    let mut a = arguments();
    a.log = None;
    assert_eq!(Settings::new(a, &p).err(), Some(SettingsError::MissingLog));
}

#[test]
fn core_handle_follows_the_platform_list() {
    assert_eq!(core_handle(&None, 0), Err(PinError::Unavailable));
    assert_eq!(core_handle(&Some(vec![0, 2, 5]), 2), Ok(5));
    assert_eq!(core_handle(&Some(vec![0, 2, 5]), 3), Err(PinError::OutOfRange));
    assert_eq!(core_handle(&Some(vec![]), 0), Err(PinError::OutOfRange));
}
