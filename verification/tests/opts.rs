use sysinfo_reader::opts::{decide, parse_opts, usage, OptsError};
use sysinfo_reader::{init_opts, SysinfoOpts, CAPACITY, DEFAULT_WINDOW, MAX_WINDOW, MIN_WINDOW};

#[test]
fn test_init_opts() {
    // Empty args
    let mut a: Vec<String> = Vec::new();
    assert!(init_opts(&a).is_none());
    a.push("sysinfo".to_string());
    a.push("-Z".to_string());
    a.push("-t".to_string());
    a.push("-h".to_string());
    // Unmapped option
    let t1 = [a[0].clone(), a[1].clone(), "10".to_string()];
    assert!(init_opts(&t1).is_none());
    // Help option should return None
    let t2 = [a[0].clone(), a[3].clone()];
    assert!(init_opts(&t2).is_none());
    // Test valid option with invalid data
    let t3 = [a[0].clone(), a[2].clone(), "str".to_string()];
    assert!(init_opts(&t3).is_none());
    // Test valid option upper bound
    let max = MAX_WINDOW + 9999;
    let freq = MAX_WINDOW / (CAPACITY as u32);
    let window = MAX_WINDOW;
    let t4 = [a[0].clone(), a[2].clone(), max.to_string()];
    assert_eq!(
        init_opts(&t4),
        Some(SysinfoOpts { sampling_freq: freq, time_window: window, reset_flag: true })
    );
    // Test valid option lower bound
    let min = MIN_WINDOW - 4;
    let freq = MIN_WINDOW / (CAPACITY as u32);
    let window = MIN_WINDOW;
    let t5 = [a[0].clone(), a[2].clone(), min.to_string()];
    assert_eq!(
        init_opts(&t5),
        Some(SysinfoOpts { sampling_freq: freq, time_window: window, reset_flag: true })
    );
    // Test allowed values
    let val: u32 = (MAX_WINDOW - MIN_WINDOW) / 2;
    let freq = val / (CAPACITY as u32);
    let window = val;
    let t6 = [a[0].clone(), a[2].clone(), val.to_string()];
    assert_eq!(
        init_opts(&t6),
        Some(SysinfoOpts { sampling_freq: freq, time_window: window, reset_flag: true })
    );
}

fn args(list: &[&str]) -> Vec<String> {
    list.iter().map(|s| s.to_string()).collect()
}

#[test]
fn opts_default_window_without_time() {
    let opts = init_opts(&args(&["sysinfo"])).unwrap();
    assert_eq!(opts.time_window, DEFAULT_WINDOW);
    assert_eq!(opts.time_window, 3600);
    assert_eq!(opts.sampling_freq, 900);
    assert!(!opts.reset_flag);
}

#[test]
fn opts_reset_flag_is_read() {
    let opts = init_opts(&args(&["sysinfo", "-r", "--time", "100"])).unwrap();
    assert!(opts.reset_flag);
    assert_eq!(opts.time_window, 100);
    assert_eq!(opts.sampling_freq, 25);
    let opts = init_opts(&args(&["sysinfo", "-t", "100"])).unwrap();
    assert!(!opts.reset_flag);
}

#[test]
fn opts_each_error_has_its_input() {
    assert!(matches!(parse_opts(&args(&[])), Err(OptsError::NoArguments)));
    assert!(matches!(parse_opts(&args(&["sysinfo", "-Z"])), Err(OptsError::Rejected(_))));
    assert!(matches!(parse_opts(&args(&["sysinfo", "-t"])), Err(OptsError::Rejected(_))));
    assert!(matches!(parse_opts(&args(&["sysinfo", "--help"])), Err(OptsError::HelpRequested)));
    assert!(matches!(
        parse_opts(&args(&["sysinfo", "-h", "-t", "str"])),
        Err(OptsError::HelpRequested)
    ));
    assert!(matches!(parse_opts(&args(&["sysinfo", "-t", "12x"])), Err(OptsError::InvalidWindow)));
    assert!(matches!(parse_opts(&args(&["sysinfo", "-t", ""])), Err(OptsError::InvalidWindow)));
    assert!(matches!(
        parse_opts(&args(&["sysinfo", "-t", "4294967296"])),
        Err(OptsError::InvalidWindow)
    ));
}

#[test]
fn opts_rejection_carries_the_message() {
    match parse_opts(&args(&["sysinfo", "-Z"])) {
        Err(OptsError::Rejected(message)) => assert_eq!(message, "Unrecognized option: 'Z'"),
        other => panic!("unexpected outcome: {:?}", other),
    }
}

#[test]
fn decide_clamps_the_window() {
    let low = decide(false, false, Some("0".to_string())).unwrap();
    assert_eq!((low.time_window, low.sampling_freq), (8, 2));
    let edge = decide(false, true, Some("8".to_string())).unwrap();
    assert_eq!((edge.time_window, edge.sampling_freq, edge.reset_flag), (8, 2, true));
    let high = decide(false, false, Some("86401".to_string())).unwrap();
    assert_eq!((high.time_window, high.sampling_freq), (86400, 21600));
    let top = decide(false, false, Some("4294967295".to_string())).unwrap();
    assert_eq!(top.time_window, 86400);
    let plus = decide(false, false, Some("+60".to_string())).unwrap();
    assert_eq!((plus.time_window, plus.sampling_freq), (60, 15));
    assert!(matches!(decide(false, false, Some("-60".to_string())), Err(OptsError::InvalidWindow)));
    assert!(matches!(decide(false, false, Some(" 60".to_string())), Err(OptsError::InvalidWindow)));
    assert!(matches!(decide(true, false, None), Err(OptsError::HelpRequested)));
}

#[test]
fn opts_equality_ignores_the_reset_flag() {
    let a = SysinfoOpts { sampling_freq: 2, time_window: 8, reset_flag: true };
    let b = SysinfoOpts { sampling_freq: 2, time_window: 8, reset_flag: false };
    let c = SysinfoOpts { sampling_freq: 3, time_window: 8, reset_flag: false };
    assert_eq!(a, b);
    assert_ne!(a, c);
}

#[test]
fn usage_names_the_program_and_the_options() {
    let text = usage("sysinfo");
    assert!(text.starts_with("Usage: sysinfo [options]"));
    assert!(text.contains("-t, --time MINUTES"));
    assert!(text.contains("-r, --reset"));
    assert!(text.contains("-h, --help"));
}
