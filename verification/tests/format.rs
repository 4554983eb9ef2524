use mult_lib::bsd::{bsd_get_cpu_usage, bsd_get_process_memory, bsd_get_runtime};
use mult_lib::colors::{bold_string, color_string};
use mult_lib::date::{seconds_to_datetime, Date, DateTime};
use mult_lib::error::{error_message, MultError};
use mult_lib::fork::{choose_shell, classify_fork, get_command_data, plan_daemon, DetachRole};
use mult_lib::linux::{
    linux_get_cpu_stats, linux_get_process_memory, linux_get_process_runtime,
    linux_get_process_state, linux_get_process_stats, linux_proc_exists,
};
use mult_lib::logs::{format_log_line, get_last_lines_to_print, sort_last_lines, split_log_line};
use mult_lib::proc::{get_readable_runtime, proc_exists};
use mult_lib::table::{build_row, MainHeaders, ProcessHeaders};
use mult_lib::unix::{unix_kill_result, unix_proc_exists};
use mult_lib::windows::{
    combine_filetime, convert_filetime64_to_unix_epoch, win_get_all_processes,
    win_get_cpu_usage, win_get_process_runtime, WinProcTimes,
};
use mult_lib::tree::{compress_tree, FlatNode};

#[test]
fn error_messages() {
    assert_eq!(
        error_message(&MultError::ForkFailed, None),
        "Fork failed."
    );
    assert_eq!(
        error_message(&MultError::InvalidArgument, Some(&"-c".to_string())),
        "Invalid argument -c."
    );
    assert_eq!(
        error_message(&MultError::TaskFileCorrupted, Some(&"3".to_string())),
        "Task file 3 is corrupted, delete the process with 'mlt delete 3'."
    );
    assert_eq!(
        error_message(&MultError::MainDirNotExist, None),
        "Main directory doesn't exist.\nTry running `mlt health --fix-all` to fix this."
    );
    assert_eq!(
        error_message(&MultError::UnixError, Some(&"3".to_string())),
        "Unix error code: 3"
    );
}

#[test]
fn readable_runtime() {
    assert_eq!(get_readable_runtime(0), "0h 0m 0s");
    assert_eq!(get_readable_runtime(3661), "1h 1m 1s");
    assert_eq!(get_readable_runtime(7322), "2h 2m 2s");
    assert_eq!(get_readable_runtime(59), "0h 0m 59s");
}

#[test]
fn datetime_epoch() {
    let mut tm = DateTime::new();
    seconds_to_datetime(0, &mut tm);
    assert_eq!((tm.year, tm.month, tm.day), (1970, 1, 1));
    assert_eq!((tm.hour, tm.min, tm.sec), (0, 0, 0));
    let date = tm.date();
    assert_eq!((date.year, date.month, date.day), (1970, 1, 1));
}

#[test]
fn datetime_known_moment() {
    let mut tm = DateTime::new();
    // 2001-09-09 01:46:40 UTC
    seconds_to_datetime(1000000000, &mut tm);
    assert_eq!((tm.year, tm.month, tm.day), (2001, 9, 9));
    assert_eq!((tm.hour, tm.min, tm.sec), (1, 46, 40));
}

#[test]
fn datetime_leap_day() {
    let mut tm = DateTime::new();
    // 2020-02-29 12:00:00 UTC
    seconds_to_datetime(1582977600, &mut tm);
    assert_eq!((tm.year, tm.month, tm.day), (2020, 2, 29));
    assert_eq!(tm.hour, 12);
}

#[test]
fn date_new_is_zero() {
    let d = Date::new();
    assert_eq!((d.year, d.month, d.day), (0, 0, 0));
}

#[test]
fn colors_escape_codes() {
    assert_eq!(
        color_string([0, 204, 102], "Running"),
        "\u{1B}[38;2;0;204;102mRunning\u{1B}[0m"
    );
    assert_eq!(bold_string("hi"), "\u{1B}[1mhi\u{1B}[0m");
}

#[test]
fn stat_fields_merge_command_name() {
    let contents = "4242 (web server) S 1 10 10 0 -1 4194560 100 0 0 0 7 3 0 0 20 0 1 0 654321 1000 2 4096";
    let fields = linux_get_process_stats(contents);
    assert_eq!(fields[0], "4242");
    assert_eq!(fields[1], "(webserver)");
    assert_eq!(fields[2], "S");
    assert_eq!(fields[13], "7");
    assert_eq!(fields[14], "3");
    assert_eq!(fields[21], "654321");
}

#[test]
fn status_fields() {
    let status = "Name:\tsleep\nState:\tZ (zombie)\nVmRSS:\t  1234 kB\n";
    assert_eq!(linux_get_process_state(status), Some("Z".to_string()));
    assert_eq!(linux_get_process_memory(status), Some(1234));
    assert_eq!(linux_get_process_state("Name: x\n"), None);
}

#[test]
fn liveness_from_state() {
    assert!(!linux_proc_exists(Some(&"Z".to_string()), true));
    assert!(linux_proc_exists(Some(&"S".to_string()), false));
    assert!(linux_proc_exists(None, true));
    assert!(!linux_proc_exists(None, false));
    assert!(!proc_exists(1, Some(&"Z".to_string()), true));
    assert!(unix_proc_exists(1, Some(&"R".to_string()), false));
}

#[test]
fn cpu_stats_first_line() {
    let contents = "cpu  100 20 3\ncpu0 50 10 1\n";
    let stats = linux_get_cpu_stats(contents);
    assert_eq!(stats, vec!["cpu", "100", "20", "3"]);
}

#[test]
fn process_runtime_from_uptime() {
    // started 500 ticks after boot at 100 ticks per second: 5 s in
    assert_eq!(linux_get_process_runtime(60, 500, 100), 55);
    assert_eq!(linux_get_process_runtime(3, 500, 100), 0);
}

#[test]
fn log_lines_round_trip() {
    let line = format_log_line(1717171717, "hello | world");
    assert_eq!(line, "1717171717|hello | world\n");
    let (time, content) = split_log_line(&line).unwrap();
    assert_eq!(time, "1717171717");
    assert_eq!(content, "hello | world\n");
    assert_eq!(split_log_line("no separator here"), None);
}

#[test]
fn sorts_log_lines_by_time() {
    let lines = vec![
        "300|third\n".to_string(),
        "100|first\n".to_string(),
        "garbage".to_string(),
        "200|second\n".to_string(),
        "x|bad time\n".to_string(),
    ];
    let sorted = sort_last_lines(&lines).unwrap();
    let times: Vec<u64> = sorted.iter().map(|l| l.time_millis).collect();
    assert_eq!(times, vec![100, 200, 300]);
    assert_eq!(sorted[0].content, "first\n");
    assert_eq!(sorted[2].content, "third\n");
}

#[test]
fn last_lines_default_and_flag() {
    let pa = mult_lib::args::parse_args(
        &["-l".to_string(), "25".to_string()],
        &[("-l", true), ("-w", false)],
        true,
    )
    .unwrap();
    assert_eq!(get_last_lines_to_print(&pa).unwrap(), 25);
    let pa2 = mult_lib::args::parse_args(&[], &[("-l", true)], true).unwrap();
    assert_eq!(get_last_lines_to_print(&pa2).unwrap(), 15);
    let pa3 = mult_lib::args::parse_args(
        &["-l".to_string(), "many".to_string()],
        &[("-l", true)],
        true,
    )
    .unwrap();
    assert_eq!(get_last_lines_to_print(&pa3).unwrap(), 15);
}

#[test]
fn classifies_fork_results() {
    assert_eq!(classify_fork(-1), DetachRole::Failed);
    assert_eq!(classify_fork(12345), DetachRole::Parent);
    assert_eq!(classify_fork(0), DetachRole::Child);
}

#[test]
fn plans_daemon_from_flags() {
    let plan = plan_daemon(&(4096, 50, false));
    assert!(plan.apply_memory_limit);
    assert_eq!(plan.rlimit_bytes, 4096);
    assert!(plan.limit_cpu);
    assert_eq!(plan.cpu_percent, 50);
    let unlimited = plan_daemon(&(-1, -1, true));
    assert!(!unlimited.apply_memory_limit);
    assert!(!unlimited.limit_cpu);
}

#[test]
fn chooses_shell() {
    let zsh = "/usr/bin/zsh".to_string();
    assert_eq!(
        choose_shell(Some(&zsh), true).unwrap(),
        ("/usr/bin/zsh".to_string(), "-ic".to_string())
    );
    assert_eq!(
        choose_shell(Some(&zsh), false).unwrap(),
        ("/usr/bin/zsh".to_string(), "-c".to_string())
    );
    let fish = "/usr/bin/fish".to_string();
    assert_eq!(
        choose_shell(Some(&fish), true).unwrap(),
        ("/bin/bash".to_string(), "-c".to_string())
    );
    let err = choose_shell(None, false).unwrap_err();
    assert_eq!(err.0, MultError::OSNotSupported);
}

#[test]
fn builds_command_data() {
    let mut stats: Vec<String> = (0..22).map(|i| i.to_string()).collect();
    stats[21] = "654321".to_string();
    let data = get_command_data(
        77,
        "sleep 5".to_string(),
        "/tmp".to_string(),
        "sleep".to_string(),
        &stats,
    )
    .unwrap();
    assert_eq!(data.pid, 77);
    assert_eq!(data.starttime, 654321);
    let err = get_command_data(77, String::new(), String::new(), String::new(), &vec![]);
    assert_eq!(err.unwrap_err().0, MultError::ProcessNotExists);
    let short = vec!["1".to_string(); 5];
    let err2 = get_command_data(77, String::new(), String::new(), String::new(), &short);
    assert_eq!(err2.unwrap_err().0, MultError::FailedToReadProcessStats);
}

#[test]
fn unix_kill_results() {
    assert!(unix_kill_result(0, 0).is_ok());
    let err = unix_kill_result(-1, 3).unwrap_err();
    assert_eq!(err.0, MultError::UnixError);
    assert_eq!(err.1, Some("3".to_string()));
}

#[test]
fn filetime_conversions() {
    assert_eq!(combine_filetime(1, 1), 0x1_0000_0001);
    assert_eq!(combine_filetime(0, 0), 0);
    // 2021-01-01 00:00:00 UTC as a 64-bit file time
    assert_eq!(convert_filetime64_to_unix_epoch(132539328000000000), 1609459200);
    assert_eq!(win_get_process_runtime(100, 40), 60);
    assert_eq!(win_get_process_runtime(40, 100), 0);
}

#[test]
fn win_usage_rounding() {
    let prior = FlatNode { pid: 5, utime: 0, stime: 0 };
    // 30 units of cpu over 100 units of wall on 1 cpu: rounds to 30 %
    assert_eq!(win_get_cpu_usage(&prior, 10, 20, 200, 100, 1), 30);
    assert_eq!(win_get_cpu_usage(&prior, 10, 20, 100, 100, 1), 0);
}

#[test]
fn win_flat_tree_from_job() {
    let times = vec![
        WinProcTimes { pid: 5, kernel_time: 1, user_time: 2 },
        WinProcTimes { pid: 6, kernel_time: 3, user_time: 4 },
    ];
    let members = vec![5, 0, 6, 7];
    let tree = win_get_all_processes(5, Some((1, 2)), &members, &times);
    let mut pids = Vec::new();
    compress_tree(&tree, &mut pids);
    // the root, the null pid and the memberless 7 are not children
    assert_eq!(pids, vec![5, 6]);
    assert_eq!(tree.children[0].stime, 3);
    assert_eq!(tree.children[0].utime, 4);
}

#[test]
fn bsd_readings() {
    // half of the kernel scale: 50.00 %
    assert_eq!(bsd_get_cpu_usage(1024, 2048), 5000);
    assert_eq!(bsd_get_process_memory(3, 4096), 12288);
    assert_eq!(bsd_get_runtime(1000, 400), 600);
    assert_eq!(bsd_get_runtime(400, 1000), 0);
}

#[test]
fn table_rows() {
    let main = MainHeaders { id: 3, command: "run".to_string(), dir: "/a/b".to_string() };
    let row = build_row(&main, None);
    assert_eq!(row.len(), 8);
    assert_eq!(row[0], "3");
    assert_eq!(row[1], "run");
    assert_eq!(row[3], "N/A");
    assert_eq!(row[4], color_string([204, 0, 0], "Stopped"));
    let ph = ProcessHeaders {
        pid: "42".to_string(),
        memory: "1 MiB".to_string(),
        cpu: "12.34%".to_string(),
        runtime: "0h 1m 2s".to_string(),
        status: "Running".to_string(),
    };
    let row2 = build_row(&main, Some(&ph));
    assert_eq!(row2[3], "42");
    assert_eq!(row2[6], "12.34%");
}
