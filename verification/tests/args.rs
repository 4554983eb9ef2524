use mult_lib::args::{get_fork_flag_values, parse_args, parse_string_to_bytes};
use mult_lib::error::MultError;

#[test]
fn parses_strings_to_bytes() {
    let gb_string = String::from("12Gb");
    let gbytes_string = String::from("12GB");
    let mbytes_string = String::from("12mB");
    let bytes_string = String::from("12B");
    let invalid_string = String::from("12LB");
    assert_eq!(
        (12e+9 * 8.0) as i64,
        parse_string_to_bytes(gb_string).unwrap()
    );
    assert_eq!(12e+9 as i64, parse_string_to_bytes(gbytes_string).unwrap());
    assert_eq!(12e+6 as i64, parse_string_to_bytes(mbytes_string).unwrap());
    assert_eq!(12, parse_string_to_bytes(bytes_string).unwrap());
    assert_eq!(None, parse_string_to_bytes(invalid_string));
}

#[test]
fn parses_args_allow_values() {
    let flags = [("--test-flag", false), ("--test-value-flag", true)];
    let sorted_args = parse_args(
        &[
            "--test-flag".to_string(),
            "value with space".to_string(),
            "--test-value-flag".to_string(),
            "test-value-flag-value".to_string(),
        ],
        &flags,
        true,
    )
    .unwrap();
    assert_eq!(
        sorted_args.value_flags,
        vec![(
            "--test-value-flag".to_string(),
            Some("test-value-flag-value".to_string())
        )]
    );
    assert_eq!(sorted_args.flags, vec!["--test-flag"]);
    assert_eq!(sorted_args.values, vec!["value with space"]);
}

#[test]
fn parses_args_empty() {
    let parsed = parse_args(&[], &[("-w", false)], false).unwrap();
    assert!(parsed.flags.is_empty());
    assert!(parsed.value_flags.is_empty());
    assert!(parsed.values.is_empty());
}

#[test]
fn rejects_unknown_argument_without_values() {
    let err = parse_args(&["stray".to_string()], &[("-w", false)], false).unwrap_err();
    assert_eq!(err.0, MultError::InvalidArgument);
    assert_eq!(err.1, Some("stray".to_string()));
}

#[test]
fn parses_byte_suffixes() {
    assert_eq!(Some(7), parse_string_to_bytes("7B".to_string()));
    assert_eq!(Some(5000), parse_string_to_bytes("5kB".to_string()));
    assert_eq!(Some(3_000_000_000_000), parse_string_to_bytes("3tB".to_string()));
    assert_eq!(None, parse_string_to_bytes("".to_string()));
    assert_eq!(None, parse_string_to_bytes("GB".to_string()));
    assert_eq!(None, parse_string_to_bytes("12XYZ".to_string()));
}

fn parsed(args: &[&str], flags: &[(&str, bool)]) -> mult_lib::args::ParsedArgs {
    let owned: Vec<String> = args.iter().map(|a| a.to_string()).collect();
    parse_args(&owned, flags, true).unwrap()
}

const FORK_FLAGS: [(&str, bool); 3] = [("-m", true), ("-c", true), ("-i", false)];

#[test]
fn fork_flags_defaults() {
    let pa = parsed(&["echo hi"], &FORK_FLAGS);
    let (mem, cpu, interactive) = get_fork_flag_values(&pa).unwrap();
    assert_eq!(mem, -1);
    assert_eq!(cpu, -1);
    assert!(!interactive);
}

#[test]
fn fork_flags_full() {
    let pa = parsed(&["-m", "4kB", "-c", "50", "-i", "cmd"], &FORK_FLAGS);
    let (mem, cpu, interactive) = get_fork_flag_values(&pa).unwrap();
    assert_eq!(mem, 4000);
    assert_eq!(cpu, 50);
    assert!(interactive);
}

#[test]
fn fork_flags_bad_memory_format() {
    let pa = parsed(&["-m", "12LB", "cmd"], &FORK_FLAGS);
    let err = get_fork_flag_values(&pa).unwrap_err();
    assert_eq!(err.0, MultError::InvalidArgument);
    assert_eq!(
        err.1,
        Some("-m value must have a valid format (B, kB, mB, gB) at the end".to_string())
    );
}

#[test]
fn fork_flags_memory_under_one() {
    let pa = parsed(&["-m", "0B", "cmd"], &FORK_FLAGS);
    let err = get_fork_flag_values(&pa).unwrap_err();
    assert_eq!(err.0, MultError::InvalidArgument);
    assert_eq!(err.1, Some("-c value must be over 1".to_string()));
}

#[test]
fn fork_flags_cpu_not_a_number() {
    let pa = parsed(&["-c", "fast", "cmd"], &FORK_FLAGS);
    let err = get_fork_flag_values(&pa).unwrap_err();
    assert_eq!(err.0, MultError::InvalidArgument);
    assert_eq!(err.1, Some("-c".to_string()));
}

#[test]
fn fork_flags_cpu_out_of_range() {
    let pa = parsed(&["-c", "500", "cmd"], &FORK_FLAGS);
    let err = get_fork_flag_values(&pa).unwrap_err();
    assert_eq!(err.0, MultError::InvalidArgument);
    assert_eq!(err.1, Some("-c valid values are between 1 and 100".to_string()));
    let pa = parsed(&["-c", "0", "cmd"], &FORK_FLAGS);
    let err = get_fork_flag_values(&pa).unwrap_err();
    assert_eq!(err.1, Some("-c valid values are between 1 and 100".to_string()));
}
