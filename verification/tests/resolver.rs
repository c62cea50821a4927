use headr::args::resolve_args;
use headr::args::UsageError;

fn argv(parts: &[&str]) -> Vec<String> {
    parts.iter().map(|p| String::from(*p)).collect()
}

#[test]
fn defaults_to_stdin_and_ten_lines() {
    let a = resolve_args(&argv(&[])).unwrap();
    assert_eq!(a.files, vec![String::from("-")]);
    assert_eq!(a.lines, 10);
    assert_eq!(a.bytes, None);
}

#[test]
fn short_line_limit() {
    let a = resolve_args(&argv(&["-n", "3", "f"])).unwrap();
    assert_eq!(a.files, vec![String::from("f")]);
    assert_eq!(a.lines, 3);
    assert_eq!(a.bytes, None);
}

#[test]
fn long_line_limit_zero() {
    let a = resolve_args(&argv(&["--lines", "0"])).unwrap();
    assert_eq!(a.lines, 0);
    assert_eq!(a.bytes, None);
}

#[test]
fn byte_limit_leaves_default_lines() {
    let a = resolve_args(&argv(&["-b", "4", "f"])).unwrap();
    assert_eq!(a.bytes, Some(4));
    assert_eq!(a.lines, 10);
}

#[test]
fn long_byte_limit_zero() {
    let a = resolve_args(&argv(&["--bytes", "0", "f"])).unwrap();
    assert_eq!(a.bytes, Some(0));
}

#[test]
fn both_limits_rejected() {
    let e = resolve_args(&argv(&["-n", "1", "-b", "2"])).unwrap_err();
    assert!(matches!(e, UsageError::ConflictingLimits));
}

#[test]
fn both_limits_rejected_either_order() {
    let e = resolve_args(&argv(&["--bytes", "2", "--lines", "1"])).unwrap_err();
    assert!(matches!(e, UsageError::ConflictingLimits));
}

#[test]
fn unknown_flag_rejected() {
    let e = resolve_args(&argv(&["-x", "f"])).unwrap_err();
    assert!(matches!(e, UsageError::UnknownFlag(f) if f == "-x"));
}

#[test]
fn missing_value_rejected() {
    let e = resolve_args(&argv(&["f", "-n"])).unwrap_err();
    assert!(matches!(e, UsageError::MissingValue(f) if f == "-n"));
}

#[test]
fn non_numeric_count_rejected() {
    let e = resolve_args(&argv(&["-n", "foo"])).unwrap_err();
    assert!(matches!(e, UsageError::InvalidCount(v) if v == "foo"));
}

#[test]
fn negative_count_rejected() {
    let e = resolve_args(&argv(&["-b", "-3"])).unwrap_err();
    assert!(matches!(e, UsageError::InvalidCount(v) if v == "-3"));
}

#[test]
fn oversized_count_rejected() {
    let e = resolve_args(&argv(&["-n", "99999999999999999999999999"])).unwrap_err();
    assert!(matches!(e, UsageError::InvalidCount(_)));
}

#[test]
fn sentinel_is_positional() {
    let a = resolve_args(&argv(&["-", "f"])).unwrap();
    assert_eq!(a.files, vec![String::from("-"), String::from("f")]);
}

#[test]
fn flags_mix_with_positionals() {
    let a = resolve_args(&argv(&["f", "-n", "2", "g"])).unwrap();
    assert_eq!(a.files, vec![String::from("f"), String::from("g")]);
    assert_eq!(a.lines, 2);
}

#[test]
fn later_limit_wins() {
    let a = resolve_args(&argv(&["-n", "1", "-n", "7"])).unwrap();
    assert_eq!(a.lines, 7);
}

#[test]
fn usage_messages() {
    let e = resolve_args(&argv(&["-q"])).unwrap_err();
    assert_eq!(e.message(), "unrecognized flag -q");
    let e = resolve_args(&argv(&["-n", "two"])).unwrap_err();
    assert_eq!(e.message(), "invalid count two");
    let e = resolve_args(&argv(&["-n", "1", "-b", "2"])).unwrap_err();
    assert_eq!(e.message(), "the line and byte limits cannot both be given");
}
