use rust_wc::ArgParser;
use rust_wc::Metric;
use rust_wc::MetricSet;
use rust_wc::WcError;
use rust_wc::resolve;

#[test]
fn arg_parser_should_create_from_args_with_c() {
    let result = ArgParser::from_args(vec!["-c".to_string(), "file.txt".to_string()]).unwrap();
    assert_eq!(result.bits, ArgParser::BYTES);
    assert_eq!(result.file_name, "file.txt")
}

#[test]
fn arg_parser_should_create_from_args_with_l() {
    let result = ArgParser::from_args(vec!["-l".to_string(), "file.txt".to_string()]).unwrap();
    assert_eq!(result.bits, ArgParser::LINES);
}

#[test]
fn arg_parser_should_create_from_args_with_l_and_c() {
    let result = ArgParser::from_args(vec![
        "-l".to_string(),
        "-c".to_string(),
        "somefile.txt".to_string(),
    ])
    .unwrap();

    assert_eq!(result.bits, ArgParser::LINES | ArgParser::BYTES);
}

#[test]
fn arg_parser_should_create_from_args_with_all_flags() {
    let result = ArgParser::from_args(vec![
        "-l".to_string(),
        "-c".to_string(),
        "-w".to_string(),
        "-m".to_string(),
        "somefile.txt".to_string(),
    ])
    .unwrap();

    assert_eq!(result.bits, ArgParser::ALL);
}

#[test]
fn arg_parser_should_create_from_args_with_no_flags() {
    let result = ArgParser::from_args(vec!["somefile.txt".to_string()]).unwrap();

    assert_eq!(result.bits, ArgParser::ALL);
}

#[test]
fn resolve_single_flag_and_file() {
    let request = resolve(&vec!["-w".to_string(), "notes.txt".to_string()]).unwrap();
    assert!(request.metrics.has(Metric::Words));
    assert!(!request.metrics.has(Metric::Bytes));
    assert!(!request.metrics.has(Metric::Lines));
    assert!(!request.metrics.has(Metric::Chars));
    assert_eq!(request.file_name, "notes.txt");
}

#[test]
fn resolve_flag_order_does_not_matter() {
    let a = resolve(&vec!["-l".to_string(), "-c".to_string(), "f".to_string()]).unwrap();
    let b = resolve(&vec!["-c".to_string(), "f".to_string(), "-l".to_string()]).unwrap();
    assert_eq!(a.metrics, b.metrics);
    assert_eq!(a.file_name, b.file_name);
}

#[test]
fn resolve_duplicate_flags_are_idempotent() {
    let once = resolve(&vec!["-w".to_string(), "f".to_string()]).unwrap();
    let twice = resolve(&vec!["-w".to_string(), "-w".to_string(), "f".to_string()]).unwrap();
    assert_eq!(once.metrics, twice.metrics);
}

#[test]
fn resolve_no_flags_defaults_to_full_set() {
    let request = resolve(&vec!["data.bin".to_string()]).unwrap();
    assert_eq!(
        request.metrics,
        MetricSet { bytes: true, lines: true, words: true, chars: true }
    );
}

#[test]
fn resolve_rejects_unrecognized_flag() {
    let err = resolve(&vec!["-x".to_string(), "f".to_string()]).unwrap_err();
    assert!(matches!(err, WcError::InvalidFlag(token) if token == "-x"));
}

#[test]
fn resolve_rejects_long_flag_token() {
    let err = resolve(&vec!["-cl".to_string(), "f".to_string()]).unwrap_err();
    assert!(matches!(err, WcError::InvalidFlag(token) if token == "-cl"));
}

#[test]
fn resolve_rejects_second_file() {
    let err = resolve(&vec!["a.txt".to_string(), "b.txt".to_string()]).unwrap_err();
    assert!(matches!(err, WcError::MultipleFiles));
}

#[test]
fn resolve_rejects_missing_file() {
    let err = resolve(&vec!["-c".to_string(), "-l".to_string()]).unwrap_err();
    assert!(matches!(err, WcError::MissingFile));

    let err = resolve(&vec![]).unwrap_err();
    assert!(matches!(err, WcError::MissingFile));
}
