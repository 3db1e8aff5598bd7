use rust_wc::CountResult;
use rust_wc::MetricSet;
use rust_wc::compute;
use rust_wc::format::usize_to_string;
use rust_wc::format_result;
use rust_wc::resolve;

fn run(content: &[u8], args: &[&str]) -> String {
    let tokens: Vec<String> = args.iter().map(|a| a.to_string()).collect();
    let request = resolve(&tokens).unwrap();
    let result = compute(&content.to_vec(), request.metrics).unwrap();
    format_result(&result, &request.file_name)
}

#[test]
fn renders_numbers_in_decimal() {
    assert_eq!(usize_to_string(0), "0");
    assert_eq!(usize_to_string(7), "7");
    assert_eq!(usize_to_string(10), "10");
    assert_eq!(usize_to_string(13), "13");
    assert_eq!(usize_to_string(120), "120");
    assert_eq!(usize_to_string(98765), "98765");
}

#[test]
fn renders_counts_in_canonical_order() {
    let result = CountResult {
        lines: Some(1),
        bytes: Some(13),
        words: Some(2),
        chars: Some(13),
    };
    assert_eq!(format_result(&result, "file.txt"), "1 13 2 13 file.txt\n");
}

#[test]
fn renders_a_single_count() {
    let result = CountResult { lines: None, bytes: Some(13), words: None, chars: None };
    assert_eq!(format_result(&result, "file.txt"), "13 file.txt\n");
}

#[test]
fn scenario_bytes_of_hello_world() {
    assert_eq!(run(b"Hello, World!", &["-c", "file.txt"]), "13 file.txt\n");
}

#[test]
fn scenario_lines_of_hello_world() {
    assert_eq!(run(b"Hello, World!", &["-l", "file.txt"]), "1 file.txt\n");
}

#[test]
fn scenario_lines_and_bytes_of_hello_world() {
    assert_eq!(run(b"Hello, World!", &["-l", "-c", "file.txt"]), "1 13 file.txt\n");
}

#[test]
fn scenario_empty_file_no_flags() {
    assert_eq!(run(b"", &["file.txt"]), "0 0 0 0 file.txt\n");
}

#[test]
fn scenario_words_of_two_lines() {
    assert_eq!(run(b"a b\nc\n", &["-w", "file.txt"]), "3 file.txt\n");
}

#[test]
fn flag_order_does_not_change_the_output() {
    let forward = run(b"one two\nthree\n", &["-l", "-c", "-w", "-m", "f"]);
    let shuffled = run(b"one two\nthree\n", &["-m", "f", "-w", "-c", "-l"]);
    assert_eq!(forward, shuffled);
}

#[test]
fn full_set_output_matches_metrics_order_not_flag_order() {
    // Canonical order is Lines, Bytes, Words, Chars.
    let out = run("h\u{e9}llo world\n".as_bytes(), &["f"]);
    // 1 line, 13 bytes, 2 words, 12 chars.
    assert_eq!(out, "1 13 2 12 f\n");
}

#[test]
fn metric_set_union_is_commutative_and_idempotent() {
    let a = MetricSet { bytes: true, lines: false, words: true, chars: false };
    let b = MetricSet { bytes: false, lines: true, words: true, chars: false };
    assert_eq!(a.union(b), b.union(a));
    assert_eq!(a.union(a), a);
}
