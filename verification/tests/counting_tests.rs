use rust_wc::MetricSet;
use rust_wc::WcError;
use rust_wc::compute;
use rust_wc::counting::count_bytes;
use rust_wc::counting::count_characters;
use rust_wc::counting::count_lines;
use rust_wc::counting::count_lines_and_bytes;
use rust_wc::counting::count_words;

fn full() -> MetricSet {
    MetricSet { bytes: true, lines: true, words: true, chars: true }
}

fn only_bytes() -> MetricSet {
    MetricSet { bytes: true, lines: false, words: false, chars: false }
}

fn only_lines() -> MetricSet {
    MetricSet { bytes: false, lines: true, words: false, chars: false }
}

#[test]
fn bytes_is_exact_length() {
    assert_eq!(count_bytes(&b"Hello, World!".to_vec()), 13);
    assert_eq!(count_bytes(&Vec::new()), 0);
}

#[test]
fn lines_counts_terminated_records() {
    assert_eq!(count_lines(&b"a\nb\n".to_vec()), 2);
    assert_eq!(count_lines(&b"\n\n".to_vec()), 2);
}

#[test]
fn lines_counts_final_unterminated_record() {
    assert_eq!(count_lines(&b"Hello, World!".to_vec()), 1);
    assert_eq!(count_lines(&b"a\nb".to_vec()), 2);
}

#[test]
fn lines_of_empty_stream_is_zero() {
    assert_eq!(count_lines(&Vec::new()), 0);
}

#[test]
fn combined_pass_agrees_with_separate_passes() {
    for content in [
        &b""[..],
        &b"Hello, World!"[..],
        &b"a\nb\nc\n"[..],
        &b"no newline at end"[..],
        &b"\n"[..],
    ] {
        let data = content.to_vec();
        let (lines, bytes) = count_lines_and_bytes(&data);
        assert_eq!(lines, count_lines(&data));
        assert_eq!(bytes, count_bytes(&data));
    }
}

#[test]
fn words_split_on_whitespace_runs() {
    assert_eq!(count_words(&b"a b\nc\n".to_vec()).unwrap(), 3);
    assert_eq!(count_words(&b"  leading   and  trailing   ".to_vec()).unwrap(), 3);
    assert_eq!(count_words(&b"one".to_vec()).unwrap(), 1);
}

#[test]
fn words_of_whitespace_only_stream_is_zero() {
    assert_eq!(count_words(&b" \t\r\n ".to_vec()).unwrap(), 0);
    assert_eq!(count_words(&Vec::new()).unwrap(), 0);
}

#[test]
fn words_split_on_unicode_whitespace() {
    // A no-break space separates words just as an ASCII space does.
    assert_eq!(count_words(&"a\u{00A0}b".as_bytes().to_vec()).unwrap(), 2);
    // An ideographic space, too.
    assert_eq!(count_words(&"a\u{3000}b".as_bytes().to_vec()).unwrap(), 2);
}

#[test]
fn chars_counts_unicode_scalars_not_bytes() {
    let data = "héllo".as_bytes().to_vec();
    assert_eq!(count_bytes(&data), 6);
    assert_eq!(count_characters(&data).unwrap(), 5);

    let emoji = "\u{1F600}".as_bytes().to_vec();
    assert_eq!(count_bytes(&emoji), 4);
    assert_eq!(count_characters(&emoji).unwrap(), 1);
}

#[test]
fn chars_equals_bytes_for_ascii() {
    let data = b"plain ascii text".to_vec();
    assert_eq!(count_characters(&data).unwrap(), count_bytes(&data));
}

#[test]
fn chars_rejects_invalid_utf8() {
    assert!(matches!(
        count_characters(&vec![0xff]),
        Err(WcError::DecodeFailure)
    ));
    // An overlong encoding of '/'.
    assert!(matches!(
        count_characters(&vec![0xc0, 0xaf]),
        Err(WcError::DecodeFailure)
    ));
    // A surrogate codepoint.
    assert!(matches!(
        count_characters(&vec![0xed, 0xa0, 0x80]),
        Err(WcError::DecodeFailure)
    ));
    // A truncated two-byte encoding.
    assert!(matches!(
        count_characters(&vec![0xc3]),
        Err(WcError::DecodeFailure)
    ));
}

#[test]
fn words_rejects_invalid_utf8() {
    assert!(matches!(
        count_words(&vec![b'a', 0x80, b'b']),
        Err(WcError::DecodeFailure)
    ));
}

#[test]
fn compute_fills_exactly_the_requested_metrics() {
    let data = b"a b\nc\n".to_vec();
    let result = compute(&data, only_lines()).unwrap();
    assert_eq!(result.lines, Some(2));
    assert_eq!(result.bytes, None);
    assert_eq!(result.words, None);
    assert_eq!(result.chars, None);

    let result = compute(&data, full()).unwrap();
    assert_eq!(result.lines, Some(2));
    assert_eq!(result.bytes, Some(6));
    assert_eq!(result.words, Some(3));
    assert_eq!(result.chars, Some(6));
}

#[test]
fn compute_combined_byte_count_matches_bytes_alone() {
    let data = b"Hello, World!\nsecond line".to_vec();
    let combined = compute(
        &data,
        MetricSet { bytes: true, lines: true, words: false, chars: false },
    )
    .unwrap();
    let alone = compute(&data, only_bytes()).unwrap();
    assert_eq!(combined.bytes, alone.bytes);
}

#[test]
fn compute_is_idempotent_over_reread_content() {
    let data = b"some words\nover two lines\n".to_vec();
    let reopened = data.clone();
    let first = compute(&data, full()).unwrap();
    let second = compute(&reopened, full()).unwrap();
    assert_eq!(first, second);
}

#[test]
fn compute_of_empty_stream_is_all_zero() {
    let result = compute(&Vec::new(), full()).unwrap();
    assert_eq!(result.lines, Some(0));
    assert_eq!(result.bytes, Some(0));
    assert_eq!(result.words, Some(0));
    assert_eq!(result.chars, Some(0));
}

#[test]
fn compute_of_whitespace_only_stream() {
    let data = b"   ".to_vec();
    let result = compute(&data, full()).unwrap();
    assert_eq!(result.words, Some(0));
    assert_eq!(result.bytes, Some(3));
    assert_eq!(result.chars, Some(3));
    assert_eq!(result.lines, Some(1));
}

#[test]
fn compute_decode_failure_only_when_text_metrics_requested() {
    let invalid = vec![0xff, 0xfe];
    assert!(matches!(
        compute(&invalid, full()),
        Err(WcError::DecodeFailure)
    ));
    let result = compute(
        &invalid,
        MetricSet { bytes: true, lines: true, words: false, chars: false },
    )
    .unwrap();
    assert_eq!(result.bytes, Some(2));
    assert_eq!(result.lines, Some(1));
}
