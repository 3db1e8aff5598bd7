//! The counting engine: byte, line, word and character counts over the
//! contents of a stream, and the dispatcher that combines passes.

use vstd::prelude::*;
use vstd::utf8::decode_utf8;
use vstd::utf8::length_of_first_scalar;
use vstd::utf8::pop_first_scalar;
use vstd::utf8::valid_first_scalar;
use vstd::utf8::valid_utf8;

use crate::errors::WcError;
use crate::metrics::CountResult;
use crate::metrics::MetricSet;
use crate::text::decode_scalar_at;
use crate::text::is_white_space_char;
use crate::text::is_white_space_scalar;
use crate::text::lemma_first_scalar_bounds;

verus! {

/// The line terminator: a record ends at each of these.
pub const LINE_TERMINATOR: u8 = 0x0A;

/// How many line terminators the stream holds.
pub open spec fn terminator_count(data: Seq<u8>) -> nat
    decreases data.len(),
{
    if data.len() == 0 {
        0
    } else {
        terminator_count(data.drop_last()) + if data.last() == LINE_TERMINATOR {
            1nat
        } else {
            0nat
        }
    }
}

/// How many records the stream holds: one per line terminator, and one
/// more for a final non-empty unterminated remainder.
pub open spec fn record_count(data: Seq<u8>) -> nat {
    terminator_count(data) + if data.len() > 0 && data.last() != LINE_TERMINATOR {
        1nat
    } else {
        0nat
    }
}

/// How many words a character sequence holds, scanning from the front.
/// `in_word` says whether the scan stands inside a word already; a word is
/// counted at the non-whitespace character that starts it.
pub open spec fn word_count_from(chars: Seq<char>, in_word: bool) -> nat
    decreases chars.len(),
{
    if chars.len() == 0 {
        0
    } else if is_white_space_char(chars[0]) {
        word_count_from(chars.drop_first(), false)
    } else {
        (if in_word {
            0nat
        } else {
            1nat
        }) + word_count_from(chars.drop_first(), true)
    }
}

/// How many maximal runs of non-whitespace characters the sequence holds.
pub open spec fn word_count(chars: Seq<char>) -> nat {
    word_count_from(chars, false)
}

/// The exact byte length of the stream.
pub fn count_bytes(data: &Vec<u8>) -> (r: usize)
    ensures
        r == data@.len(),
{
    data.len()
}

/// The number of line-terminator-delimited records, a final unterminated
/// remainder counting as one record.
pub fn count_lines(data: &Vec<u8>) -> (r: usize)
    ensures
        r == record_count(data@),
{
    let (lines, _) = count_lines_and_bytes(data);
    lines
}

/// One combined pass: the record count and the total byte length together,
/// so that requesting lines and bytes costs a single traversal.
pub fn count_lines_and_bytes(data: &Vec<u8>) -> (r: (usize, usize))
    ensures
        r.0 == record_count(data@),
        r.1 == data@.len(),
{
    let n = data.len();
    let mut terminators: usize = 0;
    let mut i: usize = 0;
    while i < n
        invariant
            n == data@.len(),
            i <= n,
            terminators <= i,
            terminators == terminator_count(data@.take(i as int)),
        decreases n - i,
    {
        assert(data@.take(i as int + 1).drop_last() =~= data@.take(i as int));
        assert(data@.take(i as int + 1).last() == data@[i as int]);
        if data[i] == 0x0A {
            terminators = terminators + 1;
        }
        i = i + 1;
    }
    assert(data@.take(n as int) =~= data@);
    let lines: usize;
    if n > 0 && data[n - 1] != 0x0A {
        proof {
            lemma_terminator_count_le(data@.drop_last());
            assert(data@.last() == data@[n as int - 1]);
        }
        lines = terminators + 1;
    } else {
        lines = terminators;
    }
    (lines, n)
}

/// There are never more line terminators than bytes.
proof fn lemma_terminator_count_le(data: Seq<u8>)
    ensures
        terminator_count(data) <= data.len(),
    decreases data.len(),
{
    if data.len() > 0 {
        lemma_terminator_count_le(data.drop_last());
    }
}

/// The number of Unicode scalar values in the stream, or `DecodeFailure`
/// where the bytes are not valid UTF-8.
pub fn count_characters(data: &Vec<u8>) -> (r: Result<usize, WcError>)
    ensures
        valid_utf8(data@) ==> r == Ok::<usize, WcError>(decode_utf8(data@).len() as usize),
        !valid_utf8(data@) ==> r == Err::<usize, WcError>(WcError::DecodeFailure),
{
    let n = data.len();
    let mut count: usize = 0;
    let mut i: usize = 0;
    assert(data@.skip(0) =~= data@);
    while i < n
        invariant
            n == data@.len(),
            i <= n,
            count <= i,
            valid_utf8(data@) <==> valid_utf8(data@.skip(i as int)),
            valid_utf8(data@) ==> decode_utf8(data@).len() == count + decode_utf8(
                data@.skip(i as int),
            ).len(),
        decreases n - i,
    {
        let ghost suffix = data@.skip(i as int);
        match decode_scalar_at(data.as_slice(), i) {
            Some((_, l)) => {
                proof {
                    lemma_first_scalar_bounds(suffix);
                    assert(pop_first_scalar(suffix) =~= data@.skip(i as int + l as int));
                }
                count = count + 1;
                i = i + l;
            },
            None => {
                proof {
                    assert(!valid_utf8(suffix));
                }
                return Err(WcError::DecodeFailure);
            },
        }
    }
    assert(data@.skip(n as int) =~= Seq::<u8>::empty());
    Ok(count)
}

/// The number of whitespace-delimited words in the stream, or
/// `DecodeFailure` where the bytes are not valid UTF-8.
pub fn count_words(data: &Vec<u8>) -> (r: Result<usize, WcError>)
    ensures
        valid_utf8(data@) ==> r == Ok::<usize, WcError>(word_count(decode_utf8(data@)) as usize),
        !valid_utf8(data@) ==> r == Err::<usize, WcError>(WcError::DecodeFailure),
{
    let n = data.len();
    let mut words: usize = 0;
    let mut in_word = false;
    let mut i: usize = 0;
    assert(data@.skip(0) =~= data@);
    while i < n
        invariant
            n == data@.len(),
            i <= n,
            words <= i,
            valid_utf8(data@) <==> valid_utf8(data@.skip(i as int)),
            valid_utf8(data@) ==> word_count(decode_utf8(data@)) == words + word_count_from(
                decode_utf8(data@.skip(i as int)),
                in_word,
            ),
        decreases n - i,
    {
        let ghost suffix = data@.skip(i as int);
        match decode_scalar_at(data.as_slice(), i) {
            Some((v, l)) => {
                proof {
                    lemma_first_scalar_bounds(suffix);
                    assert(pop_first_scalar(suffix) =~= data@.skip(i as int + l as int));
                    if valid_utf8(data@) {
                        assert(decode_utf8(suffix).drop_first() =~= decode_utf8(
                            data@.skip(i as int + l as int),
                        ));
                    }
                }
                let ws = is_white_space_scalar(v);
                if ws {
                    in_word = false;
                } else {
                    if !in_word {
                        words = words + 1;
                    }
                    in_word = true;
                }
                i = i + l;
            },
            None => {
                return Err(WcError::DecodeFailure);
            },
        }
    }
    assert(data@.skip(n as int) =~= Seq::<u8>::empty());
    Ok(words)
}

/// What `compute` returns, as a function of the stream and the selection:
/// the requested counts, or `DecodeFailure` where words or characters were
/// requested of a stream that is not valid UTF-8.
pub open spec fn spec_compute(data: Seq<u8>, metrics: MetricSet) -> Result<CountResult, WcError> {
    if (metrics.words || metrics.chars) && !valid_utf8(data) {
        Err(WcError::DecodeFailure)
    } else {
        Ok(
            CountResult {
                lines: if metrics.lines {
                    Some(record_count(data) as usize)
                } else {
                    None
                },
                bytes: if metrics.bytes {
                    Some(data.len() as usize)
                } else {
                    None
                },
                words: if metrics.words {
                    Some(word_count(decode_utf8(data)) as usize)
                } else {
                    None
                },
                chars: if metrics.chars {
                    Some(decode_utf8(data).len() as usize)
                } else {
                    None
                },
            },
        )
    }
}

/// Computes the selected metrics over the stream contents, grouping lines
/// and bytes into one shared pass. A metric absent from the selection is
/// absent from the result. Fails only with `DecodeFailure`, and only when
/// words or characters were requested of bytes that are not valid UTF-8.
pub fn compute(data: &Vec<u8>, metrics: MetricSet) -> (r: Result<CountResult, WcError>)
    ensures
        r == spec_compute(data@, metrics),
{
    let mut lines: Option<usize> = None;
    let mut bytes: Option<usize> = None;
    let mut words: Option<usize> = None;
    let mut chars: Option<usize> = None;
    if metrics.lines && metrics.bytes {
        let (l, b) = count_lines_and_bytes(data);
        lines = Some(l);
        bytes = Some(b);
    } else if metrics.lines {
        lines = Some(count_lines(data));
    } else if metrics.bytes {
        bytes = Some(count_bytes(data));
    }
    if metrics.words {
        match count_words(data) {
            Ok(w) => {
                words = Some(w);
            },
            Err(e) => {
                return Err(e);
            },
        }
    }
    if metrics.chars {
        match count_characters(data) {
            Ok(c) => {
                chars = Some(c);
            },
            Err(e) => {
                return Err(e);
            },
        }
    }
    Ok(CountResult { lines, bytes, words, chars })
}

/// Requesting lines and bytes together yields the same byte count as
/// requesting bytes alone: the combined pass is a pure optimization.
pub proof fn lemma_combined_pass_matches_bytes_alone(data: Seq<u8>)
    ensures
        ({
            let combined = spec_compute(
                data,
                MetricSet { bytes: true, lines: true, words: false, chars: false },
            );
            let alone = spec_compute(
                data,
                MetricSet { bytes: true, lines: false, words: false, chars: false },
            );
            &&& combined is Ok
            &&& alone is Ok
            &&& combined->Ok_0.bytes == alone->Ok_0.bytes
        }),
{
}

/// `compute` is a pure function of the stream contents and the selection:
/// two runs over equal contents with equal selections yield equal results.
pub proof fn lemma_compute_deterministic(
    data1: Seq<u8>,
    data2: Seq<u8>,
    metrics: MetricSet,
)
    requires
        data1 == data2,
    ensures
        spec_compute(data1, metrics) == spec_compute(data2, metrics),
{
}

/// On valid text, requesting characters alone yields the number of
/// Unicode scalar values; that count never exceeds the byte count, and
/// the two agree exactly when every scalar is a single-byte (ASCII)
/// scalar.
pub proof fn lemma_compute_chars_le_bytes(data: Seq<u8>)
    requires
        valid_utf8(data),
    ensures
        ({
            let r = spec_compute(
                data,
                MetricSet { bytes: false, lines: false, words: false, chars: true },
            );
            &&& r is Ok
            &&& r->Ok_0.chars == Some(decode_utf8(data).len() as usize)
            &&& decode_utf8(data).len() <= data.len()
            &&& (decode_utf8(data).len() == data.len() <==> vstd::utf8::is_ascii_chars(
                decode_utf8(data),
            ))
        }),
{
    lemma_chars_le_bytes(data);
}

/// Characters never outnumber bytes, and the counts agree exactly when
/// every scalar in the stream is a single-byte (ASCII) scalar.
pub proof fn lemma_chars_le_bytes(data: Seq<u8>)
    requires
        valid_utf8(data),
    ensures
        decode_utf8(data).len() <= data.len(),
        decode_utf8(data).len() == data.len() <==> vstd::utf8::is_ascii_chars(decode_utf8(data)),
    decreases data.len(),
{
    if data.len() == 0 {
    } else {
        let rest = pop_first_scalar(data);
        let l = length_of_first_scalar(data);
        lemma_first_scalar_bounds(data);
        assert(rest =~= data.skip(l));
        lemma_chars_le_bytes(rest);
        let c = vstd::utf8::decode_first_scalar(data) as char;
        let chars = decode_utf8(data);
        assert(chars.drop_first() =~= decode_utf8(rest));
        assert(c as u32 == vstd::utf8::decode_first_scalar(data));
        if l == 1 {
            assert(c <= '\u{7f}');
        } else {
            assert(!(c <= '\u{7f}'));
        }
        if decode_utf8(data).len() == data.len() {
            assert(l == 1 && decode_utf8(rest).len() == rest.len());
            assert forall|i: int| 0 <= i < chars.len() implies '\0' <= #[trigger] chars[i]
                <= '\u{7f}' by {
                if i > 0 {
                    assert(chars[i] == decode_utf8(rest)[i - 1]);
                }
            }
        }
        if vstd::utf8::is_ascii_chars(chars) {
            assert(chars[0] == c);
            assert forall|i: int| 0 <= i < decode_utf8(rest).len() implies '\0'
                <= #[trigger] decode_utf8(rest)[i] <= '\u{7f}' by {
                assert(decode_utf8(rest)[i] == chars[i + 1]);
            }
        }
    }
}

} // verus!
