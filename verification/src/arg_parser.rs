//! The flag resolver: turns raw command-line tokens into a metric
//! selection and a file name.

use vstd::prelude::*;
use vstd::string::StrSliceExecFns;

use crate::errors::WcError;
use crate::metrics::CountRequest;
use crate::metrics::Metric;
use crate::metrics::MetricSet;

verus! {

/// Whether a token is a flag token: it begins with the flag marker `-`.
pub open spec fn is_flag_token(t: Seq<char>) -> bool {
    t.len() > 0 && t[0] == '-'
}

/// The metric a recognized flag token selects, or nothing for a token
/// that matches no recognized flag.
pub open spec fn flag_metric(t: Seq<char>) -> Option<Metric> {
    if t == seq!['-', 'c'] {
        Some(Metric::Bytes)
    } else if t == seq!['-', 'l'] {
        Some(Metric::Lines)
    } else if t == seq!['-', 'w'] {
        Some(Metric::Words)
    } else if t == seq!['-', 'm'] {
        Some(Metric::Chars)
    } else {
        None
    }
}

/// An empty selection becomes the full one; any other passes unchanged.
/// Applied only when zero flags were parsed, since a parsed flag always
/// leaves its metric in the selection.
pub open spec fn normalize(m: MetricSet) -> MetricSet {
    if m.spec_is_empty() {
        MetricSet::spec_full()
    } else {
        m
    }
}

/// What resolving a token sequence yields, stated over token views.
pub enum Resolution {
    /// Exactly one file token and only recognized flags.
    Resolved { metrics: MetricSet, file: Seq<char> },
    /// The first offending token began with the marker but matched no flag.
    InvalidFlag { token: Seq<char> },
    /// A second file token appeared.
    MultipleFiles,
    /// The tokens ran out without a file token.
    MissingFile,
}

/// One left-to-right scan over the tokens from position `i`, with the
/// flags accumulated so far and the file token already seen, if any.
pub open spec fn resolve_from(
    tokens: Seq<Seq<char>>,
    i: int,
    acc: MetricSet,
    file: Option<Seq<char>>,
) -> Resolution
    decreases tokens.len() - i,
{
    if i < 0 || i >= tokens.len() {
        match file {
            Some(f) => Resolution::Resolved { metrics: normalize(acc), file: f },
            None => Resolution::MissingFile,
        }
    } else {
        let t = tokens[i];
        if is_flag_token(t) {
            match flag_metric(t) {
                Some(m) => resolve_from(tokens, i + 1, acc.spec_insert(m), file),
                None => Resolution::InvalidFlag { token: t },
            }
        } else {
            match file {
                Some(_) => Resolution::MultipleFiles,
                None => resolve_from(tokens, i + 1, acc, Some(t)),
            }
        }
    }
}

/// What `resolve` yields on the given token views.
pub open spec fn spec_resolve(tokens: Seq<Seq<char>>) -> Resolution {
    resolve_from(tokens, 0, MetricSet::spec_empty(), None)
}

/// The union of the metrics selected by the flag tokens in `[i, j)`;
/// tokens that are no recognized flag contribute nothing.
pub open spec fn flags_between(tokens: Seq<Seq<char>>, i: int, j: int) -> MetricSet
    decreases j - i,
{
    if i < 0 || i >= j {
        MetricSet::spec_empty()
    } else {
        match flag_metric(tokens[i]) {
            Some(m) => flags_between(tokens, i + 1, j).spec_insert(m),
            None => flags_between(tokens, i + 1, j),
        }
    }
}

/// The union of the metrics selected by all flag tokens.
pub open spec fn selected_flags(tokens: Seq<Seq<char>>) -> MetricSet {
    flags_between(tokens, 0, tokens.len() as int)
}

/// Scanning a run of recognized flag tokens only adds their metrics to
/// the accumulator; nothing else about the scan changes.
proof fn lemma_resolve_from_flags(
    tokens: Seq<Seq<char>>,
    i: int,
    j: int,
    acc: MetricSet,
    file: Option<Seq<char>>,
)
    requires
        0 <= i <= j <= tokens.len(),
        forall|k: int|
            i <= k < j ==> is_flag_token(#[trigger] tokens[k]) && flag_metric(tokens[k]) is Some,
    ensures
        resolve_from(tokens, i, acc, file) == resolve_from(
            tokens,
            j,
            acc.spec_union(flags_between(tokens, i, j)),
            file,
        ),
    decreases j - i,
{
    if i < j {
        let m = flag_metric(tokens[i])->Some_0;
        lemma_resolve_from_flags(tokens, i + 1, j, acc.spec_insert(m), file);
        assert(acc.spec_insert(m).spec_union(flags_between(tokens, i + 1, j)) == acc.spec_union(
            flags_between(tokens, i, j),
        ));
    } else {
        assert(acc.spec_union(MetricSet::spec_empty()) == acc);
    }
}

/// The union over a range splits at any midpoint.
proof fn lemma_flags_between_split(tokens: Seq<Seq<char>>, i: int, mid: int, j: int)
    requires
        0 <= i <= mid <= j <= tokens.len(),
    ensures
        flags_between(tokens, i, j) == flags_between(tokens, i, mid).spec_union(
            flags_between(tokens, mid, j),
        ),
    decreases mid - i,
{
    if i < mid {
        lemma_flags_between_split(tokens, i + 1, mid, j);
        match flag_metric(tokens[i]) {
            Some(m) => {
                assert(flags_between(tokens, i + 1, mid).spec_insert(m).spec_union(
                    flags_between(tokens, mid, j),
                ) == flags_between(tokens, i + 1, j).spec_insert(m));
            },
            None => {},
        }
    } else {
        assert(MetricSet::spec_empty().spec_union(flags_between(tokens, mid, j)) == flags_between(
            tokens,
            mid,
            j,
        ));
    }
}

/// A selection built from flag tokens contains a metric exactly when some
/// token in the range selects it. Union is therefore commutative over the
/// token order and idempotent under duplicated flags: only which flags
/// occur matters.
pub proof fn lemma_flags_between_membership(tokens: Seq<Seq<char>>, i: int, j: int, m: Metric)
    requires
        0 <= i <= j <= tokens.len(),
    ensures
        flags_between(tokens, i, j).spec_has(m) <==> exists|k: int|
            i <= k < j && flag_metric(#[trigger] tokens[k]) == Some(m),
    decreases j - i,
{
    if i < j {
        lemma_flags_between_membership(tokens, i + 1, j, m);
        if flags_between(tokens, i, j).spec_has(m) {
            if flag_metric(tokens[i]) == Some(m) {
                assert(i <= i < j && flag_metric(tokens[i]) == Some(m));
            } else {
                assert(flags_between(tokens, i + 1, j).spec_has(m));
            }
        }
        if exists|k: int| i <= k < j && flag_metric(#[trigger] tokens[k]) == Some(m) {
            let k = choose|k: int| i <= k < j && flag_metric(#[trigger] tokens[k]) == Some(m);
            if k == i {
                assert(flags_between(tokens, i, j).spec_has(m));
            } else {
                assert(i + 1 <= k < j && flag_metric(tokens[k]) == Some(m));
                assert(flags_between(tokens, i + 1, j).spec_has(m));
            }
        }
    }
}

/// A token that does not begin with the flag marker matches no flag.
proof fn lemma_non_flag_token_no_metric(t: Seq<char>)
    requires
        !is_flag_token(t),
    ensures
        flag_metric(t) is None,
{
    assert(seq!['-', 'c'][0] == '-' && seq!['-', 'c'].len() == 2);
    assert(seq!['-', 'l'][0] == '-' && seq!['-', 'l'].len() == 2);
    assert(seq!['-', 'w'][0] == '-' && seq!['-', 'w'].len() == 2);
    assert(seq!['-', 'm'][0] == '-' && seq!['-', 'm'].len() == 2);
}

/// Resolving a sequence of recognized flag tokens around exactly one
/// non-flag token succeeds: the file is that token and the selection is
/// the union of the flags' metrics, the full set where no flag was given.
pub proof fn lemma_resolve_only_flags_one_file(tokens: Seq<Seq<char>>, k: int)
    requires
        0 <= k < tokens.len(),
        !is_flag_token(tokens[k]),
        forall|j: int|
            0 <= j < tokens.len() && j != k ==> is_flag_token(#[trigger] tokens[j]) && flag_metric(
                tokens[j],
            ) is Some,
    ensures
        spec_resolve(tokens) == (Resolution::Resolved {
            metrics: normalize(selected_flags(tokens)),
            file: tokens[k],
        }),
{
    let n = tokens.len() as int;
    let acc0 = MetricSet::spec_empty();
    lemma_resolve_from_flags(tokens, 0, k, acc0, None);
    let acc1 = acc0.spec_union(flags_between(tokens, 0, k));
    lemma_resolve_from_flags(tokens, k + 1, n, acc1, Some(tokens[k]));
    let acc2 = acc1.spec_union(flags_between(tokens, k + 1, n));
    lemma_non_flag_token_no_metric(tokens[k]);
    lemma_flags_between_split(tokens, 0, k, n);
    lemma_flags_between_split(tokens, k, k + 1, n);
    assert(flags_between(tokens, k, n) == flags_between(tokens, k + 1, n).spec_insert(
        flag_metric(tokens[k])->Some_0,
    ) || flags_between(tokens, k, n) == flags_between(tokens, k + 1, n));
    assert(acc2 == selected_flags(tokens));
}

/// With no flag tokens at all, a lone non-flag token resolves to the full
/// selection; no token resolves to `MissingFile`; two or more resolve to
/// `MultipleFiles`.
pub proof fn lemma_resolve_no_flag_tokens(tokens: Seq<Seq<char>>)
    requires
        forall|j: int| 0 <= j < tokens.len() ==> !is_flag_token(#[trigger] tokens[j]),
    ensures
        tokens.len() == 0 ==> spec_resolve(tokens) == Resolution::MissingFile,
        tokens.len() == 1 ==> spec_resolve(tokens) == (Resolution::Resolved {
            metrics: MetricSet::spec_full(),
            file: tokens[0],
        }),
        tokens.len() >= 2 ==> spec_resolve(tokens) == Resolution::MultipleFiles,
{
    let acc0 = MetricSet::spec_empty();
    if tokens.len() == 1 {
        assert(resolve_from(tokens, 0, acc0, None) == resolve_from(
            tokens,
            1,
            acc0,
            Some(tokens[0]),
        ));
    } else if tokens.len() >= 2 {
        assert(resolve_from(tokens, 0, acc0, None) == resolve_from(
            tokens,
            1,
            acc0,
            Some(tokens[0]),
        ));
        assert(resolve_from(tokens, 1, acc0, Some(tokens[0])) == Resolution::MultipleFiles);
    }
}

/// A second non-flag token makes resolution fail with `MultipleFiles`,
/// whatever follows it, provided every earlier flag token is recognized.
pub proof fn lemma_resolve_multiple_files(tokens: Seq<Seq<char>>, k1: int, k2: int)
    requires
        0 <= k1 < k2 < tokens.len(),
        !is_flag_token(tokens[k1]),
        !is_flag_token(tokens[k2]),
        forall|j: int|
            0 <= j < k2 && j != k1 ==> is_flag_token(#[trigger] tokens[j]) && flag_metric(
                tokens[j],
            ) is Some,
    ensures
        spec_resolve(tokens) == Resolution::MultipleFiles,
{
    let acc0 = MetricSet::spec_empty();
    lemma_resolve_from_flags(tokens, 0, k1, acc0, None);
    let acc1 = acc0.spec_union(flags_between(tokens, 0, k1));
    lemma_resolve_from_flags(tokens, k1 + 1, k2, acc1, Some(tokens[k1]));
}

/// With only recognized flag tokens and no file token at all, resolution
/// fails with `MissingFile`.
pub proof fn lemma_resolve_missing_file(tokens: Seq<Seq<char>>)
    requires
        forall|j: int|
            0 <= j < tokens.len() ==> is_flag_token(#[trigger] tokens[j]) && flag_metric(
                tokens[j],
            ) is Some,
    ensures
        spec_resolve(tokens) == Resolution::MissingFile,
{
    lemma_resolve_from_flags(
        tokens,
        0,
        tokens.len() as int,
        MetricSet::spec_empty(),
        None,
    );
}

/// The first unrecognized flag token makes resolution fail with
/// `InvalidFlag` carrying that token, whatever follows it, provided every
/// earlier token is a recognized flag.
pub proof fn lemma_resolve_invalid_flag(tokens: Seq<Seq<char>>, k: int)
    requires
        0 <= k < tokens.len(),
        is_flag_token(tokens[k]),
        flag_metric(tokens[k]) is None,
        forall|j: int|
            0 <= j < k ==> is_flag_token(#[trigger] tokens[j]) && flag_metric(tokens[j]) is Some,
    ensures
        spec_resolve(tokens) == (Resolution::InvalidFlag { token: tokens[k] }),
{
    lemma_resolve_from_flags(tokens, 0, k, MetricSet::spec_empty(), None);
}

/// The view of an optional owned token.
pub open spec fn file_view(file: Option<String>) -> Option<Seq<char>> {
    match file {
        Some(f) => Some(f@),
        None => None,
    }
}

/// Classifies one token: a recognized flag, the file, or an invalid flag.
fn classify_token(token: &String) -> (r: Result<Option<Metric>, ()>)
    ensures
        ({
            let t = token@;
            match r {
                Ok(Some(m)) => is_flag_token(t) && flag_metric(t) == Some(m),
                Ok(None) => !is_flag_token(t),
                Err(()) => is_flag_token(t) && flag_metric(t) is None,
            }
        }),
{
    let s = token.as_str();
    let n = s.unicode_len();
    if n == 0 {
        assert(!is_flag_token(token@));
        return Ok(None);
    }
    let first = s.get_char(0);
    if first != '-' {
        assert(!is_flag_token(token@));
        return Ok(None);
    }
    assert(is_flag_token(token@));
    if n == 2 {
        let second = s.get_char(1);
        if second == 'c' {
            assert(token@ =~= seq!['-', 'c']);
            return Ok(Some(Metric::Bytes));
        }
        if second == 'l' {
            assert(token@ =~= seq!['-', 'l']);
            return Ok(Some(Metric::Lines));
        }
        if second == 'w' {
            assert(token@ =~= seq!['-', 'w']);
            return Ok(Some(Metric::Words));
        }
        if second == 'm' {
            assert(token@ =~= seq!['-', 'm']);
            return Ok(Some(Metric::Chars));
        }
        proof {
            assert(token@ != seq!['-', 'c'] && token@ != seq!['-', 'l'] && token@ != seq!['-', 'w']
                && token@ != seq!['-', 'm']);
        }
        return Err(());
    }
    proof {
        assert(seq!['-', 'c'].len() == 2 && seq!['-', 'l'].len() == 2 && seq!['-', 'w'].len() == 2
            && seq!['-', 'm'].len() == 2);
        assert(token@ != seq!['-', 'c'] && token@ != seq!['-', 'l'] && token@ != seq!['-', 'w']
            && token@ != seq!['-', 'm']);
    }
    Err(())
}

/// Resolves the flag and file tokens of one invocation.
///
/// Each recognized flag contributes its metric to the selection by union:
/// duplicates are idempotent and order does not matter. A token that
/// begins with the marker but matches no flag fails with `InvalidFlag`; a
/// second non-flag token fails with `MultipleFiles`; no non-flag token at
/// all fails with `MissingFile`. With zero flag tokens the selection
/// defaults to the full set.
pub fn resolve(tokens: &Vec<String>) -> (r: Result<CountRequest, WcError>)
    ensures
        ({
            match spec_resolve(tokens.deep_view()) {
                Resolution::Resolved { metrics, file } => {
                    &&& r matches Ok(req)
                    &&& req.metrics == metrics
                    &&& !req.metrics.spec_is_empty()
                    &&& req.file_name@ == file
                },
                Resolution::InvalidFlag { token } => {
                    &&& r matches Err(e)
                    &&& e matches WcError::InvalidFlag(s)
                    &&& s@ == token
                },
                Resolution::MultipleFiles => r matches Err(e) && e matches WcError::MultipleFiles,
                Resolution::MissingFile => r matches Err(e) && e matches WcError::MissingFile,
            }
        }),
{
    let ghost dv = tokens.deep_view();
    let n = tokens.len();
    let mut selected = MetricSet::empty();
    let mut file: Option<String> = None;
    let mut idx: usize = 0;
    while idx < n
        invariant
            n == tokens@.len(),
            dv == tokens.deep_view(),
            idx <= n,
            spec_resolve(dv) == resolve_from(dv, idx as int, selected, file_view(file)),
        decreases n - idx,
    {
        let token = &tokens[idx];
        assert(dv[idx as int] == token@);
        match classify_token(token) {
            Ok(Some(m)) => {
                selected = selected.insert(m);
            },
            Ok(None) => {
                if file.is_some() {
                    return Err(WcError::MultipleFiles);
                }
                file = Some(token.clone());
            },
            Err(()) => {
                return Err(WcError::InvalidFlag(token.clone()));
            },
        }
        idx = idx + 1;
    }
    match file {
        Some(f) => {
            let metrics = if selected.is_empty() {
                MetricSet::full()
            } else {
                selected
            };
            Ok(CountRequest { metrics, file_name: f })
        },
        None => Err(WcError::MissingFile),
    }
}

/// A compact surface over the resolver: the selection encoded as a
/// bitmask beside the file name, one bit per metric.
pub struct ArgParser {
    pub bits: u32,
    pub file_name: String,
}

/// The bitmask a selection encodes to, one bit per metric.
pub open spec fn spec_bits(m: MetricSet) -> int {
    (if m.bytes {
        1int
    } else {
        0int
    }) + (if m.lines {
        2int
    } else {
        0int
    }) + (if m.words {
        4int
    } else {
        0int
    }) + (if m.chars {
        8int
    } else {
        0int
    })
}

impl ArgParser {
    pub const BYTES: u32 = 0b0001;

    pub const LINES: u32 = 0b0010;

    pub const WORDS: u32 = 0b0100;

    pub const CHARS: u32 = 0b1000;

    pub const ALL: u32 = 0b1111;

    /// Resolves the tokens and encodes the selection as a bitmask.
    pub fn from_args(args: Vec<String>) -> (r: Result<ArgParser, WcError>)
        ensures
            ({
                match spec_resolve(args.deep_view()) {
                    Resolution::Resolved { metrics, file } => {
                        &&& r matches Ok(p)
                        &&& p.bits == spec_bits(metrics)
                        &&& p.file_name@ == file
                    },
                    Resolution::InvalidFlag { token } => {
                        &&& r matches Err(e)
                        &&& e matches WcError::InvalidFlag(s)
                        &&& s@ == token
                    },
                    Resolution::MultipleFiles => r matches Err(e)
                        && e matches WcError::MultipleFiles,
                    Resolution::MissingFile => r matches Err(e) && e matches WcError::MissingFile,
                }
            }),
    {
        match resolve(&args) {
            Ok(req) => {
                let m = req.metrics;
                let bits = (if m.bytes {
                    1u32
                } else {
                    0u32
                }) + (if m.lines {
                    2u32
                } else {
                    0u32
                }) + (if m.words {
                    4u32
                } else {
                    0u32
                }) + (if m.chars {
                    8u32
                } else {
                    0u32
                });
                Ok(ArgParser { bits, file_name: req.file_name })
            },
            Err(e) => Err(e),
        }
    }
}

} // verus!
