//! The metric selection model: which of the four counts a run computes.

use vstd::prelude::*;

verus! {

/// One independently selectable count.
#[derive(Clone, Copy, PartialEq, Eq, Structural, Debug)]
pub enum Metric {
    Bytes,
    Lines,
    Words,
    Chars,
}

/// A set over the four metrics.
///
/// The resolver builds one of these from the flag tokens; the counting
/// engine computes exactly the metrics it contains. A selection handed to
/// the engine by the resolver is never empty: an empty flag list is
/// normalized to the full set.
#[derive(Clone, Copy, PartialEq, Eq, Structural, Debug)]
pub struct MetricSet {
    pub bytes: bool,
    pub lines: bool,
    pub words: bool,
    pub chars: bool,
}

impl MetricSet {
    /// Membership: does the selection contain the given metric?
    pub open spec fn spec_has(self, m: Metric) -> bool {
        match m {
            Metric::Bytes => self.bytes,
            Metric::Lines => self.lines,
            Metric::Words => self.words,
            Metric::Chars => self.chars,
        }
    }

    pub open spec fn spec_is_empty(self) -> bool {
        !self.bytes && !self.lines && !self.words && !self.chars
    }

    pub open spec fn spec_insert(self, m: Metric) -> MetricSet {
        match m {
            Metric::Bytes => MetricSet { bytes: true, ..self },
            Metric::Lines => MetricSet { lines: true, ..self },
            Metric::Words => MetricSet { words: true, ..self },
            Metric::Chars => MetricSet { chars: true, ..self },
        }
    }

    pub open spec fn spec_union(self, other: MetricSet) -> MetricSet {
        MetricSet {
            bytes: self.bytes || other.bytes,
            lines: self.lines || other.lines,
            words: self.words || other.words,
            chars: self.chars || other.chars,
        }
    }

    /// The full selection {Bytes, Lines, Words, Chars}.
    pub open spec fn spec_full() -> MetricSet {
        MetricSet { bytes: true, lines: true, words: true, chars: true }
    }

    pub open spec fn spec_empty() -> MetricSet {
        MetricSet { bytes: false, lines: false, words: false, chars: false }
    }

    pub fn empty() -> (r: MetricSet)
        ensures
            r == MetricSet::spec_empty(),
    {
        MetricSet { bytes: false, lines: false, words: false, chars: false }
    }

    pub fn full() -> (r: MetricSet)
        ensures
            r == MetricSet::spec_full(),
    {
        MetricSet { bytes: true, lines: true, words: true, chars: true }
    }

    pub fn has(&self, m: Metric) -> (r: bool)
        ensures
            r == self.spec_has(m),
    {
        match m {
            Metric::Bytes => self.bytes,
            Metric::Lines => self.lines,
            Metric::Words => self.words,
            Metric::Chars => self.chars,
        }
    }

    pub fn is_empty(&self) -> (r: bool)
        ensures
            r == self.spec_is_empty(),
    {
        !self.bytes && !self.lines && !self.words && !self.chars
    }

    /// Add one metric to the selection; adding a metric twice changes nothing.
    pub fn insert(self, m: Metric) -> (r: MetricSet)
        ensures
            r == self.spec_insert(m),
            forall|m2: Metric| r.spec_has(m2) == (self.spec_has(m2) || m2 == m),
    {
        match m {
            Metric::Bytes => MetricSet { bytes: true, ..self },
            Metric::Lines => MetricSet { lines: true, ..self },
            Metric::Words => MetricSet { words: true, ..self },
            Metric::Chars => MetricSet { chars: true, ..self },
        }
    }

    /// Set union; commutative and idempotent.
    pub fn union(self, other: MetricSet) -> (r: MetricSet)
        ensures
            r == self.spec_union(other),
            forall|m: Metric| r.spec_has(m) == (self.spec_has(m) || other.spec_has(m)),
    {
        MetricSet {
            bytes: self.bytes || other.bytes,
            lines: self.lines || other.lines,
            words: self.words || other.words,
            chars: self.chars || other.chars,
        }
    }
}

/// What a successful resolution produces: the metrics to compute and the
/// file the counts are taken from. Built once per invocation and handed to
/// the counting engine unchanged.
#[derive(Debug)]
pub struct CountRequest {
    pub metrics: MetricSet,
    pub file_name: String,
}

/// The counts the engine produced. A field is `Some` exactly when the
/// originating selection contained the metric.
#[derive(Clone, Copy, PartialEq, Eq, Structural, Debug)]
pub struct CountResult {
    pub lines: Option<usize>,
    pub bytes: Option<usize>,
    pub words: Option<usize>,
    pub chars: Option<usize>,
}

} // verus!
