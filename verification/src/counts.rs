//! The per-source metric record and its aggregation into a running total.

use vstd::prelude::*;

verus! {

/// One source's metrics. A field is meaningful only when the corresponding
/// option flag was set; otherwise it is zero.
pub struct Counts {
    pub lines: usize,
    pub words: usize,
    pub bytes: usize,
    pub chars: usize,
    pub max_line_length: usize,
}

/// The mathematical model of a `Counts` record, over unbounded integers.
pub ghost struct CountsModel {
    pub lines: int,
    pub words: int,
    pub bytes: int,
    pub chars: int,
    pub max_line_length: int,
}

impl View for Counts {
    type V = CountsModel;

    open spec fn view(&self) -> CountsModel {
        CountsModel {
            lines: self.lines as int,
            words: self.words as int,
            bytes: self.bytes as int,
            chars: self.chars as int,
            max_line_length: self.max_line_length as int,
        }
    }
}

/// Aggregation of two metric records: lines, words, bytes and chars add,
/// while the maximum line length takes the larger of the two.
pub open spec fn combined(a: CountsModel, b: CountsModel) -> CountsModel {
    CountsModel {
        lines: a.lines + b.lines,
        words: a.words + b.words,
        bytes: a.bytes + b.bytes,
        chars: a.chars + b.chars,
        max_line_length: if a.max_line_length >= b.max_line_length {
            a.max_line_length
        } else {
            b.max_line_length
        },
    }
}

/// The all-zero record, the identity of aggregation.
pub open spec fn zero_counts() -> CountsModel {
    CountsModel { lines: 0, words: 0, bytes: 0, chars: 0, max_line_length: 0 }
}

/// The aggregate of a sequence of metric records, combined left to right
/// starting from the all-zero record.
pub open spec fn aggregate(cs: Seq<CountsModel>) -> CountsModel
    decreases cs.len(),
{
    if cs.len() == 0 {
        zero_counts()
    } else {
        combined(aggregate(cs.drop_last()), cs.last())
    }
}

impl Default for Counts {
    /// The all-zero record.
    fn default() -> (c: Counts)
        ensures
            c@ == zero_counts(),
    {
        Counts { lines: 0, words: 0, bytes: 0, chars: 0, max_line_length: 0 }
    }
}

impl Counts {
    /// Accumulates another record into this one: the summed fields add and
    /// the maximum line length takes the larger value.
    pub fn add(&mut self, other: &Counts)
        requires
            old(self).lines + other.lines <= usize::MAX,
            old(self).words + other.words <= usize::MAX,
            old(self).bytes + other.bytes <= usize::MAX,
            old(self).chars + other.chars <= usize::MAX,
        ensures
            final(self)@ == combined(old(self)@, other@),
    {
        self.lines = self.lines + other.lines;
        self.words = self.words + other.words;
        self.bytes = self.bytes + other.bytes;
        self.chars = self.chars + other.chars;
        if other.max_line_length > self.max_line_length {
            self.max_line_length = other.max_line_length;
        }
    }
}

/// Aggregation is commutative: combining two records gives the same result
/// in either order.
pub proof fn lemma_combined_commutes(a: CountsModel, b: CountsModel)
    ensures
        combined(a, b) == combined(b, a),
{
}

/// Aggregation is associative.
pub proof fn lemma_combined_associative(a: CountsModel, b: CountsModel, c: CountsModel)
    ensures
        combined(combined(a, b), c) == combined(a, combined(b, c)),
{
}

/// The all-zero record is the identity of aggregation on records with
/// non-negative fields, as every record drawn from a `Counts` value is.
pub proof fn lemma_combined_zero(a: CountsModel)
    requires
        a.max_line_length >= 0,
    ensures
        combined(zero_counts(), a) == a,
        combined(a, zero_counts()) == a,
{
}

/// Splitting the source list anywhere and aggregating the two parts
/// separately, then combining, gives the aggregate of the whole list.
pub proof fn lemma_aggregate_split(xs: Seq<CountsModel>, ys: Seq<CountsModel>)
    requires
        forall|i: int| 0 <= i < xs.len() ==> (#[trigger] xs[i]).max_line_length >= 0,
    ensures
        aggregate(xs + ys) == combined(aggregate(xs), aggregate(ys)),
    decreases ys.len(),
{
    if ys.len() == 0 {
        assert(xs + ys =~= xs);
        lemma_aggregate_nonneg(xs);
        lemma_combined_zero(aggregate(xs));
    } else {
        assert((xs + ys).drop_last() =~= xs + ys.drop_last());
        assert((xs + ys).last() == ys.last());
        lemma_aggregate_split(xs, ys.drop_last());
        lemma_combined_associative(aggregate(xs), aggregate(ys.drop_last()), ys.last());
    }
}

/// The aggregate of records with non-negative maxima has a non-negative
/// maximum field.
pub proof fn lemma_aggregate_nonneg(xs: Seq<CountsModel>)
    requires
        forall|i: int| 0 <= i < xs.len() ==> (#[trigger] xs[i]).max_line_length >= 0,
    ensures
        aggregate(xs).max_line_length >= 0,
    decreases xs.len(),
{
    if xs.len() > 0 {
        lemma_aggregate_nonneg(xs.drop_last());
    }
}

} // verus!
