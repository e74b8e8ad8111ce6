//! The dead roll command: its flags, and the pairwise intersection of
//! detected spans.

use vstd::prelude::*;
use crate::commands::{ForceOptions, ProcessingOptions, ProcessingOverrides, carries_processing};
use crate::commands::deadroll::pipeline::{covers, in_span, lemma_covers_push, lemma_covers_concat};

pub mod analysis;
pub mod pipeline;

verus! {

/// The dead roll flags that were given, shaped like the `blackroll` section
/// of the configuration.
#[derive(Debug)]
pub struct BlackrollOverrides {
    pub min_duration: Option<usize>,
    pub min_db: Option<usize>,
    pub force: Option<bool>,
}

/// The flags of the dead roll command, nested like the configuration.
#[derive(Debug)]
pub struct Overrides {
    pub blackroll: BlackrollOverrides,
    pub processing: ProcessingOverrides,
}

/// The flags of the dead roll command.
#[derive(Debug)]
pub struct Options {
    pub min_duration: Option<usize>,
    pub min_db: Option<usize>,
    pub processing: ProcessingOptions,
    pub force: ForceOptions,
}

impl Options {
    /// Reshapes the flags into the nested layout of the configuration.
    pub fn overrides(&self) -> (o: Overrides)
        ensures
            o.blackroll.min_duration == self.min_duration,
            o.blackroll.min_db == self.min_db,
            o.blackroll.force == self.force.force,
            carries_processing(o.processing, self.processing.jobs, self.processing.threads_per_job,
                self.processing.paths),
            o.processing.jobs == self.processing.jobs,
            o.processing.threads_per_job == self.processing.threads_per_job,
            o.processing.paths.deep_view() == self.processing.paths.deep_view(),
    {
        Overrides {
            blackroll: BlackrollOverrides {
                min_duration: self.min_duration,
                min_db: self.min_db,
                force: self.force.overrides(),
            },
            processing: self.processing.overrides(),
        }
    }
}

/// The overlap of two spans, when it is not empty.
pub open spec fn overlap(x: (i64, i64), y: (i64, i64)) -> Option<(i64, i64)> {
    let start = if x.0 > y.0 { x.0 } else { y.0 };
    let end = if x.1 < y.1 { x.1 } else { y.1 };
    if start < end {
        Some((start, end))
    } else {
        None
    }
}

/// The non-empty overlaps of span `x` with each span of `b`, in order.
pub open spec fn overlaps_with(x: (i64, i64), b: Seq<(i64, i64)>) -> Seq<(i64, i64)>
    decreases b.len(),
{
    if b.len() == 0 {
        Seq::empty()
    } else {
        let rest = overlaps_with(x, b.drop_last());
        match overlap(x, b.last()) {
            Some(o) => rest.push(o),
            None => rest,
        }
    }
}

/// The non-empty overlaps of every span of `a` with every span of `b`, row
/// by row.
pub open spec fn pairwise_overlaps(a: Seq<(i64, i64)>, b: Seq<(i64, i64)>) -> Seq<(i64, i64)>
    decreases a.len(),
{
    if a.len() == 0 {
        Seq::empty()
    } else {
        pairwise_overlaps(a.drop_last(), b) + overlaps_with(a.last(), b)
    }
}

/// The non-empty overlaps of every span of `a` with every span of `b`,
/// taken row by row: for each span of `a`, its overlaps with the spans of
/// `b` in order.
pub fn intersect_ranges(a: &[(i64, i64)], b: &[(i64, i64)]) -> (result: Vec<(i64, i64)>)
    ensures
        result@ == pairwise_overlaps(a@, b@),
{
    let mut result: Vec<(i64, i64)> = Vec::new();
    let mut i: usize = 0;
    assert(a@.take(0) =~= Seq::<(i64, i64)>::empty());
    while i < a.len()
        invariant
            0 <= i <= a@.len(),
            result@ == pairwise_overlaps(a@.take(i as int), b@),
        decreases a@.len() - i,
    {
        let (a_start, a_end) = a[i];
        let ghost row_start = result@;
        let mut j: usize = 0;
        assert(b@.take(0) =~= Seq::<(i64, i64)>::empty());
        assert(row_start + overlaps_with(a@[i as int], b@.take(0)) =~= row_start);
        while j < b.len()
            invariant
                0 <= i < a@.len(),
                0 <= j <= b@.len(),
                a@[i as int] == (a_start, a_end),
                result@ == row_start + overlaps_with(a@[i as int], b@.take(j as int)),
            decreases b@.len() - j,
        {
            let (b_start, b_end) = b[j];
            let start = if a_start > b_start { a_start } else { b_start };
            let end = if a_end < b_end { a_end } else { b_end };
            assert(b@.take(j + 1).drop_last() == b@.take(j as int));
            assert(b@.take(j + 1).last() == b@[j as int]);
            if start < end {
                result.push((start, end));
                assert(result@ =~= row_start + overlaps_with(a@[i as int], b@.take(j + 1)));
            }
            j = j + 1;
        }
        assert(b@.take(b@.len() as int) == b@);
        assert(a@.take(i + 1).drop_last() == a@.take(i as int));
        assert(a@.take(i + 1).last() == a@[i as int]);
        i = i + 1;
    }
    assert(a@.take(a@.len() as int) == a@);
    result
}

proof fn lemma_overlaps_with_covers(x: (i64, i64), b: Seq<(i64, i64)>, t: int)
    ensures
        covers(overlaps_with(x, b), t) == (in_span(x, t) && covers(b, t)),
    decreases b.len(),
{
    if b.len() > 0 {
        let d = b.drop_last();
        lemma_overlaps_with_covers(x, d, t);
        assert(b == d.push(b.last()));
        lemma_covers_push(d, b.last(), t);
        match overlap(x, b.last()) {
            Some(o) => {
                lemma_covers_push(overlaps_with(x, d), o, t);
            },
            None => {},
        }
    }
}

/// The pairwise overlaps hold exactly the times that both `a` and `b` hold,
/// so they agree with the swept intersection up to canonical form.
pub proof fn law_pairwise_overlaps_cover_common_times(a: Seq<(i64, i64)>, b: Seq<(i64, i64)>, t: int)
    ensures
        covers(pairwise_overlaps(a, b), t) == (covers(a, t) && covers(b, t)),
    decreases a.len(),
{
    if a.len() > 0 {
        let d = a.drop_last();
        law_pairwise_overlaps_cover_common_times(d, b, t);
        lemma_overlaps_with_covers(a.last(), b, t);
        lemma_covers_concat(pairwise_overlaps(d, b), overlaps_with(a.last(), b), t);
        assert(a == d.push(a.last()));
        lemma_covers_push(d, a.last(), t);
    }
}

} // verus!
