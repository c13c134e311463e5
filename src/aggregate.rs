//! Gathering the fetch outcomes into the table: the failure policy, and the
//! stable sort by offset, largest first.
use vstd::prelude::*;
use vstd::seq_lib::*;
use crate::offset::offset_of_text;
use crate::record::{FetchError, OutputRow, TimezoneRecord, outcome_of, to_row};

verus! {

broadcast use {group_to_multiset_ensures, to_multiset_insert};

/// Offsets never increase from one row to a later one.
pub open spec fn sorted_desc(rows: Seq<OutputRow>) -> bool {
    forall|i: int, j: int| 0 <= i < j < rows.len() ==> rows[i].offset >= rows[j].offset
}

/// The rows of `rows` whose offset is `k`, in their order.
pub open spec fn with_offset(rows: Seq<OutputRow>, k: i8) -> Seq<OutputRow>
    decreases rows.len(),
{
    if rows.len() == 0 {
        Seq::empty()
    } else if rows.last().offset == k {
        with_offset(rows.drop_last(), k).push(rows.last())
    } else {
        with_offset(rows.drop_last(), k)
    }
}

/// `out` holds the rows of `inp`, largest offset first, rows of one offset
/// in the order they had in `inp`.
pub open spec fn stable_sort_desc_of(out: Seq<OutputRow>, inp: Seq<OutputRow>) -> bool {
    &&& sorted_desc(out)
    &&& out.to_multiset() == inp.to_multiset()
    &&& forall|k: i8| #[trigger] with_offset(out, k) == with_offset(inp, k)
}

/// The rows among the outcomes, in order.
pub open spec fn successes(outs: Seq<Result<OutputRow, FetchError>>) -> Seq<OutputRow>
    decreases outs.len(),
{
    if outs.len() == 0 {
        Seq::empty()
    } else {
        match outs.last() {
            Ok(row) => successes(outs.drop_last()).push(row),
            Err(_) => successes(outs.drop_last()),
        }
    }
}

/// The errors among the outcomes, in order.
pub open spec fn failures(outs: Seq<Result<OutputRow, FetchError>>) -> Seq<FetchError>
    decreases outs.len(),
{
    if outs.len() == 0 {
        Seq::empty()
    } else {
        match outs.last() {
            Ok(_) => failures(outs.drop_last()),
            Err(e) => failures(outs.drop_last()).push(e),
        }
    }
}

/// What to do with the rows when some zones failed.
#[derive(Clone, Copy, Debug, PartialEq, Eq, Structural)]
pub enum FailurePolicy {
    /// One failure voids the whole table.
    AllOrNothing,
    /// Every row that was fetched is shown, beside the errors.
    BestEffort,
}

/// The table to print and the errors met on the way.
pub struct Report {
    pub rows: Vec<OutputRow>,
    pub errors: Vec<FetchError>,
}

/// `rows` and `errors` are what the outcomes `outs` give under `policy`.
pub open spec fn report_of(
    outs: Seq<Result<OutputRow, FetchError>>,
    policy: FailurePolicy,
    rows: Seq<OutputRow>,
    errors: Seq<FetchError>,
) -> bool {
    &&& errors == failures(outs)
    &&& if policy == FailurePolicy::AllOrNothing && failures(outs).len() > 0 {
        rows.len() == 0
    } else {
        stable_sort_desc_of(rows, successes(outs))
    }
}

/// `outs` are the outcomes of `resps`, one for one.
pub open spec fn outcomes_of(
    resps: Seq<Result<TimezoneRecord, FetchError>>,
    outs: Seq<Result<OutputRow, FetchError>>,
) -> bool {
    &&& outs.len() == resps.len()
    &&& forall|i: int| 0 <= i < resps.len() ==> outcome_of(#[trigger] resps[i], outs[i])
}

/// An offset that some place on Earth keeps.
pub open spec fn valid_utc_offset(k: i8) -> bool {
    -12 <= k <= 14
}

/// The answer gives a valid UTC offset.
pub open spec fn good_response(resp: Result<TimezoneRecord, FetchError>) -> bool {
    match resp {
        Ok(rec) => match offset_of_text(rec.offset_hours@) {
            Some(k) => valid_utc_offset(k),
            None => false,
        },
        Err(_) => false,
    }
}

proof fn lemma_with_offset_add(a: Seq<OutputRow>, b: Seq<OutputRow>, k: i8)
    ensures
        with_offset(a + b, k) == with_offset(a, k) + with_offset(b, k),
    decreases b.len(),
{
    if b.len() == 0 {
        assert(a + b == a);
        assert(with_offset(b, k) == Seq::<OutputRow>::empty());
        assert(with_offset(a, k) + Seq::<OutputRow>::empty() == with_offset(a, k));
    } else {
        assert((a + b).drop_last() == a + b.drop_last());
        assert((a + b).last() == b.last());
        lemma_with_offset_add(a, b.drop_last(), k);
        if b.last().offset == k {
            assert(with_offset(a, k) + with_offset(b.drop_last(), k).push(b.last())
                == (with_offset(a, k) + with_offset(b.drop_last(), k)).push(b.last()));
        }
    }
}

proof fn lemma_with_offset_none(rows: Seq<OutputRow>, k: i8)
    requires
        forall|i: int| 0 <= i < rows.len() ==> (#[trigger] rows[i]).offset != k,
    ensures
        with_offset(rows, k) == Seq::<OutputRow>::empty(),
    decreases rows.len(),
{
    if rows.len() > 0 {
        lemma_with_offset_none(rows.drop_last(), k);
    }
}

/// Sorts rows by offset, largest first; rows with equal offsets keep their
/// order.
pub fn sort_rows(rows: Vec<OutputRow>) -> (r: Vec<OutputRow>)
    ensures
        stable_sort_desc_of(r@, rows@),
{
    let ghost orig = rows@;
    let mut rest = rows;
    let mut out: Vec<OutputRow> = Vec::new();
    let ghost mut done: int = 0;
    assert(orig.take(0) == Seq::<OutputRow>::empty());
    while rest.len() > 0
        invariant
            0 <= done <= orig.len(),
            rest@ == orig.skip(done),
            sorted_desc(out@),
            out@.to_multiset() == orig.take(done).to_multiset(),
            forall|k: i8| #[trigger] with_offset(out@, k) == with_offset(orig.take(done), k),
        decreases rest.len(),
    {
        let x = rest.remove(0);
        let mut p: usize = 0;
        while p < out.len() && out[p].offset >= x.offset
            invariant
                p <= out.len(),
                forall|j: int| 0 <= j < p ==> (#[trigger] out@[j]).offset >= x.offset,
            decreases out.len() - p,
        {
            p = p + 1;
        }
        let ghost before = out@;
        assert(forall|j: int| p <= j < before.len() ==> (#[trigger] before[j]).offset < x.offset)
            by {
            assert forall|j: int| p <= j < before.len() implies (#[trigger] before[j]).offset
                < x.offset by {
                assert(before[p as int].offset < x.offset);
            }
        }
        out.insert(p, x);
        proof {
            let xs = seq![x];
            let front = before.take(p as int);
            let back = before.skip(p as int);
            assert(before == front + back);
            assert(out@ == front + xs + back);
            assert(orig.skip(done)[0] == x);
            assert(orig.take(done + 1) == orig.take(done).push(x));
            assert(orig.take(done + 1).drop_last() == orig.take(done));
            assert(orig.skip(done + 1) == orig.skip(done).remove(0));
            assert forall|k: i8| #[trigger]
                with_offset(out@, k) == with_offset(orig.take(done + 1), k) by {
                lemma_with_offset_add(front, back, k);
                lemma_with_offset_add(front + xs, back, k);
                lemma_with_offset_add(front, xs, k);
                assert(xs.drop_last() == Seq::<OutputRow>::empty());
                assert(xs.last() == x);
                assert(with_offset(xs.drop_last(), k) == Seq::<OutputRow>::empty());
                assert(Seq::<OutputRow>::empty().push(x) == xs);
                assert(with_offset(before, k) == with_offset(orig.take(done), k));
                assert(orig.take(done + 1).last() == x);
                if k == x.offset {
                    lemma_with_offset_none(back, k);
                    assert(with_offset(xs, k) == seq![x]);
                    assert(with_offset(orig.take(done + 1), k) == with_offset(orig.take(done), k).push(x));
                    assert(with_offset(front, k) + seq![x] == with_offset(front, k).push(x));
                } else {
                    assert(with_offset(xs, k) == Seq::<OutputRow>::empty());
                    assert(with_offset(orig.take(done + 1), k) == with_offset(orig.take(done), k));
                    assert(with_offset(front, k) + Seq::<OutputRow>::empty() == with_offset(front, k));
                }
            }
            assert forall|i: int, j: int| 0 <= i < j < out@.len() implies out@[i].offset
                >= out@[j].offset by {
                if j < p {
                } else if j == p {
                    assert(out@[i] == before[i]);
                } else if i < p {
                    assert(out@[i] == before[i]);
                    assert(out@[j] == before[j - 1]);
                } else if i == p {
                    assert(out@[j] == before[j - 1]);
                } else {
                    assert(out@[i] == before[i - 1]);
                    assert(out@[j] == before[j - 1]);
                }
            }
            done = done + 1;
        }
    }
    assert(orig.take(done) == orig);
    out
}

/// Turns each fetch outcome into a row or an error, keeping their order.
pub fn rows_from_responses(resps: Vec<Result<TimezoneRecord, FetchError>>) -> (r: Vec<
    Result<OutputRow, FetchError>,
>)
    ensures
        outcomes_of(resps@, r@),
{
    let ghost orig = resps@;
    let mut rest = resps;
    let mut out: Vec<Result<OutputRow, FetchError>> = Vec::new();
    while rest.len() > 0
        invariant
            out.len() <= orig.len(),
            rest@ == orig.skip(out.len() as int),
            forall|i: int| 0 <= i < out.len() ==> outcome_of(#[trigger] orig[i], out@[i]),
        decreases rest.len(),
    {
        let ghost done = out.len() as int;
        let resp = rest.remove(0);
        assert(orig.skip(done)[0] == orig[done]);
        assert(orig.skip(done + 1) == orig.skip(done).remove(0));
        out.push(to_row(resp));
    }
    out
}

/// Splits the outcomes into rows and errors and applies the policy; the
/// rows come out sorted by offset, largest first, stably.
pub fn aggregate(outs: Vec<Result<OutputRow, FetchError>>, policy: FailurePolicy) -> (r: Report)
    ensures
        report_of(outs@, policy, r.rows@, r.errors@),
{
    let ghost orig = outs@;
    let mut rest = outs;
    let mut rows: Vec<OutputRow> = Vec::new();
    let mut errors: Vec<FetchError> = Vec::new();
    let ghost mut done: int = 0;
    assert(orig.take(0) == Seq::<Result<OutputRow, FetchError>>::empty());
    while rest.len() > 0
        invariant
            0 <= done <= orig.len(),
            rest@ == orig.skip(done),
            rows@ == successes(orig.take(done)),
            errors@ == failures(orig.take(done)),
        decreases rest.len(),
    {
        let o = rest.remove(0);
        proof {
            assert(orig.skip(done)[0] == o);
            assert(orig.skip(done + 1) == orig.skip(done).remove(0));
            assert(orig.take(done + 1).drop_last() == orig.take(done));
            assert(orig.take(done + 1).last() == o);
            done = done + 1;
        }
        match o {
            Ok(row) => rows.push(row),
            Err(e) => errors.push(e),
        }
    }
    assert(orig.take(done) == orig);
    if errors.len() > 0 && policy == FailurePolicy::AllOrNothing {
        Report { rows: Vec::new(), errors }
    } else {
        Report { rows: sort_rows(rows), errors }
    }
}

proof fn lemma_split_len(outs: Seq<Result<OutputRow, FetchError>>)
    ensures
        successes(outs).len() + failures(outs).len() == outs.len(),
    decreases outs.len(),
{
    if outs.len() > 0 {
        lemma_split_len(outs.drop_last());
    }
}

proof fn lemma_all_good(
    resps: Seq<Result<TimezoneRecord, FetchError>>,
    outs: Seq<Result<OutputRow, FetchError>>,
)
    requires
        outcomes_of(resps, outs),
        forall|i: int| 0 <= i < resps.len() ==> good_response(#[trigger] resps[i]),
    ensures
        failures(outs).len() == 0,
        successes(outs).len() == outs.len(),
        forall|i: int|
            0 <= i < successes(outs).len() ==> valid_utc_offset(#[trigger] successes(outs)[i].offset),
    decreases outs.len(),
{
    if outs.len() > 0 {
        let n = outs.len() - 1;
        assert(outcomes_of(resps.drop_last(), outs.drop_last())) by {
            assert forall|i: int| 0 <= i < resps.drop_last().len() implies outcome_of(
                #[trigger] resps.drop_last()[i],
                outs.drop_last()[i],
            ) by {
                assert(outcome_of(resps[i], outs[i]));
            }
        }
        lemma_all_good(resps.drop_last(), outs.drop_last());
        assert(outcome_of(resps[n], outs[n]));
        assert(good_response(resps[n]));
    }
}

/// When every zone answers with a valid offset, the table has one row per
/// zone, and every row's offset is a valid UTC offset, whatever the policy.
pub proof fn lemma_all_zones_answer(
    resps: Seq<Result<TimezoneRecord, FetchError>>,
    outs: Seq<Result<OutputRow, FetchError>>,
    policy: FailurePolicy,
    report: Report,
)
    requires
        forall|i: int| 0 <= i < resps.len() ==> good_response(#[trigger] resps[i]),
        outcomes_of(resps, outs),
        report_of(outs, policy, report.rows@, report.errors@),
    ensures
        report.rows@.len() == resps.len(),
        report.errors@.len() == 0,
        forall|i: int|
            0 <= i < report.rows@.len() ==> valid_utc_offset(#[trigger] report.rows@[i].offset),
{
    lemma_all_good(resps, outs);
    let rows = report.rows@;
    let succ = successes(outs);
    assert(rows.to_multiset() == succ.to_multiset());
    to_multiset_len(rows);
    to_multiset_len(succ);
    assert forall|i: int| 0 <= i < rows.len() implies valid_utc_offset(
        #[trigger] rows[i].offset,
    ) by {
        assert(rows.contains(rows[i]));
        to_multiset_contains(rows, rows[i]);
        to_multiset_contains(succ, rows[i]);
        assert(succ.contains(rows[i]));
        let j = choose|j: int| 0 <= j < succ.len() && succ[j] == rows[i];
        assert(valid_utc_offset(succ[j].offset));
    }
}

/// When exactly one zone fails, the error is reported once; the strict
/// policy then shows no rows, the lenient one a row for every other zone.
pub proof fn lemma_one_zone_fails(
    outs: Seq<Result<OutputRow, FetchError>>,
    policy: FailurePolicy,
    report: Report,
)
    requires
        failures(outs).len() == 1,
        report_of(outs, policy, report.rows@, report.errors@),
    ensures
        report.errors@.len() == 1,
        policy == FailurePolicy::AllOrNothing ==> report.rows@.len() == 0,
        policy == FailurePolicy::BestEffort ==> report.rows@.len() == outs.len() - 1,
{
    lemma_split_len(outs);
    to_multiset_len(report.rows@);
    to_multiset_len(successes(outs));
}

} // verus!
