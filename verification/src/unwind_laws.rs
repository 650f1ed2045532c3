//! What the two passes over an unwind table guarantee.

use vstd::prelude::*;
use crate::unwind_info::{
    distinct_prefix, in_function_order, markers_are_necessary, necessary_prefix, redundant_row,
    rules_are_distinct, strictly_sorted, unnecessary_marker, without_redundant,
    without_unnecessary_markers, CompactUnwindRow,
};

verus! {

/// Every row of the second table occurs in the first.
pub open spec fn rows_taken_from(part: Seq<CompactUnwindRow>, whole: Seq<CompactUnwindRow>) -> bool {
    forall|j: int| 0 <= j < part.len() ==> whole.contains(#[trigger] part[j])
}

proof fn lemma_necessary_prefix(rows: Seq<CompactUnwindRow>, n: int)
    requires
        0 <= n <= rows.len(),
    ensures
        necessary_prefix(rows, n).len() <= n,
        forall|j: int|
            0 <= j < necessary_prefix(rows, n).len() ==> exists|k: int|
                0 <= k < n && rows[k] == #[trigger] necessary_prefix(rows, n)[j],
        n > 0 && !unnecessary_marker(rows, n - 1) ==> necessary_prefix(rows, n).len() > 0
            && necessary_prefix(rows, n).last() == rows[n - 1],
    decreases n,
{
    if n > 0 {
        lemma_necessary_prefix(rows, n - 1);
        let p = necessary_prefix(rows, n - 1);
        let q = necessary_prefix(rows, n);
        assert forall|j: int| 0 <= j < q.len() implies exists|k: int|
            0 <= k < n && rows[k] == #[trigger] q[j] by {
            if j < p.len() {
                assert(q[j] == p[j]);
                let k = choose|k: int| 0 <= k < n - 1 && rows[k] == p[j];
                assert(0 <= k < n && rows[k] == q[j]);
            } else {
                assert(rows[n - 1] == q[j]);
            }
        }
    }
}

proof fn lemma_distinct_prefix(rows: Seq<CompactUnwindRow>, n: int)
    requires
        0 <= n <= rows.len(),
    ensures
        distinct_prefix(rows, n).len() <= n,
        forall|j: int|
            0 <= j < distinct_prefix(rows, n).len() ==> exists|k: int|
                0 <= k < n && rows[k] == #[trigger] distinct_prefix(rows, n)[j],
        n > 0 ==> distinct_prefix(rows, n).len() > 0 && distinct_prefix(rows, n).last().same_rule(
            rows[n - 1],
        ) && distinct_prefix(rows, n)[0] == rows[0],
        n > 0 && !redundant_row(rows, n - 1) ==> distinct_prefix(rows, n).last() == rows[n - 1],
        rules_are_distinct(distinct_prefix(rows, n)),
    decreases n,
{
    if n > 0 {
        lemma_distinct_prefix(rows, n - 1);
        let p = distinct_prefix(rows, n - 1);
        let q = distinct_prefix(rows, n);
        assert forall|j: int| 0 <= j < q.len() implies exists|k: int|
            0 <= k < n && rows[k] == #[trigger] q[j] by {
            if j < p.len() {
                assert(q[j] == p[j]);
                let k = choose|k: int| 0 <= k < n - 1 && rows[k] == p[j];
                assert(0 <= k < n && rows[k] == q[j]);
            } else {
                assert(rows[n - 1] == q[j]);
            }
        }
        assert forall|i: int| 0 < i < q.len() implies !(#[trigger] q[i]).same_rule(q[i - 1]) by {
            if i < p.len() {
                assert(q[i] == p[i] && q[i - 1] == p[i - 1]);
            }
        }
    }
}

/// Both passes keep rows of the table they are given, and no more rows than
/// it has; collapsing equal rules keeps the first row, and so the lowest
/// address, of the table.
pub proof fn lemma_passes_keep_rows(rows: Seq<CompactUnwindRow>)
    ensures
        without_unnecessary_markers(rows).len() <= rows.len(),
        without_redundant(rows).len() <= rows.len(),
        rows_taken_from(without_unnecessary_markers(rows), rows),
        rows_taken_from(without_redundant(rows), rows),
        rows.len() > 0 ==> without_redundant(rows).len() > 0 && without_redundant(rows)[0]
            == rows[0],
{
    lemma_necessary_prefix(rows, rows.len() as int);
    lemma_distinct_prefix(rows, rows.len() as int);
}

/// The last row of a table has no row after it, and stays where the
/// unnecessary markers go.
pub proof fn lemma_last_row_stays(rows: Seq<CompactUnwindRow>)
    requires
        rows.len() > 0,
    ensures
        without_unnecessary_markers(rows).len() > 0,
        without_unnecessary_markers(rows).last() == rows.last(),
{
    lemma_necessary_prefix(rows, rows.len() as int);
}

/// After equal rules are collapsed, no two neighbouring rows hold the same
/// rule.
pub proof fn lemma_without_redundant_is_distinct(rows: Seq<CompactUnwindRow>)
    ensures
        rules_are_distinct(without_redundant(rows)),
{
    lemma_distinct_prefix(rows, rows.len() as int);
}

proof fn lemma_distinct_prefix_fixed(rows: Seq<CompactUnwindRow>, n: int)
    requires
        0 <= n <= rows.len(),
        rules_are_distinct(rows),
    ensures
        distinct_prefix(rows, n) == rows.subrange(0, n),
    decreases n,
{
    if n > 0 {
        lemma_distinct_prefix_fixed(rows, n - 1);
        assert(!rows[n - 1].same_rule(rows[n - 2]) || n == 1);
        assert(rows.subrange(0, n) == rows.subrange(0, n - 1).push(rows[n - 1]));
    } else {
        assert(rows.subrange(0, 0) == Seq::<CompactUnwindRow>::empty());
    }
}

proof fn lemma_necessary_prefix_fixed(rows: Seq<CompactUnwindRow>, n: int)
    requires
        0 <= n <= rows.len(),
        markers_are_necessary(rows),
    ensures
        necessary_prefix(rows, n) == rows.subrange(0, n),
    decreases n,
{
    if n > 0 {
        lemma_necessary_prefix_fixed(rows, n - 1);
        assert(!unnecessary_marker(rows, n - 1));
        assert(rows.subrange(0, n) == rows.subrange(0, n - 1).push(rows[n - 1]));
    } else {
        assert(rows.subrange(0, 0) == Seq::<CompactUnwindRow>::empty());
    }
}

/// A table in which no two neighbours hold the same rule is left as it is.
pub proof fn lemma_without_redundant_fixed_point(rows: Seq<CompactUnwindRow>)
    requires
        rules_are_distinct(rows),
    ensures
        without_redundant(rows) == rows,
{
    lemma_distinct_prefix_fixed(rows, rows.len() as int);
    assert(rows.subrange(0, rows.len() as int) == rows);
}

/// A table without unnecessary markers is left as it is.
pub proof fn lemma_without_markers_fixed_point(rows: Seq<CompactUnwindRow>)
    requires
        markers_are_necessary(rows),
    ensures
        without_unnecessary_markers(rows) == rows,
{
    lemma_necessary_prefix_fixed(rows, rows.len() as int);
    assert(rows.subrange(0, rows.len() as int) == rows);
}

/// Collapsing equal rules twice gives what collapsing them once gives.
pub proof fn lemma_remove_redundant_idempotent(rows: Seq<CompactUnwindRow>)
    ensures
        without_redundant(without_redundant(rows)) == without_redundant(rows),
{
    lemma_without_redundant_is_distinct(rows);
    lemma_without_redundant_fixed_point(without_redundant(rows));
}

proof fn lemma_necessary_prefix_sorted(rows: Seq<CompactUnwindRow>, n: int)
    requires
        0 <= n <= rows.len(),
        strictly_sorted(rows),
    ensures
        strictly_sorted(necessary_prefix(rows, n)),
        markers_are_necessary(necessary_prefix(rows, n)),
        n > 0 ==> forall|j: int|
            0 <= j < necessary_prefix(rows, n).len() ==> (#[trigger] necessary_prefix(
                rows,
                n,
            )[j]).pc <= rows[n - 1].pc,
        n > 0 && unnecessary_marker(rows, n - 1) ==> forall|j: int|
            0 <= j < necessary_prefix(rows, n).len() ==> (#[trigger] necessary_prefix(
                rows,
                n,
            )[j]).pc < rows[n - 1].pc,
    decreases n,
{
    if n > 0 {
        lemma_necessary_prefix_sorted(rows, n - 1);
        lemma_necessary_prefix(rows, n - 1);
        let p = necessary_prefix(rows, n - 1);
        let q = necessary_prefix(rows, n);
        if n > 1 {
            assert(rows[n - 2].pc < rows[n - 1].pc);
        }
        if !unnecessary_marker(rows, n - 1) {
            assert(q == p.push(rows[n - 1]));
            assert forall|i: int| 0 <= i < q.len() implies !unnecessary_marker(q, i) by {
                if i + 1 < p.len() {
                    assert(q[i] == p[i] && q[i + 1] == p[i + 1]);
                    assert(!unnecessary_marker(p, i));
                } else if i + 1 == p.len() {
                    assert(q[i] == p.last());
                    assert(q[i + 1] == rows[n - 1]);
                    if !unnecessary_marker(rows, n - 2) {
                        assert(p.last() == rows[n - 2]);
                    } else {
                        assert(p[i].pc < rows[n - 2].pc);
                    }
                }
            }
            assert forall|i: int, j: int| 0 <= i < j < q.len() implies q[i].pc < q[j].pc by {
                if j < p.len() {
                    assert(q[i] == p[i] && q[j] == p[j]);
                } else {
                    assert(q[i] == p[i]);
                    assert(p[i].pc <= rows[n - 2].pc);
                }
            }
        }
    }
}

/// Of a table in strictly rising order, the first pass leaves one in
/// strictly rising order in which no marker is unnecessary.
pub proof fn lemma_without_markers_is_tight(rows: Seq<CompactUnwindRow>)
    requires
        strictly_sorted(rows),
    ensures
        strictly_sorted(without_unnecessary_markers(rows)),
        markers_are_necessary(without_unnecessary_markers(rows)),
{
    lemma_necessary_prefix_sorted(rows, rows.len() as int);
}

/// On a table in strictly rising order, dropping the unnecessary markers
/// twice gives what dropping them once gives.
pub proof fn lemma_remove_markers_idempotent(rows: Seq<CompactUnwindRow>)
    requires
        strictly_sorted(rows),
    ensures
        without_unnecessary_markers(without_unnecessary_markers(rows))
            == without_unnecessary_markers(rows),
{
    lemma_without_markers_is_tight(rows);
    lemma_without_markers_fixed_point(without_unnecessary_markers(rows));
}

proof fn lemma_distinct_prefix_sorted(rows: Seq<CompactUnwindRow>, n: int)
    requires
        0 <= n <= rows.len(),
        strictly_sorted(rows),
        markers_are_necessary(rows),
    ensures
        strictly_sorted(distinct_prefix(rows, n)),
        markers_are_necessary(distinct_prefix(rows, n)),
        n > 0 ==> forall|j: int|
            0 <= j < distinct_prefix(rows, n).len() ==> (#[trigger] distinct_prefix(
                rows,
                n,
            )[j]).pc <= rows[n - 1].pc,
        n > 0 && redundant_row(rows, n - 1) ==> forall|j: int|
            0 <= j < distinct_prefix(rows, n).len() ==> (#[trigger] distinct_prefix(
                rows,
                n,
            )[j]).pc < rows[n - 1].pc,
    decreases n,
{
    if n > 0 {
        lemma_distinct_prefix_sorted(rows, n - 1);
        lemma_distinct_prefix(rows, n - 1);
        let p = distinct_prefix(rows, n - 1);
        let q = distinct_prefix(rows, n);
        if n > 1 {
            assert(rows[n - 2].pc < rows[n - 1].pc);
        }
        if !redundant_row(rows, n - 1) {
            assert(q == p.push(rows[n - 1]));
            assert forall|i: int| 0 <= i < q.len() implies !unnecessary_marker(q, i) by {
                if i + 1 < p.len() {
                    assert(q[i] == p[i] && q[i + 1] == p[i + 1]);
                    assert(!unnecessary_marker(p, i));
                } else if i + 1 == p.len() {
                    assert(q[i] == p.last());
                    assert(q[i + 1] == rows[n - 1]);
                    if !redundant_row(rows, n - 2) {
                        assert(p.last() == rows[n - 2]);
                        assert(!unnecessary_marker(rows, n - 2));
                    } else {
                        assert(p[i].pc < rows[n - 2].pc);
                    }
                }
            }
            assert forall|i: int, j: int| 0 <= i < j < q.len() implies q[i].pc < q[j].pc by {
                if j < p.len() {
                    assert(q[i] == p[i] && q[j] == p[j]);
                } else {
                    assert(q[i] == p[i]);
                    assert(p[i].pc <= rows[n - 2].pc);
                }
            }
        }
    }
}

proof fn lemma_tight_table_optimized(tight: Seq<CompactUnwindRow>)
    requires
        strictly_sorted(tight),
        markers_are_necessary(tight),
    ensures
        ({
            let optimized = without_redundant(tight);
            &&& strictly_sorted(optimized)
            &&& rules_are_distinct(optimized)
            &&& markers_are_necessary(optimized)
            &&& without_redundant(optimized) == optimized
            &&& without_unnecessary_markers(optimized) == optimized
        }),
{
    lemma_distinct_prefix_sorted(tight, tight.len() as int);
    lemma_without_redundant_is_distinct(tight);
    let optimized = without_redundant(tight);
    lemma_without_redundant_fixed_point(optimized);
    lemma_without_markers_fixed_point(optimized);
}

/// Of a table in strictly rising order, the two passes one after the other
/// leave a table in strictly rising order in which no two neighbours hold
/// the same rule and no marker is unnecessary; either pass then leaves it
/// as it is.
pub proof fn lemma_optimized_table(rows: Seq<CompactUnwindRow>)
    requires
        strictly_sorted(rows),
    ensures
        ({
            let optimized = without_redundant(without_unnecessary_markers(rows));
            &&& strictly_sorted(optimized)
            &&& rules_are_distinct(optimized)
            &&& markers_are_necessary(optimized)
            &&& without_redundant(optimized) == optimized
            &&& without_unnecessary_markers(optimized) == optimized
        }),
{
    lemma_without_markers_is_tight(rows);
    lemma_tight_table_optimized(without_unnecessary_markers(rows));
}

proof fn lemma_necessary_prefix_of_functions(rows: Seq<CompactUnwindRow>, n: int)
    requires
        0 <= n <= rows.len(),
        in_function_order(rows),
    ensures
        strictly_sorted(necessary_prefix(rows, n)),
        markers_are_necessary(necessary_prefix(rows, n)),
        n > 0 ==> forall|j: int|
            0 <= j < necessary_prefix(rows, n).len() ==> (#[trigger] necessary_prefix(
                rows,
                n,
            )[j]).pc <= rows[n - 1].pc,
        n > 0 && unnecessary_marker(rows, n - 1) ==> forall|j: int|
            0 <= j < necessary_prefix(rows, n).len() ==> (#[trigger] necessary_prefix(
                rows,
                n,
            )[j]).pc < rows[n - 1].pc,
    decreases n,
{
    if n > 0 {
        lemma_necessary_prefix_of_functions(rows, n - 1);
        lemma_necessary_prefix(rows, n - 1);
        let p = necessary_prefix(rows, n - 1);
        let q = necessary_prefix(rows, n);
        if n > 1 {
            assert(rows[n - 2].pc <= rows[(n - 2) + 1].pc);
        }
        if unnecessary_marker(rows, n - 1) {
            // The row before a marker is no marker, and so lies lower.
            assert forall|j: int| 0 <= j < q.len() implies (#[trigger] q[j]).pc < rows[n
                - 1].pc by {
                assert(rows[n - 2].pc < rows[n - 1].pc);
            }
        } else {
            assert(q == p.push(rows[n - 1]));
            assert forall|i: int, j: int| 0 <= i < j < q.len() implies q[i].pc < q[j].pc by {
                if j < p.len() {
                    assert(q[i] == p[i] && q[j] == p[j]);
                } else {
                    assert(q[i] == p[i]);
                    assert(p[i].pc <= rows[n - 2].pc);
                    if !unnecessary_marker(rows, n - 2) {
                        assert(rows[n - 2].pc < rows[n - 1].pc);
                    }
                }
            }
            assert forall|i: int| 0 <= i < q.len() implies !unnecessary_marker(q, i) by {
                if i + 1 < p.len() {
                    assert(q[i] == p[i] && q[i + 1] == p[i + 1]);
                    assert(!unnecessary_marker(p, i));
                } else if i + 1 == p.len() {
                    assert(q[i] == p.last());
                    assert(q[i + 1] == rows[n - 1]);
                    if !unnecessary_marker(rows, n - 2) {
                        assert(p.last() == rows[n - 2]);
                    } else {
                        // The marker at `n - 2` went; the row before it
                        // is no marker and stayed.
                        assert(p == necessary_prefix(rows, n - 2));
                        assert(n - 2 > 0);
                        lemma_necessary_prefix(rows, n - 2);
                        assert(rows[n - 3].is_end_marker() ==> !rows[(n - 3) + 1].is_end_marker());
                        assert(!unnecessary_marker(rows, n - 3));
                        assert(p.last() == rows[n - 3]);
                    }
                }
            }
        }
    }
}

/// Of a table that comes function by function, the first pass leaves one
/// in strictly rising order in which no marker is unnecessary: the marker
/// of a function goes where the next function begins at its address or
/// right after it.
pub proof fn lemma_functions_without_markers(rows: Seq<CompactUnwindRow>)
    requires
        in_function_order(rows),
    ensures
        strictly_sorted(without_unnecessary_markers(rows)),
        markers_are_necessary(without_unnecessary_markers(rows)),
        without_unnecessary_markers(without_unnecessary_markers(rows))
            == without_unnecessary_markers(rows),
{
    lemma_necessary_prefix_of_functions(rows, rows.len() as int);
    lemma_without_markers_fixed_point(without_unnecessary_markers(rows));
}

/// Of a table that comes function by function, the two passes one after
/// the other leave a table in strictly rising order in which no two
/// neighbours hold the same rule and no marker is unnecessary; either pass
/// then leaves it as it is.
pub proof fn lemma_optimized_functions(rows: Seq<CompactUnwindRow>)
    requires
        in_function_order(rows),
    ensures
        ({
            let optimized = without_redundant(without_unnecessary_markers(rows));
            &&& strictly_sorted(optimized)
            &&& rules_are_distinct(optimized)
            &&& markers_are_necessary(optimized)
            &&& without_redundant(optimized) == optimized
            &&& without_unnecessary_markers(optimized) == optimized
        }),
{
    lemma_functions_without_markers(rows);
    lemma_tight_table_optimized(without_unnecessary_markers(rows));
}

} // verus!
