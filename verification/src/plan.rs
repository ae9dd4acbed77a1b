//! Splitting a request into sub-batches of bounded memory.

use vstd::prelude::*;

verus! {

/// The greatest of `lengths[start..end]`, or 0 for an empty range.
pub open spec fn longest(lengths: Seq<usize>, start: int, end: int) -> int
    decreases end - start,
{
    if start >= end {
        0
    } else {
        let before = longest(lengths, start, end - 1);
        if before >= lengths[end - 1] {
            before
        } else {
            lengths[end - 1] as int
        }
    }
}

/// Tokens in a forward pass over `[start, end)`, padding included: every row is
/// padded to the longest.
pub open spec fn padded_tokens(lengths: Seq<usize>, start: int, end: int) -> int {
    (end - start) * longest(lengths, start, end)
}

/// `ranges` are non-empty, adjoin one another in order, and cover `0..n`.
pub open spec fn tiles(n: int, ranges: Seq<(usize, usize)>) -> bool {
    &&& forall|i: int| 0 <= i < ranges.len() ==> (#[trigger] ranges[i]).0 < ranges[i].1
    &&& forall|i: int, j: int|
        0 <= i && j == i + 1 && j < ranges.len() ==> #[trigger] ranges[i].1 == #[trigger] ranges[j].0
    &&& if ranges.len() == 0 {
        n == 0
    } else {
        ranges[0].0 == 0 && ranges.last().1 == n
    }
}

/// A range may hold several items only within the budget; one item is always allowed.
pub open spec fn allowed(lengths: Seq<usize>, budget: usize, range: (usize, usize)) -> bool {
    range.1 - range.0 == 1 || padded_tokens(lengths, range.0 as int, range.1 as int) <= budget
}

/// No further item could have joined the range.
pub open spec fn full(lengths: Seq<usize>, budget: usize, range: (usize, usize)) -> bool {
    range.1 < lengths.len() ==> padded_tokens(lengths, range.0 as int, range.1 + 1) > budget
}

/// The division of `lengths` into sub-batches: in order, without gaps, each as long
/// as the budget allows.
pub open spec fn is_plan(lengths: Seq<usize>, budget: usize, ranges: Seq<(usize, usize)>) -> bool {
    &&& tiles(lengths.len() as int, ranges)
    &&& forall|i: int|
        0 <= i < ranges.len() ==> allowed(lengths, budget, #[trigger] ranges[i]) && full(
            lengths,
            budget,
            ranges[i],
        )
}

/// Partition `lengths` (token counts, in input order) into contiguous
/// `[start, end)` sub-batch ranges such that, for each range, rows × (longest in
/// the range) is within `max_batch_tokens`, the quantity that bounds a forward
/// pass's activation memory. A single item is always emitted as its own range even
/// if it alone exceeds the budget: a text's sequence cannot be split without
/// changing its embedding.
pub fn plan_subbatches(lengths: &[usize], max_batch_tokens: usize) -> (ranges: Vec<(usize, usize)>)
    ensures
        is_plan(lengths@, max_batch_tokens, ranges@),
{
    let mut ranges: Vec<(usize, usize)> = Vec::new();
    let mut start: usize = 0;
    while start < lengths.len()
        invariant
            start <= lengths.len(),
            tiles(start as int, ranges@),
            forall|i: int|
                0 <= i < ranges.len() ==> allowed(lengths@, max_batch_tokens, #[trigger] ranges[i])
                    && full(lengths@, max_batch_tokens, ranges[i]),
        decreases lengths.len() - start,
    {
        let mut end: usize = start;
        let mut max_seq: usize = 0;
        while end < lengths.len()
            invariant
                start <= end <= lengths.len(),
                start < lengths.len(),
                max_seq == longest(lengths@, start as int, end as int),
                end > start ==> allowed(lengths@, max_batch_tokens, (start, end)),
            ensures
                start < end,
                full(lengths@, max_batch_tokens, (start, end)),
            decreases lengths.len() - end,
        {
            let new_max: usize = if max_seq >= lengths[end] {
                max_seq
            } else {
                lengths[end]
            };
            let rows: usize = end - start + 1;
            assert(new_max == longest(lengths@, start as int, end + 1));
            let over: bool = match rows.checked_mul(new_max) {
                Some(tokens) => tokens > max_batch_tokens,
                None => true,
            };
            // The first item always goes in; any other only within the budget.
            if rows > 1 && over {
                break;
            }
            max_seq = new_max;
            end += 1;
        }
        ranges.push((start, end));
        start = end;
    }
    ranges
}

proof fn lemma_longest_grows(lengths: Seq<usize>, start: int, mid: int, end: int)
    requires
        start <= mid <= end,
    ensures
        0 <= longest(lengths, start, mid) <= longest(lengths, start, end),
    decreases end - start,
{
    if mid < end {
        lemma_longest_grows(lengths, start, mid, end - 1);
    } else if start < end {
        lemma_longest_grows(lengths, start, end - 1, end - 1);
    }
}

proof fn lemma_padded_tokens_grow(lengths: Seq<usize>, start: int, mid: int, end: int)
    requires
        start <= mid <= end,
    ensures
        padded_tokens(lengths, start, mid) <= padded_tokens(lengths, start, end),
{
    lemma_longest_grows(lengths, start, mid, end);
    let a = mid - start;
    let b = end - start;
    let x = longest(lengths, start, mid);
    let y = longest(lengths, start, end);
    assert(a * x <= b * y) by (nonlinear_arith)
        requires
            0 <= a <= b,
            0 <= x <= y,
    ;
}

/// `longest` is the maximum: no item of the range exceeds it, and in a non-empty
/// range some item reaches it.
pub proof fn law_longest_is_maximum(lengths: Seq<usize>, start: int, end: int)
    requires
        0 <= start <= end <= lengths.len(),
    ensures
        forall|i: int| start <= i < end ==> #[trigger] lengths[i] <= longest(lengths, start, end),
        start < end ==> exists|i: int|
            start <= i < end && #[trigger] lengths[i] == longest(lengths, start, end),
    decreases end - start,
{
    if start < end {
        law_longest_is_maximum(lengths, start, end - 1);
        if longest(lengths, start, end - 1) >= lengths[end - 1] && start < end - 1 {
            let i = choose|i: int|
                start <= i < end - 1 && #[trigger] lengths[i] == longest(lengths, start, end - 1);
            assert(lengths[i] == longest(lengths, start, end));
        } else {
            assert(lengths[end - 1] == longest(lengths, start, end));
        }
    }
}

proof fn lemma_same_prefix(
    lengths: Seq<usize>,
    budget: usize,
    a: Seq<(usize, usize)>,
    b: Seq<(usize, usize)>,
    n: int,
)
    requires
        is_plan(lengths, budget, a),
        is_plan(lengths, budget, b),
        0 <= n <= a.len(),
    ensures
        n <= b.len(),
        a.take(n) == b.take(n),
    decreases n,
{
    if n > 0 {
        lemma_same_prefix(lengths, budget, a, b, n - 1);
        let i = n - 1;
        if i > 0 {
            assert(a.take(i)[i - 1] == b.take(i)[i - 1]);
            assert(a[i - 1] == b[i - 1]);
            assert(a[i - 1].1 == a[i].0);
            if i == b.len() {
                assert(b.last() == b[i - 1]);
                lemma_ends_rise(a, i, a.len() - 1);
            }
            assert(b[i - 1].1 == b[i].0);
        } else {
            lemma_ends_rise(a, 0, a.len() - 1);
        }
        assert(a[i].0 == b[i].0);
        lemma_ends_rise(a, i, a.len() - 1);
        lemma_ends_rise(b, i, b.len() - 1);
        assert(allowed(lengths, budget, a[i]) && full(lengths, budget, a[i]));
        assert(allowed(lengths, budget, b[i]) && full(lengths, budget, b[i]));
        let start = a[i].0 as int;
        if a[i].1 < b[i].1 {
            lemma_padded_tokens_grow(lengths, start, a[i].1 + 1, b[i].1 as int);
        } else if b[i].1 < a[i].1 {
            lemma_padded_tokens_grow(lengths, start, b[i].1 + 1, a[i].1 as int);
        }
        assert(a.take(n) =~= a.take(i).push(a[i]));
        assert(b.take(n) =~= b.take(i).push(b[i]));
    }
}

proof fn lemma_ends_rise(ranges: Seq<(usize, usize)>, i: int, j: int)
    requires
        0 <= i <= j < ranges.len(),
        forall|i: int| 0 <= i < ranges.len() ==> (#[trigger] ranges[i]).0 < ranges[i].1,
        forall|i: int, j: int|
            0 <= i && j == i + 1 && j < ranges.len() ==> #[trigger] ranges[i].1
                == #[trigger] ranges[j].0,
    ensures
        ranges[i].1 <= ranges[j].1,
        i < j ==> ranges[i].1 <= ranges[j].0,
        ranges[i].0 <= ranges[j].0,
    decreases j - i,
{
    if i < j {
        lemma_ends_rise(ranges, i, j - 1);
        assert(ranges[j - 1].1 == ranges[j].0);
    }
}

/// The plan is determined by the lengths and the budget.
pub proof fn law_plan_is_unique(
    lengths: Seq<usize>,
    budget: usize,
    a: Seq<(usize, usize)>,
    b: Seq<(usize, usize)>,
)
    requires
        is_plan(lengths, budget, a),
        is_plan(lengths, budget, b),
    ensures
        a == b,
{
    lemma_same_prefix(lengths, budget, a, b, a.len() as int);
    lemma_same_prefix(lengths, budget, b, a, b.len() as int);
    assert(a.take(a.len() as int) =~= a);
    assert(b.take(b.len() as int) =~= b);
}

/// Some range holds the item.
pub open spec fn is_covered(ranges: Seq<(usize, usize)>, item: int) -> bool {
    exists|i: int| 0 <= i < ranges.len() && (#[trigger] ranges[i]).0 <= item < ranges[i].1
}

/// Every input falls into exactly one range, and ranges come in input order.
pub proof fn law_plan_covers_each_item_once(
    lengths: Seq<usize>,
    budget: usize,
    ranges: Seq<(usize, usize)>,
)
    requires
        is_plan(lengths, budget, ranges),
    ensures
        forall|i: int|
            0 <= i < ranges.len() ==> (#[trigger] ranges[i]).0 < ranges[i].1 <= lengths.len(),
        forall|item: int| 0 <= item < lengths.len() ==> #[trigger] is_covered(ranges, item),
        forall|i: int, j: int|
            0 <= i < j < ranges.len() ==> (#[trigger] ranges[i]).1 <= (#[trigger] ranges[j]).0,
{
    assert forall|i: int| 0 <= i < ranges.len() implies (#[trigger] ranges[i]).1
        <= lengths.len() by {
        lemma_ends_rise(ranges, i, ranges.len() - 1);
    }
    assert forall|i: int, j: int| 0 <= i < j < ranges.len() implies (#[trigger] ranges[i]).1 <= (
    #[trigger] ranges[j]).0 by {
        lemma_ends_rise(ranges, i, j);
    }
    assert forall|item: int| 0 <= item < lengths.len() implies #[trigger] is_covered(
        ranges,
        item,
    ) by {
        lemma_item_is_covered(ranges, item, ranges.len() - 1);
    }
}

proof fn lemma_item_is_covered(ranges: Seq<(usize, usize)>, item: int, last: int)
    requires
        0 <= last < ranges.len(),
        ranges[0].0 == 0,
        0 <= item < ranges[last].1,
        forall|i: int, j: int|
            0 <= i && j == i + 1 && j < ranges.len() ==> #[trigger] ranges[i].1
                == #[trigger] ranges[j].0,
    ensures
        is_covered(ranges, item),
    decreases last,
{
    if item < ranges[last].0 {
        assert(ranges[last - 1].1 == ranges[last].0);
        lemma_item_is_covered(ranges, item, last - 1);
    }
}

/// Peak memory follows the budget and the longest single text, never the number of
/// texts: a range costs at most the budget, or is one text and costs its own length.
pub proof fn law_run_cost_is_bounded(
    lengths: Seq<usize>,
    budget: usize,
    ranges: Seq<(usize, usize)>,
    i: int,
)
    requires
        is_plan(lengths, budget, ranges),
        0 <= i < ranges.len(),
    ensures
        ({
            let (start, end) = ranges[i];
            let cost = padded_tokens(lengths, start as int, end as int);
            cost <= budget || (end == start + 1 && cost == lengths[start as int])
        }),
{
    let start = ranges[i].0 as int;
    let end = ranges[i].1 as int;
    assert(allowed(lengths, budget, ranges[i]));
    if end == start + 1 {
        assert(longest(lengths, start, start) == 0);
        assert(longest(lengths, start, end) == lengths[start]);
        assert(1 * longest(lengths, start, end) == longest(lengths, start, end));
    }
}

/// With a budget of at least the longest text the tokenizer can give, every run
/// stays within the budget, single texts included.
pub proof fn law_floored_budget_bounds_every_run(
    lengths: Seq<usize>,
    budget: usize,
    max_len: usize,
    ranges: Seq<(usize, usize)>,
)
    requires
        is_plan(lengths, budget, ranges),
        max_len <= budget,
        forall|i: int| 0 <= i < lengths.len() ==> #[trigger] lengths[i] <= max_len,
    ensures
        forall|i: int|
            0 <= i < ranges.len() ==> padded_tokens(
                lengths,
                (#[trigger] ranges[i]).0 as int,
                ranges[i].1 as int,
            ) <= budget,
{
    law_plan_covers_each_item_once(lengths, budget, ranges);
    assert forall|i: int| 0 <= i < ranges.len() implies padded_tokens(
        lengths,
        (#[trigger] ranges[i]).0 as int,
        ranges[i].1 as int,
    ) <= budget by {
        law_run_cost_is_bounded(lengths, budget, ranges, i);
    }
}

/// A plan keeps the order of the texts and leaves none out: from the first text to the
/// last, each sub-batch holds at least one text and begins where the one before ends.
pub proof fn law_plan_runs_from_first_to_last(
    lengths: &[usize],
    budget: usize,
    ranges: Vec<(usize, usize)>,
)
    requires
        call_ensures(plan_subbatches, (lengths, budget), ranges),
    ensures
        lengths@.len() == 0 <==> ranges@.len() == 0,
        ranges@.len() > 0 ==> ranges@[0].0 == 0 && ranges@[ranges@.len() - 1].1 == lengths@.len(),
        forall|k: int|
            0 <= k < ranges@.len() ==> (#[trigger] ranges@[k]).0 < ranges@[k].1 <= lengths@.len(),
        forall|k: int, next: int|
            0 <= k && next == k + 1 && next < ranges@.len() ==> (#[trigger] ranges@[k]).1 == (
            #[trigger] ranges@[next]).0,
{
    law_plan_covers_each_item_once(lengths@, budget, ranges@);
}

/// A sub-batch of several texts is within the budget: its number of texts times the
/// length `m` of its longest, which is what it costs once padded.
pub proof fn law_sub_batch_is_within_the_budget(
    lengths: &[usize],
    budget: usize,
    ranges: Vec<(usize, usize)>,
    k: int,
    m: int,
)
    requires
        call_ensures(plan_subbatches, (lengths, budget), ranges),
        0 <= k < ranges@.len(),
        ranges@[k].1 - ranges@[k].0 > 1,
        forall|i: int| ranges@[k].0 <= i < ranges@[k].1 ==> #[trigger] lengths@[i] <= m,
        exists|i: int| ranges@[k].0 <= i < ranges@[k].1 && #[trigger] lengths@[i] == m,
    ensures
        (ranges@[k].1 - ranges@[k].0) * m <= budget,
{
    law_plan_covers_each_item_once(lengths@, budget, ranges@);
    law_longest_is_maximum(lengths@, ranges@[k].0 as int, ranges@[k].1 as int);
    assert(allowed(lengths@, budget, ranges@[k]));
}

/// A sub-batch ends only where the budget ends it: with the next text in it, the number
/// of texts times the length `m` of the longest would exceed the budget.
pub proof fn law_sub_batch_is_as_large_as_the_budget_allows(
    lengths: &[usize],
    budget: usize,
    ranges: Vec<(usize, usize)>,
    k: int,
    m: int,
)
    requires
        call_ensures(plan_subbatches, (lengths, budget), ranges),
        0 <= k < ranges@.len(),
        ranges@[k].1 < lengths@.len(),
        forall|i: int| ranges@[k].0 <= i <= ranges@[k].1 ==> #[trigger] lengths@[i] <= m,
        exists|i: int| ranges@[k].0 <= i <= ranges@[k].1 && #[trigger] lengths@[i] == m,
    ensures
        (ranges@[k].1 - ranges@[k].0 + 1) * m > budget,
{
    law_plan_covers_each_item_once(lengths@, budget, ranges@);
    law_longest_is_maximum(lengths@, ranges@[k].0 as int, ranges@[k].1 + 1);
    assert(full(lengths@, budget, ranges@[k]));
    assert(ranges@[k].1 + 1 - ranges@[k].0 == ranges@[k].1 - ranges@[k].0 + 1);
}

/// Texts that fit the budget together run together: where no length exceeds `m` and the
/// number of texts times `m` is within the budget, the plan is one sub-batch.
pub proof fn law_request_within_the_budget_is_one_sub_batch(
    lengths: &[usize],
    budget: usize,
    ranges: Vec<(usize, usize)>,
    m: int,
)
    requires
        call_ensures(plan_subbatches, (lengths, budget), ranges),
        lengths@.len() > 0,
        forall|i: int| 0 <= i < lengths@.len() ==> #[trigger] lengths@[i] <= m,
        lengths@.len() * m <= budget,
    ensures
        ranges@ == seq![(0usize, lengths@.len() as usize)],
{
    law_plan_runs_from_first_to_last(lengths, budget, ranges);
    let end = ranges@[0].1 as int;
    if end < lengths@.len() {
        law_longest_is_maximum(lengths@, 0, end + 1);
        let longest_text = longest(lengths@, 0, end + 1);
        law_sub_batch_is_as_large_as_the_budget_allows(lengths, budget, ranges, 0, longest_text);
        let rows = end + 1;
        let n = lengths@.len() as int;
        assert(0 <= lengths@[0]);
        assert(rows * longest_text <= n * m) by (nonlinear_arith)
            requires
                0 <= rows <= n,
                0 <= longest_text <= m,
        ;
    }
    if ranges@.len() > 1 {
        assert(ranges@[0].1 == ranges@[1].0);
    }
    assert(ranges@ =~= seq![(0usize, lengths@.len() as usize)]);
}

} // verus!
