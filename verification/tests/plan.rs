use embeddings_rs::plan::plan_subbatches;

/// Every emitted sub-batch must respect the token budget (except a lone over-budget
/// item, which must still appear as its own range), and the ranges must tile the input
/// contiguously in order.
fn assert_valid(lengths: &[usize], budget: usize) -> Vec<(usize, usize)> {
    let ranges = plan_subbatches(lengths, budget);
    let mut cursor = 0;
    for &(s, e) in &ranges {
        assert_eq!(s, cursor, "ranges must be contiguous: {ranges:?}");
        assert!(e > s, "ranges must be non-empty: {ranges:?}");
        let rows = e - s;
        let max_seq = lengths[s..e].iter().copied().max().unwrap_or(0);
        if rows > 1 {
            assert!(
                rows * max_seq <= budget,
                "multi-item range {s}..{e} (rows={rows}, max_seq={max_seq}) exceeds budget {budget}"
            );
        }
        cursor = e;
    }
    assert_eq!(
        cursor,
        lengths.len(),
        "ranges must cover all items: {ranges:?}"
    );
    ranges
}

#[test]
fn empty_input() {
    assert!(plan_subbatches(&[], 16384).is_empty());
}

#[test]
fn all_short_pack_into_one() {
    assert_eq!(assert_valid(&[10, 10, 10], 100), vec![(0, 3)]);
}

#[test]
fn splits_when_budget_exceeded() {
    // 2*50=100 (ok), 3*50=150 (>100): split into pairs.
    assert_eq!(assert_valid(&[50, 50, 50, 50], 100), vec![(0, 2), (2, 4)]);
}

#[test]
fn single_over_budget_item_runs_alone() {
    assert_eq!(assert_valid(&[8192], 100), vec![(0, 1)]);
    // Over-budget item flushes on its own, neighbors batch separately.
    assert_eq!(
        assert_valid(&[10, 9000, 10], 100),
        vec![(0, 1), (1, 2), (2, 3)]
    );
}

#[test]
fn long_then_short_respects_running_max() {
    // start at 8000: rows1=8000; rows2: 2*8000=16000 <=16384 ok;
    // rows3: 3*8000=24000 >16384 break.
    assert_eq!(assert_valid(&[8000, 10, 10], 16384), vec![(0, 2), (2, 3)]);
}

#[test]
fn budget_floored_at_one_full_text() {
    // A realistic mix never violates the bound at the default budget.
    let lengths = [8192, 12, 40, 8000, 7, 7, 7, 6000, 5, 5, 5, 5];
    assert_valid(&lengths, 16384);
}

#[test]
fn budget_of_zero_runs_every_text_alone() {
    assert_eq!(
        plan_subbatches(&[3, 4, 5], 0),
        vec![(0, 1), (1, 2), (2, 3)]
    );
}

#[test]
fn empty_texts_cost_nothing() {
    // rows x 0 stays within any budget, and the first real length is taken into account.
    assert_eq!(plan_subbatches(&[0, 0, 0], 0), vec![(0, 3)]);
    assert_eq!(plan_subbatches(&[0, 0, 4, 4], 8), vec![(0, 2), (2, 4)]);
}

#[test]
fn product_beyond_the_machine_word_is_over_budget() {
    let huge = usize::MAX / 2 + 1;
    assert_eq!(
        plan_subbatches(&[huge, huge], usize::MAX),
        vec![(0, 1), (1, 2)]
    );
}

#[test]
fn every_item_is_covered_once() {
    let lengths = [5, 1, 9, 2, 2, 7, 30, 1, 1];
    let mut seen = [0usize; 9];
    for (s, e) in plan_subbatches(&lengths, 20) {
        for count in &mut seen[s..e] {
            *count += 1;
        }
    }
    assert_eq!(seen, [1; 9]);
}

#[test]
fn floored_budget_bounds_single_texts_too() {
    let lengths = [8192, 8192, 1, 8192];
    for (s, e) in plan_subbatches(&lengths, 8192) {
        let longest = lengths[s..e].iter().copied().max().unwrap();
        assert!((e - s) * longest <= 8192);
    }
}
