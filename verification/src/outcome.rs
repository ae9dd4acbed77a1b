//! What a request comes to, and what it does not depend on.
//!
//! Nothing here assumes anything of the tokenizer or of the model: where a law needs
//! them to be deterministic, it says so.

use crate::embed::{
    can_answer, can_fail, encodes, inference_can_fail, is_embedding, is_outcome, is_result,
    is_run, is_vector_of, law_each_text_gets_its_own_vector, run_can_fail,
};
use crate::plan::{
    is_covered, is_plan, law_longest_is_maximum, law_plan_covers_each_item_once,
    law_plan_is_unique,
};
use crate::pool::{
    law_request_is_granted_while_a_lane_is_free, Answer, Event, PoolState, Traffic,
};
use crate::pooling::{
    answers, column, element, goes_through_means, has_state, is_pooled, kept,
    law_mean_is_sum_over_count, law_pooling_is_raw, law_real_tokens_are_kept, means_to,
    ModelOutput,
};
use crate::service::{
    responds, responds_batch, settled, Attempt, EmbedBatchRequest, EmbedBatchResponse, EmbedError,
    EmbedRequest, EmbedResponse,
};
use crate::tensor::{
    is_padded, law_cell_of_row, padded_id, padded_mask, real_len, row_lengths, Tensors,
};
use crate::tokens::{TextEncoder, TokenRow};
use vstd::prelude::*;

verus! {

/// The encoder gives at most one row for a text.
pub open spec fn is_deterministic(encoder: TextEncoder) -> bool {
    forall|text: Seq<char>, a: Option<(Seq<u32>, Seq<u32>)>, b: Option<(Seq<u32>, Seq<u32>)>|
        #[trigger] encoder.may_give(text, a) && #[trigger] encoder.may_give(text, b) ==> a == b
}

/// Addition and division are the functions `f` and `g` of their operands.
pub open spec fn computes<E, A: Fn(E, E) -> E, D: Fn(E, usize) -> E>(
    plus: A,
    over: D,
    f: spec_fn(E, E) -> E,
    g: spec_fn(E, usize) -> E,
) -> bool {
    &&& forall|x: E, y: E, z: E| #[trigger] call_ensures(plus, (x, y), z) ==> z == f(x, y)
    &&& forall|x: E, n: usize, z: E| #[trigger] call_ensures(over, (x, n), z) ==> z == g(x, n)
}

/// The mean of `xs` under `f` and `g`.
pub open spec fn mean_of<E>(
    f: spec_fn(E, E) -> E,
    g: spec_fn(E, usize) -> E,
    zero: E,
    xs: Seq<E>,
) -> E {
    if xs.len() == 0 {
        zero
    } else {
        g(xs.fold_left(zero, f), xs.len() as usize)
    }
}

/// Two lists of vectors hold the same elements.
pub open spec fn same_vectors<E>(a: Seq<Vec<E>>, b: Seq<Vec<E>>) -> bool {
    a.len() == b.len() && forall|i: int| 0 <= i < a.len() ==> (#[trigger] a[i])@ == b[i]@
}

proof fn lemma_same_rows(
    encoder: TextEncoder,
    prompts: Seq<String>,
    a: Seq<TokenRow>,
    b: Seq<TokenRow>,
)
    requires
        is_deterministic(encoder),
        encodes(encoder, prompts, a),
        encodes(encoder, prompts, b),
    ensures
        a.len() == b.len(),
        forall|i: int| 0 <= i < a.len() ==> (#[trigger] a[i])@ == b[i]@,
        row_lengths(a) == row_lengths(b),
{
    assert forall|i: int| 0 <= i < a.len() implies (#[trigger] a[i])@ == b[i]@ by {
        assert(encoder.may_give(prompts[i]@, Some(a[i]@)));
        assert(encoder.may_give(prompts[i]@, Some(b[i]@)));
    }
    assert(row_lengths(a) =~= row_lengths(b));
}

/// A model that gives a hidden state of `dim` elements for each position, and whose
/// states at a row's real tokens depend on that row alone: neither on the rows it shares
/// a sub-batch with nor on how far it is padded.
pub open spec fn is_row_wise<E, R: Fn(&Tensors) -> Option<ModelOutput<E>>>(
    run: R,
    dim: usize,
    state: spec_fn((Seq<u32>, Seq<u32>), int, int) -> E,
) -> bool {
    forall|rows: Seq<TokenRow>, t: Tensors, out: ModelOutput<E>| #[trigger]
        can_answer(run, rows, t, out) ==> {
            &&& out.seq == t.seq
            &&& out.dim == dim
            &&& forall|b: int, s: int, d: int|
                0 <= b < rows.len() && 0 <= s < real_len(rows[b]) && rows[b].mask@[s] != 0 && 0 <= d
                    < dim ==> #[trigger] element(out, b, s, d) == state(rows[b]@, s, d)
        }
}

/// The first `n` positions of a row, without those that its own mask excludes, in order.
pub open spec fn own_positions(row: (Seq<u32>, Seq<u32>), n: int) -> Seq<int>
    decreases n,
{
    if n <= 0 {
        Seq::empty()
    } else if row.1[n - 1] == 0 {
        own_positions(row, n - 1)
    } else {
        own_positions(row, n - 1).push(n - 1)
    }
}

/// The positions of a row that hold a token with its mask, without those excluded.
pub open spec fn token_positions(row: (Seq<u32>, Seq<u32>)) -> Seq<int> {
    own_positions(
        row,
        if row.0.len() <= row.1.len() {
            row.0.len() as int
        } else {
            row.1.len() as int
        },
    )
}

/// The vector of a row by itself, under a model that treats rows alone.
pub open spec fn row_vector<E>(
    f: spec_fn(E, E) -> E,
    g: spec_fn(E, usize) -> E,
    zero: E,
    dim: usize,
    state: spec_fn((Seq<u32>, Seq<u32>), int, int) -> E,
    row: (Seq<u32>, Seq<u32>),
) -> Seq<E> {
    Seq::new(
        dim as nat,
        |d: int|
            mean_of(
                f,
                g,
                zero,
                Seq::new(
                    token_positions(row).len(),
                    |i: int| state(row, token_positions(row)[i], d),
                ),
            ),
    )
}

proof fn lemma_kept_is_own(rows: Seq<TokenRow>, t: Tensors, b: int, n: int)
    requires
        is_padded(rows, t),
        0 <= b < rows.len(),
        0 <= n <= t.seq,
    ensures
        kept(t.mask@, b * t.seq, n) == own_positions(
            rows[b]@,
            if n <= real_len(rows[b]) {
                n
            } else {
                real_len(rows[b])
            },
        ),
    decreases n,
{
    if n > 0 {
        lemma_kept_is_own(rows, t, b, n - 1);
        law_cell_of_row(rows, t, b, n - 1);
        assert(t.mask@[b * t.seq + n - 1] == padded_mask(rows[b], n - 1));
    }
}

/// Under a model that treats rows alone, and arithmetic that is a function of its
/// operands, a text's vector is the same in whatever sub-batch it runs: the one that
/// its own row determines.
pub proof fn law_vector_follows_its_row<
    E,
    R: Fn(&Tensors) -> Option<ModelOutput<E>>,
    A: Fn(E, E) -> E,
    D: Fn(E, usize) -> E,
>(
    run: R,
    plus: A,
    over: D,
    f: spec_fn(E, E) -> E,
    g: spec_fn(E, usize) -> E,
    zero: E,
    dim: usize,
    state: spec_fn((Seq<u32>, Seq<u32>), int, int) -> E,
    rows: Seq<TokenRow>,
    range: (usize, usize),
    i: int,
    vector: Seq<E>,
)
    requires
        computes(plus, over, f, g),
        is_row_wise(run, dim, state),
        is_vector_of(run, plus, over, zero, rows, range, i, vector),
    ensures
        vector == row_vector(f, g, zero, dim, state, rows[i]@),
{
    let batch = rows.subrange(range.0 as int, range.1 as int);
    let b = i - range.0;
    let (t, out) = choose|t: Tensors, out: ModelOutput<E>| #[trigger]
        can_answer(run, batch, t, out) && is_pooled(plus, over, zero, t, out, b, vector);
    assert(batch[b] == rows[i]);
    let row = rows[i]@;
    law_longest_is_maximum(row_lengths(batch), 0, batch.len() as int);
    assert(row_lengths(batch)[b] == batch[b].ids.len());
    lemma_kept_is_own(batch, t, b, t.seq as int);
    law_real_tokens_are_kept(batch, t, b, t.seq as int);
    let positions = kept(t.mask@, b * t.seq, out.seq as int);
    assert(positions == token_positions(row));
    assert forall|d: int| 0 <= d < dim implies #[trigger] vector[d] == row_vector(
        f,
        g,
        zero,
        dim,
        state,
        row,
    )[d] by {
        let xs = column(out, b, positions, d);
        let ys = Seq::new(
            token_positions(row).len(),
            |j: int| state(row, token_positions(row)[j], d),
        );
        assert(means_to(plus, over, zero, xs, vector[d]));
        law_mean_is_sum_over_count(plus, over, f, g, zero, xs, vector[d]);
        assert forall|j: int| 0 <= j < positions.len() implies #[trigger] xs[j] == ys[j] by {
            let s = kept(t.mask@, b * t.seq, t.seq as int)[j];
            assert(element(out, b, s, d) == state(batch[b]@, s, d));
        }
        assert(xs =~= ys);
    }
    assert(vector =~= row_vector(f, g, zero, dim, state, row));
}

/// The budget decides how texts are run, never what they come to: with a deterministic
/// encoder, a model that treats rows alone, and arithmetic that is a function of its
/// operands, two requests with the same prompts give the same vectors under any two
/// budgets.
pub proof fn law_vectors_do_not_depend_on_the_budget<
    E,
    R: Fn(&Tensors) -> Option<ModelOutput<E>>,
    A: Fn(E, E) -> E,
    D: Fn(E, usize) -> E,
>(
    run: R,
    plus: A,
    over: D,
    f: spec_fn(E, E) -> E,
    g: spec_fn(E, usize) -> E,
    zero: E,
    dim: usize,
    state: spec_fn((Seq<u32>, Seq<u32>), int, int) -> E,
    encoder: TextEncoder,
    prompts: Seq<String>,
    budget_a: usize,
    a: Seq<Vec<E>>,
    budget_b: usize,
    b: Seq<Vec<E>>,
)
    requires
        is_deterministic(encoder),
        computes(plus, over, f, g),
        is_row_wise(run, dim, state),
        is_result(run, plus, over, zero, encoder, prompts, budget_a, a),
        is_result(run, plus, over, zero, encoder, prompts, budget_b, b),
    ensures
        same_vectors(a, b),
{
    if prompts.len() > 0 {
        let (rows_a, ranges_a) = choose|rows: Seq<TokenRow>, ranges: Seq<(usize, usize)>|
            #![trigger encodes(encoder, prompts, rows), is_plan(row_lengths(rows), budget_a, ranges)]
            encodes(encoder, prompts, rows) && is_plan(row_lengths(rows), budget_a, ranges)
                && is_embedding(run, plus, over, zero, rows, ranges, a);
        let (rows_b, ranges_b) = choose|rows: Seq<TokenRow>, ranges: Seq<(usize, usize)>|
            #![trigger encodes(encoder, prompts, rows), is_plan(row_lengths(rows), budget_b, ranges)]
            encodes(encoder, prompts, rows) && is_plan(row_lengths(rows), budget_b, ranges)
                && is_embedding(run, plus, over, zero, rows, ranges, b);
        lemma_same_rows(encoder, prompts, rows_a, rows_b);
        assert forall|i: int| 0 <= i < a.len() implies (#[trigger] a[i])@ == b[i]@ by {
            law_each_text_gets_its_own_vector(
                run,
                plus,
                over,
                zero,
                rows_a,
                budget_a,
                ranges_a,
                a,
                i,
            );
            let k = choose|k: int|
                0 <= k < ranges_a.len() && is_vector_of(
                    run,
                    plus,
                    over,
                    zero,
                    rows_a,
                    #[trigger] ranges_a[k],
                    i,
                    a[i]@,
                );
            law_vector_follows_its_row(
                run,
                plus,
                over,
                f,
                g,
                zero,
                dim,
                state,
                rows_a,
                ranges_a[k],
                i,
                a[i]@,
            );
            law_each_text_gets_its_own_vector(
                run,
                plus,
                over,
                zero,
                rows_b,
                budget_b,
                ranges_b,
                b,
                i,
            );
            let l = choose|l: int|
                0 <= l < ranges_b.len() && is_vector_of(
                    run,
                    plus,
                    over,
                    zero,
                    rows_b,
                    #[trigger] ranges_b[l],
                    i,
                    b[i]@,
                );
            law_vector_follows_its_row(
                run,
                plus,
                over,
                f,
                g,
                zero,
                dim,
                state,
                rows_b,
                ranges_b[l],
                i,
                b[i]@,
            );
            assert(rows_a[i]@ == rows_b[i]@);
        }
    }
}

/// Two tensors hold the same values.
pub open spec fn same_tensors(t: Tensors, u: Tensors) -> bool {
    &&& t.batch == u.batch
    &&& t.seq == u.seq
    &&& t.ids@ == u.ids@
    &&& t.mask@ == u.mask@
    &&& t.types@ == u.types@
}

/// Two answers of a model hold the same values.
pub open spec fn same_answer<E>(a: Option<ModelOutput<E>>, b: Option<ModelOutput<E>>) -> bool {
    match (a, b) {
        (Some(a), Some(b)) => a.seq == b.seq && a.dim == b.dim && a.data@ == b.data@,
        (None, None) => true,
        _ => false,
    }
}

/// The lanes are interchangeable and deterministic: on the same tensors any of them
/// gives the same answer at any time. `model` is the model that a lane runs.
pub open spec fn are_alike<T, E, R: Fn(&Tensors) -> Option<ModelOutput<E>>>(
    model: spec_fn(T) -> R,
) -> bool {
    forall|
        x: T,
        t: Tensors,
        a: Option<ModelOutput<E>>,
        y: T,
        u: Tensors,
        b: Option<ModelOutput<E>>,
    |
        #![trigger call_ensures(model(x), (&t,), a), call_ensures(model(y), (&u,), b)]
        same_tensors(t, u) && call_ensures(model(x), (&t,), a) && call_ensures(model(y), (&u,), b)
            ==> same_answer(a, b)
}

/// `outcome` can be what a request comes to on this pool: a refusal from an exhausted
/// pool, or what its inference gives on the lane that it is granted. A request that
/// waits has come to nothing yet.
pub open spec fn comes_to<
    T,
    E,
    R: Fn(&Tensors) -> Option<ModelOutput<E>>,
    A: Fn(E, E) -> E,
    D: Fn(E, usize) -> E,
>(
    pool: PoolState<T>,
    model: spec_fn(T) -> R,
    plus: A,
    over: D,
    zero: E,
    encoder: TextEncoder,
    prompts: Seq<String>,
    max_batch_tokens: usize,
    outcome: Result<Vec<Vec<E>>, EmbedError>,
) -> bool {
    match pool.answer() {
        Answer::Exhausted => outcome == settled::<Vec<Vec<E>>>(Attempt::NoLane),
        Answer::Busy => false,
        Answer::Ready(lane) => exists|done: Result<Vec<Vec<E>>, EmbedError>| #[trigger]
            is_outcome(
                model(lane),
                plus,
                over,
                zero,
                encoder,
                prompts,
                max_batch_tokens,
                done,
            ) && outcome == settled(Attempt::Done(done)),
    }
}

proof fn lemma_same_padding(a: Seq<TokenRow>, t: Tensors, b: Seq<TokenRow>, u: Tensors)
    requires
        is_padded(a, t),
        is_padded(b, u),
        a.len() == b.len(),
        forall|i: int| 0 <= i < a.len() ==> (#[trigger] a[i])@ == b[i]@,
    ensures
        same_tensors(t, u),
{
    assert(row_lengths(a) =~= row_lengths(b));
    let seq = t.seq as int;
    let batch = t.batch as int;
    assert forall|k: int| 0 <= k < t.ids@.len() implies #[trigger] t.ids@[k] == u.ids@[k] by {
        lemma_row_of_cell(k, batch, seq);
        assert(a[k / seq]@ == b[k / seq]@);
        assert(t.ids@[k] == padded_id(a[k / seq], k % seq));
        assert(u.ids@[k] == padded_id(b[k / seq], k % seq));
    }
    assert forall|k: int| 0 <= k < t.mask@.len() implies #[trigger] t.mask@[k] == u.mask@[k] by {
        lemma_row_of_cell(k, batch, seq);
        assert(a[k / seq]@ == b[k / seq]@);
        assert(t.mask@[k] == padded_mask(a[k / seq], k % seq));
        assert(u.mask@[k] == padded_mask(b[k / seq], k % seq));
    }
    assert(t.ids@ =~= u.ids@);
    assert(t.mask@ =~= u.mask@);
    assert(t.types@ =~= u.types@);
}

proof fn lemma_row_of_cell(k: int, batch: int, seq: int)
    requires
        0 <= k < batch * seq,
        0 <= batch,
        0 <= seq,
    ensures
        0 <= k / seq < batch,
        0 <= k % seq < seq,
{
    assert(0 < seq) by (nonlinear_arith)
        requires
            0 <= k < batch * seq,
            0 <= batch,
            0 <= seq,
    ;
    assert(0 <= k / seq < batch && 0 <= k % seq < seq) by (nonlinear_arith)
        requires
            0 <= k < batch * seq,
            0 < seq,
    ;
}

/// Two runs on the same rows, on whatever lanes, give the same vectors.
proof fn lemma_same_run<
    T,
    E,
    R: Fn(&Tensors) -> Option<ModelOutput<E>>,
    A: Fn(E, E) -> E,
    D: Fn(E, usize) -> E,
>(
    model: spec_fn(T) -> R,
    x: T,
    y: T,
    plus: A,
    over: D,
    f: spec_fn(E, E) -> E,
    g: spec_fn(E, usize) -> E,
    zero: E,
    rows_a: Seq<TokenRow>,
    a: Seq<Vec<E>>,
    rows_b: Seq<TokenRow>,
    b: Seq<Vec<E>>,
)
    requires
        are_alike(model),
        computes(plus, over, f, g),
        rows_a.len() == rows_b.len(),
        forall|i: int| 0 <= i < rows_a.len() ==> (#[trigger] rows_a[i])@ == rows_b[i]@,
        is_run(model(x), plus, over, zero, rows_a, a),
        is_run(model(y), plus, over, zero, rows_b, b),
    ensures
        same_vectors(a, b),
{
    if rows_a.len() > 0 {
        let (t, o) = choose|t: Tensors, o: ModelOutput<E>| #[trigger]
            can_answer(model(x), rows_a, t, o) && forall|i: int|
                0 <= i < rows_a.len() ==> is_pooled(plus, over, zero, t, o, i, (#[trigger] a[i])@);
        let (u, p) = choose|u: Tensors, p: ModelOutput<E>| #[trigger]
            can_answer(model(y), rows_b, u, p) && forall|i: int|
                0 <= i < rows_b.len() ==> is_pooled(plus, over, zero, u, p, i, (#[trigger] b[i])@);
        lemma_same_padding(rows_a, t, rows_b, u);
        assert(call_ensures(model(x), (&t,), Some(o)));
        assert(call_ensures(model(y), (&u,), Some(p)));
        assert(same_answer(Some(o), Some(p)));
        assert forall|i: int| 0 <= i < a.len() implies (#[trigger] a[i])@ == b[i]@ by {
            assert(is_pooled(plus, over, zero, t, o, i, a[i]@));
            assert(is_pooled(plus, over, zero, u, p, i, b[i]@));
            let positions = kept(t.mask@, i * t.seq, o.seq as int);
            assert forall|d: int| 0 <= d < o.dim implies #[trigger] a[i]@[d] == b[i]@[d] by {
                let xs = column(o, i, positions, d);
                assert(xs =~= column(p, i, positions, d));
                assert(means_to(plus, over, zero, xs, a[i]@[d]));
                assert(means_to(plus, over, zero, xs, b[i]@[d]));
                law_mean_is_sum_over_count(plus, over, f, g, zero, xs, a[i]@[d]);
                law_mean_is_sum_over_count(plus, over, f, g, zero, xs, b[i]@[d]);
            }
            assert(a[i]@ =~= b[i]@);
        }
    }
}

/// With a deterministic encoder, alike lanes, and arithmetic that is a function of its
/// operands, it makes no difference which lane a request is granted.
pub proof fn law_vectors_do_not_depend_on_the_lane<
    T,
    E,
    R: Fn(&Tensors) -> Option<ModelOutput<E>>,
    A: Fn(E, E) -> E,
    D: Fn(E, usize) -> E,
>(
    model: spec_fn(T) -> R,
    x: T,
    y: T,
    plus: A,
    over: D,
    f: spec_fn(E, E) -> E,
    g: spec_fn(E, usize) -> E,
    zero: E,
    encoder: TextEncoder,
    prompts: Seq<String>,
    budget: usize,
    a: Seq<Vec<E>>,
    b: Seq<Vec<E>>,
)
    requires
        is_deterministic(encoder),
        are_alike(model),
        computes(plus, over, f, g),
        is_result(model(x), plus, over, zero, encoder, prompts, budget, a),
        is_result(model(y), plus, over, zero, encoder, prompts, budget, b),
    ensures
        same_vectors(a, b),
{
    if prompts.len() > 0 {
        let (rows_a, ranges) = choose|rows: Seq<TokenRow>, ranges: Seq<(usize, usize)>|
            #![trigger encodes(encoder, prompts, rows), is_plan(row_lengths(rows), budget, ranges)]
            encodes(encoder, prompts, rows) && is_plan(row_lengths(rows), budget, ranges)
                && is_embedding(model(x), plus, over, zero, rows, ranges, a);
        let (rows_b, ranges_b) = choose|rows: Seq<TokenRow>, ranges: Seq<(usize, usize)>|
            #![trigger encodes(encoder, prompts, rows), is_plan(row_lengths(rows), budget, ranges)]
            encodes(encoder, prompts, rows) && is_plan(row_lengths(rows), budget, ranges)
                && is_embedding(model(y), plus, over, zero, rows, ranges, b);
        lemma_same_rows(encoder, prompts, rows_a, rows_b);
        law_plan_is_unique(row_lengths(rows_a), budget, ranges, ranges_b);
        law_plan_covers_each_item_once(row_lengths(rows_a), budget, ranges);
        assert forall|i: int| 0 <= i < a.len() implies (#[trigger] a[i])@ == b[i]@ by {
            assert(is_covered(ranges, i));
            let k = choose|k: int|
                0 <= k < ranges.len() && (#[trigger] ranges[k]).0 <= i < ranges[k].1;
            let start = ranges[k].0 as int;
            let end = ranges[k].1 as int;
            lemma_same_run(
                model,
                x,
                y,
                plus,
                over,
                f,
                g,
                zero,
                rows_a.subrange(start, end),
                a.subrange(start, end),
                rows_b.subrange(start, end),
                b.subrange(start, end),
            );
            assert(a.subrange(start, end)[i - start] == a[i]);
            assert(b.subrange(start, end)[i - start] == b[i]);
        }
    }
}

/// Two outcomes are the same: the same error, or vectors with the same elements.
pub open spec fn same_outcome<E>(
    a: Result<Vec<Vec<E>>, EmbedError>,
    b: Result<Vec<Vec<E>>, EmbedError>,
) -> bool {
    match (a, b) {
        (Ok(a), Ok(b)) => same_vectors(a@, b@),
        (Err(a), Err(b)) => a == b,
        _ => false,
    }
}

/// What gives vectors on one lane cannot fail on another.
proof fn lemma_success_is_shared<
    T,
    E,
    R: Fn(&Tensors) -> Option<ModelOutput<E>>,
    A: Fn(E, E) -> E,
    D: Fn(E, usize) -> E,
>(
    model: spec_fn(T) -> R,
    x: T,
    y: T,
    plus: A,
    over: D,
    zero: E,
    encoder: TextEncoder,
    prompts: Seq<String>,
    budget: usize,
    vectors: Seq<Vec<E>>,
)
    requires
        is_deterministic(encoder),
        are_alike(model),
        prompts.len() > 0,
        is_result(model(x), plus, over, zero, encoder, prompts, budget, vectors),
    ensures
        !inference_can_fail(model(y), encoder, prompts, budget),
{
    let (rows, ranges) = choose|rows: Seq<TokenRow>, ranges: Seq<(usize, usize)>|
        #![trigger encodes(encoder, prompts, rows), is_plan(row_lengths(rows), budget, ranges)]
        encodes(encoder, prompts, rows) && is_plan(row_lengths(rows), budget, ranges)
            && is_embedding(model(x), plus, over, zero, rows, ranges, vectors);
    assert forall|i: int| 0 <= i < prompts.len() implies !encoder.may_give(
        (#[trigger] prompts[i])@,
        None,
    ) by {
        assert(encoder.may_give(prompts[i]@, Some(rows[i]@)));
    }
    assert forall|other: Seq<TokenRow>| #[trigger]
        encodes(encoder, prompts, other) implies !run_can_fail(model(y), other, budget) by {
        lemma_same_rows(encoder, prompts, rows, other);
        law_plan_covers_each_item_once(row_lengths(rows), budget, ranges);
        assert forall|plan: Seq<(usize, usize)>, i: int|
            is_plan(row_lengths(other), budget, plan) && 0 <= i < plan.len() implies !can_fail(
            model(y),
            other.subrange((#[trigger] plan[i]).0 as int, plan[i].1 as int),
        ) by {
            law_plan_is_unique(row_lengths(rows), budget, ranges, plan);
            let start = ranges[i].0 as int;
            let end = ranges[i].1 as int;
            let batch = rows.subrange(start, end);
            let part = other.subrange(start, end);
            let (t, o) = choose|t: Tensors, o: ModelOutput<E>| #[trigger]
                can_answer(model(x), batch, t, o);
            assert forall|u: Tensors, out: Option<ModelOutput<E>>|
                is_padded(part, u) && #[trigger] call_ensures(
                    model(y),
                    (&u,),
                    out,
                ) implies out is Some && answers(u, out->0) by {
                lemma_same_padding(batch, t, part, u);
                assert(call_ensures(model(x), (&t,), Some(o)));
                assert(same_answer(Some(o), out));
                assert forall|b: int, s: int|
                    0 <= b < u.batch && 0 <= s < (out->0).seq && u.mask@[b * u.seq + s]
                        != 0 implies #[trigger] has_state(out->0, b, s) by {
                    assert(has_state(o, b, s));
                }
            }
        }
    }
}

/// Earlier requests leave no mark, however they ended. On a pool that has gone through
/// any requests and has a lane free, a request is granted that lane and comes to what
/// it would on a new pool, as long as encoder, lanes and arithmetic are deterministic.
/// It fails only if the encoder or the model can fail on these very prompts.
pub proof fn law_earlier_failures_leave_no_mark<
    T,
    E,
    R: Fn(&Tensors) -> Option<ModelOutput<E>>,
    A: Fn(E, E) -> E,
    D: Fn(E, usize) -> E,
>(
    items: Seq<T>,
    events: Seq<Event<T>>,
    end: Traffic<T>,
    model: spec_fn(T) -> R,
    plus: A,
    over: D,
    f: spec_fn(E, E) -> E,
    g: spec_fn(E, usize) -> E,
    zero: E,
    encoder: TextEncoder,
    prompts: Seq<String>,
    budget: usize,
    now: Result<Vec<Vec<E>>, EmbedError>,
    anew: Result<Vec<Vec<E>>, EmbedError>,
)
    requires
        0 < items.len() <= usize::MAX,
        Traffic::start(items, true).leads_to(events, end),
        end.held.len() < items.len(),
        is_deterministic(encoder),
        are_alike(model),
        computes(plus, over, f, g),
        comes_to(end.pool, model, plus, over, zero, encoder, prompts, budget, now),
        comes_to(
            PoolState::fresh(items, true),
            model,
            plus,
            over,
            zero,
            encoder,
            prompts,
            budget,
            anew,
        ),
    ensures
        end.pool.answer() is Ready,
        same_outcome(now, anew),
        now is Err ==> inference_can_fail(
            model(end.pool.answer()->Ready_0),
            encoder,
            prompts,
            budget,
        ),
{
    law_request_is_granted_while_a_lane_is_free(items, events, end);
    let start = Traffic::start(items, true);
    assert(start.leads_to(Seq::empty(), start));
    law_request_is_granted_while_a_lane_is_free(items, Seq::empty(), start);
    let x = end.pool.idle[0];
    let y = items[0];
    if prompts.len() > 0 {
        if now is Ok {
            lemma_success_is_shared(
                model,
                x,
                y,
                plus,
                over,
                zero,
                encoder,
                prompts,
                budget,
                now->Ok_0@,
            );
        }
        if anew is Ok {
            lemma_success_is_shared(
                model,
                y,
                x,
                plus,
                over,
                zero,
                encoder,
                prompts,
                budget,
                anew->Ok_0@,
            );
        }
    }
    if now is Ok && anew is Ok {
        law_vectors_do_not_depend_on_the_lane(
            model,
            x,
            y,
            plus,
            over,
            f,
            g,
            zero,
            encoder,
            prompts,
            budget,
            now->Ok_0@,
            anew->Ok_0@,
        );
    }
}

/// The states of `other` at the real tokens of these rows are those of `one`, mapped by
/// `h`. At padding and at tokens that a row's mask excludes, the two may differ in any
/// way.
pub open spec fn is_mapped<E>(
    h: spec_fn(E) -> E,
    rows: Seq<TokenRow>,
    one: ModelOutput<E>,
    other: ModelOutput<E>,
) -> bool {
    &&& one.seq == other.seq
    &&& one.dim == other.dim
    &&& forall|b: int, s: int, d: int|
        0 <= b < rows.len() && 0 <= s < one.seq && s < real_len(rows[b]) && rows[b].mask@[s] != 0
            && 0 <= d < one.dim ==> #[trigger] element(other, b, s, d) == h(element(one, b, s, d))
}

/// Vectors are raw: on the same rows, a model whose states at the real tokens are those
/// of another mapped by `h`, such as twice the other's, gives the other's vectors mapped
/// by `h`, as long as arithmetic is a function of its operands that `h` goes through.
pub proof fn law_vectors_are_raw<
    E,
    R: Fn(&Tensors) -> Option<ModelOutput<E>>,
    S: Fn(&Tensors) -> Option<ModelOutput<E>>,
    A: Fn(E, E) -> E,
    D: Fn(E, usize) -> E,
>(
    one: R,
    other: S,
    plus: A,
    over: D,
    f: spec_fn(E, E) -> E,
    g: spec_fn(E, usize) -> E,
    h: spec_fn(E) -> E,
    zero: E,
    rows: Seq<TokenRow>,
    vectors: Seq<Vec<E>>,
    mapped: Seq<Vec<E>>,
)
    requires
        computes(plus, over, f, g),
        forall|t: Tensors, o: ModelOutput<E>, u: Tensors, p: ModelOutput<E>| #[trigger]
            can_answer(one, rows, t, o) && #[trigger] can_answer(other, rows, u, p) ==> is_mapped(
                h,
                rows,
                o,
                p,
            ),
        forall|t: Tensors, o: ModelOutput<E>, b: int|
            can_answer(one, rows, t, o) && 0 <= b < rows.len() ==> #[trigger] goes_through_means(
                h,
                f,
                g,
                zero,
                t,
                o,
                b,
            ),
        is_run(one, plus, over, zero, rows, vectors),
        is_run(other, plus, over, zero, rows, mapped),
    ensures
        mapped.len() == vectors.len(),
        forall|b: int|
            0 <= b < vectors.len() ==> (#[trigger] mapped[b])@ == vectors[b]@.map_values(h),
{
    if rows.len() > 0 {
        let (t, o) = choose|t: Tensors, o: ModelOutput<E>| #[trigger]
            can_answer(one, rows, t, o) && forall|b: int|
                0 <= b < rows.len() ==> is_pooled(
                    plus,
                    over,
                    zero,
                    t,
                    o,
                    b,
                    (#[trigger] vectors[b])@,
                );
        let (u, p) = choose|u: Tensors, p: ModelOutput<E>| #[trigger]
            can_answer(other, rows, u, p) && forall|b: int|
                0 <= b < rows.len() ==> is_pooled(
                    plus,
                    over,
                    zero,
                    u,
                    p,
                    b,
                    (#[trigger] mapped[b])@,
                );
        lemma_same_padding(rows, t, rows, u);
        assert forall|b: int| 0 <= b < vectors.len() implies (#[trigger] mapped[b])@
            == vectors[b]@.map_values(h) by {
            assert(is_pooled(plus, over, zero, t, o, b, vectors[b]@));
            assert(is_pooled(plus, over, zero, u, p, b, mapped[b]@));
            assert(is_pooled(plus, over, zero, t, p, b, mapped[b]@));
            assert(goes_through_means(h, f, g, zero, t, o, b));
            law_real_tokens_are_kept(rows, t, b, o.seq as int);
            let positions = kept(t.mask@, b * t.seq, o.seq as int);
            assert forall|i: int, d: int|
                0 <= i < positions.len() && 0 <= d < o.dim implies #[trigger] column(
                p,
                b,
                positions,
                d,
            )[i] == h(column(o, b, positions, d)[i]) by {
                let s = positions[i];
                assert(element(p, b, s, d) == h(element(o, b, s, d)));
            }
            law_pooling_is_raw(
                plus,
                over,
                f,
                g,
                h,
                zero,
                t,
                o,
                p,
                b,
                vectors[b]@,
                mapped[b]@,
            );
        }
    }
}

/// Padding has no say: on the same rows, two models whose states agree at the real
/// tokens give the same vectors, whatever they hold elsewhere, as long as arithmetic is
/// a function of its operands.
pub proof fn law_padding_has_no_say<
    E,
    R: Fn(&Tensors) -> Option<ModelOutput<E>>,
    S: Fn(&Tensors) -> Option<ModelOutput<E>>,
    A: Fn(E, E) -> E,
    D: Fn(E, usize) -> E,
>(
    one: R,
    other: S,
    plus: A,
    over: D,
    f: spec_fn(E, E) -> E,
    g: spec_fn(E, usize) -> E,
    zero: E,
    rows: Seq<TokenRow>,
    a: Seq<Vec<E>>,
    b: Seq<Vec<E>>,
)
    requires
        computes(plus, over, f, g),
        forall|t: Tensors, o: ModelOutput<E>, u: Tensors, p: ModelOutput<E>| #[trigger]
            can_answer(one, rows, t, o) && #[trigger] can_answer(other, rows, u, p) ==> is_mapped(
                |x: E| x,
                rows,
                o,
                p,
            ),
        is_run(one, plus, over, zero, rows, a),
        is_run(other, plus, over, zero, rows, b),
    ensures
        same_vectors(a, b),
{
    let h = |x: E| x;
    law_vectors_are_raw(one, other, plus, over, f, g, h, zero, rows, a, b);
    assert forall|i: int| 0 <= i < a.len() implies (#[trigger] a[i])@ == b[i]@ by {
        assert(b[i]@ == a[i]@.map_values(h));
        assert(a[i]@.map_values(h) =~= a[i]@);
    }
}

/// Two lists of prompts hold the same texts.
pub open spec fn same_prompts(a: Seq<String>, b: Seq<String>) -> bool {
    a.len() == b.len() && forall|i: int| 0 <= i < a.len() ==> (#[trigger] a[i])@ == b[i]@
}

proof fn lemma_same_encodings(
    encoder: TextEncoder,
    a: Seq<String>,
    b: Seq<String>,
    rows: Seq<TokenRow>,
)
    requires
        same_prompts(a, b),
        encodes(encoder, a, rows),
    ensures
        encodes(encoder, b, rows),
{
    assert forall|i: int| 0 <= i < b.len() implies encoder.may_give(
        b[i]@,
        Some((#[trigger] rows[i])@),
    ) by {
        assert(a[i]@ == b[i]@);
    }
}

proof fn lemma_outcome_carries_over<
    E,
    R: Fn(&Tensors) -> Option<ModelOutput<E>>,
    A: Fn(E, E) -> E,
    D: Fn(E, usize) -> E,
>(
    run: R,
    plus: A,
    over: D,
    zero: E,
    encoder: TextEncoder,
    a: Seq<String>,
    b: Seq<String>,
    budget: usize,
    outcome: Result<Vec<Vec<E>>, EmbedError>,
)
    requires
        same_prompts(a, b),
        is_outcome(run, plus, over, zero, encoder, a, budget, outcome),
    ensures
        is_outcome(run, plus, over, zero, encoder, b, budget, outcome),
{
    match outcome {
        Ok(vectors) => {
            if a.len() > 0 {
                let (rows, ranges) = choose|rows: Seq<TokenRow>, ranges: Seq<(usize, usize)>|
                    #![trigger encodes(encoder, a, rows), is_plan(row_lengths(rows), budget, ranges)]
                    encodes(encoder, a, rows) && is_plan(row_lengths(rows), budget, ranges)
                        && is_embedding(run, plus, over, zero, rows, ranges, vectors@);
                lemma_same_encodings(encoder, a, b, rows);
            }
        },
        Err(_) => {
            if exists|i: int| 0 <= i < a.len() && encoder.may_give((#[trigger] a[i])@, None) {
                let i = choose|i: int|
                    0 <= i < a.len() && encoder.may_give((#[trigger] a[i])@, None);
                assert(encoder.may_give(b[i]@, None));
            } else {
                let rows = choose|rows: Seq<TokenRow>| #[trigger]
                    encodes(encoder, a, rows) && run_can_fail(run, rows, budget);
                lemma_same_encodings(encoder, a, b, rows);
            }
        },
    }
}

/// What a request can come to is settled by what its prompts hold.
pub proof fn law_outcome_follows_the_texts<
    E,
    R: Fn(&Tensors) -> Option<ModelOutput<E>>,
    A: Fn(E, E) -> E,
    D: Fn(E, usize) -> E,
>(
    run: R,
    plus: A,
    over: D,
    zero: E,
    encoder: TextEncoder,
    a: Seq<String>,
    b: Seq<String>,
    budget: usize,
    outcome: Result<Vec<Vec<E>>, EmbedError>,
)
    requires
        same_prompts(a, b),
    ensures
        is_outcome(run, plus, over, zero, encoder, a, budget, outcome) == is_outcome(
            run,
            plus,
            over,
            zero,
            encoder,
            b,
            budget,
            outcome,
        ),
{
    if is_outcome(run, plus, over, zero, encoder, a, budget, outcome) {
        lemma_outcome_carries_over(run, plus, over, zero, encoder, a, b, budget, outcome);
    }
    if is_outcome(run, plus, over, zero, encoder, b, budget, outcome) {
        lemma_outcome_carries_over(run, plus, over, zero, encoder, b, a, budget, outcome);
    }
}

/// A single text is a batch of one. Where a batch of one text got its answer, a request
/// for that text alone, on a pool that is not exhausted, gets the same vector and the
/// same dimensions, as long as encoder, lanes and arithmetic are deterministic.
pub proof fn law_single_text_is_a_batch_of_one<
    T,
    E,
    R: Fn(&Tensors) -> Option<ModelOutput<E>>,
    A: Fn(E, E) -> E,
    D: Fn(E, usize) -> E,
>(
    request: EmbedRequest,
    batch_request: EmbedBatchRequest,
    pool: PoolState<T>,
    batch_pool: PoolState<T>,
    model: spec_fn(T) -> R,
    plus: A,
    over: D,
    f: spec_fn(E, E) -> E,
    g: spec_fn(E, usize) -> E,
    zero: E,
    encoder: TextEncoder,
    prompts: Seq<String>,
    batch_prompts: Seq<String>,
    budget: usize,
    dim: usize,
    outcome: Result<Vec<Vec<E>>, EmbedError>,
    batch_outcome: Result<Vec<Vec<E>>, EmbedError>,
    response: Result<EmbedResponse<E>, EmbedError>,
    batch_response: Result<EmbedBatchResponse<E>, EmbedError>,
)
    requires
        batch_request.texts@.len() == 1,
        batch_request.texts@[0]@ == request.text@,
        batch_request.task_type@ == request.task_type@,
        request.asks_for(prompts),
        batch_request.asks_for(batch_prompts),
        is_deterministic(encoder),
        are_alike(model),
        computes(plus, over, f, g),
        comes_to(
            batch_pool,
            model,
            plus,
            over,
            zero,
            encoder,
            batch_prompts,
            budget,
            batch_outcome,
        ),
        responds_batch(batch_outcome, dim, batch_response),
        batch_response is Ok,
        !(pool.answer() is Exhausted),
        comes_to(pool, model, plus, over, zero, encoder, prompts, budget, outcome),
        responds(outcome, response),
    ensures
        response is Ok,
        batch_response->Ok_0.vectors@.len() == 1,
        response->Ok_0.vector@ == batch_response->Ok_0.vectors@[0]@,
        response->Ok_0.dimensions == batch_response->Ok_0.dimensions,
{
    assert(same_prompts(batch_prompts, prompts)) by {
        assert(batch_prompts[0]@ == prompts[0]@);
    }
    let x = batch_pool.answer()->Ready_0;
    let y = pool.answer()->Ready_0;
    lemma_outcome_carries_over(
        model(x),
        plus,
        over,
        zero,
        encoder,
        batch_prompts,
        prompts,
        budget,
        batch_outcome,
    );
    let vectors = batch_outcome->Ok_0@;
    lemma_success_is_shared(
        model,
        x,
        y,
        plus,
        over,
        zero,
        encoder,
        prompts,
        budget,
        vectors,
    );
    law_vectors_do_not_depend_on_the_lane(
        model,
        x,
        y,
        plus,
        over,
        f,
        g,
        zero,
        encoder,
        prompts,
        budget,
        vectors,
        outcome->Ok_0@,
    );
    assert(vectors[0]@ == outcome->Ok_0@[0]@);
}

} // verus!
