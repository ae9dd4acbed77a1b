//! From prompts to vectors: encode, split into sub-batches, run the model on each, and
//! pool its output.
//!
//! The model comes in as an operation on a sub-batch's tensors, which gives its output
//! or, with `None`, fails.

use crate::plan::{
    is_covered, is_plan, law_plan_covers_each_item_once, law_run_cost_is_bounded, longest,
    plan_subbatches,
};
use crate::pooling::{
    answers, is_answer, is_pooled, lemma_complete_output_answers, masked_mean, ModelOutput,
};
use crate::service::{
    law_answer_holds_the_vector, law_batch_answer_holds_every_vector,
    law_batch_prompts_hold_the_whole_texts, law_no_texts_no_prompts,
    law_prompt_holds_the_whole_text, respond, respond_batch, settle, Attempt, EmbedBatchRequest,
    EmbedBatchResponse, EmbedError, EmbedRequest, EmbedResponse,
};
use crate::tensor::{is_padded, law_padded_rows, pad_rows, row_lengths, Tensors};
use crate::tokens::{may_encode, TextEncoder, TokenRow};
use vstd::prelude::*;

verus! {

/// The model can answer the sub-batch `rows`, laid out as `t`, with `out`.
pub open spec fn can_answer<E, R: Fn(&Tensors) -> Option<ModelOutput<E>>>(
    run: R,
    rows: Seq<TokenRow>,
    t: Tensors,
    out: ModelOutput<E>,
) -> bool {
    is_padded(rows, t) && call_ensures(run, (&t,), Some(out)) && answers(t, out)
}

/// The model can fail on the sub-batch `rows`: it can give nothing, or an output that
/// does not belong to the tensors.
pub open spec fn can_fail<E, R: Fn(&Tensors) -> Option<ModelOutput<E>>>(
    run: R,
    rows: Seq<TokenRow>,
) -> bool {
    exists|t: Tensors, out: Option<ModelOutput<E>>|
        is_padded(rows, t) && #[trigger] call_ensures(run, (&t,), out) && (out matches Some(o)
            ==> !answers(t, o))
}

/// `vectors` can come of running the model once on the sub-batch `rows`: one for each
/// row, in order, pooled from the same output.
pub open spec fn is_run<
    E,
    R: Fn(&Tensors) -> Option<ModelOutput<E>>,
    A: Fn(E, E) -> E,
    D: Fn(E, usize) -> E,
>(run: R, plus: A, over: D, zero: E, rows: Seq<TokenRow>, vectors: Seq<Vec<E>>) -> bool {
    &&& vectors.len() == rows.len()
    &&& rows.len() > 0 ==> exists|t: Tensors, out: ModelOutput<E>| #[trigger]
        can_answer(run, rows, t, out) && forall|b: int|
            0 <= b < rows.len() ==> is_pooled(
                plus,
                over,
                zero,
                t,
                out,
                b,
                (#[trigger] vectors[b])@,
            )
}

/// `vectors` can come of running the model on `rows` sub-batch by sub-batch.
pub open spec fn is_embedding<
    E,
    R: Fn(&Tensors) -> Option<ModelOutput<E>>,
    A: Fn(E, E) -> E,
    D: Fn(E, usize) -> E,
>(
    run: R,
    plus: A,
    over: D,
    zero: E,
    rows: Seq<TokenRow>,
    ranges: Seq<(usize, usize)>,
    vectors: Seq<Vec<E>>,
) -> bool {
    &&& vectors.len() == rows.len()
    &&& forall|i: int|
        0 <= i < ranges.len() ==> is_run(
            run,
            plus,
            over,
            zero,
            rows.subrange((#[trigger] ranges[i]).0 as int, ranges[i].1 as int),
            vectors.subrange(ranges[i].0 as int, ranges[i].1 as int),
        )
}

/// At least one text, and either one text alone or no more padded tokens than the
/// budget.
pub open spec fn within_budget(t: Tensors, max_batch_tokens: usize) -> bool {
    t.batch > 0 && (t.batch == 1 || t.batch * t.seq <= max_batch_tokens)
}

/// What the model may be handed for these rows: the padded rows of a sub-batch of their
/// plan, which are within the budget.
pub open spec fn is_input(rows: Seq<TokenRow>, max_batch_tokens: usize, t: Tensors) -> bool {
    &&& within_budget(t, max_batch_tokens)
    &&& exists|ranges: Seq<(usize, usize)>, k: int|
        is_plan(row_lengths(rows), max_batch_tokens, ranges) && 0 <= k < ranges.len() && is_padded(
            rows.subrange((#[trigger] ranges[k]).0 as int, ranges[k].1 as int),
            t,
        )
}

/// Run one sub-batch through the model and pool its output. The model is handed the
/// padded rows and nothing else, and without rows it is not run. `None` when the model
/// fails.
pub fn run_encodings<
    E: Copy,
    R: Fn(&Tensors) -> Option<ModelOutput<E>>,
    A: Fn(E, E) -> E,
    D: Fn(E, usize) -> E,
>(run: &R, plus: &A, over: &D, zero: E, rows: &[TokenRow]) -> (vectors: Option<Vec<Vec<E>>>)
    requires
        rows.len() * longest(row_lengths(rows@), 0, rows.len() as int) <= usize::MAX,
        forall|t: &Tensors|
            rows.len() > 0 && is_padded(rows@, *t) ==> #[trigger] call_requires(run, (t,)),
        forall|x: E, y: E| call_requires(plus, (x, y)),
        forall|x: E, n: usize| n > 0 ==> call_requires(over, (x, n)),
    ensures
        match vectors {
            Some(vectors) => is_run(*run, *plus, *over, zero, rows@, vectors@),
            None => rows.len() > 0 && can_fail(*run, rows@),
        },
{
    if rows.len() == 0 {
        return Some(Vec::new());
    }
    let t: Tensors = pad_rows(rows);
    match run(&t) {
        Some(out) => {
            if !is_answer(&t, &out) {
                return None;
            }
            let vectors: Vec<Vec<E>> = masked_mean(plus, over, zero, &t, &out);
            assert(can_answer(*run, rows@, t, out));
            Some(vectors)
        },
        None => None,
    }
}

proof fn lemma_lengths_of_subrange(rows: Seq<TokenRow>, start: int, end: int, n: int)
    requires
        0 <= start <= end <= rows.len(),
        0 <= n <= end - start,
    ensures
        longest(row_lengths(rows.subrange(start, end)), 0, n) == longest(
            row_lengths(rows),
            start,
            start + n,
        ),
    decreases n,
{
    if n > 0 {
        lemma_lengths_of_subrange(rows, start, end, n - 1);
    }
}

/// Run the model on token rows, sub-batch by sub-batch, and pool. Vectors come in input
/// order. Whatever the rows, the model is only ever handed a sub-batch of their plan.
pub fn embed_rows<
    E: Copy,
    R: Fn(&Tensors) -> Option<ModelOutput<E>>,
    A: Fn(E, E) -> E,
    D: Fn(E, usize) -> E,
>(
    run: &R,
    plus: &A,
    over: &D,
    zero: E,
    rows: &Vec<TokenRow>,
    max_batch_tokens: usize,
) -> (vectors: Result<Vec<Vec<E>>, EmbedError>)
    requires
        forall|t: &Tensors|
            is_input(rows@, max_batch_tokens, *t) ==> #[trigger] call_requires(run, (t,)),
        forall|x: E, y: E| call_requires(plus, (x, y)),
        forall|x: E, n: usize| n > 0 ==> call_requires(over, (x, n)),
    ensures
        match vectors {
            Ok(vectors) => exists|ranges: Seq<(usize, usize)>| #[trigger]
                is_plan(row_lengths(rows@), max_batch_tokens, ranges) && is_embedding(
                    *run,
                    *plus,
                    *over,
                    zero,
                    rows@,
                    ranges,
                    vectors@,
                ),
            Err(error) => error == EmbedError::Inference && run_can_fail(
                *run,
                rows@,
                max_batch_tokens,
            ),
        },
{
    let mut lengths: Vec<usize> = Vec::with_capacity(rows.len());
    while lengths.len() < rows.len()
        invariant
            lengths.len() <= rows.len(),
            forall|i: int| 0 <= i < lengths.len() ==> #[trigger] lengths[i] == rows[i].ids@.len(),
        decreases rows.len() - lengths.len(),
    {
        lengths.push(rows[lengths.len()].ids.len());
    }
    assert(lengths@ =~= row_lengths(rows@));
    let ranges: Vec<(usize, usize)> = plan_subbatches(lengths.as_slice(), max_batch_tokens);
    proof {
        law_plan_covers_each_item_once(lengths@, max_batch_tokens, ranges@);
    }
    let mut vectors: Vec<Vec<E>> = Vec::with_capacity(rows.len());
    let mut k: usize = 0;
    while k < ranges.len()
        invariant
            k <= ranges.len(),
            lengths@ == row_lengths(rows@),
            is_plan(lengths@, max_batch_tokens, ranges@),
            forall|i: int|
                0 <= i < ranges.len() ==> (#[trigger] ranges[i]).0 < ranges[i].1 <= rows.len(),
            forall|t: &Tensors|
                is_input(rows@, max_batch_tokens, *t) ==> #[trigger] call_requires(run, (t,)),
            forall|x: E, y: E| call_requires(plus, (x, y)),
            forall|x: E, n: usize| n > 0 ==> call_requires(over, (x, n)),
            k == 0 ==> vectors.len() == 0,
            k > 0 ==> vectors.len() == ranges[k - 1].1,
            forall|i: int|
                0 <= i < k ==> (#[trigger] ranges[i]).1 <= vectors.len() && is_run(
                    *run,
                    *plus,
                    *over,
                    zero,
                    rows@.subrange(ranges[i].0 as int, ranges[i].1 as int),
                    vectors@.subrange(ranges[i].0 as int, ranges[i].1 as int),
                ),
        decreases ranges.len() - k,
    {
        let (start, end) = ranges[k];
        let ghost before = vectors@;
        assert(start == before.len());
        proof {
            law_run_cost_is_bounded(lengths@, max_batch_tokens, ranges@, k as int);
            lemma_lengths_of_subrange(rows@, start as int, end as int, end - start);
        }
        let batch: &[TokenRow] = &rows.as_slice()[start..end];
        assert(batch@ == rows@.subrange(start as int, end as int));
        assert forall|t: &Tensors| is_padded(batch@, *t) implies #[trigger] call_requires(
            run,
            (t,),
        ) by {
            law_model_input_is_bounded(rows@, max_batch_tokens, ranges@, k as int, *t);
        }
        match run_encodings(run, plus, over, zero, batch) {
            Some(mut pooled) => {
                let ghost new = pooled@;
                vectors.append(&mut pooled);
                proof {
                    assert(vectors@ == before + new);
                    assert(vectors@.subrange(start as int, end as int) =~= new);
                    assert forall|i: int| 0 <= i < k implies (#[trigger] ranges[i]).1
                        <= vectors.len() && is_run(
                        *run,
                        *plus,
                        *over,
                        zero,
                        rows@.subrange(ranges[i].0 as int, ranges[i].1 as int),
                        vectors@.subrange(ranges[i].0 as int, ranges[i].1 as int),
                    ) by {
                        assert(vectors@.subrange(ranges[i].0 as int, ranges[i].1 as int)
                            =~= before.subrange(ranges[i].0 as int, ranges[i].1 as int));
                    }
                }
            },
            None => {
                return Err(EmbedError::Inference);
            },
        }
        k += 1;
    }
    Ok(vectors)
}

/// The model can fail on a sub-batch of the plan for `rows`.
pub open spec fn run_can_fail<E, R: Fn(&Tensors) -> Option<ModelOutput<E>>>(
    run: R,
    rows: Seq<TokenRow>,
    max_batch_tokens: usize,
) -> bool {
    exists|ranges: Seq<(usize, usize)>, i: int|
        is_plan(row_lengths(rows), max_batch_tokens, ranges) && 0 <= i < ranges.len() && can_fail(
            run,
            rows.subrange((#[trigger] ranges[i]).0 as int, ranges[i].1 as int),
        )
}

/// The encoder can give these rows for these prompts, one for each, in order.
pub open spec fn encodes(encoder: TextEncoder, prompts: Seq<String>, rows: Seq<TokenRow>) -> bool {
    &&& rows.len() == prompts.len()
    &&& forall|i: int|
        0 <= i < prompts.len() ==> encoder.may_give(prompts[i]@, Some((#[trigger] rows[i])@))
}

/// What the model may be handed for these prompts: a sub-batch of what the encoder gives
/// for them, and without prompts nothing.
pub open spec fn is_input_for(
    encoder: TextEncoder,
    prompts: Seq<String>,
    max_batch_tokens: usize,
    t: Tensors,
) -> bool {
    prompts.len() > 0 && exists|rows: Seq<TokenRow>| #[trigger]
        encodes(encoder, prompts, rows) && is_input(rows, max_batch_tokens, t)
}

/// `vectors` can come of encoding the prompts and running the model on them: one for
/// each prompt, in order, from the sub-batches of the plan.
pub open spec fn is_result<
    E,
    R: Fn(&Tensors) -> Option<ModelOutput<E>>,
    A: Fn(E, E) -> E,
    D: Fn(E, usize) -> E,
>(
    run: R,
    plus: A,
    over: D,
    zero: E,
    encoder: TextEncoder,
    prompts: Seq<String>,
    max_batch_tokens: usize,
    vectors: Seq<Vec<E>>,
) -> bool {
    &&& vectors.len() == prompts.len()
    &&& prompts.len() > 0 ==> exists|rows: Seq<TokenRow>, ranges: Seq<(usize, usize)>|
        #![trigger encodes(encoder, prompts, rows), is_plan(row_lengths(rows), max_batch_tokens, ranges)]
        {
            &&& encodes(encoder, prompts, rows)
            &&& is_plan(row_lengths(rows), max_batch_tokens, ranges)
            &&& is_embedding(run, plus, over, zero, rows, ranges, vectors)
        }
}

/// The encoder can fail on a prompt, or the model on a sub-batch of what the encoder
/// gives.
pub open spec fn inference_can_fail<E, R: Fn(&Tensors) -> Option<ModelOutput<E>>>(
    run: R,
    encoder: TextEncoder,
    prompts: Seq<String>,
    max_batch_tokens: usize,
) -> bool {
    ||| exists|i: int|
        0 <= i < prompts.len() && encoder.may_give((#[trigger] prompts[i])@, None)
    ||| exists|rows: Seq<TokenRow>| #[trigger]
        encodes(encoder, prompts, rows) && run_can_fail(run, rows, max_batch_tokens)
}

/// `outcome` can come of embedding the prompts. Only a failure of the encoder or of the
/// model is an error, and without prompts there is none.
pub open spec fn is_outcome<
    E,
    R: Fn(&Tensors) -> Option<ModelOutput<E>>,
    A: Fn(E, E) -> E,
    D: Fn(E, usize) -> E,
>(
    run: R,
    plus: A,
    over: D,
    zero: E,
    encoder: TextEncoder,
    prompts: Seq<String>,
    max_batch_tokens: usize,
    outcome: Result<Vec<Vec<E>>, EmbedError>,
) -> bool {
    match outcome {
        Ok(vectors) => is_result(
            run,
            plus,
            over,
            zero,
            encoder,
            prompts,
            max_batch_tokens,
            vectors@,
        ),
        Err(error) => {
            &&& error == EmbedError::Inference
            &&& prompts.len() > 0
            &&& inference_can_fail(run, encoder, prompts, max_batch_tokens)
        },
    }
}

/// Embed a batch of already-prefixed strings: one raw, masked-mean-pooled vector for
/// each, in order. Encoding is unpadded, so the true lengths drive the sub-batches,
/// and a large request is run as several sub-batches one after another: the model is
/// only ever handed one of them, within the budget. Without prompts it is not run.
pub fn embed_prefixed<
    E: Copy,
    R: Fn(&Tensors) -> Option<ModelOutput<E>>,
    A: Fn(E, E) -> E,
    D: Fn(E, usize) -> E,
>(
    run: &R,
    plus: &A,
    over: &D,
    zero: E,
    encoder: &TextEncoder,
    prefixed: &Vec<String>,
    max_batch_tokens: usize,
) -> (vectors: Result<Vec<Vec<E>>, EmbedError>)
    requires
        forall|t: &Tensors|
            is_input_for(*encoder, prefixed@, max_batch_tokens, *t) ==> #[trigger] call_requires(
                run,
                (t,),
            ),
        forall|x: E, y: E| call_requires(plus, (x, y)),
        forall|x: E, n: usize| n > 0 ==> call_requires(over, (x, n)),
    ensures
        is_outcome(
            *run,
            *plus,
            *over,
            zero,
            *encoder,
            prefixed@,
            max_batch_tokens,
            vectors,
        ),
{
    if prefixed.len() == 0 {
        return Ok(Vec::new());
    }
    let rows: Vec<TokenRow> = match encoder.encode(prefixed) {
        Some(rows) => rows,
        None => return Err(EmbedError::Inference),
    };
    assert(encodes(*encoder, prefixed@, rows@));
    embed_rows(run, plus, over, zero, &rows, max_batch_tokens)
}

/// `vector` can be the vector of the text at `i` of a run over the texts from `start`
/// to `end`: pooled from that text's own row of the run's output.
pub open spec fn is_vector_of<
    E,
    R: Fn(&Tensors) -> Option<ModelOutput<E>>,
    A: Fn(E, E) -> E,
    D: Fn(E, usize) -> E,
>(
    run: R,
    plus: A,
    over: D,
    zero: E,
    rows: Seq<TokenRow>,
    range: (usize, usize),
    i: int,
    vector: Seq<E>,
) -> bool {
    &&& range.0 <= i < range.1 <= rows.len()
    &&& exists|t: Tensors, out: ModelOutput<E>| #[trigger]
        can_answer(run, rows.subrange(range.0 as int, range.1 as int), t, out) && is_pooled(
            plus,
            over,
            zero,
            t,
            out,
            i - range.0,
            vector,
        )
}

/// Vectors keep the order of the texts, whatever the sub-batches: the vector at a place
/// is pooled from the row of the text at that place.
pub proof fn law_each_text_gets_its_own_vector<
    E,
    R: Fn(&Tensors) -> Option<ModelOutput<E>>,
    A: Fn(E, E) -> E,
    D: Fn(E, usize) -> E,
>(
    run: R,
    plus: A,
    over: D,
    zero: E,
    rows: Seq<TokenRow>,
    budget: usize,
    ranges: Seq<(usize, usize)>,
    vectors: Seq<Vec<E>>,
    i: int,
)
    requires
        is_plan(row_lengths(rows), budget, ranges),
        is_embedding(run, plus, over, zero, rows, ranges, vectors),
        0 <= i < rows.len(),
    ensures
        exists|k: int|
            0 <= k < ranges.len() && is_vector_of(
                run,
                plus,
                over,
                zero,
                rows,
                #[trigger] ranges[k],
                i,
                vectors[i]@,
            ),
{
    law_plan_covers_each_item_once(row_lengths(rows), budget, ranges);
    assert(is_covered(ranges, i));
    let k = choose|k: int| 0 <= k < ranges.len() && (#[trigger] ranges[k]).0 <= i < ranges[k].1;
    let start = ranges[k].0 as int;
    let end = ranges[k].1 as int;
    let batch = rows.subrange(start, end);
    let part = vectors.subrange(start, end);
    assert(is_run(run, plus, over, zero, batch, part));
    let (t, out) = choose|t: Tensors, out: ModelOutput<E>| #[trigger]
        can_answer(run, batch, t, out) && forall|b: int|
            0 <= b < batch.len() ==> is_pooled(plus, over, zero, t, out, b, (#[trigger] part[b])@);
    assert(part[i - start] == vectors[i]);
    assert(is_vector_of(run, plus, over, zero, rows, ranges[k], i, vectors[i]@));
}

/// The tensors of every sub-batch of a plan are within the budget, or hold one text
/// alone.
pub proof fn law_model_input_is_bounded(
    rows: Seq<TokenRow>,
    budget: usize,
    ranges: Seq<(usize, usize)>,
    k: int,
    t: Tensors,
)
    requires
        is_plan(row_lengths(rows), budget, ranges),
        0 <= k < ranges.len(),
        is_padded(rows.subrange(ranges[k].0 as int, ranges[k].1 as int), t),
    ensures
        within_budget(t, budget),
{
    law_plan_covers_each_item_once(row_lengths(rows), budget, ranges);
    let start = ranges[k].0 as int;
    let end = ranges[k].1 as int;
    law_run_cost_is_bounded(row_lengths(rows), budget, ranges, k);
    lemma_lengths_of_subrange(rows, start, end, end - start);
}

/// A run is one answer of the model to the padded rows, and every row's vector is pooled
/// from it. Without rows there is nothing to answer.
pub proof fn law_run_pools_one_answer<
    E: Copy,
    R: Fn(&Tensors) -> Option<ModelOutput<E>>,
    A: Fn(E, E) -> E,
    D: Fn(E, usize) -> E,
>(
    run: &R,
    plus: &A,
    over: &D,
    zero: E,
    rows: &[TokenRow],
    vectors: Option<Vec<Vec<E>>>,
)
    requires
        call_ensures(run_encodings::<E, R, A, D>, (run, plus, over, zero, rows), vectors),
    ensures
        rows@.len() == 0 ==> vectors is Some && vectors->0@.len() == 0,
        vectors is Some ==> vectors->0@.len() == rows@.len(),
        vectors is Some && rows@.len() > 0 ==> exists|t: Tensors, out: ModelOutput<E>|
            {
                &&& is_padded(rows@, t)
                &&& #[trigger] call_ensures(*run, (&t,), Some(out))
                &&& answers(t, out)
                &&& forall|b: int|
                    0 <= b < rows@.len() ==> is_pooled(
                        *plus,
                        *over,
                        zero,
                        t,
                        out,
                        b,
                        (#[trigger] vectors->0@[b])@,
                    )
            },
        vectors is None ==> exists|t: Tensors, out: Option<ModelOutput<E>>|
            {
                &&& is_padded(rows@, t)
                &&& #[trigger] call_ensures(*run, (&t,), out)
                &&& out is Some ==> !answers(t, out->0)
            },
{
    if vectors is Some && rows@.len() > 0 {
        let part = vectors->0@;
        let (t, out) = choose|t: Tensors, out: ModelOutput<E>| #[trigger]
            can_answer(*run, rows@, t, out) && forall|b: int|
                0 <= b < rows@.len() ==> is_pooled(
                    *plus,
                    *over,
                    zero,
                    t,
                    out,
                    b,
                    (#[trigger] part[b])@,
                );
        assert(call_ensures(*run, (&t,), Some(out)));
    }
}

/// Rows come out in their places, one vector each. The rows are split as planned for
/// their lengths, and each sub-batch is one answer of the model to its own rows, padded.
pub proof fn law_each_sub_batch_is_one_answer<
    E: Copy,
    R: Fn(&Tensors) -> Option<ModelOutput<E>>,
    A: Fn(E, E) -> E,
    D: Fn(E, usize) -> E,
>(
    run: &R,
    plus: &A,
    over: &D,
    zero: E,
    rows: &Vec<TokenRow>,
    budget: usize,
    vectors: Result<Vec<Vec<E>>, EmbedError>,
)
    requires
        call_ensures(embed_rows::<E, R, A, D>, (run, plus, over, zero, rows, budget), vectors),
        vectors is Ok,
    ensures
        vectors->Ok_0@.len() == rows@.len(),
        exists|lengths: Seq<usize>, ranges: Seq<(usize, usize)>|
            {
                &&& lengths.len() == rows@.len()
                &&& forall|i: int|
                    0 <= i < rows@.len() ==> #[trigger] lengths[i] == rows@[i].ids@.len()
                &&& #[trigger] is_plan(lengths, budget, ranges)
                &&& forall|k: int|
                    0 <= k < ranges.len() ==> exists|t: Tensors, out: ModelOutput<E>|
                        {
                            &&& is_padded(
                                rows@.subrange((#[trigger] ranges[k]).0 as int, ranges[k].1 as int),
                                t,
                            )
                            &&& #[trigger] call_ensures(*run, (&t,), Some(out))
                            &&& answers(t, out)
                            &&& forall|i: int|
                                ranges[k].0 <= i < ranges[k].1 ==> is_pooled(
                                    *plus,
                                    *over,
                                    zero,
                                    t,
                                    out,
                                    i - ranges[k].0,
                                    (#[trigger] vectors->Ok_0@[i])@,
                                )
                        }
            },
{
    let lengths = row_lengths(rows@);
    lemma_row_lengths(rows@);
    let ranges = choose|ranges: Seq<(usize, usize)>| #[trigger]
        is_plan(row_lengths(rows@), budget, ranges) && is_embedding(
            *run,
            *plus,
            *over,
            zero,
            rows@,
            ranges,
            vectors->Ok_0@,
        );
    lemma_answers_of_ranges(*run, *plus, *over, zero, rows@, budget, ranges, vectors->Ok_0@);
    assert(is_plan(lengths, budget, ranges));
}

proof fn lemma_row_lengths(rows: Seq<TokenRow>)
    ensures
        row_lengths(rows).len() == rows.len(),
        forall|i: int|
            0 <= i < rows.len() ==> #[trigger] row_lengths(rows)[i] == rows[i].ids@.len(),
{
    assert forall|i: int| 0 <= i < rows.len() implies #[trigger] row_lengths(rows)[i]
        == rows[i].ids@.len() by {
        assert(rows[i].ids.len() == rows[i].ids@.len());
    }
}

proof fn lemma_answers_of_ranges<
    E,
    R: Fn(&Tensors) -> Option<ModelOutput<E>>,
    A: Fn(E, E) -> E,
    D: Fn(E, usize) -> E,
>(
    run: R,
    plus: A,
    over: D,
    zero: E,
    rows: Seq<TokenRow>,
    budget: usize,
    ranges: Seq<(usize, usize)>,
    vectors: Seq<Vec<E>>,
)
    requires
        is_plan(row_lengths(rows), budget, ranges),
        is_embedding(run, plus, over, zero, rows, ranges, vectors),
    ensures
        forall|k: int|
            0 <= k < ranges.len() ==> exists|t: Tensors, out: ModelOutput<E>|
                {
                    &&& is_padded(
                        rows.subrange((#[trigger] ranges[k]).0 as int, ranges[k].1 as int),
                        t,
                    )
                    &&& #[trigger] call_ensures(run, (&t,), Some(out))
                    &&& answers(t, out)
                    &&& forall|i: int|
                        ranges[k].0 <= i < ranges[k].1 ==> is_pooled(
                            plus,
                            over,
                            zero,
                            t,
                            out,
                            i - ranges[k].0,
                            (#[trigger] vectors[i])@,
                        )
                },
{
    law_plan_covers_each_item_once(row_lengths(rows), budget, ranges);
    assert forall|k: int| 0 <= k < ranges.len() implies exists|t: Tensors, out: ModelOutput<E>|
        {
            &&& is_padded(
                rows.subrange((#[trigger] ranges[k]).0 as int, ranges[k].1 as int),
                t,
            )
            &&& #[trigger] call_ensures(run, (&t,), Some(out))
            &&& answers(t, out)
            &&& forall|i: int|
                ranges[k].0 <= i < ranges[k].1 ==> is_pooled(
                    plus,
                    over,
                    zero,
                    t,
                    out,
                    i - ranges[k].0,
                    (#[trigger] vectors[i])@,
                )
        } by {
        let start = ranges[k].0 as int;
        let end = ranges[k].1 as int;
        let batch = rows.subrange(start, end);
        let part = vectors.subrange(start, end);
        assert(is_run(run, plus, over, zero, batch, part));
        let (t, out) = choose|t: Tensors, out: ModelOutput<E>| #[trigger]
            can_answer(run, batch, t, out) && forall|b: int|
                0 <= b < batch.len() ==> is_pooled(
                    plus,
                    over,
                    zero,
                    t,
                    out,
                    b,
                    (#[trigger] part[b])@,
                );
        assert forall|i: int| start <= i < end implies is_pooled(
            plus,
            over,
            zero,
            t,
            out,
            i - start,
            (#[trigger] vectors[i])@,
        ) by {
            assert(part[i - start] == vectors[i]);
        }
        assert(call_ensures(run, (&t,), Some(out)));
    }
}

/// Only the model fails rows: an error means that on the padded rows of a planned
/// sub-batch it can give nothing, or an output that does not belong to them.
pub proof fn law_only_the_model_fails_rows<
    E: Copy,
    R: Fn(&Tensors) -> Option<ModelOutput<E>>,
    A: Fn(E, E) -> E,
    D: Fn(E, usize) -> E,
>(
    run: &R,
    plus: &A,
    over: &D,
    zero: E,
    rows: &Vec<TokenRow>,
    budget: usize,
    vectors: Result<Vec<Vec<E>>, EmbedError>,
)
    requires
        call_ensures(embed_rows::<E, R, A, D>, (run, plus, over, zero, rows, budget), vectors),
        vectors is Err,
    ensures
        vectors->Err_0 is Inference,
        exists|start: int, end: int, t: Tensors, out: Option<ModelOutput<E>>|
            {
                &&& 0 <= start < end <= rows@.len()
                &&& #[trigger] is_padded(rows@.subrange(start, end), t)
                &&& t.batch == 1 || t.batch * t.seq <= budget
                &&& #[trigger] call_ensures(*run, (&t,), out)
                &&& out is Some ==> !answers(t, out->0)
            },
{
    lemma_failing_sub_batch(*run, rows@, budget);
}

proof fn lemma_failing_sub_batch<E, R: Fn(&Tensors) -> Option<ModelOutput<E>>>(
    run: R,
    rows: Seq<TokenRow>,
    budget: usize,
)
    requires
        run_can_fail(run, rows, budget),
    ensures
        exists|start: int, end: int, t: Tensors, out: Option<ModelOutput<E>>|
            {
                &&& 0 <= start < end <= rows.len()
                &&& #[trigger] is_padded(rows.subrange(start, end), t)
                &&& t.batch == 1 || t.batch * t.seq <= budget
                &&& #[trigger] call_ensures(run, (&t,), out)
                &&& out is Some ==> !answers(t, out->0)
            },
{
    let (ranges, k) = choose|ranges: Seq<(usize, usize)>, k: int|
        is_plan(row_lengths(rows), budget, ranges) && 0 <= k < ranges.len() && can_fail(
            run,
            rows.subrange((#[trigger] ranges[k]).0 as int, ranges[k].1 as int),
        );
    law_plan_covers_each_item_once(row_lengths(rows), budget, ranges);
    let start = ranges[k].0 as int;
    let end = ranges[k].1 as int;
    let (t, out) = choose|t: Tensors, out: Option<ModelOutput<E>>|
        is_padded(rows.subrange(start, end), t) && #[trigger] call_ensures(run, (&t,), out) && (
        out matches Some(o) ==> !answers(t, o));
    law_model_input_is_bounded(rows, budget, ranges, k, t);
    assert(is_padded(rows.subrange(start, end), t) && call_ensures(run, (&t,), out));
}

/// The model's input is bounded whatever the request: it is enough that the model takes
/// the padded rows of the planned sub-batches, each of one row or within the budget, and
/// it is never handed anything else.
pub proof fn law_model_need_only_take_sub_batches<
    E: Copy,
    R: Fn(&Tensors) -> Option<ModelOutput<E>>,
    A: Fn(E, E) -> E,
    D: Fn(E, usize) -> E,
>(run: &R, plus: &A, over: &D, zero: E, rows: &Vec<TokenRow>, budget: usize)
    requires
        forall|t: &Tensors, start: int, end: int|
            {
                &&& 0 <= start < end <= rows@.len()
                &&& #[trigger] is_padded(rows@.subrange(start, end), *t)
                &&& t.batch == 1 || t.batch * t.seq <= budget
            } ==> call_requires(*run, (t,)),
        forall|x: E, y: E| call_requires(*plus, (x, y)),
        forall|x: E, n: usize| n > 0 ==> call_requires(*over, (x, n)),
    ensures
        call_requires(embed_rows::<E, R, A, D>, (run, plus, over, zero, rows, budget)),
{
    assert forall|t: &Tensors| is_input(rows@, budget, *t) implies #[trigger] call_requires(
        run,
        (t,),
    ) by {
        lemma_input_is_padded(rows@, budget, *t);
        let (start, end) = choose|start: int, end: int|
            {
                &&& 0 <= start < end <= rows@.len()
                &&& #[trigger] is_padded(rows@.subrange(start, end), *t)
                &&& t.batch == 1 || t.batch * t.seq <= budget
            };
        assert(is_padded(rows@.subrange(start, end), *t));
    }
}

proof fn lemma_input_is_padded(rows: Seq<TokenRow>, budget: usize, t: Tensors)
    requires
        is_input(rows, budget, t),
    ensures
        exists|start: int, end: int|
            {
                &&& 0 <= start < end <= rows.len()
                &&& #[trigger] is_padded(rows.subrange(start, end), t)
                &&& t.batch == 1 || t.batch * t.seq <= budget
            },
{
    let (ranges, k) = choose|ranges: Seq<(usize, usize)>, k: int|
        is_plan(row_lengths(rows), budget, ranges) && 0 <= k < ranges.len() && is_padded(
            rows.subrange((#[trigger] ranges[k]).0 as int, ranges[k].1 as int),
            t,
        );
    law_plan_covers_each_item_once(row_lengths(rows), budget, ranges);
    let start = ranges[k].0 as int;
    let end = ranges[k].1 as int;
    assert(is_padded(rows.subrange(start, end), t));
}

/// The same of a request: it is enough that the model takes sub-batches of rows that the
/// tokenizer can give for its prompts. Without prompts the model need take nothing.
pub proof fn law_model_need_only_take_the_request<
    E: Copy,
    R: Fn(&Tensors) -> Option<ModelOutput<E>>,
    A: Fn(E, E) -> E,
    D: Fn(E, usize) -> E,
>(
    run: &R,
    plus: &A,
    over: &D,
    zero: E,
    encoder: &TextEncoder,
    prompts: &Vec<String>,
    budget: usize,
)
    requires
        forall|t: &Tensors, rows: Seq<TokenRow>, start: int, end: int|
            {
                &&& rows.len() == prompts@.len()
                &&& forall|i: int|
                    0 <= i < rows.len() ==> may_encode(
                        encoder.definition(),
                        encoder.limit(),
                        true,
                        prompts@[i]@,
                        Some(((#[trigger] rows[i]).ids@, rows[i].mask@)),
                    )
                &&& 0 <= start < end <= rows.len()
                &&& #[trigger] is_padded(rows.subrange(start, end), *t)
                &&& t.batch == 1 || t.batch * t.seq <= budget
            } ==> call_requires(*run, (t,)),
        forall|x: E, y: E| call_requires(*plus, (x, y)),
        forall|x: E, n: usize| n > 0 ==> call_requires(*over, (x, n)),
    ensures
        call_requires(
            embed_prefixed::<E, R, A, D>,
            (run, plus, over, zero, encoder, prompts, budget),
        ),
{
    assert forall|t: &Tensors|
        is_input_for(*encoder, prompts@, budget, *t) implies #[trigger] call_requires(
        run,
        (t,),
    ) by {
        let rows = choose|rows: Seq<TokenRow>| #[trigger]
            encodes(*encoder, prompts@, rows) && is_input(rows, budget, *t);
        assert forall|i: int| 0 <= i < rows.len() implies may_encode(
            encoder.definition(),
            encoder.limit(),
            true,
            prompts@[i]@,
            Some(((#[trigger] rows[i]).ids@, rows[i].mask@)),
        ) by {
            assert(encoder.may_give(prompts@[i]@, Some(rows[i]@)));
        }
        lemma_input_is_padded(rows, budget, *t);
        let (start, end) = choose|start: int, end: int|
            {
                &&& 0 <= start < end <= rows.len()
                &&& #[trigger] is_padded(rows.subrange(start, end), *t)
                &&& t.batch == 1 || t.batch * t.seq <= budget
            };
        assert(is_padded(rows.subrange(start, end), *t));
    }
}

/// A request comes to one vector for each prompt, in its place, pooled from the model's
/// answer to the tokens of that very prompt: the tokenizer's rows for the prompts are
/// split as planned for their lengths, and each sub-batch is one answer of the model to
/// its own rows, padded.
pub proof fn law_each_prompt_gets_its_own_vector<
    E: Copy,
    R: Fn(&Tensors) -> Option<ModelOutput<E>>,
    A: Fn(E, E) -> E,
    D: Fn(E, usize) -> E,
>(
    run: &R,
    plus: &A,
    over: &D,
    zero: E,
    encoder: &TextEncoder,
    prompts: &Vec<String>,
    budget: usize,
    vectors: Result<Vec<Vec<E>>, EmbedError>,
)
    requires
        call_ensures(
            embed_prefixed::<E, R, A, D>,
            (run, plus, over, zero, encoder, prompts, budget),
            vectors,
        ),
        vectors is Ok,
    ensures
        vectors->Ok_0@.len() == prompts@.len(),
        prompts@.len() > 0 ==> exists|
            rows: Seq<TokenRow>,
            lengths: Seq<usize>,
            ranges: Seq<(usize, usize)>,
        |
            #![trigger rows.len(), is_plan(lengths, budget, ranges)]
            {
                &&& rows.len() == prompts@.len()
                &&& forall|i: int|
                    0 <= i < rows.len() ==> may_encode(
                        encoder.definition(),
                        encoder.limit(),
                        true,
                        prompts@[i]@,
                        Some(((#[trigger] rows[i]).ids@, rows[i].mask@)),
                    )
                &&& lengths.len() == rows.len()
                &&& forall|i: int|
                    0 <= i < rows.len() ==> #[trigger] lengths[i] == rows[i].ids@.len()
                &&& is_plan(lengths, budget, ranges)
                &&& forall|k: int|
                    0 <= k < ranges.len() ==> exists|t: Tensors, out: ModelOutput<E>|
                        {
                            &&& is_padded(
                                rows.subrange((#[trigger] ranges[k]).0 as int, ranges[k].1 as int),
                                t,
                            )
                            &&& #[trigger] call_ensures(*run, (&t,), Some(out))
                            &&& answers(t, out)
                            &&& forall|i: int|
                                ranges[k].0 <= i < ranges[k].1 ==> is_pooled(
                                    *plus,
                                    *over,
                                    zero,
                                    t,
                                    out,
                                    i - ranges[k].0,
                                    (#[trigger] vectors->Ok_0@[i])@,
                                )
                        }
            },
{
    if prompts@.len() > 0 {
        let (rows, ranges) = choose|rows: Seq<TokenRow>, ranges: Seq<(usize, usize)>|
            #![trigger encodes(*encoder, prompts@, rows), is_plan(row_lengths(rows), budget, ranges)]
            encodes(*encoder, prompts@, rows) && is_plan(row_lengths(rows), budget, ranges)
                && is_embedding(*run, *plus, *over, zero, rows, ranges, vectors->Ok_0@);
        let lengths = row_lengths(rows);
        lemma_row_lengths(rows);
        assert forall|i: int| 0 <= i < rows.len() implies may_encode(
            encoder.definition(),
            encoder.limit(),
            true,
            prompts@[i]@,
            Some(((#[trigger] rows[i]).ids@, rows[i].mask@)),
        ) by {
            assert(encoder.may_give(prompts@[i]@, Some(rows[i]@)));
        }
        lemma_answers_of_ranges(*run, *plus, *over, zero, rows, budget, ranges, vectors->Ok_0@);
        assert(rows.len() == prompts@.len() && is_plan(lengths, budget, ranges));
    }
}

/// Success is owed. A request fails only where the tokenizer can fail on one of its
/// prompts, or where the model can give nothing, or less than a state for each cell, on
/// tensors of one text or within the budget.
pub proof fn law_request_is_served_unless_tokenizer_or_model_fails<
    E: Copy,
    R: Fn(&Tensors) -> Option<ModelOutput<E>>,
    A: Fn(E, E) -> E,
    D: Fn(E, usize) -> E,
>(
    run: &R,
    plus: &A,
    over: &D,
    zero: E,
    encoder: &TextEncoder,
    prompts: &Vec<String>,
    budget: usize,
    vectors: Result<Vec<Vec<E>>, EmbedError>,
)
    requires
        call_ensures(
            embed_prefixed::<E, R, A, D>,
            (run, plus, over, zero, encoder, prompts, budget),
            vectors,
        ),
    ensures
        vectors is Err ==> vectors->Err_0 is Inference && prompts@.len() > 0,
        (forall|i: int|
            0 <= i < prompts@.len() ==> !may_encode(
                encoder.definition(),
                encoder.limit(),
                true,
                (#[trigger] prompts@[i])@,
                None,
            )) && (forall|t: Tensors, out: Option<ModelOutput<E>>| #[trigger]
            call_ensures(*run, (&t,), out) && t.batch > 0 && (t.batch == 1 || t.batch * t.seq
                <= budget) && t.mask@.len() == t.batch * t.seq ==> out is Some && (out->0).seq
                == t.seq && (out->0).data@.len() == t.batch * t.seq * (out->0).dim) ==> vectors is Ok,
{
    if vectors is Err {
        if exists|i: int|
            0 <= i < prompts@.len() && encoder.may_give((#[trigger] prompts@[i])@, None) {
            let i = choose|i: int|
                0 <= i < prompts@.len() && encoder.may_give((#[trigger] prompts@[i])@, None);
            assert(may_encode(encoder.definition(), encoder.limit(), true, prompts@[i]@, None));
        } else {
            let rows = choose|rows: Seq<TokenRow>| #[trigger]
                encodes(*encoder, prompts@, rows) && run_can_fail(*run, rows, budget);
            lemma_failing_sub_batch(*run, rows, budget);
            let (start, end, t, out) = choose|
                start: int,
                end: int,
                t: Tensors,
                out: Option<ModelOutput<E>>,
            |
                {
                    &&& 0 <= start < end <= rows.len()
                    &&& #[trigger] is_padded(rows.subrange(start, end), t)
                    &&& t.batch == 1 || t.batch * t.seq <= budget
                    &&& #[trigger] call_ensures(*run, (&t,), out)
                    &&& out is Some ==> !answers(t, out->0)
                };
            law_padded_rows(rows.subrange(start, end), t);
            if out is Some && (out->0).seq == t.seq && (out->0).data@.len() == t.batch * t.seq * (
            out->0).dim {
                lemma_complete_output_answers(t, out->0);
            }
        }
    }
}

/// A batch answer is complete. However many texts a request has, if it is answered at
/// all, the answer holds as many vectors and says so, and each is, number for number, the
/// vector that its text came to.
pub proof fn law_batch_answer_is_complete<
    E: Copy,
    R: Fn(&Tensors) -> Option<ModelOutput<E>>,
    A: Fn(E, E) -> E,
    D: Fn(E, usize) -> E,
>(
    request: &EmbedBatchRequest,
    run: &R,
    plus: &A,
    over: &D,
    zero: E,
    encoder: &TextEncoder,
    prompts: Vec<String>,
    budget: usize,
    outcome: Result<Vec<Vec<E>>, EmbedError>,
    result: Result<Vec<Vec<E>>, EmbedError>,
    dim: usize,
    response: Result<EmbedBatchResponse<E>, EmbedError>,
)
    requires
        call_ensures(EmbedBatchRequest::prompts, (request,), prompts),
        call_ensures(
            embed_prefixed::<E, R, A, D>,
            (run, plus, over, zero, encoder, &prompts, budget),
            outcome,
        ),
        call_ensures(settle::<Vec<Vec<E>>>, (Attempt::Done(outcome),), result),
        call_ensures(respond_batch::<E>, (result, dim), response),
    ensures
        response is Ok <==> outcome is Ok,
        response is Ok ==> {
            &&& response->Ok_0.vectors@.len() == request.texts@.len()
            &&& response->Ok_0.count == request.texts@.len()
            &&& forall|i: int|
                0 <= i < request.texts@.len() ==> (#[trigger] response->Ok_0.vectors@[i])@
                    == outcome->Ok_0@[i]@
            &&& request.texts@.len() > 0 ==> response->Ok_0.dimensions
                == outcome->Ok_0@[0]@.len()
            &&& request.texts@.len() == 0 ==> response->Ok_0.dimensions == dim
        },
        response is Err ==> response->Err_0 is Inference,
{
    law_batch_answer_holds_every_vector(result, dim, response);
    if request.texts@.len() == 0 {
        law_no_texts_no_prompts(request, prompts);
    } else {
        law_batch_prompts_hold_the_whole_texts(request, prompts, 0);
    }
    if outcome is Ok {
        law_each_prompt_gets_its_own_vector(
            run,
            plus,
            over,
            zero,
            encoder,
            &prompts,
            budget,
            outcome,
        );
    }
}

/// A request for one text is answered with the vector that the text came to, number for
/// number, and its length.
pub proof fn law_text_is_answered_with_its_vector<
    E: Copy,
    R: Fn(&Tensors) -> Option<ModelOutput<E>>,
    A: Fn(E, E) -> E,
    D: Fn(E, usize) -> E,
>(
    request: &EmbedRequest,
    run: &R,
    plus: &A,
    over: &D,
    zero: E,
    encoder: &TextEncoder,
    prompts: Vec<String>,
    budget: usize,
    outcome: Result<Vec<Vec<E>>, EmbedError>,
    result: Result<Vec<Vec<E>>, EmbedError>,
    response: Result<EmbedResponse<E>, EmbedError>,
)
    requires
        call_ensures(EmbedRequest::prompts, (request,), prompts),
        call_ensures(
            embed_prefixed::<E, R, A, D>,
            (run, plus, over, zero, encoder, &prompts, budget),
            outcome,
        ),
        call_ensures(settle::<Vec<Vec<E>>>, (Attempt::Done(outcome),), result),
        call_ensures(respond::<E>, (result,), response),
    ensures
        response is Ok <==> outcome is Ok,
        response is Ok ==> {
            &&& outcome->Ok_0@.len() == 1
            &&& response->Ok_0.vector@ == outcome->Ok_0@[0]@
            &&& response->Ok_0.dimensions == outcome->Ok_0@[0]@.len()
        },
        response is Err ==> response->Err_0 is Inference,
{
    law_prompt_holds_the_whole_text(request, prompts);
    law_answer_holds_the_vector(result, response);
    if outcome is Ok {
        law_each_prompt_gets_its_own_vector(
            run,
            plus,
            over,
            zero,
            encoder,
            &prompts,
            budget,
            outcome,
        );
    }
}

} // verus!
