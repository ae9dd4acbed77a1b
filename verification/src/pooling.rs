//! Masked mean pooling: one vector for each text, the mean of the model's hidden
//! states over the text's real tokens. Padding is ignored, and the mean is not
//! normalized.
//!
//! The arithmetic on elements comes in as two operations, so that what is pooled, and
//! in which order, is settled here whatever the element type.

use crate::tensor::{is_padded, law_cell_of_row, lemma_cell, padded_mask, real_len, Tensors};
use crate::tokens::TokenRow;
use vstd::prelude::*;

verus! {

/// The model's answer to a sub-batch: hidden states of shape `[batch, seq, dim]`, flat
/// and row-major.
pub struct ModelOutput<E> {
    pub seq: usize,
    pub dim: usize,
    pub data: Vec<E>,
}

/// The first `n` positions of a row that starts at `row` in the mask, without those
/// that are masked out, in order.
pub open spec fn kept(mask: Seq<i64>, row: int, n: int) -> Seq<int>
    decreases n,
{
    if n <= 0 {
        Seq::empty()
    } else if mask[row + n - 1] == 0 {
        kept(mask, row, n - 1)
    } else {
        kept(mask, row, n - 1).push(n - 1)
    }
}

/// The element of text `b` at position `s` in dimension `d`.
pub open spec fn element<E>(out: ModelOutput<E>, b: int, s: int, d: int) -> E {
    out.data@[(b * out.seq + s) * out.dim + d]
}

/// The elements of text `b` in dimension `d`, at the given positions.
pub open spec fn column<E>(out: ModelOutput<E>, b: int, positions: Seq<int>, d: int) -> Seq<E> {
    Seq::new(positions.len(), |i: int| element(out, b, positions[i], d))
}

/// Adding `xs` to `zero` from left to right can give `total`.
pub open spec fn sums_to<E, A: Fn(E, E) -> E>(plus: A, zero: E, xs: Seq<E>, total: E) -> bool
    decreases xs.len(),
{
    if xs.len() == 0 {
        total == zero
    } else {
        exists|before: E|
            sums_to(plus, zero, xs.drop_last(), before) && #[trigger] call_ensures(
                plus,
                (before, xs.last()),
                total,
            )
    }
}

/// Adding `xs` up and dividing by their number can give `mean`. Of no elements the
/// mean is `zero`.
pub open spec fn means_to<E, A: Fn(E, E) -> E, D: Fn(E, usize) -> E>(
    plus: A,
    over: D,
    zero: E,
    xs: Seq<E>,
    mean: E,
) -> bool {
    if xs.len() == 0 {
        mean == zero
    } else {
        exists|total: E| #[trigger]
            sums_to(plus, zero, xs, total) && call_ensures(over, (total, xs.len() as usize), mean)
    }
}

/// `vector` can be the pooled vector of text `b`: in each dimension the mean of the
/// text's elements at its unmasked positions, and nothing done to it after.
pub open spec fn is_pooled<E, A: Fn(E, E) -> E, D: Fn(E, usize) -> E>(
    plus: A,
    over: D,
    zero: E,
    t: Tensors,
    out: ModelOutput<E>,
    b: int,
    vector: Seq<E>,
) -> bool {
    &&& vector.len() == out.dim
    &&& forall|d: int|
        0 <= d < out.dim ==> means_to(
            plus,
            over,
            zero,
            column(out, b, kept(t.mask@, b * t.seq, out.seq as int), d),
            #[trigger] vector[d],
        )
}

/// The hidden state of text `b` at position `s` lies within the output.
pub open spec fn has_state<E>(out: ModelOutput<E>, b: int, s: int) -> bool {
    (b * out.seq + s) * out.dim + out.dim <= out.data@.len()
}

/// The output belongs to these tensors: it has no more positions than they do, and
/// holds a hidden state wherever the mask asks for one.
pub open spec fn answers<E>(t: Tensors, out: ModelOutput<E>) -> bool {
    &&& t.mask@.len() == t.batch * t.seq
    &&& t.batch > 0 ==> out.seq <= t.seq
    &&& forall|b: int, s: int|
        0 <= b < t.batch && 0 <= s < out.seq && t.mask@[b * t.seq + s] != 0 ==> #[trigger] has_state(
            out,
            b,
            s,
        )
}

proof fn lemma_position(b: int, s: int, batch: int, seq: int, out_seq: int)
    requires
        0 <= b < batch,
        0 <= s < out_seq <= seq,
    ensures
        0 <= b * seq + s < batch * seq,
        0 <= b * seq <= batch * seq,
        0 <= b * out_seq + s < batch * seq,
        0 <= b * out_seq <= batch * seq,
{
    lemma_cell(b, s, batch, seq);
    assert(0 <= b * out_seq <= b * seq <= batch * seq) by (nonlinear_arith)
        requires
            0 <= b < batch,
            0 <= out_seq <= seq,
    ;
}

proof fn lemma_state_offset(cell: int, dim: int)
    requires
        0 <= cell,
        0 <= dim,
    ensures
        0 <= cell * dim,
{
    assert(0 <= cell * dim) by (nonlinear_arith)
        requires
            0 <= cell,
            0 <= dim,
    ;
}

/// Whether the output belongs to the tensors.
pub fn is_answer<E>(t: &Tensors, out: &ModelOutput<E>) -> (yes: bool)
    ensures
        yes == answers(*t, *out),
{
    let len: usize = t.mask.len();
    let states: usize = out.data.len();
    let cells: usize = match t.batch.checked_mul(t.seq) {
        Some(cells) => cells,
        None => return false,
    };
    if len != cells || (t.batch > 0 && out.seq > t.seq) {
        return false;
    }
    let mut b: usize = 0;
    while b < t.batch
        invariant
            b <= t.batch,
            cells == t.mask@.len() == t.batch * t.seq,
            states == out.data@.len(),
            t.batch > 0 ==> out.seq <= t.seq,
            forall|i: int, s: int|
                0 <= i < b && 0 <= s < out.seq && t.mask@[i * t.seq + s] != 0
                    ==> #[trigger] has_state(*out, i, s),
        decreases t.batch - b,
    {
        let mut s: usize = 0;
        while s < out.seq
            invariant
                b < t.batch,
                s <= out.seq <= t.seq,
                cells == t.mask@.len() == t.batch * t.seq,
                states == out.data@.len(),
                forall|i: int, s: int|
                    0 <= i < b && 0 <= s < out.seq && t.mask@[i * t.seq + s] != 0
                        ==> #[trigger] has_state(*out, i, s),
                forall|p: int|
                    0 <= p < s && t.mask@[b * t.seq + p] != 0 ==> #[trigger] has_state(
                        *out,
                        b as int,
                        p,
                    ),
            decreases out.seq - s,
        {
            proof {
                lemma_position(
                    b as int,
                    s as int,
                    t.batch as int,
                    t.seq as int,
                    out.seq as int,
                );
            }
            if t.mask[b * t.seq + s] != 0 {
                let cell: usize = b * out.seq + s;
                proof {
                    lemma_state_offset(cell as int, out.dim as int);
                }
                let inside: bool = match cell.checked_mul(out.dim) {
                    Some(base) => base <= states && out.dim <= states - base,
                    None => false,
                };
                if !inside {
                    assert(!has_state(*out, b as int, s as int));
                    return false;
                }
            }
            s += 1;
        }
        b += 1;
    }
    true
}

proof fn lemma_sum_of_one_more<E, A: Fn(E, E) -> E>(
    plus: A,
    zero: E,
    xs: Seq<E>,
    x: E,
    before: E,
    total: E,
)
    requires
        sums_to(plus, zero, xs, before),
        call_ensures(plus, (before, x), total),
    ensures
        sums_to(plus, zero, xs.push(x), total),
{
    assert(xs.push(x).drop_last() =~= xs);
    assert(call_ensures(plus, (before, xs.push(x).last()), total));
}

/// Pool each text's hidden states. `zero`, `plus` and `over` are the arithmetic of
/// the element type; `over` divides by a count of tokens, and is called only with a
/// positive one.
pub fn masked_mean<E: Copy, A: Fn(E, E) -> E, D: Fn(E, usize) -> E>(
    plus: &A,
    over: &D,
    zero: E,
    t: &Tensors,
    out: &ModelOutput<E>,
) -> (vectors: Vec<Vec<E>>)
    requires
        answers(*t, *out),
        forall|x: E, y: E| call_requires(plus, (x, y)),
        forall|x: E, n: usize| n > 0 ==> call_requires(over, (x, n)),
    ensures
        vectors.len() == t.batch,
        forall|b: int|
            0 <= b < t.batch ==> is_pooled(
                *plus,
                *over,
                zero,
                *t,
                *out,
                b,
                (#[trigger] vectors[b])@,
            ),
{
    let mut vectors: Vec<Vec<E>> = Vec::with_capacity(t.batch);
    let mut b: usize = 0;
    while b < t.batch
        invariant
            b <= t.batch,
            answers(*t, *out),
            forall|x: E, y: E| call_requires(plus, (x, y)),
            forall|x: E, n: usize| n > 0 ==> call_requires(over, (x, n)),
            vectors.len() == b,
            forall|i: int|
                0 <= i < b ==> is_pooled(
                    *plus,
                    *over,
                    zero,
                    *t,
                    *out,
                    i,
                    (#[trigger] vectors[i])@,
                ),
        decreases t.batch - b,
    {
        let vector: Vec<E> = pool_text(plus, over, zero, t, out, b);
        vectors.push(vector);
        b += 1;
    }
    vectors
}

fn pool_text<E: Copy, A: Fn(E, E) -> E, D: Fn(E, usize) -> E>(
    plus: &A,
    over: &D,
    zero: E,
    t: &Tensors,
    out: &ModelOutput<E>,
    b: usize,
) -> (vector: Vec<E>)
    requires
        b < t.batch,
        answers(*t, *out),
        forall|x: E, y: E| call_requires(plus, (x, y)),
        forall|x: E, n: usize| n > 0 ==> call_requires(over, (x, n)),
    ensures
        is_pooled(*plus, *over, zero, *t, *out, b as int, vector@),
{
    let ghost row = b * t.seq;
    let cells: usize = t.mask.len();
    let states: usize = out.data.len();
    let dim: usize = out.dim;
    let mut sums: Vec<E> = Vec::with_capacity(dim);
    while sums.len() < dim
        invariant
            sums.len() <= dim,
            forall|d: int| 0 <= d < sums.len() ==> #[trigger] sums[d] == zero,
        decreases dim - sums.len(),
    {
        sums.push(zero);
    }
    let mut count: usize = 0;
    let mut s: usize = 0;
    while s < out.seq
        invariant
            b < t.batch,
            s <= out.seq,
            answers(*t, *out),
            row == b * t.seq,
            cells == t.mask@.len(),
            states == out.data@.len(),
            dim == out.dim,
            sums.len() == dim,
            count == kept(t.mask@, row, s as int).len(),
            count <= s,
            forall|x: E, y: E| call_requires(plus, (x, y)),
            forall|d: int|
                0 <= d < dim ==> sums_to(
                    *plus,
                    zero,
                    column(*out, b as int, kept(t.mask@, row, s as int), d),
                    #[trigger] sums[d],
                ),
        decreases out.seq - s,
    {
        proof {
            lemma_position(b as int, s as int, t.batch as int, t.seq as int, out.seq as int);
        }
        let ghost before = kept(t.mask@, row, s as int);
        if t.mask[b * t.seq + s] != 0 {
            let cell: usize = b * out.seq + s;
            assert(has_state(*out, b as int, s as int));
            proof {
                lemma_state_offset(cell as int, dim as int);
            }
            let base: usize = cell * dim;
            let ghost after = kept(t.mask@, row, s + 1);
            assert(after == before.push(s as int));
            let mut d: usize = 0;
            while d < dim
                invariant
                    d <= dim,
                    dim == out.dim,
                    sums.len() == dim,
                    cell == b * out.seq + s,
                    base == cell * dim,
                    base + dim <= states == out.data@.len(),
                    after == before.push(s as int),
                    forall|x: E, y: E| call_requires(plus, (x, y)),
                    forall|i: int|
                        0 <= i < d ==> sums_to(
                            *plus,
                            zero,
                            column(*out, b as int, after, i),
                            #[trigger] sums[i],
                        ),
                    forall|i: int|
                        d <= i < dim ==> sums_to(
                            *plus,
                            zero,
                            column(*out, b as int, before, i),
                            #[trigger] sums[i],
                        ),
                decreases dim - d,
            {
                let ghost sum_before = sums[d as int];
                let x: E = out.data[base + d];
                let sum: E = plus(sums[d], x);
                proof {
                    let xs = column(*out, b as int, before, d as int);
                    lemma_sum_of_one_more(*plus, zero, xs, x, sum_before, sum);
                    assert(column(*out, b as int, after, d as int) =~= xs.push(x));
                }
                sums.set(d, sum);
                d += 1;
            }
            count += 1;
        }
        s += 1;
    }
    if count == 0 {
        return sums;
    }
    let mut means: Vec<E> = Vec::with_capacity(dim);
    let mut d: usize = 0;
    while d < dim
        invariant
            d <= dim,
            dim == out.dim,
            sums.len() == dim,
            means.len() == d,
            count > 0,
            count == kept(t.mask@, row, out.seq as int).len(),
            forall|x: E, n: usize| n > 0 ==> call_requires(over, (x, n)),
            forall|i: int|
                0 <= i < dim ==> sums_to(
                    *plus,
                    zero,
                    column(*out, b as int, kept(t.mask@, row, out.seq as int), i),
                    #[trigger] sums[i],
                ),
            forall|i: int|
                0 <= i < d ==> means_to(
                    *plus,
                    *over,
                    zero,
                    column(*out, b as int, kept(t.mask@, row, out.seq as int), i),
                    #[trigger] means[i],
                ),
        decreases dim - d,
    {
        means.push(over(sums[d], count));
        d += 1;
    }
    means
}

/// Exactly the real tokens are pooled: of the first `n` positions of a padded row, those
/// are kept, in order, that hold a token which its own mask does not exclude. No
/// padding is ever among them.
pub proof fn law_real_tokens_are_kept(rows: Seq<TokenRow>, t: Tensors, b: int, n: int)
    requires
        is_padded(rows, t),
        0 <= b < rows.len(),
        0 <= n <= t.seq,
    ensures
        forall|i: int|
            0 <= i < kept(t.mask@, b * t.seq, n).len() ==> {
                let s = #[trigger] kept(t.mask@, b * t.seq, n)[i];
                0 <= s < n && s < real_len(rows[b]) && rows[b].mask@[s] != 0
            },
        forall|i: int, j: int|
            0 <= i < j < kept(t.mask@, b * t.seq, n).len() ==> #[trigger] kept(
                t.mask@,
                b * t.seq,
                n,
            )[i] < #[trigger] kept(t.mask@, b * t.seq, n)[j],
        forall|s: int|
            0 <= s < n && s < real_len(rows[b]) && rows[b].mask@[s] != 0 ==> #[trigger] kept(
                t.mask@,
                b * t.seq,
                n,
            ).contains(s),
    decreases n,
{
    if n > 0 {
        let row = b * t.seq;
        law_real_tokens_are_kept(rows, t, b, n - 1);
        law_cell_of_row(rows, t, b, n - 1);
        assert(t.mask@[row + n - 1] == padded_mask(rows[b], n - 1));
        let before = kept(t.mask@, row, n - 1);
        let after = kept(t.mask@, row, n);
        assert forall|s: int|
            0 <= s < n && s < real_len(rows[b]) && rows[b].mask@[s] != 0 implies #[trigger] after.contains(
            s,
        ) by {
            if s < n - 1 {
                assert(before.contains(s));
                let i = choose|i: int| 0 <= i < before.len() && before[i] == s;
                assert(after[i] == s);
            } else {
                assert(after[before.len() as int] == s);
            }
        }
    }
}

/// Masked positions have no say: two outputs that agree wherever the mask keeps a
/// position pool to the same vectors.
pub proof fn law_masked_positions_are_ignored<E, A: Fn(E, E) -> E, D: Fn(E, usize) -> E>(
    plus: A,
    over: D,
    zero: E,
    t: Tensors,
    one: ModelOutput<E>,
    other: ModelOutput<E>,
    b: int,
    vector: Seq<E>,
)
    requires
        one.seq == other.seq,
        one.dim == other.dim,
        forall|i: int, d: int|
            0 <= i < kept(t.mask@, b * t.seq, one.seq as int).len() && 0 <= d < one.dim
                ==> #[trigger] column(one, b, kept(t.mask@, b * t.seq, one.seq as int), d)[i]
                == column(other, b, kept(t.mask@, b * t.seq, one.seq as int), d)[i],
    ensures
        is_pooled(plus, over, zero, t, one, b, vector) == is_pooled(
            plus,
            over,
            zero,
            t,
            other,
            b,
            vector,
        ),
{
    let positions = kept(t.mask@, b * t.seq, one.seq as int);
    assert forall|d: int| 0 <= d < one.dim implies #[trigger] column(one, b, positions, d)
        == column(other, b, positions, d) by {
        assert(column(one, b, positions, d) =~= column(other, b, positions, d));
    }
    if is_pooled(plus, over, zero, t, one, b, vector) {
        assert forall|d: int| 0 <= d < other.dim implies means_to(
            plus,
            over,
            zero,
            column(other, b, positions, d),
            #[trigger] vector[d],
        ) by {
            assert(column(one, b, positions, d) == column(other, b, positions, d));
        }
    }
    if is_pooled(plus, over, zero, t, other, b, vector) {
        assert forall|d: int| 0 <= d < one.dim implies means_to(
            plus,
            over,
            zero,
            column(one, b, positions, d),
            #[trigger] vector[d],
        ) by {
            assert(column(one, b, positions, d) == column(other, b, positions, d));
        }
    }
}

proof fn lemma_sum_is_fold<E, A: Fn(E, E) -> E>(
    plus: A,
    f: spec_fn(E, E) -> E,
    zero: E,
    xs: Seq<E>,
    total: E,
)
    requires
        forall|x: E, y: E, z: E| #[trigger] call_ensures(plus, (x, y), z) ==> z == f(x, y),
        sums_to(plus, zero, xs, total),
    ensures
        total == xs.fold_left(zero, f),
    decreases xs.len(),
{
    if xs.len() > 0 {
        let before = choose|before: E|
            sums_to(plus, zero, xs.drop_last(), before) && #[trigger] call_ensures(
                plus,
                (before, xs.last()),
                total,
            );
        lemma_sum_is_fold(plus, f, zero, xs.drop_last(), before);
    }
}

/// With an addition and a division that are functions of their operands, the mean is
/// determined: the elements added up from left to right, divided once by their number.
/// Nothing scales it to a norm.
pub proof fn law_mean_is_sum_over_count<E, A: Fn(E, E) -> E, D: Fn(E, usize) -> E>(
    plus: A,
    over: D,
    f: spec_fn(E, E) -> E,
    g: spec_fn(E, usize) -> E,
    zero: E,
    xs: Seq<E>,
    mean: E,
)
    requires
        forall|x: E, y: E, z: E| #[trigger] call_ensures(plus, (x, y), z) ==> z == f(x, y),
        forall|x: E, n: usize, z: E| #[trigger] call_ensures(over, (x, n), z) ==> z == g(x, n),
        means_to(plus, over, zero, xs, mean),
    ensures
        mean == if xs.len() == 0 {
            zero
        } else {
            g(xs.fold_left(zero, f), xs.len() as usize)
        },
{
    if xs.len() > 0 {
        let total = choose|total: E| #[trigger]
            sums_to(plus, zero, xs, total) && call_ensures(over, (total, xs.len() as usize), mean);
        lemma_sum_is_fold(plus, f, zero, xs, total);
    }
}

/// `h` goes through the mean of `xs`: it keeps `zero`, mapping two operands maps what
/// they add up to, at every step of the sum, and mapping the total maps the quotient.
/// A scaling that neither overflows nor rounds is such an `h`.
pub open spec fn goes_through<E>(
    h: spec_fn(E) -> E,
    f: spec_fn(E, E) -> E,
    g: spec_fn(E, usize) -> E,
    zero: E,
    xs: Seq<E>,
) -> bool {
    let total = xs.fold_left(zero, f);
    let count = xs.len() as usize;
    &&& h(zero) == zero
    &&& forall|k: int|
        0 <= k < xs.len() ==> f(h(xs.take(k).fold_left(zero, f)), h(#[trigger] xs[k])) == h(
            f(xs.take(k).fold_left(zero, f), xs[k]),
        )
    &&& xs.len() > 0 ==> g(h(total), count) == h(g(total, count))
}

/// `h` goes through the mean of text `b` in every dimension.
pub open spec fn goes_through_means<E>(
    h: spec_fn(E) -> E,
    f: spec_fn(E, E) -> E,
    g: spec_fn(E, usize) -> E,
    zero: E,
    t: Tensors,
    out: ModelOutput<E>,
    b: int,
) -> bool {
    forall|d: int|
        0 <= d < out.dim ==> goes_through(
            h,
            f,
            g,
            zero,
            #[trigger] column(out, b, kept(t.mask@, b * t.seq, out.seq as int), d),
        )
}

proof fn lemma_fold_of_mapped<E>(
    h: spec_fn(E) -> E,
    f: spec_fn(E, E) -> E,
    zero: E,
    xs: Seq<E>,
    ys: Seq<E>,
)
    requires
        h(zero) == zero,
        forall|k: int|
            0 <= k < xs.len() ==> f(h(xs.take(k).fold_left(zero, f)), h(#[trigger] xs[k])) == h(
                f(xs.take(k).fold_left(zero, f), xs[k]),
            ),
        ys.len() == xs.len(),
        forall|k: int| 0 <= k < xs.len() ==> #[trigger] ys[k] == h(xs[k]),
    ensures
        ys.fold_left(zero, f) == h(xs.fold_left(zero, f)),
    decreases xs.len(),
{
    if xs.len() > 0 {
        let before = xs.drop_last();
        assert forall|k: int| 0 <= k < before.len() implies f(
            h(before.take(k).fold_left(zero, f)),
            h(#[trigger] before[k]),
        ) == h(f(before.take(k).fold_left(zero, f), before[k])) by {
            assert(before.take(k) =~= xs.take(k));
            assert(before[k] == xs[k]);
        }
        lemma_fold_of_mapped(h, f, zero, before, ys.drop_last());
        let last = xs.len() - 1;
        assert(xs.take(last) =~= before);
        assert(xs[last] == xs.last());
    }
}

/// Vectors are raw. Where the states at a text's kept positions are mapped by an `h`
/// that goes through sums and quotients, the text's vector is mapped by `h` and not
/// otherwise changed: twice the states give twice the vector, which normalizing it
/// would undo.
pub proof fn law_pooling_is_raw<E, A: Fn(E, E) -> E, D: Fn(E, usize) -> E>(
    plus: A,
    over: D,
    f: spec_fn(E, E) -> E,
    g: spec_fn(E, usize) -> E,
    h: spec_fn(E) -> E,
    zero: E,
    t: Tensors,
    one: ModelOutput<E>,
    other: ModelOutput<E>,
    b: int,
    vector: Seq<E>,
    mapped: Seq<E>,
)
    requires
        forall|x: E, y: E, z: E| #[trigger] call_ensures(plus, (x, y), z) ==> z == f(x, y),
        forall|x: E, n: usize, z: E| #[trigger] call_ensures(over, (x, n), z) ==> z == g(x, n),
        one.seq == other.seq,
        one.dim == other.dim,
        forall|i: int, d: int|
            0 <= i < kept(t.mask@, b * t.seq, one.seq as int).len() && 0 <= d < one.dim
                ==> #[trigger] column(other, b, kept(t.mask@, b * t.seq, one.seq as int), d)[i]
                == h(column(one, b, kept(t.mask@, b * t.seq, one.seq as int), d)[i]),
        goes_through_means(h, f, g, zero, t, one, b),
        is_pooled(plus, over, zero, t, one, b, vector),
        is_pooled(plus, over, zero, t, other, b, mapped),
    ensures
        mapped == vector.map_values(h),
{
    let positions = kept(t.mask@, b * t.seq, one.seq as int);
    assert forall|d: int| 0 <= d < one.dim implies #[trigger] mapped[d] == h(vector[d]) by {
        let xs = column(one, b, positions, d);
        let ys = column(other, b, positions, d);
        assert(goes_through(h, f, g, zero, xs));
        assert(means_to(plus, over, zero, xs, vector[d]));
        assert(means_to(plus, over, zero, ys, mapped[d]));
        law_mean_is_sum_over_count(plus, over, f, g, zero, xs, vector[d]);
        law_mean_is_sum_over_count(plus, over, f, g, zero, ys, mapped[d]);
        lemma_fold_of_mapped(h, f, zero, xs, ys);
    }
    assert(mapped =~= vector.map_values(h));
}

proof fn lemma_kept_is_filter(t: Tensors, b: int, n: int)
    requires
        0 <= n,
    ensures
        kept(t.mask@, b * t.seq, n) == Seq::new(n as nat, |s: int| s).filter(
            |s: int| t.mask@[b * t.seq + s] != 0,
        ),
    decreases n,
{
    reveal(Seq::filter);
    let all = Seq::new(n as nat, |s: int| s);
    if n > 0 {
        lemma_kept_is_filter(t, b, n - 1);
        assert(all.drop_last() =~= Seq::new((n - 1) as nat, |s: int| s));
        assert(b * t.seq + n - 1 == b * t.seq + (n - 1));
    }
}

/// A pooled vector is the mean of the states as the output lays them out. With an
/// addition and a division that are functions of their operands, its element in
/// dimension `d` is made of the numbers that stand `d` places into the states of the
/// text's unmasked positions: added to `zero` from left to right, and divided once by
/// how many there are.
pub proof fn law_pooled_is_the_mean<E, A: Fn(E, E) -> E, D: Fn(E, usize) -> E>(
    plus: A,
    over: D,
    f: spec_fn(E, E) -> E,
    g: spec_fn(E, usize) -> E,
    zero: E,
    t: Tensors,
    out: ModelOutput<E>,
    b: int,
    vector: Seq<E>,
    d: int,
)
    requires
        forall|x: E, y: E, z: E| #[trigger] call_ensures(plus, (x, y), z) ==> z == f(x, y),
        forall|x: E, n: usize, z: E| #[trigger] call_ensures(over, (x, n), z) ==> z == g(x, n),
        is_pooled(plus, over, zero, t, out, b, vector),
    ensures
        vector.len() == out.dim,
        0 <= d < out.dim ==> ({
            let tokens = Seq::new(out.seq as nat, |s: int| s).filter(
                |s: int| t.mask@[b * t.seq + s] != 0,
            );
            let numbers = Seq::new(
                tokens.len(),
                |i: int| out.data@[(b * out.seq + tokens[i]) * out.dim + d],
            );
            vector[d] == if tokens.len() == 0 {
                zero
            } else {
                g(numbers.fold_left(zero, f), tokens.len() as usize)
            }
        }),
{
    let positions = kept(t.mask@, b * t.seq, out.seq as int);
    lemma_kept_is_filter(t, b, out.seq as int);
    let numbers = Seq::new(
        positions.len(),
        |i: int| out.data@[(b * out.seq + positions[i]) * out.dim + d],
    );
    let xs = column(out, b, positions, d);
    assert(xs =~= numbers);
    if 0 <= d < out.dim {
        assert(means_to(plus, over, zero, xs, vector[d]));
        law_mean_is_sum_over_count(plus, over, f, g, zero, xs, vector[d]);
    }
}

/// Pooling gives each text of the tensors the mean of its own states, in every
/// dimension of the output.
pub proof fn law_each_text_gets_the_mean_of_its_states<
    E: Copy,
    A: Fn(E, E) -> E,
    D: Fn(E, usize) -> E,
>(
    plus: &A,
    over: &D,
    f: spec_fn(E, E) -> E,
    g: spec_fn(E, usize) -> E,
    zero: E,
    t: &Tensors,
    out: &ModelOutput<E>,
    vectors: Vec<Vec<E>>,
    b: int,
    d: int,
)
    requires
        forall|x: E, y: E, z: E| #[trigger] call_ensures(*plus, (x, y), z) ==> z == f(x, y),
        forall|x: E, n: usize, z: E| #[trigger] call_ensures(*over, (x, n), z) ==> z == g(x, n),
        call_ensures(masked_mean::<E, A, D>, (plus, over, zero, t, out), vectors),
    ensures
        vectors@.len() == t.batch,
        0 <= b < t.batch ==> vectors@[b]@.len() == out.dim,
        0 <= b < t.batch && 0 <= d < out.dim ==> ({
            let tokens = Seq::new(out.seq as nat, |s: int| s).filter(
                |s: int| t.mask@[b * t.seq + s] != 0,
            );
            let numbers = Seq::new(
                tokens.len(),
                |i: int| out.data@[(b * out.seq + tokens[i]) * out.dim + d],
            );
            vectors@[b]@[d] == if tokens.len() == 0 {
                zero
            } else {
                g(numbers.fold_left(zero, f), tokens.len() as usize)
            }
        }),
{
    if 0 <= b < t.batch {
        assert(is_pooled(*plus, *over, zero, *t, *out, b, vectors@[b]@));
        law_pooled_is_the_mean(*plus, *over, f, g, zero, *t, *out, b, vectors@[b]@, d);
    }
}

/// A text of one token gets that token's state itself, number for number, as long as
/// adding to `zero` and dividing by one change nothing.
pub proof fn law_single_state_is_handed_on<E: Copy, A: Fn(E, E) -> E, D: Fn(E, usize) -> E>(
    plus: &A,
    over: &D,
    zero: E,
    t: &Tensors,
    out: &ModelOutput<E>,
    vectors: Vec<Vec<E>>,
    b: int,
    s: int,
    d: int,
)
    requires
        forall|x: E, z: E| #[trigger] call_ensures(*plus, (zero, x), z) ==> z == x,
        forall|x: E, z: E| #[trigger] call_ensures(*over, (x, 1usize), z) ==> z == x,
        call_ensures(masked_mean::<E, A, D>, (plus, over, zero, t, out), vectors),
        0 <= b < t.batch,
        0 <= s < out.seq,
        forall|p: int|
            0 <= p < out.seq ==> (#[trigger] t.mask@[b * t.seq + p] != 0 <==> p == s),
        0 <= d < out.dim,
    ensures
        vectors@[b]@.len() == out.dim,
        vectors@[b]@[d] == out.data@[(b * out.seq + s) * out.dim + d],
{
    let positions = kept(t.mask@, b * t.seq, out.seq as int);
    lemma_one_position_is_kept(*t, b, s, out.seq as int, out.seq as int);
    assert(is_pooled(*plus, *over, zero, *t, *out, b, vectors@[b]@));
    let xs = column(*out, b, positions, d);
    assert(means_to(*plus, *over, zero, xs, vectors@[b]@[d]));
    let total = choose|total: E| #[trigger]
        sums_to(*plus, zero, xs, total) && call_ensures(*over, (total, 1usize), vectors@[b]@[d]);
    let before = choose|before: E|
        sums_to(*plus, zero, xs.drop_last(), before) && #[trigger] call_ensures(
            *plus,
            (before, xs.last()),
            total,
        );
    assert(sums_to(*plus, zero, xs.drop_last(), before));
    assert(before == zero);
}

proof fn lemma_one_position_is_kept(t: Tensors, b: int, s: int, seq: int, n: int)
    requires
        0 <= s < seq,
        0 <= n <= seq,
        forall|p: int| 0 <= p < seq ==> (#[trigger] t.mask@[b * t.seq + p] != 0 <==> p == s),
    ensures
        kept(t.mask@, b * t.seq, n) == if n > s {
            seq![s]
        } else {
            Seq::empty()
        },
    decreases n,
{
    if n > 0 {
        lemma_one_position_is_kept(t, b, s, seq, n - 1);
        assert(b * t.seq + n - 1 == b * t.seq + (n - 1));
        assert(t.mask@[b * t.seq + (n - 1)] != 0 <==> n - 1 == s);
        assert(Seq::<int>::empty().push(s) =~= seq![s]);
    }
}

/// An output is taken for an answer exactly when the mask fits the tensors' shape, the
/// output has no more positions than they have, and at every unmasked position the
/// output holds a whole state.
pub proof fn law_answer_holds_every_state<E>(t: &Tensors, out: &ModelOutput<E>, yes: bool)
    requires
        call_ensures(is_answer::<E>, (t, out), yes),
    ensures
        yes <==> {
            &&& t.mask@.len() == t.batch * t.seq
            &&& t.batch == 0 || out.seq <= t.seq
            &&& forall|b: int, s: int|
                0 <= b < t.batch && 0 <= s < out.seq ==> #[trigger] t.mask@[b * t.seq + s] == 0 || (
                b * out.seq + s) * out.dim + out.dim <= out.data@.len()
        },
{
    law_answers(*t, *out);
}

/// What it is for an output to belong to tensors, in plain terms.
pub proof fn law_answers<E>(t: Tensors, out: ModelOutput<E>)
    ensures
        answers(t, out) <==> {
            &&& t.mask@.len() == t.batch * t.seq
            &&& t.batch == 0 || out.seq <= t.seq
            &&& forall|b: int, s: int|
                0 <= b < t.batch && 0 <= s < out.seq ==> #[trigger] t.mask@[b * t.seq + s] == 0 || (
                b * out.seq + s) * out.dim + out.dim <= out.data@.len()
        },
{
    if answers(t, out) {
        assert forall|b: int, s: int| 0 <= b < t.batch && 0 <= s < out.seq implies #[trigger] t.mask@[b
            * t.seq + s] == 0 || (b * out.seq + s) * out.dim + out.dim <= out.data@.len() by {
            if t.mask@[b * t.seq + s] != 0 {
                assert(has_state(out, b, s));
            }
        }
    } else if t.mask@.len() == t.batch * t.seq && (t.batch == 0 || out.seq <= t.seq) {
        let (b, s) = choose|b: int, s: int|
            0 <= b < t.batch && 0 <= s < out.seq && t.mask@[b * t.seq + s] != 0 && !(#[trigger]
            has_state(out, b, s));
        assert(t.mask@[b * t.seq + s] != 0);
    }
}

/// A complete output is never refused: one state for each cell of the tensors.
pub proof fn law_complete_output_is_accepted<E>(t: &Tensors, out: &ModelOutput<E>, yes: bool)
    requires
        call_ensures(is_answer::<E>, (t, out), yes),
        t.mask@.len() == t.batch * t.seq,
        out.seq == t.seq,
        out.data@.len() == t.batch * t.seq * out.dim,
    ensures
        yes,
{
    lemma_complete_output_answers(*t, *out);
}

pub(crate) proof fn lemma_complete_output_answers<E>(t: Tensors, out: ModelOutput<E>)
    requires
        t.mask@.len() == t.batch * t.seq,
        out.seq == t.seq,
        out.data@.len() == t.batch * t.seq * out.dim,
    ensures
        answers(t, out),
{
    assert forall|b: int, s: int|
        0 <= b < t.batch && 0 <= s < out.seq && t.mask@[b * t.seq + s]
            != 0 implies #[trigger] has_state(out, b, s) by {
        lemma_cell(b, s, t.batch as int, t.seq as int);
        let cell = b * t.seq + s;
        let cells = t.batch * t.seq;
        let dim = out.dim as int;
        assert(cell * dim + dim <= cells * dim) by (nonlinear_arith)
            requires
                0 <= cell < cells,
                0 <= dim,
        ;
    }
}

} // verus!
