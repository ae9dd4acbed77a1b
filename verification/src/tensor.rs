//! The model's input tensors: a sub-batch of token rows, zero-padded to its own
//! longest member.

use crate::plan::{law_longest_is_maximum, longest};
use crate::tokens::TokenRow;
use vstd::arithmetic::div_mod::lemma_fundamental_div_mod_converse;
use vstd::prelude::*;

verus! {

/// Flat row-major tensors of shape `[batch, seq]`.
pub struct Tensors {
    pub batch: usize,
    pub seq: usize,
    pub ids: Vec<i64>,
    pub mask: Vec<i64>,
    /// A single segment, so all zeros.
    pub types: Vec<i64>,
}

/// The number of tokens in each row.
pub open spec fn row_lengths(rows: Seq<TokenRow>) -> Seq<usize> {
    Seq::new(rows.len(), |i: int| rows[i].ids@.len() as usize)
}

/// The positions that hold a token with its mask.
pub open spec fn real_len(row: TokenRow) -> int {
    if row.ids@.len() <= row.mask@.len() {
        row.ids@.len() as int
    } else {
        row.mask@.len() as int
    }
}

/// The id at a position of a padded row.
pub open spec fn padded_id(row: TokenRow, s: int) -> i64 {
    if s < real_len(row) {
        row.ids@[s] as i64
    } else {
        0
    }
}

/// The mask at a position of a padded row.
pub open spec fn padded_mask(row: TokenRow, s: int) -> i64 {
    if s < real_len(row) {
        row.mask@[s] as i64
    } else {
        0
    }
}

/// The tensors that `rows` make: each row padded with zeros to the longest, one after
/// another.
pub open spec fn is_padded(rows: Seq<TokenRow>, t: Tensors) -> bool {
    let cells = (t.batch * t.seq) as nat;
    &&& t.batch == rows.len()
    &&& t.seq == longest(row_lengths(rows), 0, rows.len() as int)
    &&& t.ids@ == Seq::new(cells, |k: int| padded_id(rows[k / t.seq as int], k % t.seq as int))
    &&& t.mask@ == Seq::new(cells, |k: int| padded_mask(rows[k / t.seq as int], k % t.seq as int))
    &&& t.types@ == Seq::new(cells, |k: int| 0i64)
}

pub(crate) proof fn lemma_cell(b: int, s: int, batch: int, seq: int)
    requires
        0 <= b < batch,
        0 <= s < seq,
    ensures
        0 <= b * seq + s < batch * seq,
        b * seq + seq <= batch * seq,
        (b * seq + s) / seq == b,
        (b * seq + s) % seq == s,
{
    lemma_fundamental_div_mod_converse(b * seq + s, seq, b, s);
    assert(0 <= b * seq && b * seq + seq <= batch * seq) by (nonlinear_arith)
        requires
            0 <= b < batch,
            0 <= seq,
    ;
}

/// The cell of row `b` at position `s` holds the row's token there, or zero.
pub proof fn law_cell_of_row(rows: Seq<TokenRow>, t: Tensors, b: int, s: int)
    requires
        is_padded(rows, t),
        0 <= b < rows.len(),
        0 <= s < t.seq,
    ensures
        0 <= b * t.seq + s < t.ids@.len(),
        t.mask@.len() == t.ids@.len() == t.types@.len(),
        t.ids@[b * t.seq + s] == padded_id(rows[b], s),
        t.mask@[b * t.seq + s] == padded_mask(rows[b], s),
        t.types@[b * t.seq + s] == 0,
{
    lemma_cell(b, s, t.batch as int, t.seq as int);
}

/// Lay a sub-batch out as tensors.
pub fn pad_rows(rows: &[TokenRow]) -> (t: Tensors)
    requires
        rows.len() * longest(row_lengths(rows@), 0, rows.len() as int) <= usize::MAX,
    ensures
        is_padded(rows@, t),
{
    let batch: usize = rows.len();
    let mut seq: usize = 0;
    let mut i: usize = 0;
    while i < batch
        invariant
            batch == rows.len(),
            i <= batch,
            seq == longest(row_lengths(rows@), 0, i as int),
        decreases batch - i,
    {
        if rows[i].ids.len() > seq {
            seq = rows[i].ids.len();
        }
        i += 1;
    }
    let cells: usize = batch * seq;
    let mut ids: Vec<i64> = Vec::with_capacity(cells);
    let mut mask: Vec<i64> = Vec::with_capacity(cells);
    let mut b: usize = 0;
    while b < batch
        invariant
            batch == rows.len(),
            b <= batch,
            batch * seq <= usize::MAX,
            ids.len() == mask.len() == b * seq,
            forall|k: int|
                0 <= k < ids.len() ==> #[trigger] ids[k] == padded_id(
                    rows[k / seq as int],
                    k % seq as int,
                ),
            forall|k: int|
                0 <= k < ids.len() ==> #[trigger] mask[k] == padded_mask(
                    rows[k / seq as int],
                    k % seq as int,
                ),
        decreases batch - b,
    {
        let row: &TokenRow = &rows[b];
        let mut s: usize = 0;
        while s < seq
            invariant
                b < batch,
                batch == rows.len(),
                row == rows[b as int],
                s <= seq,
                ids.len() == mask.len() == b * seq + s,
                forall|k: int|
                    0 <= k < ids.len() ==> #[trigger] ids[k] == padded_id(
                        rows[k / seq as int],
                        k % seq as int,
                    ),
                forall|k: int|
                    0 <= k < ids.len() ==> #[trigger] mask[k] == padded_mask(
                        rows[k / seq as int],
                        k % seq as int,
                    ),
            decreases seq - s,
        {
            proof {
                lemma_cell(b as int, s as int, batch as int, seq as int);
            }
            if s < row.ids.len() && s < row.mask.len() {
                ids.push(row.ids[s] as i64);
                mask.push(row.mask[s] as i64);
            } else {
                ids.push(0);
                mask.push(0);
            }
            s += 1;
        }
        assert((b + 1) * seq == b * seq + seq) by (nonlinear_arith);
        b += 1;
    }
    let types: Vec<i64> = vec![0i64; cells];
    let t: Tensors = Tensors { batch, seq, ids, mask, types };
    proof {
        let n = (t.batch * t.seq) as nat;
        assert(t.ids@ =~= Seq::new(
            n,
            |k: int| padded_id(rows@[k / t.seq as int], k % t.seq as int),
        ));
        assert(t.mask@ =~= Seq::new(
            n,
            |k: int| padded_mask(rows@[k / t.seq as int], k % t.seq as int),
        ));
        assert(t.types@ =~= Seq::new(n, |k: int| 0i64));
    }
    t
}

/// A sub-batch's tensors hold the tokens themselves. Cell by cell, row after row: where
/// a row has a token with its mask, the cell's numbers are the row's own, and everywhere
/// else they are zero.
pub proof fn law_tensors_hold_the_tokens(rows: &[TokenRow], t: Tensors, b: int, s: int)
    requires
        call_ensures(pad_rows, (rows,), t),
        0 <= b < rows@.len(),
        0 <= s < t.seq,
    ensures
        0 <= b * t.seq + s < t.batch * t.seq,
        s < rows@[b].ids@.len() && s < rows@[b].mask@.len() ==> {
            &&& t.ids@[b * t.seq + s] as int == rows@[b].ids@[s] as int
            &&& t.mask@[b * t.seq + s] as int == rows@[b].mask@[s] as int
        },
        s >= rows@[b].ids@.len() || s >= rows@[b].mask@.len() ==> {
            &&& t.ids@[b * t.seq + s] as int == 0
            &&& t.mask@[b * t.seq + s] as int == 0
        },
        t.types@[b * t.seq + s] as int == 0,
{
    law_padded_rows(rows@, t);
    lemma_cell(b, s, t.batch as int, t.seq as int);
}

/// Rows are padded to the longest of them and no further, and there is a cell for each
/// position of each row.
pub proof fn law_rows_are_padded_to_the_longest(rows: &[TokenRow], t: Tensors)
    requires
        call_ensures(pad_rows, (rows,), t),
    ensures
        t.batch == rows@.len(),
        t.ids@.len() == t.batch * t.seq,
        t.mask@.len() == t.batch * t.seq,
        t.types@.len() == t.batch * t.seq,
        forall|b: int| 0 <= b < rows@.len() ==> (#[trigger] rows@[b]).ids@.len() <= t.seq,
        rows@.len() > 0 ==> exists|b: int|
            0 <= b < rows@.len() && (#[trigger] rows@[b]).ids@.len() == t.seq,
        rows@.len() == 0 ==> t.seq == 0,
{
    law_padded_rows(rows@, t);
}

/// The model can tell texts apart: sub-batches that differ in a token have different
/// tensors.
pub proof fn law_different_tokens_give_different_tensors(
    rows: &[TokenRow],
    t: Tensors,
    other_rows: &[TokenRow],
    other: Tensors,
    b: int,
    s: int,
)
    requires
        call_ensures(pad_rows, (rows,), t),
        call_ensures(pad_rows, (other_rows,), other),
        0 <= b < rows@.len(),
        b < other_rows@.len(),
        0 <= s < rows@[b].ids@.len(),
        s < rows@[b].mask@.len(),
        s < other_rows@[b].ids@.len(),
        s < other_rows@[b].mask@.len(),
        rows@[b].ids@[s] != other_rows@[b].ids@[s],
    ensures
        t.seq != other.seq || t.ids@ != other.ids@,
{
    law_rows_are_padded_to_the_longest(rows, t);
    law_rows_are_padded_to_the_longest(other_rows, other);
    law_tensors_hold_the_tokens(rows, t, b, s);
    law_tensors_hold_the_tokens(other_rows, other, b, s);
}

/// What it is to be padded, in plain terms: one row of cells for each text, as long as
/// the longest text, with the text's own tokens and masks, then zeros.
pub proof fn law_padded_rows(rows: Seq<TokenRow>, t: Tensors)
    ensures
        is_padded(rows, t) <==> {
            &&& t.batch == rows.len()
            &&& forall|b: int| 0 <= b < rows.len() ==> (#[trigger] rows[b]).ids@.len() <= t.seq
            &&& rows.len() > 0 ==> exists|b: int|
                0 <= b < rows.len() && (#[trigger] rows[b]).ids@.len() == t.seq
            &&& rows.len() == 0 ==> t.seq == 0
            &&& t.ids@.len() == t.batch * t.seq
            &&& t.mask@.len() == t.batch * t.seq
            &&& t.types@.len() == t.batch * t.seq
            &&& forall|k: int|
                0 <= k < t.ids@.len() ==> #[trigger] t.ids@[k] as int == {
                    let row = rows[k / t.seq as int];
                    let s = k % t.seq as int;
                    if s < row.ids@.len() && s < row.mask@.len() {
                        row.ids@[s] as int
                    } else {
                        0
                    }
                }
            &&& forall|k: int|
                0 <= k < t.mask@.len() ==> #[trigger] t.mask@[k] as int == {
                    let row = rows[k / t.seq as int];
                    let s = k % t.seq as int;
                    if s < row.ids@.len() && s < row.mask@.len() {
                        row.mask@[s] as int
                    } else {
                        0
                    }
                }
            &&& forall|k: int| 0 <= k < t.types@.len() ==> #[trigger] t.types@[k] as int == 0
        },
{
    let lengths = row_lengths(rows);
    let n = rows.len() as int;
    law_longest_is_maximum(lengths, 0, n);
    assert forall|b: int| 0 <= b < n implies #[trigger] lengths[b] == (rows[b].ids@.len()) by {
        assert(rows[b].ids.len() == rows[b].ids@.len());
    }
    if is_padded(rows, t) {
        assert forall|b: int| 0 <= b < n implies (#[trigger] rows[b]).ids@.len() <= t.seq by {
            assert(lengths[b] <= t.seq);
        }
        if n > 0 {
            let b = choose|b: int| 0 <= b < n && #[trigger] lengths[b] == longest(lengths, 0, n);
            assert(rows[b].ids@.len() == t.seq);
        }
    }
    if {
        &&& t.batch == rows.len()
        &&& forall|b: int| 0 <= b < n ==> (#[trigger] rows[b]).ids@.len() <= t.seq
        &&& n > 0 ==> exists|b: int| 0 <= b < n && (#[trigger] rows[b]).ids@.len() == t.seq
        &&& n == 0 ==> t.seq == 0
    } {
        if n > 0 {
            let b = choose|b: int| 0 <= b < n && (#[trigger] rows[b]).ids@.len() == t.seq;
            assert(lengths[b] == t.seq);
            let c = choose|c: int| 0 <= c < n && #[trigger] lengths[c] == longest(lengths, 0, n);
            assert(rows[c].ids@.len() <= t.seq);
        }
        assert(t.seq == longest(lengths, 0, n));
    }
    let cells = (t.batch * t.seq) as nat;
    assert(0 <= t.batch * t.seq) by (nonlinear_arith)
        requires
            0 <= t.batch,
            0 <= t.seq,
    ;
    let ids = Seq::new(cells, |k: int| padded_id(rows[k / t.seq as int], k % t.seq as int));
    let mask = Seq::new(cells, |k: int| padded_mask(rows[k / t.seq as int], k % t.seq as int));
    let types = Seq::new(cells, |k: int| 0i64);
    if t.ids@.len() == cells && forall|k: int|
        0 <= k < cells ==> #[trigger] t.ids@[k] as int == padded_id(
            rows[k / t.seq as int],
            k % t.seq as int,
        ) as int {
        assert(t.ids@ =~= ids);
    }
    if t.mask@.len() == cells && forall|k: int|
        0 <= k < cells ==> #[trigger] t.mask@[k] as int == padded_mask(
            rows[k / t.seq as int],
            k % t.seq as int,
        ) as int {
        assert(t.mask@ =~= mask);
    }
    if t.types@.len() == cells && forall|k: int|
        0 <= k < cells ==> #[trigger] t.types@[k] as int == 0 {
        assert(t.types@ =~= types);
    }
}

} // verus!
