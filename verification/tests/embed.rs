use std::cell::RefCell;

use embeddings_rs::embed::{embed_prefixed, embed_rows, run_encodings};
use embeddings_rs::pool::{Acquire, LanePool};
use embeddings_rs::pooling::{is_answer, masked_mean, ModelOutput};
use embeddings_rs::service::{
    respond, respond_batch, settle, Attempt, EmbedBatchRequest, EmbedError, EmbedRequest,
};
use embeddings_rs::tensor::{pad_rows, Tensors};
use embeddings_rs::tokens::{LoadError, TextEncoder, TokenRow};

/// A word-level tokenizer that splits on white space and adds one special token at
/// either end. Its own padding and truncation settings must not survive loading.
const DEFINITION: &str = r#"{
  "version": "1.0",
  "truncation": {"direction": "Right", "max_length": 3, "strategy": "LongestFirst", "stride": 0},
  "padding": {"strategy": {"Fixed": 9}, "direction": "Right", "pad_to_multiple_of": null,
              "pad_id": 0, "pad_type_id": 0, "pad_token": "[PAD]"},
  "added_tokens": [],
  "normalizer": null,
  "pre_tokenizer": {"type": "Whitespace"},
  "post_processor": {"type": "BertProcessing", "sep": ["[SEP]", 2], "cls": ["[CLS]", 1]},
  "decoder": null,
  "model": {"type": "WordLevel", "unk_token": "[UNK]",
            "vocab": {"[PAD]": 0, "[CLS]": 1, "[SEP]": 2, "[UNK]": 3, "the": 4, "dragon": 5, "sleeps": 6}}
}"#;

fn encoder(max_length: usize) -> TextEncoder {
    TextEncoder::load(DEFINITION, max_length).ok().unwrap()
}

fn strings(texts: &[&str]) -> Vec<String> {
    texts.iter().map(|t| t.to_string()).collect()
}

fn row(ids: &[u32]) -> TokenRow {
    TokenRow {
        ids: ids.to_vec(),
        mask: vec![1; ids.len()],
    }
}

fn plus(a: f32, b: f32) -> f32 {
    a + b
}

fn over(a: f32, n: usize) -> f32 {
    a / n as f32
}

/// A model with two dimensions: a token's id, and its position in the sub-batch's row.
fn echo(t: &Tensors) -> Option<ModelOutput<f32>> {
    let mut data = Vec::new();
    for b in 0..t.batch {
        for s in 0..t.seq {
            data.push(t.ids[b * t.seq + s] as f32);
            data.push(s as f32);
        }
    }
    Some(ModelOutput {
        seq: t.seq,
        dim: 2,
        data,
    })
}

#[test]
fn encoder_adds_special_tokens_and_does_not_pad() {
    let rows = encoder(8192)
        .encode(&strings(&["the dragon sleeps", "the", "griffin"]))
        .unwrap();
    let ids: Vec<&[u32]> = rows.iter().map(|r| r.ids.as_slice()).collect();
    assert_eq!(ids, [&[1, 4, 5, 6, 2][..], &[1, 4, 2], &[1, 3, 2]]);
    for r in &rows {
        assert_eq!(r.mask, vec![1; r.ids.len()]);
    }
    assert!(encoder(8192).encode(&vec![]).unwrap().is_empty());
}

#[test]
fn encoder_truncates_at_its_limit() {
    let rows = encoder(4).encode(&strings(&["the dragon sleeps"])).unwrap();
    assert_eq!(rows[0].ids, [1, 4, 5, 2]);
    let rows = encoder(2).encode(&strings(&["the dragon sleeps"])).unwrap();
    assert_eq!(rows[0].ids, [1, 2]);
}

#[test]
fn encoder_without_special_tokens_needs_no_room_for_them() {
    let bare = DEFINITION.replace(
        r#"{"type": "BertProcessing", "sep": ["[SEP]", 2], "cls": ["[CLS]", 1]}"#,
        "null",
    );
    let encoder = TextEncoder::load(&bare, 1).ok().unwrap();
    let rows = encoder.encode(&strings(&["dragon sleeps"])).unwrap();
    assert_eq!((rows[0].ids.as_slice(), rows[0].mask.as_slice()), (&[5][..], &[1][..]));
}

#[test]
fn encoder_needs_a_definition_with_room_for_text() {
    assert_eq!(
        TextEncoder::load("not json", 8192).err(),
        Some(LoadError::Malformed)
    );
    assert_eq!(
        TextEncoder::load(DEFINITION, 1).err(),
        Some(LoadError::NoRoomForText)
    );
}

#[test]
fn encoding_failure_fails_the_request() {
    // Without a token for unknown words the model cannot encode one.
    let strict = DEFINITION.replace("\"[UNK]\": 3, ", "");
    let encoder = TextEncoder::load(&strict, 8192).ok().unwrap();
    assert!(encoder.encode(&strings(&["the", "griffin"])).is_none());
    assert_eq!(
        embed_prefixed(&echo, &plus, &over, 0.0, &encoder, &strings(&["griffin"]), 100).err(),
        Some(EmbedError::Inference)
    );
}

#[test]
fn definition_that_cannot_be_read_is_malformed() {
    // A character map that is no base64.
    let broken = DEFINITION.replace(
        r#""normalizer": null"#,
        r#""normalizer": {"type": "Precompiled", "precompiled_charsmap": "!"}"#,
    );
    assert_eq!(
        TextEncoder::load(&broken, 8192).err(),
        Some(LoadError::Malformed)
    );
    // A character map without entries, which an added token must go through.
    let broken = DEFINITION
        .replace(
            r#""normalizer": null"#,
            r#""normalizer": {"type": "Precompiled", "precompiled_charsmap": "AAAAAA=="}"#,
        )
        .replace(
            r#""added_tokens": []"#,
            r#""added_tokens": [{"id": 7, "content": "griffin", "single_word": false,
                "lstrip": false, "rstrip": false, "normalized": true, "special": false}]"#,
        );
    assert_eq!(
        TextEncoder::load(&broken, 8192).err(),
        Some(LoadError::Malformed)
    );
}

#[test]
fn definition_that_contradicts_itself_fails_every_text() {
    for template in [
        // A special token that is nowhere defined.
        r#"[{"SpecialToken": {"id": "[CLS]", "type_id": 0}}, {"Sequence": {"id": "A", "type_id": 0}}]"#,
        // The second sequence of a pair, for a single one.
        r#"[{"Sequence": {"id": "B", "type_id": 0}}]"#,
    ] {
        let broken = DEFINITION.replace(
            r#"{"type": "BertProcessing", "sep": ["[SEP]", 2], "cls": ["[CLS]", 1]}"#,
            &format!(
                r#"{{"type": "TemplateProcessing", "single": {template}, "pair": [], "special_tokens": {{}}}}"#
            ),
        );
        let encoder = TextEncoder::load(&broken, 8192).ok().unwrap();
        assert!(encoder.encode(&strings(&["the"])).is_none());
        assert_eq!(
            embed_prefixed(&echo, &plus, &over, 0.0, &encoder, &strings(&["the"]), 100).err(),
            Some(EmbedError::Inference)
        );
        // Without a text there is nothing to fail.
        assert!(encoder.encode(&vec![]).unwrap().is_empty());
    }
}

#[test]
fn rows_are_padded_to_the_longest() {
    let mut short = row(&[7]);
    short.mask = vec![5];
    let t = pad_rows(&[row(&[1, 2, 3]), short]);
    assert_eq!((t.batch, t.seq), (2, 3));
    assert_eq!(t.ids, [1, 2, 3, 7, 0, 0]);
    assert_eq!(t.mask, [1, 1, 1, 5, 0, 0]);
    assert_eq!(t.types, [0; 6]);
    let t = pad_rows(&[]);
    assert_eq!((t.batch, t.seq, t.ids.len()), (0, 0, 0));
}

#[test]
fn row_without_its_mask_counts_as_padding() {
    let t = pad_rows(&[TokenRow {
        ids: vec![4, 5, 6],
        mask: vec![1],
    }]);
    assert_eq!(t.ids, [4, 0, 0]);
    assert_eq!(t.mask, [1, 0, 0]);
}

#[test]
fn pooling_means_over_real_tokens_only() {
    let t = pad_rows(&[row(&[1, 1, 1]), row(&[1])]);
    // Hidden states with large values at the padding, which must not count.
    let out = ModelOutput {
        seq: 3,
        dim: 2,
        data: vec![
            1.0f32, 10.0, 2.0, 20.0, 6.0, 60.0, 4.0, 8.0, 1e9, 1e9, 1e9, 1e9,
        ],
    };
    assert!(is_answer(&t, &out));
    assert_eq!(
        masked_mean(&plus, &over, 0.0, &t, &out),
        vec![vec![3.0, 30.0], vec![4.0, 8.0]]
    );
}

#[test]
fn pooling_does_not_normalize() {
    let t = pad_rows(&[row(&[1, 1])]);
    let out = ModelOutput {
        seq: 2,
        dim: 2,
        data: vec![30.0f32, 40.0, 30.0, 40.0],
    };
    let vectors = masked_mean(&plus, &over, 0.0, &t, &out);
    assert_eq!(vectors, vec![vec![30.0, 40.0]]);
}

#[test]
fn text_without_tokens_pools_to_zero() {
    let mut masked = row(&[9, 9]);
    masked.mask = vec![0, 0];
    let t = pad_rows(&[masked]);
    let out = ModelOutput {
        seq: 2,
        dim: 1,
        data: vec![7.0f32, 7.0],
    };
    assert_eq!(masked_mean(&plus, &over, 0.0, &t, &out), vec![vec![0.0]]);
}

#[test]
fn output_must_belong_to_the_tensors() {
    let t = pad_rows(&[row(&[1, 1]), row(&[1])]);
    let answer = |seq: usize, dim: usize, len: usize| {
        is_answer(
            &t,
            &ModelOutput {
                seq,
                dim,
                data: vec![0u8; len],
            },
        )
    };
    assert!(answer(2, 3, 12));
    // The last position is padding, so its hidden state may be missing.
    assert!(answer(2, 3, 9));
    assert!(!answer(2, 3, 8));
    // Fewer positions than the tensors have are fine, more are not.
    assert!(answer(1, 3, 6));
    assert!(!answer(3, 3, 18));
    assert!(answer(0, 3, 0));
    assert!(!answer(2, usize::MAX, 12));
}

#[test]
fn one_run_gives_one_vector_per_row() {
    let vectors = run_encodings(&echo, &plus, &over, 0.0, &[row(&[2, 4]), row(&[9])]).unwrap();
    assert_eq!(vectors, vec![vec![3.0, 0.5], vec![9.0, 0.0]]);
    let vectors = run_encodings(&|_: &Tensors| None, &plus, &over, 0.0, &[]);
    assert_eq!(vectors, Some(vec![]));
}

#[test]
fn sub_batches_keep_the_order_of_the_texts() {
    let shapes = RefCell::new(Vec::new());
    let run = |t: &Tensors| {
        shapes.borrow_mut().push((t.batch, t.seq));
        echo(t)
    };
    let rows = vec![row(&[1; 4]), row(&[2; 2]), row(&[3; 9]), row(&[4; 1]), row(&[5; 2])];
    let vectors = embed_rows(&run, &plus, &over, 0.0, &rows, 8).unwrap();
    let ids: Vec<f32> = vectors.iter().map(|v| v[0]).collect();
    assert_eq!(ids, [1.0, 2.0, 3.0, 4.0, 5.0]);
    // Within the budget of 8, except for the text that exceeds it alone.
    assert_eq!(*shapes.borrow(), [(2, 4), (1, 9), (2, 2)]);
    // The budget changes the runs, not the vectors.
    assert_eq!(
        embed_rows(&echo, &plus, &over, 0.0, &rows, 1000).unwrap(),
        vectors
    );
}

#[test]
fn failing_model_fails_the_request() {
    let rows = vec![row(&[1]), row(&[2])];
    let none = |_: &Tensors| None;
    assert_eq!(
        embed_rows(&none, &plus, &over, 0.0, &rows, 100).err(),
        Some(EmbedError::Inference)
    );
    let short = |t: &Tensors| {
        Some(ModelOutput {
            seq: t.seq,
            dim: 4,
            data: vec![0.0; 3],
        })
    };
    assert_eq!(
        embed_rows(&short, &plus, &over, 0.0, &rows, 100).err(),
        Some(EmbedError::Inference)
    );
}

#[test]
fn prompts_become_vectors() {
    let vectors = embed_prefixed(
        &echo,
        &plus,
        &over,
        0.0,
        &encoder(8192),
        &strings(&["the dragon", "sleeps"]),
        8192,
    )
    .unwrap();
    // [1, 4, 5, 2] and [1, 6, 2].
    assert_eq!(vectors, vec![vec![3.0, 1.5], vec![3.0, 1.0]]);
}

#[test]
fn no_prompts_need_no_model() {
    let untouched = |_: &Tensors| -> Option<ModelOutput<f32>> { panic!("nothing to run") };
    let vectors = embed_prefixed(&untouched, &plus, &over, 0.0, &encoder(8192), &vec![], 8192);
    assert_eq!(vectors, Ok(vec![]));
}

#[test]
fn model_is_only_handed_sub_batches_within_the_budget() {
    let prompts = strings(&["the", "dragon sleeps", "the the the the", "sleeps", "the dragon"]);
    let whole =
        embed_prefixed(&echo, &plus, &over, 0.0, &encoder(8192), &prompts, 8192).unwrap();
    for budget in 0..20 {
        let handed = RefCell::new(Vec::new());
        let run = |t: &Tensors| {
            handed.borrow_mut().push((t.batch, t.seq));
            echo(t)
        };
        let vectors =
            embed_prefixed(&run, &plus, &over, 0.0, &encoder(8192), &prompts, budget).unwrap();
        for (batch, seq) in handed.borrow().iter() {
            assert!(*batch == 1 || batch * seq <= budget, "{batch} x {seq} for {budget}");
        }
        let rows: usize = handed.borrow().iter().map(|(batch, _)| batch).sum();
        assert_eq!(rows, prompts.len());
        assert_eq!(vectors, whole);
    }
}

/// One request, served by the lane that the pool grants; its model may fail.
fn embed_on(pool: &mut LanePool<u32>, fails: bool) -> Result<Vec<Vec<f32>>, EmbedError> {
    let Acquire::Ready(lane) = pool.acquire() else {
        return settle(Attempt::NoLane);
    };
    let run = |t: &Tensors| if fails { None } else { echo(t) };
    let prompts = strings(&["the dragon", "sleeps"]);
    let result = embed_prefixed(&run, &plus, &over, 0.0, &encoder(8192), &prompts, 8192);
    pool.give_back(lane);
    settle(Attempt::Done(result))
}

#[test]
fn failed_requests_leave_no_mark() {
    let mut pool = LanePool::new(vec![0, 1]);
    for _ in 0..10 {
        assert_eq!(embed_on(&mut pool, true), Err(EmbedError::Inference));
    }
    let fresh = embed_on(&mut LanePool::new(vec![0, 1]), false);
    assert_eq!(fresh, Ok(vec![vec![3.0, 1.5], vec![3.0, 1.0]]));
    assert_eq!(embed_on(&mut pool, false), fresh);
    assert_eq!(pool.available_capacity(), 2);
}

#[test]
fn vectors_are_raw() {
    let twice = |t: &Tensors| {
        echo(t).map(|mut out| {
            out.data.iter_mut().for_each(|x| *x *= 2.0);
            out
        })
    };
    let rows = [row(&[2, 4, 9]), row(&[7]), row(&[5, 6])];
    let one = run_encodings(&echo, &plus, &over, 0.0, &rows).unwrap();
    let other = run_encodings(&twice, &plus, &over, 0.0, &rows).unwrap();
    assert_eq!(one, vec![vec![5.0, 1.0], vec![7.0, 0.0], vec![5.5, 0.5]]);
    assert_eq!(other, vec![vec![10.0, 2.0], vec![14.0, 0.0], vec![11.0, 1.0]]);
}

#[test]
fn padding_has_no_say() {
    let noisy = |t: &Tensors| {
        echo(t).map(|mut out| {
            for k in 0..t.mask.len() {
                if t.mask[k] == 0 {
                    out.data[2 * k] = f32::NAN;
                    out.data[2 * k + 1] = f32::INFINITY;
                }
            }
            out
        })
    };
    let mut excluded = row(&[5, 6, 8]);
    excluded.mask = vec![1, 0, 1];
    let rows = [row(&[2, 4, 9, 1]), row(&[7]), excluded];
    assert_eq!(
        run_encodings(&noisy, &plus, &over, 0.0, &rows),
        run_encodings(&echo, &plus, &over, 0.0, &rows)
    );
}

#[test]
fn single_text_is_a_batch_of_one() {
    let embed = |prompts: Vec<String>| {
        embed_prefixed(&echo, &plus, &over, 0.0, &encoder(8192), &prompts, 8192)
    };
    let one = EmbedRequest {
        text: "the dragon".to_string(),
        task_type: "sleeps".to_string(),
    };
    let batch = EmbedBatchRequest {
        texts: strings(&["the dragon"]),
        task_type: "sleeps".to_string(),
    };
    let one = respond(embed(one.prompts())).ok().unwrap();
    let batch = respond_batch(embed(batch.prompts()), 768).ok().unwrap();
    // [1, 6, 3, 4, 5, 2], the colon being no word of the vocabulary.
    assert_eq!(one.vector, [3.5, 2.5]);
    assert_eq!((batch.count, &batch.vectors[0]), (1, &one.vector));
    assert_eq!((one.dimensions, batch.dimensions), (2, 2));
}
