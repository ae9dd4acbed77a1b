use embeddings_rs::pool::{Acquire, LanePool};
use embeddings_rs::service::{
    default_task, health, respond, respond_batch, settle, Attempt, EmbedBatchRequest, EmbedError,
    EmbedRequest,
};

#[test]
fn errors_have_their_own_status_and_message() {
    assert_eq!(EmbedError::PoolExhausted.status(), 503);
    assert_eq!(
        EmbedError::PoolExhausted.message(),
        "embedding pool exhausted: no usable inference lanes remain"
    );
    assert_eq!(EmbedError::Inference.status(), 500);
    assert_eq!(EmbedError::Inference.message(), "embedding inference failed");
}

#[test]
fn prompts_carry_the_task_prefix() {
    assert_eq!(default_task(), "search_document");
    let one = EmbedRequest {
        text: "The dragon coiled around the obsidian spire.".to_string(),
        task_type: default_task(),
    };
    assert_eq!(
        one.prompts(),
        ["search_document: The dragon coiled around the obsidian spire."]
    );
    let many = EmbedBatchRequest {
        texts: vec!["a".to_string(), String::new(), "ß".to_string()],
        task_type: "search_query".to_string(),
    };
    assert_eq!(
        many.prompts(),
        ["search_query: a", "search_query: ", "search_query: ß"]
    );
    let none = EmbedBatchRequest {
        texts: vec![],
        task_type: String::new(),
    };
    assert!(none.prompts().is_empty());
}

#[test]
fn attempts_settle() {
    assert_eq!(settle::<u8>(Attempt::NoLane), Err(EmbedError::PoolExhausted));
    assert_eq!(settle::<u8>(Attempt::TaskFailed), Err(EmbedError::Inference));
    assert_eq!(settle(Attempt::Done(Ok(7))), Ok(7));
    assert_eq!(
        settle::<u8>(Attempt::Done(Err(EmbedError::Inference))),
        Err(EmbedError::Inference)
    );
}

#[test]
fn single_response_is_the_first_vector() {
    let response = respond(Ok(vec![vec![1.5f32, -2.0], vec![9.0]])).ok().unwrap();
    assert_eq!((response.vector, response.dimensions), (vec![1.5, -2.0], 2));
    let response = respond::<f32>(Ok(vec![])).ok().unwrap();
    assert_eq!((response.vector, response.dimensions), (vec![], 0));
    assert_eq!(
        respond::<f32>(Err(EmbedError::Inference)).err(),
        Some(EmbedError::Inference)
    );
}

#[test]
fn batch_response_counts_and_measures() {
    let response = respond_batch(Ok(vec![vec![1.0f32; 3], vec![2.0; 3]]), 768)
        .ok()
        .unwrap();
    assert_eq!(response.vectors, vec![vec![1.0; 3], vec![2.0; 3]]);
    assert_eq!((response.count, response.dimensions), (2, 3));
    let response = respond_batch::<f32>(Ok(vec![]), 768).ok().unwrap();
    assert_eq!((response.count, response.dimensions), (0, 768));
    assert_eq!(
        respond_batch::<f32>(Err(EmbedError::PoolExhausted), 768).err(),
        Some(EmbedError::PoolExhausted)
    );
}

#[test]
fn health_reports_the_pool() {
    let mut other = LanePool::new(vec![1u8, 2]);
    let mut pool = LanePool::new(vec![0u8, 0]);
    let report = health(&pool, 768).ok().unwrap();
    assert_eq!(report.status, "healthy");
    assert_eq!(report.model, "nomic-ai/nomic-embed-text-v1.5");
    assert_eq!(
        (report.dimensions, report.lanes_total, report.lanes_available),
        (768, 2, 2)
    );
    for left in [1, 0] {
        if let Acquire::Ready(stray) = other.acquire() {
            pool.give_back(stray);
        }
        assert_eq!(
            health(&pool, 768).ok().map_or(0, |report| report.lanes_available),
            left
        );
    }
    // The probe fails exactly when requests do.
    assert_eq!(health(&pool, 768).err(), Some(EmbedError::PoolExhausted));
    assert!(matches!(pool.acquire(), Acquire::Exhausted));
}
