//! What the HTTP endpoints take, decide and answer.

use crate::pool::{LanePool, PoolState};
use vstd::prelude::*;

verus! {

/// The model that the service embeds with.
pub const MODEL_NAME: &'static str = "nomic-ai/nomic-embed-text-v1.5";

/// Why a request could not be served. Either arm reaches the caller as a status code
/// of its own, never as an empty success.
#[derive(Clone, Copy, Debug, PartialEq, Eq, Structural)]
pub enum EmbedError {
    /// Every lane is permanently gone, so waiting could never succeed.
    PoolExhausted,
    /// The inference failed. The lane itself is safe.
    Inference,
}

impl EmbedError {
    /// The HTTP status that the caller gets.
    pub fn status(&self) -> (status: u16)
        ensures
            status == match *self {
                EmbedError::PoolExhausted => 503,
                EmbedError::Inference => 500u16,
            },
    {
        match self {
            EmbedError::PoolExhausted => 503,
            EmbedError::Inference => 500,
        }
    }

    /// The body that the caller gets.
    pub fn message(&self) -> (message: &'static str)
        ensures
            message@ == match *self {
                EmbedError::PoolExhausted =>
                    "embedding pool exhausted: no usable inference lanes remain"@,
                EmbedError::Inference => "embedding inference failed"@,
            },
    {
        match self {
            EmbedError::PoolExhausted =>
                "embedding pool exhausted: no usable inference lanes remain",
            EmbedError::Inference => "embedding inference failed",
        }
    }
}

/// The task prefix of a request that names none.
pub fn default_task() -> (task: String)
    ensures
        task@ == "search_document"@,
{
    "search_document".to_owned()
}

/// What the tokenizer is given for a text.
pub open spec fn prompt(task_type: Seq<char>, text: Seq<char>) -> Seq<char> {
    task_type + ": "@ + text
}

fn prefixed(task_type: &str, text: &str) -> (prefixed: String)
    ensures
        prefixed@ == prompt(task_type@, text@),
{
    let mut prefixed: String = task_type.to_owned();
    prefixed.append(": ");
    prefixed.append(text);
    prefixed
}

/// A request to embed one text.
pub struct EmbedRequest {
    pub text: String,
    /// Task prefix, put before the text.
    pub task_type: String,
}

impl EmbedRequest {
    /// `prompts` are the texts to encode for this request.
    pub open spec fn asks_for(self, prompts: Seq<String>) -> bool {
        &&& prompts.len() == 1
        &&& prompts[0]@ == prompt(self.task_type@, self.text@)
    }

    /// The texts to encode: the one text under its prefix.
    pub fn prompts(&self) -> (prompts: Vec<String>)
        ensures
            self.asks_for(prompts@),
    {
        let mut prompts: Vec<String> = Vec::with_capacity(1);
        prompts.push(prefixed(self.task_type.as_str(), self.text.as_str()));
        prompts
    }
}

/// A request to embed several texts.
pub struct EmbedBatchRequest {
    pub texts: Vec<String>,
    /// Task prefix, put before each text.
    pub task_type: String,
}

impl EmbedBatchRequest {
    /// `prompts` are the texts to encode for this request.
    pub open spec fn asks_for(self, prompts: Seq<String>) -> bool {
        &&& prompts.len() == self.texts@.len()
        &&& forall|i: int|
            0 <= i < self.texts@.len() ==> (#[trigger] prompts[i])@ == prompt(
                self.task_type@,
                self.texts@[i]@,
            )
    }

    /// The texts to encode: each text under the prefix, in order.
    pub fn prompts(&self) -> (prompts: Vec<String>)
        ensures
            self.asks_for(prompts@),
    {
        let mut prompts: Vec<String> = Vec::with_capacity(self.texts.len());
        while prompts.len() < self.texts.len()
            invariant
                prompts.len() <= self.texts.len(),
                forall|i: int|
                    0 <= i < prompts.len() ==> (#[trigger] prompts[i])@ == prompt(
                        self.task_type@,
                        self.texts[i]@,
                    ),
            decreases self.texts.len() - prompts.len(),
        {
            let text: &String = &self.texts[prompts.len()];
            prompts.push(prefixed(self.task_type.as_str(), text.as_str()));
        }
        prompts
    }
}

/// How far a request got.
pub enum Attempt<V> {
    /// No lane will ever be free.
    NoLane,
    /// The inference task panicked or was aborted.
    TaskFailed,
    /// The inference task ran to its end.
    Done(Result<V, EmbedError>),
}

/// What a request that got this far comes to.
pub open spec fn settled<V>(attempt: Attempt<V>) -> Result<V, EmbedError> {
    match attempt {
        Attempt::NoLane => Err(EmbedError::PoolExhausted),
        Attempt::TaskFailed => Err(EmbedError::Inference),
        Attempt::Done(result) => result,
    }
}

/// What a request comes to.
pub fn settle<V>(attempt: Attempt<V>) -> (result: Result<V, EmbedError>)
    ensures
        result == settled(attempt),
{
    match attempt {
        Attempt::NoLane => Err(EmbedError::PoolExhausted),
        Attempt::TaskFailed => Err(EmbedError::Inference),
        Attempt::Done(result) => result,
    }
}

/// The answer to a request for one text.
pub struct EmbedResponse<E> {
    pub vector: Vec<E>,
    pub dimensions: usize,
}

/// `response` answers a request for one text that came to `vectors`.
pub open spec fn is_response<E>(vectors: Seq<Vec<E>>, response: EmbedResponse<E>) -> bool {
    &&& vectors.len() > 0 ==> response.vector == vectors[0]
    &&& vectors.len() == 0 ==> response.vector@ == Seq::<E>::empty()
    &&& response.dimensions == response.vector@.len()
}

/// `response` is the answer to a request for one text that came to `result`.
pub open spec fn responds<E>(
    result: Result<Vec<Vec<E>>, EmbedError>,
    response: Result<EmbedResponse<E>, EmbedError>,
) -> bool {
    match result {
        Err(error) => response is Err && response->Err_0 == error,
        Ok(vectors) => response is Ok && is_response(vectors@, response->Ok_0),
    }
}

/// Answer a request for one text: its vector, or an empty one if there is none.
pub fn respond<E>(result: Result<Vec<Vec<E>>, EmbedError>) -> (response: Result<
    EmbedResponse<E>,
    EmbedError,
>)
    ensures
        responds(result, response),
{
    let mut vectors: Vec<Vec<E>> = match result {
        Ok(vectors) => vectors,
        Err(error) => return Err(error),
    };
    let vector: Vec<E> = if vectors.len() > 0 {
        vectors.swap_remove(0)
    } else {
        Vec::new()
    };
    let dimensions: usize = vector.len();
    Ok(EmbedResponse { vector, dimensions })
}

/// The answer to a request for several texts.
pub struct EmbedBatchResponse<E> {
    pub vectors: Vec<Vec<E>>,
    pub count: usize,
    pub dimensions: usize,
}

/// `response` answers a request for several texts that came to `vectors`, on a model of
/// `dim` dimensions.
pub open spec fn is_batch_response<E>(
    vectors: Vec<Vec<E>>,
    dim: usize,
    response: EmbedBatchResponse<E>,
) -> bool {
    &&& response.vectors == vectors
    &&& response.count == vectors@.len()
    &&& response.dimensions == if vectors@.len() > 0 {
        vectors@[0]@.len()
    } else {
        dim as nat
    }
}

/// `response` is the answer to a request for several texts that came to `result`, on a
/// model of `dim` dimensions.
pub open spec fn responds_batch<E>(
    result: Result<Vec<Vec<E>>, EmbedError>,
    dim: usize,
    response: Result<EmbedBatchResponse<E>, EmbedError>,
) -> bool {
    match result {
        Err(error) => response is Err && response->Err_0 == error,
        Ok(vectors) => response is Ok && is_batch_response(vectors, dim, response->Ok_0),
    }
}

/// Answer a request for several texts. Without a vector to measure, the dimensions
/// are the model's.
pub fn respond_batch<E>(result: Result<Vec<Vec<E>>, EmbedError>, dim: usize) -> (response: Result<
    EmbedBatchResponse<E>,
    EmbedError,
>)
    ensures
        responds_batch(result, dim, response),
{
    let vectors: Vec<Vec<E>> = match result {
        Ok(vectors) => vectors,
        Err(error) => return Err(error),
    };
    let count: usize = vectors.len();
    let dimensions: usize = if count > 0 {
        vectors[0].len()
    } else {
        dim
    };
    Ok(EmbedBatchResponse { vectors, count, dimensions })
}

/// The service's state, as its health probe reports it.
pub struct HealthResponse {
    pub status: String,
    pub model: String,
    pub dimensions: usize,
    /// Lanes the pool was built with.
    pub lanes_total: usize,
    /// Lanes that can still serve a request. Fewer than `lanes_total` means that
    /// capacity was permanently lost, which is worth an alert.
    pub lanes_available: usize,
}

/// Answer a health probe from the pool's actual state, and fail it once no lane can
/// serve a request: a probe that passes while every request fails is worse than none.
pub fn health<T>(pool: &LanePool<T>, dim: usize) -> (response: Result<HealthResponse, EmbedError>)
    ensures
        match response {
            Ok(health) => {
                &&& pool@.available() > 0
                &&& health.status@ == "healthy"@
                &&& health.model@ == MODEL_NAME@
                &&& health.dimensions == dim
                &&& health.lanes_total == pool@.capacity
                &&& health.lanes_available == pool@.available()
            },
            Err(error) => pool@.available() == 0 && error == EmbedError::PoolExhausted,
        },
{
    let lanes_available: usize = pool.available_capacity();
    if lanes_available == 0 {
        return Err(EmbedError::PoolExhausted);
    }
    Ok(
        HealthResponse {
            status: "healthy".to_owned(),
            model: MODEL_NAME.to_owned(),
            dimensions: dim,
            lanes_total: pool.capacity(),
            lanes_available,
        },
    )
}

/// The probe and the requests agree: the probe fails exactly when every request for a
/// lane is refused as exhausted.
pub proof fn law_probe_fails_exactly_when_requests_do<T>(pool: PoolState<T>)
    ensures
        pool.available() == 0 <==> pool.answer() is Exhausted,
{
}

/// The whole text goes to the tokenizer, under its prefix and with nothing else. The one
/// prompt of a request is, character by character, the task type, a colon, a space, and
/// the text.
pub proof fn law_prompt_holds_the_whole_text(request: &EmbedRequest, prompts: Vec<String>)
    requires
        call_ensures(EmbedRequest::prompts, (request,), prompts),
    ensures
        prompts@.len() == 1,
        ({
            let task = request.task_type@;
            let text = request.text@;
            let characters = prompts@[0]@;
            &&& characters.len() == task.len() + 2 + text.len()
            &&& forall|i: int| 0 <= i < task.len() ==> #[trigger] characters[i] == task[i]
            &&& characters[task.len() as int] == ':'
            &&& characters[task.len() as int + 1] == ' '
            &&& forall|i: int|
                0 <= i < text.len() ==> characters[task.len() + 2 + i] == #[trigger] text[i]
        }),
{
    reveal_strlit(": ");
}

/// Every text of a batch goes to the tokenizer whole and in its place: one prompt for
/// each text, which is, character by character, the task type, a colon, a space, and the
/// text.
pub proof fn law_batch_prompts_hold_the_whole_texts(
    request: &EmbedBatchRequest,
    prompts: Vec<String>,
    n: int,
)
    requires
        call_ensures(EmbedBatchRequest::prompts, (request,), prompts),
        0 <= n < request.texts@.len(),
    ensures
        prompts@.len() == request.texts@.len(),
        ({
            let task = request.task_type@;
            let text = request.texts@[n]@;
            let characters = prompts@[n]@;
            &&& characters.len() == task.len() + 2 + text.len()
            &&& forall|i: int| 0 <= i < task.len() ==> #[trigger] characters[i] == task[i]
            &&& characters[task.len() as int] == ':'
            &&& characters[task.len() as int + 1] == ' '
            &&& forall|i: int|
                0 <= i < text.len() ==> characters[task.len() + 2 + i] == #[trigger] text[i]
        }),
{
    reveal_strlit(": ");
    assert(prompts@[n]@ == prompt(request.task_type@, request.texts@[n]@));
}

/// A batch without texts has no prompts.
pub proof fn law_no_texts_no_prompts(request: &EmbedBatchRequest, prompts: Vec<String>)
    requires
        call_ensures(EmbedBatchRequest::prompts, (request,), prompts),
        request.texts@.len() == 0,
    ensures
        prompts@.len() == 0,
{
}

/// Under one task type, different texts give different prompts.
pub proof fn law_different_texts_give_different_prompts(
    one: &EmbedRequest,
    other: &EmbedRequest,
    prompts: Vec<String>,
    other_prompts: Vec<String>,
)
    requires
        call_ensures(EmbedRequest::prompts, (one,), prompts),
        call_ensures(EmbedRequest::prompts, (other,), other_prompts),
        one.task_type@ == other.task_type@,
        one.text@ != other.text@,
    ensures
        prompts@[0]@ != other_prompts@[0]@,
{
    law_prompt_holds_the_whole_text(one, prompts);
    law_prompt_holds_the_whole_text(other, other_prompts);
    if prompts@[0]@ == other_prompts@[0]@ {
        let skip = one.task_type@.len() + 2;
        assert forall|i: int| 0 <= i < one.text@.len() implies #[trigger] one.text@[i]
            == other.text@[i] by {
            assert(prompts@[0]@[skip + i] == one.text@[i]);
            assert(other_prompts@[0]@[skip + i] == other.text@[i]);
        }
        assert(one.text@ =~= other.text@);
    }
}

/// What the inference task came to is passed on as it is. A request that got no lane is
/// told that the pool is exhausted, and one whose task died that inference failed;
/// neither is ever a success.
pub proof fn law_outcome_is_passed_on<V>(attempt: Attempt<V>, result: Result<V, EmbedError>)
    requires
        call_ensures(settle::<V>, (attempt,), result),
    ensures
        attempt is NoLane ==> result is Err && result->Err_0 is PoolExhausted,
        attempt is TaskFailed ==> result is Err && result->Err_0 is Inference,
        attempt matches Attempt::Done(done) ==> result == done,
{
}

/// The answer to a request for one text holds the first vector as it is, and its length;
/// without a vector it holds none. An error stays the error it is.
pub proof fn law_answer_holds_the_vector<E>(
    result: Result<Vec<Vec<E>>, EmbedError>,
    response: Result<EmbedResponse<E>, EmbedError>,
)
    requires
        call_ensures(respond::<E>, (result,), response),
    ensures
        result is Ok <==> response is Ok,
        result is Err ==> response->Err_0 == result->Err_0,
        result is Ok && result->Ok_0@.len() > 0 ==> response->Ok_0.vector@ == result->Ok_0@[0]@
            && response->Ok_0.dimensions == result->Ok_0@[0]@.len(),
        result is Ok && result->Ok_0@.len() == 0 ==> response->Ok_0.vector@.len() == 0
            && response->Ok_0.dimensions == 0,
{
}

/// The answer to a batch holds every vector in its place, how many there are, and the
/// length of the first; without vectors the dimensions are the model's. An error stays
/// the error it is.
pub proof fn law_batch_answer_holds_every_vector<E>(
    result: Result<Vec<Vec<E>>, EmbedError>,
    dim: usize,
    response: Result<EmbedBatchResponse<E>, EmbedError>,
)
    requires
        call_ensures(respond_batch::<E>, (result, dim), response),
    ensures
        result is Ok <==> response is Ok,
        result is Err ==> response->Err_0 == result->Err_0,
        result is Ok ==> {
            &&& response->Ok_0.vectors@.len() == result->Ok_0@.len()
            &&& response->Ok_0.count == result->Ok_0@.len()
            &&& forall|i: int|
                0 <= i < result->Ok_0@.len() ==> (#[trigger] response->Ok_0.vectors@[i])@
                    == result->Ok_0@[i]@
        },
        result is Ok && result->Ok_0@.len() > 0 ==> response->Ok_0.dimensions
            == result->Ok_0@[0]@.len(),
        result is Ok && result->Ok_0@.len() == 0 ==> response->Ok_0.dimensions == dim,
{
}

/// The probe reports what the pool holds. It passes exactly while fewer lanes are lost
/// than the pool was built with, and then tells how many there were and are.
pub proof fn law_probe_tells_the_pool_as_it_is<T>(
    pool: &LanePool<T>,
    dim: usize,
    response: Result<HealthResponse, EmbedError>,
)
    requires
        call_ensures(health::<T>, (pool, dim), response),
    ensures
        response is Ok <==> pool@.lost < pool@.capacity,
        response is Err ==> response->Err_0 is PoolExhausted,
        response matches Ok(health) ==> {
            &&& health.status@ == "healthy"@
            &&& health.model@ == "nomic-ai/nomic-embed-text-v1.5"@
            &&& health.dimensions == dim
            &&& health.lanes_total == pool@.capacity
            &&& health.lanes_available == pool@.capacity - pool@.lost
        },
{
}

/// Each error has the status that its kind calls for, and both kinds can be told apart.
pub proof fn law_errors_are_told_apart(error: &EmbedError, status: u16, message: &'static str)
    requires
        call_ensures(EmbedError::status, (error,), status),
        call_ensures(EmbedError::message, (error,), message),
    ensures
        error is PoolExhausted <==> status == 503,
        error is Inference <==> status == 500,
        error is PoolExhausted ==> message@
            == "embedding pool exhausted: no usable inference lanes remain"@,
        error is Inference ==> message@ == "embedding inference failed"@,
{
}

} // verus!
