//! Error taxonomy of the API surface, the model-id check, token-usage
//! accounting, and the timestamp source.

use vstd::prelude::*;

verus! {

/// The two failure classes every error maps to: client faults answered with
/// HTTP 400 and server faults answered with HTTP 500.
#[derive(Debug)]
pub enum ApiError {
    BadRequest(String),
    Internal(String),
}

impl Clone for ApiError {
    fn clone(&self) -> (r: Self)
        ensures
            r == *self,
    {
        match self {
            ApiError::BadRequest(m) => ApiError::BadRequest(m.clone()),
            ApiError::Internal(m) => ApiError::Internal(m.clone()),
        }
    }
}

/// The message carried by an error, whichever class it is.
pub open spec fn error_message_spec(e: ApiError) -> Seq<char> {
    match e {
        ApiError::BadRequest(m) => m@,
        ApiError::Internal(m) => m@,
    }
}

/// Wire body of an error response: `{"error": {"message", "type"}}`.
pub struct ErrorBody {
    pub message: String,
    pub error_type: String,
}

impl ApiError {
    /// The error's message text.
    pub fn message(&self) -> (r: &String)
        ensures
            r@ == error_message_spec(*self),
    {
        match self {
            ApiError::BadRequest(m) => m,
            ApiError::Internal(m) => m,
        }
    }

    /// HTTP status the error maps to.
    pub fn status_code(&self) -> (r: u16)
        ensures
            self is BadRequest ==> r == 400,
            self is Internal ==> r == 500,
    {
        match self {
            ApiError::BadRequest(_) => 400,
            ApiError::Internal(_) => 500,
        }
    }

    /// Structured error body sent to the client.
    pub fn body(&self) -> (r: ErrorBody)
        ensures
            r.message@ == error_message_spec(*self),
            self is BadRequest ==> r.error_type@ == "invalid_request_error"@,
            self is Internal ==> r.error_type@ == "internal_error"@,
    {
        let error_type = match self {
            ApiError::BadRequest(_) => String::from_str("invalid_request_error"),
            ApiError::Internal(_) => String::from_str("internal_error"),
        };
        ErrorBody { message: self.message().clone(), error_type }
    }
}

/// Message text of the model-mismatch rejection.
pub open spec fn model_mismatch_message(requested: Seq<char>, available: Seq<char>) -> Seq<char> {
    "model '"@ + requested + "' is not available (expected '"@ + available + "')"@
}

/// Whether two character vectors hold the same characters.
fn chars_equal(a: &Vec<char>, b: &Vec<char>) -> (r: bool)
    ensures
        r == (a@ == b@),
{
    if a.len() != b.len() {
        return false;
    }
    let mut i: usize = 0;
    while i < a.len()
        invariant
            a@.len() == b@.len(),
            i <= a@.len(),
            forall|j: int| 0 <= j < i ==> a@[j] == b@[j],
        decreases a@.len() - i,
    {
        if a[i] != b[i] {
            return false;
        }
        i = i + 1;
    }
    proof {
        assert(a@ =~= b@);
    }
    true
}

/// Accepts the request exactly when it names the served model.
pub fn ensure_model(requested: &str, available: &str) -> (r: Result<(), ApiError>)
    ensures
        requested@ == available@ <==> r is Ok,
        r is Err ==> r->Err_0 is BadRequest && error_message_spec(r->Err_0)
            == model_mismatch_message(requested@, available@),
{
    let rv = crate::text::chars_of(requested);
    let av = crate::text::chars_of(available);
    let equal = chars_equal(&rv, &av);
    if equal {
        Ok(())
    } else {
        let mut m = String::from_str("model '");
        m.append(requested);
        m.append("' is not available (expected '");
        m.append(available);
        m.append("')");
        proof {
            assert(requested@ != available@);
        }
        Err(ApiError::BadRequest(m))
    }
}

/// Relies on std::time::SystemTime::now: seconds elapsed since the Unix
/// epoch, or zero when the system clock reads earlier than the epoch or its
/// second count does not fit. The value depends on the wall clock, so only
/// its sign is promised.
#[verifier::external_body]
pub fn current_timestamp() -> (r: i64)
    ensures
        r >= 0,
{
    match std::time::SystemTime::now().duration_since(std::time::SystemTime::UNIX_EPOCH) {
        Ok(d) => i64::try_from(d.as_secs()).unwrap_or(0),
        Err(_) => 0,
    }
}

/// Token accounting reported with every completed generation.
pub struct Usage {
    pub prompt_tokens: usize,
    pub completion_tokens: usize,
    pub total_tokens: usize,
}

impl Usage {
    /// Builds the usage record; the total is always the exact sum.
    pub fn new(prompt_tokens: usize, completion_tokens: usize) -> (r: Usage)
        requires
            prompt_tokens + completion_tokens <= usize::MAX,
        ensures
            r.prompt_tokens == prompt_tokens,
            r.completion_tokens == completion_tokens,
            r.total_tokens == prompt_tokens + completion_tokens,
    {
        Usage { prompt_tokens, completion_tokens, total_tokens: prompt_tokens + completion_tokens }
    }
}

/// One entry of the model catalogue.
pub struct ModelInfo {
    pub id: String,
    pub object: String,
    pub created: i64,
    pub owned_by: String,
}

/// Body of the model-listing endpoint.
pub struct ModelsResponse {
    pub object: String,
    pub data: Vec<ModelInfo>,
}

/// Builds the model catalogue: one entry for the served model.
pub fn list_models(model_id: &str, created: i64) -> (r: ModelsResponse)
    ensures
        r.object@ == "list"@,
        r.data@.len() == 1,
        r.data@[0].id@ == model_id@,
        r.data@[0].object@ == "model"@,
        r.data@[0].created == created,
        r.data@[0].owned_by@ == "deepseek"@,
{
    let mut data: Vec<ModelInfo> = Vec::new();
    data.push(
        ModelInfo {
            id: String::from_str(model_id),
            object: String::from_str("model"),
            created,
            owned_by: String::from_str("deepseek"),
        },
    );
    ModelsResponse { object: String::from_str("list"), data }
}

/// One content block of a Responses-style reply.
pub struct ResponseContent {
    pub kind: String,
    pub text: String,
    pub bounding_boxes: Option<Vec<crate::bbox::BoundingBox>>,
    pub annotated_image: Option<String>,
}

/// One output message of a Responses-style reply.
pub struct ResponseOutput {
    pub id: String,
    pub kind: String,
    pub role: String,
    pub content: Vec<ResponseContent>,
}

/// Body of a non-streaming Responses-style reply.
pub struct ResponsesResponse {
    pub id: String,
    pub object: String,
    pub created: i64,
    pub model: String,
    pub output: Vec<ResponseOutput>,
    pub usage: Usage,
}

/// The assistant message of a Chat-Completions-style reply.
pub struct ChatMessageResponse {
    pub role: String,
    pub content: String,
    pub bounding_boxes: Option<Vec<crate::bbox::BoundingBox>>,
    pub annotated_image: Option<String>,
}

/// One choice of a Chat-Completions-style reply.
pub struct ChatChoice {
    pub index: usize,
    pub message: ChatMessageResponse,
    pub finish_reason: String,
}

/// Body of a non-streaming Chat-Completions-style reply.
pub struct ChatCompletionResponse {
    pub id: String,
    pub object: String,
    pub created: i64,
    pub model: String,
    pub choices: Vec<ChatChoice>,
    pub usage: Usage,
}

/// The box list a reply carries: absent when extraction found none.
pub open spec fn reported_boxes(
    boxes: Seq<crate::bbox::BoundingBox>,
    r: Option<Vec<crate::bbox::BoundingBox>>,
) -> bool {
    if boxes.len() == 0 {
        r is None
    } else {
        r is Some && r->Some_0@ == boxes
    }
}

/// Builds the non-streaming Responses-style reply for one finished
/// generation: one assistant message with one `output_text` block.
pub fn build_responses_response(
    id: String,
    output_id: String,
    created: i64,
    model: String,
    generation: crate::generation::GenerationResult,
) -> (r: ResponsesResponse)
    requires
        generation.prompt_tokens + generation.response_tokens <= usize::MAX,
    ensures
        r.id == id,
        r.object@ == "response"@,
        r.created == created,
        r.model == model,
        r.output@.len() == 1,
        r.output@[0].id == output_id,
        r.output@[0].kind@ == "message"@,
        r.output@[0].role@ == "assistant"@,
        r.output@[0].content@.len() == 1,
        r.output@[0].content@[0].kind@ == "output_text"@,
        r.output@[0].content@[0].text == generation.text,
        reported_boxes(generation.bounding_boxes@, r.output@[0].content@[0].bounding_boxes),
        r.output@[0].content@[0].annotated_image == generation.annotated_image,
        r.usage.prompt_tokens == generation.prompt_tokens,
        r.usage.completion_tokens == generation.response_tokens,
        r.usage.total_tokens == generation.prompt_tokens + generation.response_tokens,
{
    let usage = Usage::new(generation.prompt_tokens, generation.response_tokens);
    let bounding_boxes: Option<Vec<crate::bbox::BoundingBox>> = if generation.bounding_boxes.len()
        == 0 {
        None
    } else {
        Some(generation.bounding_boxes)
    };
    let content = ResponseContent {
        kind: String::from_str("output_text"),
        text: generation.text,
        bounding_boxes,
        annotated_image: generation.annotated_image,
    };
    let mut content_list: Vec<ResponseContent> = Vec::new();
    content_list.push(content);
    let output = ResponseOutput {
        id: output_id,
        kind: String::from_str("message"),
        role: String::from_str("assistant"),
        content: content_list,
    };
    let mut output_list: Vec<ResponseOutput> = Vec::new();
    output_list.push(output);
    ResponsesResponse {
        id,
        object: String::from_str("response"),
        created,
        model,
        output: output_list,
        usage,
    }
}

/// Builds the non-streaming Chat-Completions-style reply for one finished
/// generation: one choice holding the assistant message, finished with
/// `stop`.
pub fn build_chat_response(
    id: String,
    created: i64,
    model: String,
    generation: crate::generation::GenerationResult,
) -> (r: ChatCompletionResponse)
    requires
        generation.prompt_tokens + generation.response_tokens <= usize::MAX,
    ensures
        r.id == id,
        r.object@ == "chat.completion"@,
        r.created == created,
        r.model == model,
        r.choices@.len() == 1,
        r.choices@[0].index == 0,
        r.choices@[0].message.role@ == "assistant"@,
        r.choices@[0].message.content == generation.text,
        reported_boxes(generation.bounding_boxes@, r.choices@[0].message.bounding_boxes),
        r.choices@[0].message.annotated_image == generation.annotated_image,
        r.choices@[0].finish_reason@ == "stop"@,
        r.usage.prompt_tokens == generation.prompt_tokens,
        r.usage.completion_tokens == generation.response_tokens,
        r.usage.total_tokens == generation.prompt_tokens + generation.response_tokens,
{
    let usage = Usage::new(generation.prompt_tokens, generation.response_tokens);
    let bounding_boxes: Option<Vec<crate::bbox::BoundingBox>> = if generation.bounding_boxes.len()
        == 0 {
        None
    } else {
        Some(generation.bounding_boxes)
    };
    let message = ChatMessageResponse {
        role: String::from_str("assistant"),
        content: generation.text,
        bounding_boxes,
        annotated_image: generation.annotated_image,
    };
    let choice = ChatChoice { index: 0, message, finish_reason: String::from_str("stop") };
    let mut choices: Vec<ChatChoice> = Vec::new();
    choices.push(choice);
    ChatCompletionResponse {
        id,
        object: String::from_str("chat.completion"),
        created,
        model,
        choices,
        usage,
    }
}

} // verus!
