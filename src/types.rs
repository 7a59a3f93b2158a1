use vstd::prelude::*;

verus! {

/// One message of a conversation.
#[derive(Clone, Debug)]
pub struct Message {
    pub role: String,
    pub content: String,
}

/// One choice of a complete response.
#[derive(Clone, Debug)]
pub struct Choice {
    pub index: u32,
    pub message: Message,
    pub finish_reason: Option<String>,
}

/// Token counts of a complete response.
#[derive(Clone, Debug)]
pub struct Usage {
    pub prompt_tokens: u32,
    pub completion_tokens: u32,
    pub total_tokens: u32,
}

/// A complete, non-streamed response.
#[derive(Clone, Debug)]
pub struct ChatCompletionResponse {
    pub id: String,
    pub object: String,
    /// Unix seconds.
    pub created: u64,
    pub model: String,
    pub choices: Vec<Choice>,
    pub usage: Usage,
}

/// The structured error body that the provider sends with a failure status.
#[derive(Clone, Debug)]
pub struct OpenAIError {
    pub error: ErrorDetail,
}

/// The fields of a structured provider error.
#[derive(Clone, Debug)]
pub struct ErrorDetail {
    pub message: String,
    pub error_type: String,
    pub param: Option<String>,
    pub code: Option<String>,
}

/// The part of a message that one fragment adds.
#[derive(Clone, Debug)]
pub struct ChatCompletionStreamResponseDelta {
    /// Present on the first fragment of a choice only.
    pub role: Option<String>,
    /// Absent on the fragment that carries the finish reason.
    pub content: Option<String>,
}

/// One choice of a streamed fragment.
#[derive(Clone, Debug)]
pub struct ChatChoiceStream {
    pub index: u32,
    pub delta: ChatCompletionStreamResponseDelta,
    pub finish_reason: Option<String>,
}

/// One fragment of a streamed response.
#[derive(Clone, Debug)]
pub struct ChatCompletionStreamResponse {
    /// The same for every fragment of one response.
    pub id: String,
    pub object: String,
    /// Unix seconds.
    pub created: u64,
    pub model: String,
    pub choices: Vec<ChatChoiceStream>,
}

} // verus!
