//! Verified core of a chat-completion gateway: model routing, request checks,
//! response classification, Server-Sent-Events decoding and the decisions of
//! the task that moves decoded fragments to a consumer.

pub mod bridge;
pub mod error;
pub mod router;
pub mod sse;
pub mod transport;
pub mod types;

pub use bridge::{fragment_item, Delivery, ProducerStep, StreamProducer, WireEvent};
pub use error::CompletionError;
pub use router::{plan_completion, route_model, CompletionPlan};
pub use sse::SseDecoder;
pub use types::{
    ChatChoiceStream, ChatCompletionResponse, ChatCompletionStreamResponse,
    ChatCompletionStreamResponseDelta, Choice, ErrorDetail, Message, OpenAIError, Usage,
};
