use vstd::prelude::*;
use vstd::string::StringExecFns;

verus! {

/// Every way a completion call, or one item of a stream, can fail.
#[derive(Clone, Debug)]
pub enum CompletionError {
    /// The credential needed to reach the provider is not configured.
    Config { message: String },
    /// The model identifier does not start with a registered provider prefix.
    UnsupportedProvider { model: String },
    /// The single-response path was asked for a streamed response.
    StreamingRequested,
    /// The request could not be sent; the text describes the cause.
    Transport { message: String },
    /// Reading a streamed body failed midway; the text describes the cause.
    StreamRead { message: String },
    /// The provider answered with a status outside 2xx.
    Provider {
        status: u16,
        /// The status's standard reason phrase, where it has one.
        reason: Option<String>,
        message: String,
        error_type: Option<String>,
        param: Option<String>,
        code: Option<String>,
    },
    /// One streamed fragment could not be decoded; the stream goes on.
    /// `data` is the offending payload as text.
    ChunkDecode { data: String, cause: String },
    /// The connection closed before the end-of-stream sentinel.
    StreamClosed,
}

/// The decimal digits of `n`.
pub open spec fn decimal(n: nat) -> Seq<char>
    decreases n,
{
    if n < 10 {
        seq![digit_char(n)]
    } else {
        decimal(n / 10).push(digit_char(n % 10))
    }
}

pub open spec fn digit_char(d: nat) -> char {
    if d == 0 { '0' } else if d == 1 { '1' } else if d == 2 { '2' } else if d == 3 { '3' } else if d
        == 4 { '4' } else if d == 5 { '5' } else if d == 6 { '6' } else if d == 7 { '7' } else if d
        == 8 { '8' } else { '9' }
}

/// A status as people read it: its number and its reason phrase.
pub open spec fn status_text(status: u16, reason: Option<String>) -> Seq<char> {
    decimal(status as nat) + " "@ + match reason {
        Some(r) => r@,
        None => "<unknown status code>"@,
    }
}

/// The text that describes an error to a person.
pub open spec fn error_text(e: CompletionError) -> Seq<char> {
    match e {
        CompletionError::Config { message } => message@,
        CompletionError::UnsupportedProvider { model } => "Unsupported provider in model '"@
            + model@ + "'. Currently only 'openai/' prefix is supported."@,
        CompletionError::StreamingRequested =>
            "When stream is true, use openai_completion_stream instead"@,
        CompletionError::Transport { message } => "Failed to send request to OpenAI API: "@
            + message@,
        CompletionError::StreamRead { message } => "EventSource error: "@ + message@,
        CompletionError::Provider { status, reason, message, error_type, param, code } => {
            let head = "OpenAI API error ("@ + status_text(status, reason) + "): "@;
            match error_type {
                Some(t) => head + t@ + " - "@ + message@,
                None => head + message@,
            }
        },
        CompletionError::ChunkDecode { data, cause } => "Failed to parse stream response: "@
            + cause@ + " - Data: "@ + data@,
        CompletionError::StreamClosed =>
            "Stream closed before the end-of-stream marker"@,
    }
}

fn digit_string(d: u16) -> (r: String)
    requires
        d < 10,
    ensures
        r@ == seq![digit_char(d as nat)],
{
    let s = if d == 0 { "0" } else if d == 1 { "1" } else if d == 2 { "2" } else if d == 3 {
        "3"
    } else if d == 4 { "4" } else if d == 5 { "5" } else if d == 6 { "6" } else if d == 7 {
        "7"
    } else if d == 8 { "8" } else { "9" };
    proof {
        reveal_strlit("0");
        reveal_strlit("1");
        reveal_strlit("2");
        reveal_strlit("3");
        reveal_strlit("4");
        reveal_strlit("5");
        reveal_strlit("6");
        reveal_strlit("7");
        reveal_strlit("8");
        reveal_strlit("9");
    }
    let r = String::from_str(s);
    assert(r@ =~= seq![digit_char(d as nat)]);
    r
}

/// The decimal digits of `n` as text.
pub fn decimal_string(n: u16) -> (r: String)
    ensures
        r@ == decimal(n as nat),
    decreases n,
{
    if n < 10 {
        digit_string(n)
    } else {
        let high = decimal_string(n / 10);
        let low = digit_string(n % 10);
        let r = high.concat(low.as_str());
        assert(r@ =~= decimal(n as nat));
        r
    }
}

impl CompletionError {
    /// The text that describes this error to a person.
    pub fn message(&self) -> (r: String)
        ensures
            r@ == error_text(*self),
    {
        match self {
            CompletionError::Config { message } => message.clone(),
            CompletionError::UnsupportedProvider { model } => String::from_str(
                "Unsupported provider in model '",
            ).concat(model.as_str()).concat("'. Currently only 'openai/' prefix is supported."),
            CompletionError::StreamingRequested => String::from_str(
                "When stream is true, use openai_completion_stream instead",
            ),
            CompletionError::Transport { message } => String::from_str(
                "Failed to send request to OpenAI API: ",
            ).concat(message.as_str()),
            CompletionError::StreamRead { message } => String::from_str(
                "EventSource error: ",
            ).concat(message.as_str()),
            CompletionError::Provider { status, reason, message, error_type, param, code } => {
                let with_number = decimal_string(*status).concat(" ");
                let status_part = match reason {
                    Some(r) => with_number.concat(r.as_str()),
                    None => with_number.concat("<unknown status code>"),
                };
                let head = String::from_str("OpenAI API error (").concat(status_part.as_str()).concat(
                    "): ",
                );
                match error_type {
                    Some(t) => head.concat(t.as_str()).concat(" - ").concat(message.as_str()),
                    None => head.concat(message.as_str()),
                }
            },
            CompletionError::ChunkDecode { data, cause } => String::from_str(
                "Failed to parse stream response: ",
            ).concat(cause.as_str()).concat(" - Data: ").concat(data.as_str()),
            CompletionError::StreamClosed => String::from_str(
                "Stream closed before the end-of-stream marker",
            ),
        }
    }
}

} // verus!
