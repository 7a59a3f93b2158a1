use vstd::prelude::*;
use vstd::string::{StrSliceExecFns, StringExecFns};
use crate::error::CompletionError;
use crate::types::ErrorDetail;

verus! {

/// Whether an HTTP status is a success (2xx).
pub open spec fn is_success(status: u16) -> bool {
    200 <= status <= 299
}

/// Whether an HTTP status is a success (2xx).
pub fn is_success_status(status: u16) -> (r: bool)
    ensures
        r == is_success(status),
{
    200 <= status && status <= 299
}

/// The single-response path refuses a request that asks for a stream.
pub fn check_single_response(stream: Option<bool>) -> (r: Result<(), CompletionError>)
    ensures
        r is Err <==> stream == Some(true),
        r is Err ==> r->Err_0 is StreamingRequested,
{
    match stream {
        Some(true) => Err(CompletionError::StreamingRequested),
        _ => Ok(()),
    }
}

/// The credential, or a configuration error when none is set.
pub fn require_api_key(key: Option<String>) -> (r: Result<String, CompletionError>)
    ensures
        key is Some ==> r is Ok && r->Ok_0@ == key->Some_0@,
        key is None ==> r is Err && r->Err_0 is Config && r->Err_0->Config_message@
            == "OPENAI_API_KEY environment variable not set"@,
{
    match key {
        Some(k) => Ok(k),
        None => Err(
            CompletionError::Config {
                message: String::from_str("OPENAI_API_KEY environment variable not set"),
            },
        ),
    }
}

pub open spec fn bearer_prefix() -> Seq<char> {
    seq!['B', 'e', 'a', 'r', 'e', 'r', ' ']
}

/// The value of the `Authorization` header for a credential.
pub fn bearer_header(key: &str) -> (r: String)
    ensures
        r@ == bearer_prefix() + key@,
{
    let prefix = "Bearer ";
    proof {
        reveal_strlit("Bearer ");
    }
    String::from_str(prefix).concat(key)
}

/// The text used when the body of a failed response could not be read.
pub open spec fn unknown_error_text() -> Seq<char> {
    seq!['U', 'n', 'k', 'n', 'o', 'w', 'n', ' ', 'e', 'r', 'r', 'o', 'r']
}

/// Classifies a failed response (status outside 2xx). `reason` is the
/// status's standard reason phrase, if it has one; `body` the response text,
/// if it could be read; `detail` the structured error parsed from it, if any.
/// With a structured error its fields are kept; otherwise only the status and
/// the raw text.
pub fn provider_failure(
    status: u16,
    reason: Option<String>,
    body: Option<String>,
    detail: Option<ErrorDetail>,
) -> (r: CompletionError)
    ensures
        r is Provider,
        r->Provider_status == status,
        r->Provider_reason == reason,
        detail is Some ==> r->Provider_message@ == detail->Some_0.message@
            && r->Provider_error_type == Some(detail->Some_0.error_type)
            && r->Provider_param == detail->Some_0.param && r->Provider_code
            == detail->Some_0.code,
        detail is None && body is Some ==> r->Provider_message@ == body->Some_0@
            && r->Provider_error_type is None && r->Provider_param is None
            && r->Provider_code is None,
        detail is None && body is None ==> r->Provider_message@ == unknown_error_text()
            && r->Provider_error_type is None && r->Provider_param is None
            && r->Provider_code is None,
{
    match detail {
        Some(d) => CompletionError::Provider {
            status,
            reason,
            message: d.message,
            error_type: Some(d.error_type),
            param: d.param,
            code: d.code,
        },
        None => {
            let message = match body {
                Some(text) => text,
                None => {
                    let t = "Unknown error";
                    proof {
                        reveal_strlit("Unknown error");
                    }
                    String::from_str(t)
                },
            };
            CompletionError::Provider {
                status,
                reason,
                message,
                error_type: None,
                param: None,
                code: None,
            }
        },
    }
}

/// The provider's base URL, used when a request names none.
pub open spec fn default_base_url() -> Seq<char> {
    "https://api.openai.com/v1"@
}

/// `s` without the `/` characters at its end.
pub open spec fn trim_trailing_slashes(s: Seq<char>) -> Seq<char>
    decreases s.len(),
{
    if s.len() > 0 && s.last() == '/' {
        trim_trailing_slashes(s.drop_last())
    } else {
        s
    }
}

/// The chat-completion endpoint under a base URL.
pub open spec fn endpoint_of(base: Seq<char>) -> Seq<char> {
    trim_trailing_slashes(base) + "/chat/completions"@
}

/// The URL that a request is posted to: under the caller's base URL if one is
/// given, else under the provider's default.
pub fn endpoint_url(base_url: Option<&str>) -> (r: String)
    ensures
        r@ == endpoint_of(
            match base_url {
                Some(b) => b@,
                None => default_base_url(),
            },
        ),
{
    let base = match base_url {
        Some(b) => b,
        None => "https://api.openai.com/v1",
    };
    let mut end = base.unicode_len();
    assert(base@.take(end as int) =~= base@);
    while end > 0 && base.get_char(end - 1) == '/'
        invariant
            end <= base@.len(),
            trim_trailing_slashes(base@) == trim_trailing_slashes(base@.take(end as int)),
        decreases end,
    {
        assert(base@.take(end as int).drop_last() =~= base@.take(end - 1));
        end = end - 1;
    }
    let kept = base.substring_char(0, end);
    assert(kept@ =~= base@.take(end as int));
    String::from_str(kept).concat("/chat/completions")
}

} // verus!
