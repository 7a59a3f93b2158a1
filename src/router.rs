use vstd::prelude::*;
use vstd::string::StrSliceExecFns;
use crate::error::CompletionError;

verus! {

/// The registered provider prefix as characters.
pub open spec fn provider_prefix() -> Seq<char> {
    seq!['o', 'p', 'e', 'n', 'a', 'i', '/']
}

/// Whether a model identifier is routed to the registered provider.
pub open spec fn has_provider_prefix(model: Seq<char>) -> bool {
    model.len() >= provider_prefix().len() && model.take(provider_prefix().len() as int)
        == provider_prefix()
}

/// The model name that the provider sees: the identifier without its prefix.
pub open spec fn effective_model(model: Seq<char>) -> Seq<char> {
    model.skip(provider_prefix().len() as int)
}

/// Every identifier `openai/<rest>` is routed, and the provider sees `<rest>`
/// exactly.
pub proof fn lemma_prefixed_identifier_routes(rest: Seq<char>)
    ensures
        has_provider_prefix(provider_prefix() + rest),
        effective_model(provider_prefix() + rest) == rest,
{
    assert((provider_prefix() + rest).take(7) =~= provider_prefix());
    assert((provider_prefix() + rest).skip(7) =~= rest);
}

/// Strips the provider prefix from a `provider/model` identifier, or fails
/// with `UnsupportedProvider` carrying the identifier unchanged.
pub fn route_model(model: &str) -> (r: Result<String, CompletionError>)
    ensures
        has_provider_prefix(model@) ==> r is Ok && r->Ok_0@ == effective_model(model@),
        !has_provider_prefix(model@) ==> r is Err && r->Err_0 is UnsupportedProvider
            && r->Err_0->UnsupportedProvider_model@ == model@,
{
    let prefix = "openai/";
    proof {
        reveal_strlit("openai/");
    }
    assert(prefix@ == provider_prefix());
    let n = model.unicode_len();
    let p = prefix.unicode_len();
    let mut matched = n >= p;
    if matched {
        let mut i: usize = 0;
        assert(model@.take(0) =~= provider_prefix().take(0));
        while i < p
            invariant
                p == provider_prefix().len(),
                prefix@ == provider_prefix(),
                n == model@.len(),
                n >= p,
                i <= p,
                matched == (model@.take(i as int) == provider_prefix().take(i as int)),
            decreases p - i,
        {
            let same = model.get_char(i) == prefix.get_char(i);
            proof {
                assert(model@.take(i + 1) == model@.take(i as int).push(model@[i as int]));
                assert(provider_prefix().take(i + 1) == provider_prefix().take(i as int).push(
                    provider_prefix()[i as int],
                ));
                if model@.take(i + 1) == provider_prefix().take(i + 1) {
                    assert(model@.take(i + 1)[i as int] == provider_prefix().take(i + 1)[i as int]);
                    assert(model@.take(i as int) =~= model@.take(i + 1).take(i as int));
                    assert(provider_prefix().take(i as int) =~= provider_prefix().take(i + 1).take(
                        i as int,
                    ));
                }
            }
            matched = matched && same;
            i = i + 1;
        }
        assert(provider_prefix().take(p as int) =~= provider_prefix());
    }
    if matched {
        let rest = model.substring_char(p, n);
        Ok(rest.to_string())
    } else {
        Err(CompletionError::UnsupportedProvider { model: model.to_string() })
    }
}

/// Where a completion request goes: the model name that the provider sees,
/// and whether the response is streamed.
pub struct CompletionPlan {
    pub model: String,
    pub streaming: bool,
}

/// Routes a request: the provider prefix must match, and the response is
/// streamed exactly when `stream` is `Some(true)`.
pub fn plan_completion(model: &str, stream: Option<bool>) -> (r: Result<
    CompletionPlan,
    CompletionError,
>)
    ensures
        r is Ok <==> has_provider_prefix(model@),
        r is Ok ==> r->Ok_0.model@ == effective_model(model@) && r->Ok_0.streaming == (stream
            == Some(true)),
        r is Err ==> r->Err_0 is UnsupportedProvider && r->Err_0->UnsupportedProvider_model@
            == model@,
{
    let routed = route_model(model);
    match routed {
        Ok(m) => Ok(
            CompletionPlan {
                model: m,
                streaming: match stream {
                    Some(true) => true,
                    _ => false,
                },
            },
        ),
        Err(e) => Err(e),
    }
}

} // verus!
