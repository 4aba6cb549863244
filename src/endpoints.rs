//! The paths of the endpoints, and how a caller's override is applied.
use vstd::prelude::*;

verus! {

pub const MODELS_PATH: &'static str = "/v1/models";

pub const CHAT_COMPLETIONS_PATH: &'static str = "/v1/chat/completions";

pub const COMPLETIONS_PATH: &'static str = "/v1/completions";

pub const EMBEDDINGS_PATH: &'static str = "/v1/embeddings";

pub const IMAGE_GENERATIONS_PATH: &'static str = "/v1/images/generations";

pub const RESPONSES_PATH: &'static str = "/v1/responses";

/// The path a request goes to: the caller's override when there is one,
/// the endpoint's default path otherwise.
pub fn request_path(opt_url_path: Option<String>, default_path: &str) -> (r: String)
    ensures
        r@ == match opt_url_path {
            Some(p) => p@,
            None => default_path@,
        },
{
    match opt_url_path {
        Some(p) => p,
        None => default_path.to_owned(),
    }
}

} // verus!
