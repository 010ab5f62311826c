use vstd::prelude::*;

verus! {

/// A search of the skill registry.
pub struct SearchQuery {
    pub q: String,
}

/// A skill published to the registry: its manifest, as TOML text.
pub struct PublishRequest {
    pub manifest: String,
}

/// What an AI provider answered to a prompt.
pub struct ProviderResponse {
    pub content: String,
    pub tokens_used: u32,
    pub model: String,
}

} // verus!
