//! The bridge's configuration and the upstream endpoints derived from it.

use vstd::prelude::*;
use crate::text::{trim_end_char, trim_trailing};

verus! {

/// Bridge server configuration.
#[derive(Debug, Clone)]
pub struct BridgeConfig {
    /// Local port to listen on.
    pub port: u16,
    /// Upstream Chat Completions API base URL.
    pub upstream_url: String,
    /// API key for the upstream provider.
    pub api_key: String,
}

/// A provider's entry in a provider configuration file.
#[derive(Debug)]
pub struct ProviderConfig {
    pub name: String,
    pub base_url: String,
    pub env_key: String,
    pub models: Vec<ModelEntry>,
    pub default_model: Option<String>,
}

/// One model that a provider offers.
#[derive(Debug)]
pub struct ModelEntry {
    pub id: String,
    pub description: Option<String>,
}

/// The URL of the upstream endpoint `path` under the base URL `base`: the
/// base without its trailing slashes, then the path.
pub open spec fn endpoint_url(base: Seq<char>, path: Seq<char>) -> Seq<char> {
    trim_trailing(base, '/') + path
}

/// The text of `base` without its trailing slashes, followed by `path`.
fn join_endpoint(base: &str, path: &str) -> (r: String)
    ensures
        r@ == endpoint_url(base@, path@),
{
    let trimmed = trim_end_char(base, '/');
    let mut out = trimmed.to_owned();
    out.append(path);
    out
}

impl BridgeConfig {
    /// The upstream chat completions endpoint URL.
    pub fn chat_completions_url(&self) -> (r: String)
        ensures
            r@ == endpoint_url(self.upstream_url@, "/chat/completions"@),
    {
        join_endpoint(self.upstream_url.as_str(), "/chat/completions")
    }

    /// The upstream models endpoint URL.
    pub fn models_url(&self) -> (r: String)
        ensures
            r@ == endpoint_url(self.upstream_url@, "/models"@),
    {
        join_endpoint(self.upstream_url.as_str(), "/models")
    }
}

/// `n` slashes.
pub open spec fn slashes(n: nat) -> Seq<char>
    decreases n,
{
    if n == 0 {
        Seq::empty()
    } else {
        slashes((n - 1) as nat).push('/')
    }
}

/// Trailing slashes on the upstream base URL do not change any endpoint:
/// a base followed by any number of slashes gives the same URL as the base.
pub proof fn law_trailing_slashes_ignored(base: Seq<char>, n: nat, path: Seq<char>)
    ensures
        endpoint_url(base + slashes(n), path) == endpoint_url(base, path),
    decreases n,
{
    if n > 0 {
        assert((base + slashes(n)).drop_last() =~= base + slashes((n - 1) as nat));
        law_trailing_slashes_ignored(base, (n - 1) as nat, path);
    } else {
        assert(base + slashes(n) =~= base);
    }
}

} // verus!
