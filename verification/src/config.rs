//! Configuration data model, and the comma-separated-value parser.
//!
//! The application shell reads environment variables and fills these
//! structures; the library only defines their shape and verifies the
//! one piece of parsing logic, `parse_csv`.

use vstd::prelude::*;
use vstd::string::*;

use crate::strutil::{find_in, index_of_first, lemma_index_of_first, trim_in, trim_spec};

verus! {

broadcast use lemma_index_of_first;

/// The list of comma-separated items of `s`, each trimmed, with empty
/// items dropped.
pub open spec fn csv_spec(s: Seq<char>) -> Seq<Seq<char>>
    decreases s.len(),
{
    match index_of_first(s, ',') {
        None => {
            if trim_spec(s).len() == 0 {
                Seq::empty()
            } else {
                seq![trim_spec(s)]
            }
        },
        Some(i) => {
            let head = trim_spec(s.subrange(0, i));
            let rest = csv_spec(s.subrange(i + 1, s.len() as int));
            if head.len() == 0 {
                rest
            } else {
                seq![head] + rest
            }
        },
    }
}

/// Split a comma-separated value into its trimmed, non-empty items.
pub fn parse_csv(value: Option<&str>) -> (r: Vec<String>)
    ensures
        match value {
            Some(s) => r.deep_view() == csv_spec(s@),
            None => r.deep_view() == Seq::<Seq<char>>::empty(),
        },
{
    match value {
        Some(s) => parse_csv_str(s),
        None => {
            let items: Vec<String> = Vec::new();
            proof {
                assert(items.deep_view() =~= Seq::<Seq<char>>::empty());
            }
            items
        },
    }
}

/// Split a comma-separated string into its trimmed, non-empty items.
pub fn parse_csv_str(s: &str) -> (r: Vec<String>)
    ensures
        r.deep_view() == csv_spec(s@),
{
    let mut items: Vec<String> = Vec::new();
    let n = s.unicode_len();
    let mut pos: usize = 0;
    proof {
        assert(s@.subrange(0, n as int) =~= s@);
        assert(items.deep_view() =~= Seq::<Seq<char>>::empty());
    }
    loop
        invariant
            pos <= n,
            n == s@.len(),
            csv_spec(s@) =~= items.deep_view() + csv_spec(
                s@.subrange(pos as int, n as int),
            ),
        decreases n - pos,
    {
        let ghost remaining = s@.subrange(pos as int, n as int);
        let ghost old_items = items.deep_view();
        let (hi, next, done) = match find_in(s, pos, n, ',') {
            Some(i) => (i, i + 1, false),
            None => (n, n, true),
        };
        proof {
            if !done {
                assert(remaining[hi - pos as int] == ',');
                assert forall|k: int| 0 <= k < hi - pos as int implies remaining[k]
                    != ',' by {
                    assert(remaining[k] == s@[pos + k]);
                }
                assert(index_of_first(remaining, ',') == Some(hi - pos as int));
            } else {
                assert forall|k: int| 0 <= k < remaining.len() implies remaining[k]
                    != ',' by {
                    assert(remaining[k] == s@[pos + k]);
                }
                assert(index_of_first(remaining, ',') is None);
            }
            assert(remaining.subrange(0, hi - pos as int) =~= s@.subrange(
                pos as int,
                hi as int,
            ));
        }
        let (a, b) = trim_in(s, pos, hi);
        let ghost head = trim_spec(s@.subrange(pos as int, hi as int));
        if b > a {
            let item = String::from_str(s.substring_char(a, b));
            items.push(item);
            proof {
                assert(item@ == head);
                assert(items.deep_view() =~= old_items + seq![head]);
            }
        } else {
            proof {
                assert(head.len() == 0);
                assert(items.deep_view() =~= old_items);
            }
        }
        if done {
            proof {
                assert(csv_spec(remaining) =~= if head.len() == 0 {
                    Seq::<Seq<char>>::empty()
                } else {
                    seq![head]
                });
                assert(csv_spec(s@) =~= items.deep_view());
            }
            return items;
        }
        proof {
            assert(remaining.subrange(
                hi - pos as int + 1,
                remaining.len() as int,
            ) =~= s@.subrange(next as int, n as int));
            assert(csv_spec(remaining) =~= if head.len() == 0 {
                csv_spec(s@.subrange(next as int, n as int))
            } else {
                seq![head] + csv_spec(s@.subrange(next as int, n as int))
            });
            assert(csv_spec(s@) =~= items.deep_view() + csv_spec(
                s@.subrange(next as int, n as int),
            ));
        }
        pos = next;
    }
}

/// Clerk authentication settings.
#[derive(Debug, Clone)]
pub struct ClerkConfig {
    /// Secret key for token verification; empty when unused.
    pub secret_key: String,
}

/// Cloudflare Workers AI settings.
#[derive(Debug, Clone)]
pub struct CloudflareConfig {
    /// Cloudflare account identifier.
    pub account_id: String,
    /// API token for Cloudflare API access.
    pub api_token: String,
    /// Base URL of the Cloudflare API.
    pub base_url: String,
}

/// Mistral AI settings.
#[derive(Debug, Clone)]
pub struct MistralConfig {
    /// API key for authentication.
    pub api_key: String,
    /// Base URL of the Mistral API.
    pub base_url: String,
}

/// OpenAI settings.
#[derive(Debug, Clone)]
pub struct OpenAiConfig {
    /// API key for authentication.
    pub api_key: String,
    /// Base URL of the OpenAI API.
    pub base_url: String,
}

/// xAI settings.
#[derive(Debug, Clone)]
pub struct XaiConfig {
    /// API key for authentication.
    pub api_key: String,
    /// Base URL of the xAI API.
    pub base_url: String,
}

/// Groq settings.
#[derive(Debug, Clone)]
pub struct GroqConfig {
    /// API key for authentication.
    pub api_key: String,
    /// Base URL of the Groq API.
    pub base_url: String,
}

/// OpenRouter settings.
#[derive(Debug, Clone)]
pub struct OpenRouterConfig {
    /// API key for authentication.
    pub api_key: String,
    /// Base URL of the OpenRouter API.
    pub base_url: String,
}

/// Meta AI settings.
#[derive(Debug, Clone)]
pub struct MetaConfig {
    /// API key for authentication.
    pub api_key: String,
    /// Base URL of the Meta AI API.
    pub base_url: String,
}

/// Anthropic settings.
#[derive(Debug, Clone)]
pub struct AnthropicConfig {
    /// API key for authentication.
    pub api_key: String,
    /// Base URL of the Anthropic API.
    pub base_url: String,
    /// API version string.
    pub version: String,
}

/// Convex database settings.
#[derive(Debug, Clone)]
pub struct ConvexConfig {
    /// Deployment URL for database access.
    pub url: String,
    /// Whether the database integration is enabled.
    pub enabled: bool,
}

/// Tavily search settings.
#[derive(Debug, Clone)]
pub struct TavilyConfig {
    /// API key for search requests.
    pub api_key: String,
    /// Base URL of the Tavily API.
    pub base_url: String,
}

/// Brave search settings.
#[derive(Debug, Clone)]
pub struct BraveConfig {
    /// API key for search requests.
    pub api_key: String,
    /// Base URL of the Brave Search API.
    pub base_url: String,
}

/// SearXNG search settings.
#[derive(Debug, Clone)]
pub struct SearxngConfig {
    /// Base URL of the SearXNG instance.
    pub base_url: String,
    /// Whether the SearXNG integration is enabled.
    pub enabled: bool,
}

/// Web search settings.
#[derive(Debug, Clone)]
pub struct SearchConfig {
    /// Whether internet search is enabled at all.
    pub enabled: bool,
    /// How long search results are cached, in seconds.
    pub cache_duration: u64,
    /// Tavily settings.
    pub tavily: TavilyConfig,
    /// Brave settings.
    pub brave: BraveConfig,
    /// SearXNG settings.
    pub searxng: SearxngConfig,
}

/// Complete application configuration. The application shell fills this
/// from its environment; the library only consumes `routes_raw` (through
/// the routing-table builder).
#[derive(Debug, Clone)]
pub struct Config {
    /// HTTP server bind address, as host:port.
    pub bind_address: String,
    /// Maximum JSON request body size in bytes.
    pub json_limit: usize,
    /// Allowed CORS origins.
    pub allowed_origins: Vec<String>,
    /// Whether to use the AI SDK compatibility mode.
    pub use_ai_sdk: bool,
    /// Whether authentication is required for all requests.
    pub auth_required: bool,
    /// System prompt prepended to conversations.
    pub system_prompt: String,
    /// Whether to inject the system prompt into fill-in-middle requests.
    pub fim_inject_system: bool,
    /// Raw routing configuration string.
    pub routes_raw: String,
    /// Secret for session-token signing, when configured.
    pub action_token_secret: Option<String>,
    /// Clerk settings.
    pub clerk: ClerkConfig,
    /// Cloudflare settings.
    pub cloudflare: CloudflareConfig,
    /// Mistral settings.
    pub mistral: MistralConfig,
    /// OpenAI settings.
    pub openai: OpenAiConfig,
    /// xAI settings.
    pub xai: XaiConfig,
    /// Groq settings.
    pub groq: GroqConfig,
    /// OpenRouter settings.
    pub openrouter: OpenRouterConfig,
    /// Meta settings.
    pub meta: MetaConfig,
    /// Anthropic settings.
    pub anthropic: AnthropicConfig,
    /// Convex settings.
    pub convex: ConvexConfig,
    /// Search settings.
    pub search: SearchConfig,
}

} // verus!
