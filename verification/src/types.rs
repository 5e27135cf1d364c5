//! Shared data types of the gateway library.
//!
//! The routing types (`Provider`, `RouteTarget`) carry the result of a
//! routing-table lookup; the request and record types are plain data
//! that the surrounding application exchanges with its callers.

use vstd::prelude::*;
use vstd::string::*;

verus! {

/// Role of a message in a chat conversation.
#[derive(Debug, Clone, Copy, PartialEq, Eq, Structural)]
pub enum MessageRole {
    /// System messages (prompts, instructions).
    System,
    /// User messages (human input).
    User,
    /// Assistant messages (model responses).
    Assistant,
}

/// A single message in a chat conversation.
#[derive(Debug, Clone)]
pub struct ChatMessage {
    /// Who sent the message.
    pub role: MessageRole,
    /// Text content of the message.
    pub content: String,
}

/// Operation kinds the gateway routes.
#[derive(Debug, Clone, Copy, PartialEq, Eq, Structural)]
pub enum Operation {
    /// Chat-based conversational requests.
    Chat,
    /// Fill-in-middle code completion requests.
    Fim,
}

/// Upstream model providers known to the router.
#[derive(Debug, Clone, Copy, PartialEq, Eq, Structural)]
pub enum Provider {
    /// Cloudflare Workers AI.
    Cloudflare,
    /// Mistral AI.
    Mistral,
    /// OpenAI. Also the default for unrecognized provider strings.
    OpenAI,
    /// xAI.
    Xai,
    /// Groq.
    Groq,
    /// OpenRouter.
    OpenRouter,
    /// Meta.
    Meta,
    /// Anthropic.
    Anthropic,
}

/// Where a resolved request should be sent: a provider and one of its
/// models.
#[derive(Debug, Clone)]
pub struct RouteTarget {
    /// The provider to call.
    pub provider: Provider,
    /// The model name at that provider.
    pub model: String,
}

impl View for RouteTarget {
    type V = (Provider, Seq<char>);

    open spec fn view(&self) -> (Provider, Seq<char>) {
        (self.provider, self.model@)
    }
}

/// Metadata of an uploaded file attached to a request.
#[derive(Debug, Clone)]
pub struct Attachment {
    /// Original filename of the uploaded file.
    pub name: String,
    /// URL or data URI containing the file content.
    pub url: String,
    /// MIME type of the file content.
    pub content_type: String,
    /// File size in bytes, when known.
    pub size: Option<u64>,
}

/// Payload for registering a new user account.
#[derive(Debug, Clone)]
pub struct CreateUserRequest {
    /// The account's email address.
    pub email: String,
    /// The plain-text password; the application hashes it before storage.
    pub password: String,
    /// Optional subscription tier; the application defaults it.
    pub subscription_tier: Option<String>,
}

/// Payload for logging an existing user in.
#[derive(Debug, Clone)]
pub struct LoginRequest {
    /// The registered email address.
    pub email: String,
    /// The password to check against the stored hash.
    pub password: String,
}

/// Claims carried in a session token.
#[derive(Debug, Clone)]
pub struct Claims {
    /// Unique user identifier.
    pub user_id: String,
    /// The user's email address.
    pub email: String,
    /// Token type identifier.
    pub token_type: String,
    /// Issued-at timestamp, in seconds since the Unix epoch.
    pub iat: i64,
    /// Expiration timestamp, in seconds since the Unix epoch.
    pub exp: i64,
}

/// Record of one stored chat message, as handed to the persistence layer.
#[derive(Debug, Clone)]
pub struct MessageEvent {
    /// Request this message belongs to.
    pub request_id: String,
    /// Chat this message belongs to, when known.
    pub chat_id: Option<String>,
    /// User who sent or received the message, when known.
    pub user_id: Option<String>,
    /// One of "user", "assistant" or "system".
    pub message_type: String,
    /// Text content of the message.
    pub content: String,
    /// Provider that produced the message, for assistant messages.
    pub provider: Option<String>,
    /// Model that produced the message, for assistant messages.
    pub model: Option<String>,
    /// Token count of the message, when known.
    pub token_count: Option<u32>,
    /// Creation timestamp in milliseconds since the Unix epoch.
    pub created_at: Option<i64>,
    /// Files attached to the message.
    pub attachments: Option<Vec<Attachment>>,
}

/// A user account as handed to the persistence layer.
#[derive(Debug, Clone)]
pub struct UserAccount {
    /// The account's email address.
    pub email: String,
    /// Hash of the account's password.
    pub password_hash: String,
    /// The account's subscription tier.
    pub subscription_tier: String,
    /// API key issued to the account.
    pub api_key: String,
    /// Whether the account is enabled.
    pub is_active: bool,
}

/// Uniform wrapper for API responses: a status string, and either a data
/// payload or an error message.
#[derive(Debug, Clone)]
pub struct ApiResponse<T> {
    /// "success" or "error".
    pub status: String,
    /// The payload, present on success.
    pub data: Option<T>,
    /// An optional informational message.
    pub message: Option<String>,
    /// The error message, present on error.
    pub error: Option<String>,
}

impl<T> ApiResponse<T> {
    /// A successful response carrying `data`.
    pub fn success(data: T) -> (r: Self)
        ensures
            r.status@ == "success"@,
            r.data is Some,
            r.data->Some_0 == data,
            r.message is None,
            r.error is None,
    {
        Self {
            status: String::from_str("success"),
            data: Some(data),
            message: None,
            error: None,
        }
    }

    /// An error response carrying `message`.
    pub fn error(message: String) -> (r: Self)
        ensures
            r.status@ == "error"@,
            r.data is None,
            r.message is None,
            r.error is Some,
            r.error->Some_0 == message,
    {
        Self {
            status: String::from_str("error"),
            data: None,
            message: None,
            error: Some(message),
        }
    }
}

} // verus!
