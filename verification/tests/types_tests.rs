use rust_ai::types::{ApiResponse, Attachment, ChatMessage, MessageRole, Provider, RouteTarget};

#[test]
fn types_test_route_target_creation() {
    let route = RouteTarget {
        provider: Provider::OpenAI,
        model: "gpt-4o-mini".to_string(),
    };

    assert_eq!(route.provider, Provider::OpenAI);
    assert_eq!(route.model, "gpt-4o-mini");
}

#[test]
fn test_chat_message_creation() {
    let message = ChatMessage {
        role: MessageRole::User,
        content: "Hello, AI!".to_string(),
    };

    assert_eq!(message.role, MessageRole::User);
    assert_eq!(message.content, "Hello, AI!");
}

#[test]
fn test_attachment_creation() {
    let attachment = Attachment {
        name: "test.txt".to_string(),
        url: "data:text/plain;base64,SGVsbG8gV29ybGQ=".to_string(),
        content_type: "text/plain".to_string(),
        size: Some(11),
    };

    assert_eq!(attachment.name, "test.txt");
    assert_eq!(attachment.content_type, "text/plain");
    assert!(attachment.url.contains("SGVsbG8gV29ybGQ="));
}

#[test]
fn test_api_response_error() {
    let response = ApiResponse::<()>::error("Something went wrong".to_string());

    assert_eq!(response.status, "error");
    assert!(response.data.is_none());
    assert!(response.message.is_none());
    assert_eq!(response.error.as_ref().unwrap(), "Something went wrong");
}

#[test]
fn test_api_response_success_fields() {
    let response = ApiResponse::success(42u32);

    assert_eq!(response.status, "success");
    assert_eq!(response.data, Some(42));
    assert!(response.message.is_none());
    assert!(response.error.is_none());
}
