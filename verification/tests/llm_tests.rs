use open_agent::auth::{constant_time_eq, verify_token_for_config, AuthMode, AuthUser, TokenCheck};
use open_agent::library::{GitAuthor, LibraryStore, PullError};
use open_agent::llm::{
    ChatMessage, ContentPart, ImageUrl, MessageContent, ReasoningContent, Role, TokenUsage,
};
use open_agent::text::{chars_of, join_path, lex_le_exec, split_on_exec, string_of, trim_str};
use open_agent::tools::{DeleteFile, FetchUrl, ReadFile, WebSearch, WriteFile};

#[test]
fn content_parts() {
    assert_eq!(ContentPart::text("hi"), ContentPart::Text { text: "hi".to_string() });
    assert_eq!(
        ContentPart::image_url("http://i"),
        ContentPart::ImageUrl { image_url: ImageUrl { url: "http://i".to_string(), detail: None } }
    );
    assert_eq!(
        ContentPart::image_url_with_detail("http://i", "low"),
        ContentPart::ImageUrl {
            image_url: ImageUrl { url: "http://i".to_string(), detail: Some("low".to_string()) }
        }
    );
}

#[test]
fn text_of_a_content() {
    assert_eq!(MessageContent::text("hi").as_text(), Some("hi"));
    assert_eq!(MessageContent::text_and_image("look", "http://i").as_text(), Some("look"));
    let parts = vec![ContentPart::image_url("a"), ContentPart::text("t1"), ContentPart::text("t2")];
    assert_eq!(MessageContent::multimodal(parts).as_text(), Some("t1"));
    assert_eq!(MessageContent::multimodal(vec![ContentPart::image_url("a")]).as_text(), None);
    assert_eq!(MessageContent::multimodal(vec![]).as_text(), None);
}

#[test]
fn messages() {
    let m = ChatMessage::new(Role::User, "hello");
    assert_eq!(m.role, Role::User);
    assert_eq!(m.text_content(), Some("hello"));
    assert!(m.tool_calls.is_none() && m.tool_call_id.is_none() && m.reasoning.is_none());
    let i = ChatMessage::with_image(Role::Assistant, "see", "http://i");
    assert_eq!(i.text_content(), Some("see"));
    let empty = ChatMessage { content: None, ..m.clone() };
    assert_eq!(empty.text_content(), None);
}

#[test]
fn reasoning_is_kept_where_it_is_signed() {
    let plain = ReasoningContent { content: Some("x".to_string()), thought_signature: None, reasoning_type: None };
    let signed = ReasoningContent { thought_signature: Some("sig".to_string()), ..plain.clone() };
    assert!(!plain.needs_preservation());
    assert!(signed.needs_preservation());
    let m = ChatMessage::new(Role::Assistant, "a");
    assert!(!m.has_reasoning());
    let unchanged = m.clone().with_reasoning(vec![]);
    assert_eq!(unchanged.reasoning, None);
    let with_plain = m.clone().with_reasoning(vec![plain.clone()]);
    assert_eq!(with_plain.reasoning, Some(vec![plain.clone()]));
    assert!(!with_plain.has_reasoning());
    let with_signed = m.with_reasoning(vec![plain, signed]);
    assert!(with_signed.has_reasoning());
}

#[test]
fn token_usage_adds_up() {
    assert_eq!(TokenUsage::new(10, 5).total_tokens, 15);
    assert_eq!(TokenUsage::new(u64::MAX, 5).total_tokens, u64::MAX);
    assert_eq!(TokenUsage::new(0, 0).total_tokens, 0);
}

#[test]
fn passwords_are_compared() {
    assert!(constant_time_eq(b"secret", b"secret"));
    assert!(!constant_time_eq(b"secret", b"secreT"));
    assert!(!constant_time_eq(b"secret", b"secret1"));
    assert!(constant_time_eq(b"", b""));
}

#[test]
fn tokens_open_the_door() {
    let valid = TokenCheck::Valid { user_known: true };
    let stranger = TokenCheck::Valid { user_known: false };
    assert!(verify_token_for_config(false, false, AuthMode::Disabled, TokenCheck::Invalid));
    assert!(!verify_token_for_config(true, false, AuthMode::SingleTenant, valid));
    assert!(!verify_token_for_config(true, true, AuthMode::SingleTenant, TokenCheck::Invalid));
    assert!(verify_token_for_config(true, true, AuthMode::SingleTenant, stranger));
    assert!(!verify_token_for_config(true, true, AuthMode::MultiUser, stranger));
    assert!(verify_token_for_config(true, true, AuthMode::MultiUser, valid));
    let user = AuthUser { id: "default".to_string(), username: "default".to_string() };
    assert_eq!(user.clone(), user);
}

#[test]
fn library_records() {
    let author = GitAuthor::new(Some("A".to_string()), None);
    assert_eq!(author.name, Some("A".to_string()));
    assert_eq!(author.email, None);
    let store = LibraryStore::at("/lib", "git@example.com:skills.git");
    assert_eq!(store.path(), "/lib");
    assert_eq!(store.remote(), "git@example.com:skills.git");
    assert_eq!(
        PullError::DivergedHistory { message: "forced".to_string() }.message(),
        "Diverged history: forced"
    );
    assert_eq!(PullError::Other("boom".to_string()).message(), "boom");
}

#[test]
fn tools_have_names() {
    assert_eq!(ReadFile.name(), "read_file");
    assert_eq!(WriteFile.name(), "write_file");
    assert_eq!(DeleteFile.name(), "delete_file");
    assert_eq!(WebSearch.name(), "web_search");
    assert_eq!(FetchUrl.name(), "fetch_url");
}

#[test]
fn text_helpers() {
    let v = chars_of("héllo");
    assert_eq!(v.len(), 5);
    assert_eq!(string_of(&v), "héllo");
    assert_eq!(trim_str("  a b \n"), "a b");
    assert_eq!(trim_str("\u{3000}x\u{a0}"), "x");
    let parts: Vec<String> = split_on_exec(&chars_of("a,,b,"), ',').iter().map(string_of).collect();
    assert_eq!(parts, vec!["a", "", "b", ""]);
    assert_eq!(join_path("/a", "b"), "/a/b");
    assert_eq!(join_path("/a/", "b"), "/a/b");
    assert_eq!(join_path("/a", "/b"), "/b");
    assert_eq!(join_path("", "b"), "b");
    assert!(lex_le_exec(&chars_of("abc"), &chars_of("abd")));
    assert!(lex_le_exec(&chars_of("ab"), &chars_of("abc")));
    assert!(!lex_le_exec(&chars_of("b"), &chars_of("abc")));
    assert!(lex_le_exec(&chars_of(""), &chars_of("")));
}
