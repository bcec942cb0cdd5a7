use bizclaw_brain::sandbox::{Sandbox, SandboxConfig};
use bizclaw_brain::agent::{
    available_providers, estimate_tokens, format_response, needs_compaction, FunctionCall, Message, ProviderResponse,
    ToolCall,
};
use bizclaw_brain::grammar::{JsonGrammar, JsonState};
use bizclaw_brain::zalo::ZaloServiceMap;

fn call(name: &str) -> ToolCall {
    ToolCall { id: "1".into(), function: FunctionCall { name: name.into(), arguments: "{}".into() } }
}

#[test]
fn responses_format() {
    let r = ProviderResponse { content: Some("hi".into()), tool_calls: vec![] };
    assert_eq!(format_response(&r), "hi");
    let r = ProviderResponse { content: None, tool_calls: vec![call("search"), call("read")] };
    assert_eq!(format_response(&r), "[Calling tools: search, read]");
    let r = ProviderResponse { content: None, tool_calls: vec![] };
    assert_eq!(format_response(&r), "[No response]");
}

#[test]
fn token_estimates() {
    let m = |c: &str| Message { role: "user".into(), content: c.into() };
    let ms = vec![m("12345678"), m("abc")];
    assert_eq!(estimate_tokens(&ms), 2 + 5 + 5);
    assert!(needs_compaction(&ms, 11));
    assert!(!needs_compaction(&ms, 12));
    assert_eq!(estimate_tokens(&[]), 0);
}

#[test]
fn providers_listed() {
    let p = available_providers();
    assert_eq!(p.len(), 10);
    assert_eq!(p[0], "openai");
    assert_eq!(p[9], "custom");
}

#[test]
fn grammar_states() {
    let mut g = JsonGrammar::new();
    assert!(!g.active);
    assert!(g.is_valid_char('x'));
    g.enable();
    assert!(g.is_valid_char('{'));
    assert!(g.is_valid_char('7'));
    assert!(!g.is_valid_char('x'));
    assert!(!g.is_complete());
    g.state = JsonState::InNumber;
    assert!(g.is_valid_char('e'));
    assert!(!g.is_valid_char('}'));
    assert!(g.is_complete());
    g.state = JsonState::Done;
    assert!(!g.is_valid_char('a'));
    g.reset();
    assert_eq!(g.state, JsonState::Start);
    assert!(g.active);
}

#[test]
fn service_map_urls() {
    let mut m = ZaloServiceMap {
        chat: vec![],
        group: vec!["https://g1".into(), "https://g2".into()],
        group_poll: vec![],
        file: vec![],
        friend: vec![],
        profile: vec!["https://p".into()],
        sticker: vec![],
        reaction: vec![],
        conversation: vec![],
    };
    assert_eq!(m.chat_url(), "https://wpa.chat.zalo.me");
    assert_eq!(m.group_url(), "https://g1");
    assert_eq!(m.profile_url(), "https://p");
    assert_eq!(m.friend_url(), "https://wpa.chat.zalo.me");
    m.reaction.push("https://r".into());
    assert_eq!(m.reaction_url(), "https://r");
    assert_eq!(m.group_poll_url(), "https://wpa.chat.zalo.me");
}

#[test]
fn sandbox_defaults() {
    let s = Sandbox::new();
    assert_eq!(s.config.timeout_secs, 30);
    assert_eq!(s.config.max_output_bytes, 1024 * 1024);
    assert_eq!(s.config.env_passthrough, vec!["PATH", "HOME", "USER"]);
    let mut c = SandboxConfig::standard();
    c.isolate_fs = true;
    assert!(Sandbox::with_config(c).config.isolate_fs);
}
