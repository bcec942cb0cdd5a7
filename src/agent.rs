//! Agent-side helpers around provider replies and conversation length.
use vstd::prelude::*;
use vstd::utf8::encode_utf8;

verus! {

/// A chat message.
#[derive(Debug, Clone)]
pub struct Message {
    pub role: String,
    pub content: String,
}

/// The function a tool call names.
#[derive(Debug, Clone)]
pub struct FunctionCall {
    pub name: String,
    pub arguments: String,
}

/// A tool call requested by a provider.
#[derive(Debug, Clone)]
pub struct ToolCall {
    pub id: String,
    pub function: FunctionCall,
}

/// A provider's reply: text, tool calls, or neither.
#[derive(Debug, Clone)]
pub struct ProviderResponse {
    pub content: Option<String>,
    pub tool_calls: Vec<ToolCall>,
}

/// Relies on `String::push_str`: the slice is appended at the end.
#[verifier::external_body]
fn append(s: &mut String, t: &str)
    ensures
        final(s)@ == old(s)@ + t@,
{
    s.push_str(t)
}

/// Tool names joined by `", "`.
pub open spec fn joined_names(calls: Seq<ToolCall>) -> Seq<char>
    decreases calls.len(),
{
    if calls.len() == 0 {
        Seq::empty()
    } else if calls.len() == 1 {
        calls[0].function.name@
    } else {
        joined_names(calls.drop_last()) + ", "@ + calls.last().function.name@
    }
}

/// The display text of a reply.
pub open spec fn response_text(r: ProviderResponse) -> Seq<char> {
    match r.content {
        Some(c) => c@,
        None => if r.tool_calls@.len() > 0 {
            "[Calling tools: "@ + joined_names(r.tool_calls@) + "]"@
        } else {
            "[No response]"@
        },
    }
}

/// Format a provider response for display.
pub fn format_response(response: &ProviderResponse) -> (r: String)
    ensures
        r@ == response_text(*response),
{
    match &response.content {
        Some(content) => content.clone(),
        None => {
            if response.tool_calls.len() == 0 {
                return "[No response]".to_owned();
            }
            let mut s = "[Calling tools: ".to_owned();
            let ghost head = s@;
            let mut i: usize = 0;
            while i < response.tool_calls.len()
                invariant
                    i <= response.tool_calls@.len(),
                    s@ == head + joined_names(response.tool_calls@.subrange(0, i as int)),
                decreases response.tool_calls@.len() - i,
            {
                let ghost sub = response.tool_calls@.subrange(0, i + 1);
                assert(sub.drop_last() == response.tool_calls@.subrange(0, i as int));
                if i > 0 {
                    append(&mut s, ", ");
                }
                append(&mut s, response.tool_calls[i].function.name.as_str());
                i += 1;
            }
            assert(response.tool_calls@.subrange(0, response.tool_calls@.len() as int) == response.tool_calls@);
            append(&mut s, "]");
            s
        },
    }
}

/// Rough token count of one message: a token per four bytes, plus five.
pub open spec fn message_tokens(m: Message) -> int {
    encode_utf8(m.content@).len() as int / 4 + 5
}

/// Rough token count of a conversation.
pub open spec fn conversation_tokens(ms: Seq<Message>) -> int
    decreases ms.len(),
{
    if ms.len() == 0 {
        0
    } else {
        conversation_tokens(ms.drop_last()) + message_tokens(ms.last())
    }
}

/// Estimate the token count of a message list (4 bytes ≈ 1 token, plus 5 per
/// message), saturating at `usize::MAX`.
pub fn estimate_tokens(messages: &[Message]) -> (r: usize)
    ensures
        r == if conversation_tokens(messages@) > usize::MAX { usize::MAX as int } else { conversation_tokens(messages@) },
{
    let mut total: usize = 0;
    let mut i: usize = 0;
    while i < messages.len()
        invariant
            i <= messages@.len(),
            total == if conversation_tokens(messages@.subrange(0, i as int)) > usize::MAX {
                usize::MAX as int
            } else {
                conversation_tokens(messages@.subrange(0, i as int))
            },
        decreases messages@.len() - i,
    {
        assert(messages@.subrange(0, i + 1).drop_last() == messages@.subrange(0, i as int));
        proof { lemma_conversation_nonneg(messages@.subrange(0, i as int)); }
        let text = messages[i].content.as_str();
        let len = text.as_bytes().len();
        let n = len / 4 + 5;
        assert(n == message_tokens(messages@[i as int]));
        assert(conversation_tokens(messages@.subrange(0, i + 1))
            == conversation_tokens(messages@.subrange(0, i as int)) + n);
        total = if total > usize::MAX - n { usize::MAX } else { total + n };
        i += 1;
    }
    assert(messages@.subrange(0, messages@.len() as int) == messages@);
    total
}

proof fn lemma_conversation_nonneg(ms: Seq<Message>)
    ensures
        conversation_tokens(ms) >= 0,
    decreases ms.len(),
{
    if ms.len() > 0 {
        lemma_conversation_nonneg(ms.drop_last());
    }
}

/// Check if a conversation needs compaction: its estimate exceeds `max_tokens`.
pub fn needs_compaction(messages: &[Message], max_tokens: usize) -> (r: bool)
    ensures
        r == ((if conversation_tokens(messages@) > usize::MAX { usize::MAX as int } else {
            conversation_tokens(messages@)
        }) > max_tokens),
{
    proof { lemma_conversation_nonneg(messages@); }
    estimate_tokens(messages) > max_tokens
}

/// Names of the providers that can be configured.
pub fn available_providers() -> (r: Vec<&'static str>)
    ensures
        r@.len() == 10,
        r@[0]@ == "openai"@ && r@[1]@ == "anthropic"@ && r@[2]@ == "ollama"@ && r@[3]@ == "llamacpp"@
            && r@[4]@ == "brain"@ && r@[5]@ == "gemini"@ && r@[6]@ == "deepseek"@ && r@[7]@ == "groq"@
            && r@[8]@ == "openrouter"@ && r@[9]@ == "custom"@,
{
    vec!["openai", "anthropic", "ollama", "llamacpp", "brain", "gemini", "deepseek", "groq", "openrouter", "custom"]
}

} // verus!
