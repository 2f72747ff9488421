//! Conversation messages and their content blocks.
use vstd::prelude::*;

use std::time::Instant;

use crate::text::owned;

verus! {

#[verifier::external_type_specification]
#[verifier::external_body]
pub struct ExInstant(std::time::Instant);

/// The current instant.
/// Trusted: `Instant::now`; nothing is promised of the value, which the
/// clock decides.
#[verifier::external_body]
pub(crate) fn instant_now() -> (r: Instant) {
    Instant::now()
}

/// Whole seconds elapsed since an instant.
/// Trusted: `Instant::elapsed` then `Duration::as_secs`; nothing is promised
/// of the value, which the clock decides.
#[verifier::external_body]
pub(crate) fn elapsed_secs(t: &Instant) -> (r: u64) {
    t.elapsed().as_secs()
}

/// Who a message is from.
#[derive(Debug, Clone, Copy, PartialEq, Eq, Structural)]
pub enum MessageRole {
    System,
    User,
    Assistant,
    Tool,
}

/// Token counts a provider reports for one response.
#[derive(Debug, Clone, Copy, PartialEq, Eq, Structural, Default)]
pub struct TokenUsage {
    pub input_tokens: u32,
    pub output_tokens: u32,
    pub cache_creation_input_tokens: u32,
    pub cache_read_input_tokens: u32,
}

/// One block of message content.
#[derive(Debug, Clone, PartialEq, Eq)]
pub enum ContentBlock {
    Text { text: String },
    ToolUse { id: String, name: String, input: String },
    ToolResult { tool_use_id: String, tool_name: String, output: String, is_error: bool },
    Thinking { thinking: String, signature: Option<String> },
}

/// A message of the conversation.
#[derive(Debug)]
pub struct ConversationMessage {
    pub role: MessageRole,
    pub blocks: Vec<ContentBlock>,
    pub usage: Option<TokenUsage>,
    pub created_at: Instant,
}

pub(crate) fn copy_option_string(o: &Option<String>) -> (r: Option<String>)
    ensures
        r == *o,
{
    match o {
        Some(s) => Some(s.clone()),
        None => None,
    }
}

/// An exact copy of a block.
pub fn copy_block(b: &ContentBlock) -> (r: ContentBlock)
    ensures
        r == *b,
{
    match b {
        ContentBlock::Text { text } => ContentBlock::Text { text: text.clone() },
        ContentBlock::ToolUse { id, name, input } => ContentBlock::ToolUse {
            id: id.clone(),
            name: name.clone(),
            input: input.clone(),
        },
        ContentBlock::ToolResult { tool_use_id, tool_name, output, is_error } => ContentBlock::ToolResult {
            tool_use_id: tool_use_id.clone(),
            tool_name: tool_name.clone(),
            output: output.clone(),
            is_error: *is_error,
        },
        ContentBlock::Thinking { thinking, signature } => ContentBlock::Thinking {
            thinking: thinking.clone(),
            signature: copy_option_string(signature),
        },
    }
}

/// An exact copy of a list of blocks.
pub fn copy_blocks(v: &Vec<ContentBlock>) -> (r: Vec<ContentBlock>)
    ensures
        r@ == v@,
{
    let mut r: Vec<ContentBlock> = Vec::new();
    let mut i: usize = 0;
    while i < v.len()
        invariant
            i <= v.len(),
            r@ == v@.take(i as int),
        decreases v.len() - i,
    {
        r.push(copy_block(&v[i]));
        i += 1;
        assert(r@ =~= v@.take(i as int));
    }
    assert(v@.take(v.len() as int) =~= v@);
    r
}

impl ConversationMessage {
    pub fn user_text(text: &str) -> (r: Self)
        ensures
            r.role == MessageRole::User,
            r.blocks@.len() == 1,
            r.blocks@[0] matches ContentBlock::Text { text: t } && t@ == text@,
            r.usage is None,
    {
        let mut blocks: Vec<ContentBlock> = Vec::new();
        blocks.push(ContentBlock::Text { text: owned(text) });
        ConversationMessage { role: MessageRole::User, blocks, usage: None, created_at: instant_now() }
    }

    pub fn system_text(text: &str) -> (r: Self)
        ensures
            r.role == MessageRole::System,
            r.blocks@.len() == 1,
            r.blocks@[0] matches ContentBlock::Text { text: t } && t@ == text@,
            r.usage is None,
    {
        let mut blocks: Vec<ContentBlock> = Vec::new();
        blocks.push(ContentBlock::Text { text: owned(text) });
        ConversationMessage { role: MessageRole::System, blocks, usage: None, created_at: instant_now() }
    }

    pub fn assistant(blocks: Vec<ContentBlock>) -> (r: Self)
        ensures
            r.role == MessageRole::Assistant,
            r.blocks == blocks,
            r.usage is None,
    {
        ConversationMessage { role: MessageRole::Assistant, blocks, usage: None, created_at: instant_now() }
    }

    pub fn assistant_with_usage(blocks: Vec<ContentBlock>, usage: Option<TokenUsage>) -> (r: Self)
        ensures
            r.role == MessageRole::Assistant,
            r.blocks == blocks,
            r.usage == usage,
    {
        ConversationMessage { role: MessageRole::Assistant, blocks, usage, created_at: instant_now() }
    }

    pub fn tool_result(tool_use_id: &str, tool_name: &str, output: &str, is_error: bool) -> (r: Self)
        ensures
            r.role == MessageRole::Tool,
            r.blocks@.len() == 1,
            r.blocks@[0] matches ContentBlock::ToolResult { tool_use_id: a, tool_name: b, output: c, is_error: d }
                && a@ == tool_use_id@ && b@ == tool_name@ && c@ == output@ && d == is_error,
            r.usage is None,
    {
        let mut blocks: Vec<ContentBlock> = Vec::new();
        blocks.push(
            ContentBlock::ToolResult {
                tool_use_id: owned(tool_use_id),
                tool_name: owned(tool_name),
                output: owned(output),
                is_error,
            },
        );
        ConversationMessage { role: MessageRole::Tool, blocks, usage: None, created_at: instant_now() }
    }
}

} // verus!
