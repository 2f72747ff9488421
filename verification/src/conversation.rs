//! Conversation helpers: errors, the auto-compaction threshold, stall
//! detection, and assembling an assistant message from streamed events.
use vstd::prelude::*;

use crate::permissions::{to_lowercase, unicode_lowercase};
use crate::session::{ContentBlock, ConversationMessage, TokenUsage};
use crate::text::{
    chars_of, contains_seq, contains_str, is_suffix, join, join_strings, owned, parse_unsigned, parse_unsigned_chars,
    push_all, push_str, split_chars, split_on, string_from_chars, string_views, trim, trim_chars, trim_str,
};

verus! {

// ---------------------------------------------------------------------------
// Errors.
// ---------------------------------------------------------------------------

/// Error returned when a tool invocation fails locally.
#[derive(Debug, Clone, PartialEq, Eq)]
pub struct ToolError {
    message: String,
}

impl ToolError {
    pub closed spec fn message(&self) -> Seq<char> {
        self.message@
    }

    pub fn new(message: &str) -> (r: Self)
        ensures
            r.message() == message@,
    {
        ToolError { message: owned(message) }
    }

    /// The error's message, as `Display` renders it.
    pub fn to_string(&self) -> (r: String)
        ensures
            r@ == self.message(),
    {
        self.message.clone()
    }
}

/// Error returned when a conversation turn cannot be completed.
#[derive(Debug, Clone, PartialEq, Eq)]
pub struct RuntimeError {
    message: String,
    context_window: bool,
}

impl RuntimeError {
    pub closed spec fn message(&self) -> Seq<char> {
        self.message@
    }

    pub closed spec fn context_window_spec(&self) -> bool {
        self.context_window
    }

    pub fn new(message: &str) -> (r: Self)
        ensures
            r.message() == message@,
            !r.context_window_spec(),
    {
        RuntimeError { message: owned(message), context_window: false }
    }

    /// A failure the caller may clear by shrinking the session.
    pub fn context_window(message: &str) -> (r: Self)
        ensures
            r.message() == message@,
            r.context_window_spec(),
    {
        RuntimeError { message: owned(message), context_window: true }
    }

    pub fn is_context_window_failure(&self) -> (r: bool)
        ensures
            r == self.context_window_spec(),
    {
        self.context_window
    }

    /// The error's message, as `Display` renders it.
    pub fn to_string(&self) -> (r: String)
        ensures
            r@ == self.message(),
    {
        self.message.clone()
    }
}

// ---------------------------------------------------------------------------
// Thresholds read from settings.
// ---------------------------------------------------------------------------

/// Compaction threshold used when nothing is configured.
pub const DEFAULT_AUTO_COMPACTION_INPUT_TOKENS_THRESHOLD: u32 = 100_000;

/// Share, in percent, of a declared context window at which compaction
/// is triggered.
pub const AUTO_COMPACTION_WINDOW_PERCENT: u32 = 70;

/// Nudges a stalled turn may receive when nothing is configured.
pub const DEFAULT_MAX_STALL_NUDGES: usize = 3;

/// A setting's value, trimmed and read as a positive `u32`.
pub open spec fn positive_u32(value: Option<Seq<char>>) -> Option<nat> {
    match value {
        Some(raw) => match parse_unsigned(trim(raw), u32::MAX as nat) {
            Some(v) => if v > 0 {
                Some(v)
            } else {
                None
            },
            None => None,
        },
        None => None,
    }
}

pub open spec fn opt_str_view(o: Option<&str>) -> Option<Seq<char>> {
    match o {
        Some(s) => Some(s@),
        None => None,
    }
}

/// The threshold: an explicit positive setting, else 70% of a declared
/// positive context window, else the default.
pub open spec fn compaction_threshold(explicit: Option<Seq<char>>, window: Option<Seq<char>>) -> nat {
    match positive_u32(explicit) {
        Some(t) => t,
        None => match positive_u32(window) {
            Some(w) => w * 70 / 100,
            None => DEFAULT_AUTO_COMPACTION_INPUT_TOKENS_THRESHOLD as nat,
        },
    }
}

pub fn parse_positive_u32(value: Option<&str>) -> (r: Option<u32>)
    ensures
        match r {
            Some(v) => positive_u32(opt_str_view(value)) == Some(v as nat),
            None => positive_u32(opt_str_view(value)) is None,
        },
{
    match value {
        Some(raw) => {
            let t = trim_str(raw);
            match parse_unsigned_chars(&t, u32::MAX as u64) {
                Some(v) => if v > 0 {
                    Some(v as u32)
                } else {
                    None
                },
                None => None,
            }
        },
        None => None,
    }
}

/// Resolves the auto-compaction threshold from an explicit setting, else
/// from the declared context window.
pub fn resolve_auto_compaction_threshold(explicit: Option<&str>, context_window: Option<&str>) -> (r: u32)
    ensures
        r == compaction_threshold(opt_str_view(explicit), opt_str_view(context_window)),
{
    if let Some(threshold) = parse_positive_u32(explicit) {
        return threshold;
    }
    match parse_positive_u32(context_window) {
        Some(window) => {
            let v: u64 = (window as u64) * (AUTO_COMPACTION_WINDOW_PERCENT as u64) / 100;
            assert(v <= u32::MAX) by (nonlinear_arith)
                requires
                    v == (window as u64) * 70 / 100,
                    window <= u32::MAX,
            ;
            v as u32
        },
        None => DEFAULT_AUTO_COMPACTION_INPUT_TOKENS_THRESHOLD,
    }
}

/// The nudge budget: the trimmed setting read as a `usize`, else the
/// default.
pub open spec fn stall_nudge_budget(value: Option<Seq<char>>) -> nat {
    match value {
        Some(raw) => match parse_unsigned(trim(raw), usize::MAX as nat) {
            Some(v) => v,
            None => DEFAULT_MAX_STALL_NUDGES as nat,
        },
        None => DEFAULT_MAX_STALL_NUDGES as nat,
    }
}

/// How many auto-continue nudges a turn may inject, from the setting's
/// value. `0` disables them.
pub fn parse_max_stall_nudges(value: Option<&str>) -> (r: usize)
    ensures
        r == stall_nudge_budget(opt_str_view(value)),
{
    match value {
        Some(raw) => {
            let t = trim_str(raw);
            match parse_unsigned_chars(&t, usize::MAX as u64) {
                Some(v) => v as usize,
                None => DEFAULT_MAX_STALL_NUDGES,
            }
        },
        None => DEFAULT_MAX_STALL_NUDGES,
    }
}

// ---------------------------------------------------------------------------
// Stall detection.
// ---------------------------------------------------------------------------

/// Phrases that announce work not yet performed.
pub open spec fn pending_action_markers() -> Seq<Seq<char>> {
    seq![
        "let me "@,
        "let's "@,
        "lets "@,
        "i'll "@,
        "i will "@,
        "i'm going to"@,
        "i am going to"@,
        "going to run"@,
        "about to "@,
        "now running"@,
        "now checking"@,
        "now i"@,
        "next i"@,
        "next, i"@,
        "proceeding to"@,
        "moving on to"@,
    ]
}

/// The last non-empty trimmed line among the first `n` lines.
pub open spec fn last_nonempty(lines: Seq<Seq<char>>, n: int) -> Option<Seq<char>>
    decreases n,
{
    if n <= 0 {
        None
    } else if trim(lines[n - 1]).len() > 0 {
        Some(trim(lines[n - 1]))
    } else {
        last_nonempty(lines, n - 1)
    }
}

/// The last non-empty line of a text, trimmed.
pub open spec fn last_line(text: Seq<char>) -> Option<Seq<char>> {
    last_nonempty(split_on(text, '\n'), split_on(text, '\n').len() as int)
}

/// Whether a reply without tool calls is a stall: its last line asks a
/// question after tools have run, or announces pending work.
pub open spec fn stalled(text: Seq<char>, after_tool_use: bool) -> bool {
    match last_line(text) {
        None => false,
        Some(line) => (after_tool_use && is_suffix(seq!['?'], line)) || exists|i: int|
            0 <= i < pending_action_markers().len() && contains_seq(
                unicode_lowercase(line),
                #[trigger] pending_action_markers()[i],
            ),
    }
}

fn marker_found(lowered: &[char]) -> (r: bool)
    ensures
        r == exists|i: int|
            0 <= i < pending_action_markers().len() && contains_seq(lowered@, #[trigger] pending_action_markers()[i]),
{
    let markers: [&str; 16] = [
        "let me ",
        "let's ",
        "lets ",
        "i'll ",
        "i will ",
        "i'm going to",
        "i am going to",
        "going to run",
        "about to ",
        "now running",
        "now checking",
        "now i",
        "next i",
        "next, i",
        "proceeding to",
        "moving on to",
    ];
    assert(markers@.map_values(|m: &str| m@) =~= pending_action_markers());
    let mut i: usize = 0;
    while i < 16
        invariant
            i <= 16,
            markers@.map_values(|m: &str| m@) == pending_action_markers(),
            forall|j: int| 0 <= j < i ==> !contains_seq(lowered@, #[trigger] pending_action_markers()[j]),
        decreases 16 - i,
    {
        assert(pending_action_markers()[i as int] == markers@[i as int]@);
        if contains_str(lowered, markers[i]) {
            return true;
        }
        i += 1;
    }
    false
}

fn last_nonempty_line(lines: &Vec<Vec<char>>) -> (r: Option<Vec<char>>)
    ensures
        match r {
            Some(l) => last_nonempty(lines@.map_values(|v: Vec<char>| v@), lines@.len() as int) == Some(l@),
            None => last_nonempty(lines@.map_values(|v: Vec<char>| v@), lines@.len() as int) is None,
        },
{
    let ghost lv = lines@.map_values(|v: Vec<char>| v@);
    let mut k: usize = lines.len();
    while k > 0
        invariant
            k <= lines.len(),
            lv == lines@.map_values(|v: Vec<char>| v@),
            last_nonempty(lv, lv.len() as int) == last_nonempty(lv, k as int),
        decreases k,
    {
        let trimmed = trim_chars(&lines[k - 1]);
        assert(lv[k - 1] == lines@[k - 1]@);
        if trimmed.len() > 0 {
            return Some(trimmed);
        }
        k -= 1;
    }
    None
}

/// True when a tool-less reply is a stall rather than a finished turn.
pub fn is_stalled_reply(text: &str, after_tool_use: bool) -> (r: bool)
    ensures
        r == stalled(text@, after_tool_use),
{
    let t = chars_of(text);
    let lines = split_chars(&t, '\n');
    let last = last_nonempty_line(&lines);
    let line = match last {
        Some(l) => l,
        None => return false,
    };
    if after_tool_use && line.len() > 0 && line[line.len() - 1] == '?' {
        assert(line@.skip(line@.len() - 1) =~= seq!['?']);
        return true;
    }
    proof {
        if line.len() > 0 {
            if line@.skip(line@.len() - 1) == seq!['?'] {
                assert(line@[line@.len() - 1] == line@.skip(line@.len() - 1)[0]);
            }
        }
    }
    let line_text = string_from_chars(&line);
    let lowered = chars_of(to_lowercase(line_text.as_str()).as_str());
    marker_found(&lowered)
}

// ---------------------------------------------------------------------------
// Streamed events and the assistant message they make.
// ---------------------------------------------------------------------------

/// Prompt-cache telemetry captured from the provider response stream.
#[derive(Debug, Clone, PartialEq, Eq)]
pub struct PromptCacheEvent {
    pub unexpected: bool,
    pub reason: String,
    pub previous_cache_read_input_tokens: u32,
    pub current_cache_read_input_tokens: u32,
    pub token_drop: u32,
}

/// Streamed events of one assistant turn.
#[derive(Debug, Clone, PartialEq, Eq)]
pub enum AssistantEvent {
    Thinking { thinking: String, signature: Option<String> },
    TextDelta(String),
    ToolUse { id: String, name: String, input: String },
    Usage(TokenUsage),
    PromptCache(PromptCacheEvent),
    MessageStop,
}

/// The text content of a block.
pub enum BlockView {
    Text(Seq<char>),
    ToolUse(Seq<char>, Seq<char>, Seq<char>),
    ToolResult(Seq<char>, Seq<char>, Seq<char>, bool),
    Thinking(Seq<char>, Option<Seq<char>>),
}

pub open spec fn opt_string_view(o: Option<String>) -> Option<Seq<char>> {
    match o {
        Some(s) => Some(s@),
        None => None,
    }
}

pub open spec fn block_view(b: ContentBlock) -> BlockView {
    match b {
        ContentBlock::Text { text } => BlockView::Text(text@),
        ContentBlock::ToolUse { id, name, input } => BlockView::ToolUse(id@, name@, input@),
        ContentBlock::ToolResult { tool_use_id, tool_name, output, is_error } => BlockView::ToolResult(
            tool_use_id@,
            tool_name@,
            output@,
            is_error,
        ),
        ContentBlock::Thinking { thinking, signature } => BlockView::Thinking(thinking@, opt_string_view(signature)),
    }
}

pub open spec fn block_views(v: Seq<ContentBlock>) -> Seq<BlockView> {
    v.map_values(|b: ContentBlock| block_view(b))
}

/// Pending text becomes a text block when there is any.
pub open spec fn flushed(blocks: Seq<BlockView>, text: Seq<char>) -> Seq<BlockView> {
    if text.len() == 0 {
        blocks
    } else {
        blocks.push(BlockView::Text(text))
    }
}

/// What reading events gathers: blocks so far, pending text, whether the
/// stop event came, the last usage, and the cache events in order.
pub struct Assembly {
    pub blocks: Seq<BlockView>,
    pub text: Seq<char>,
    pub finished: bool,
    pub usage: Option<TokenUsage>,
    pub caches: Seq<PromptCacheEvent>,
}

pub open spec fn assemble(events: Seq<AssistantEvent>) -> Assembly
    decreases events.len(),
{
    if events.len() == 0 {
        Assembly { blocks: seq![], text: seq![], finished: false, usage: None, caches: seq![] }
    } else {
        let a = assemble(events.drop_last());
        match events.last() {
            AssistantEvent::Thinking { thinking, signature } => Assembly {
                blocks: flushed(a.blocks, a.text).push(BlockView::Thinking(thinking@, opt_string_view(signature))),
                text: seq![],
                ..a
            },
            AssistantEvent::TextDelta(d) => Assembly { text: a.text + d@, ..a },
            AssistantEvent::ToolUse { id, name, input } => Assembly {
                blocks: flushed(a.blocks, a.text).push(BlockView::ToolUse(id@, name@, input@)),
                text: seq![],
                ..a
            },
            AssistantEvent::Usage(u) => Assembly { usage: Some(u), ..a },
            AssistantEvent::PromptCache(e) => Assembly { caches: a.caches.push(e), ..a },
            AssistantEvent::MessageStop => Assembly { finished: true, ..a },
        }
    }
}

fn copy_cache_event(e: &PromptCacheEvent) -> (r: PromptCacheEvent)
    ensures
        r == *e,
{
    PromptCacheEvent {
        unexpected: e.unexpected,
        reason: e.reason.clone(),
        previous_cache_read_input_tokens: e.previous_cache_read_input_tokens,
        current_cache_read_input_tokens: e.current_cache_read_input_tokens,
        token_drop: e.token_drop,
    }
}

fn flush_text_block(text: &mut Vec<char>, blocks: &mut Vec<ContentBlock>)
    ensures
        block_views(final(blocks)@) == flushed(block_views(old(blocks)@), old(text)@),
        final(text)@.len() == 0,
{
    if text.len() > 0 {
        let ghost before = block_views(blocks@);
        blocks.push(ContentBlock::Text { text: string_from_chars(text) });
        *text = Vec::new();
        assert(block_views(blocks@) =~= before.push(BlockView::Text(old(text)@)));
    }
}

/// Assembles the assistant message from a turn's streamed events.
pub fn build_assistant_message(events: Vec<AssistantEvent>) -> (r: Result<
    (ConversationMessage, Option<TokenUsage>, Vec<PromptCacheEvent>),
    RuntimeError,
>)
    ensures
        ({
            let a = assemble(events@);
            let blocks = flushed(a.blocks, a.text);
            &&& !a.finished ==> (r matches Err(e) && e.message() == "assistant stream ended without a message stop event"@
                && !e.context_window_spec())
            &&& a.finished && blocks.len() == 0 ==> (r matches Err(e) && e.message()
                == "assistant stream produced no content"@ && !e.context_window_spec())
            &&& a.finished && blocks.len() > 0 ==> (r matches Ok((m, u, c)) && m.role
                == crate::session::MessageRole::Assistant && block_views(m.blocks@) == blocks && m.usage == a.usage
                && u == a.usage && c@ == a.caches)
        }),
{
    let mut text: Vec<char> = Vec::new();
    let mut blocks: Vec<ContentBlock> = Vec::new();
    let mut caches: Vec<PromptCacheEvent> = Vec::new();
    let mut finished = false;
    let mut usage: Option<TokenUsage> = None;
    let mut i: usize = 0;
    while i < events.len()
        invariant
            i <= events.len(),
            ({
                let a = assemble(events@.take(i as int));
                &&& block_views(blocks@) == a.blocks
                &&& text@ == a.text
                &&& finished == a.finished
                &&& usage == a.usage
                &&& caches@ == a.caches
            }),
        decreases events.len() - i,
    {
        assert(events@.take(i + 1).drop_last() =~= events@.take(i as int));
        assert(events@.take(i + 1).last() == events@[i as int]);
        match &events[i] {
            AssistantEvent::Thinking { thinking, signature } => {
                flush_text_block(&mut text, &mut blocks);
                let ghost before = block_views(blocks@);
                blocks.push(
                    ContentBlock::Thinking {
                        thinking: thinking.clone(),
                        signature: crate::session::copy_option_string(signature),
                    },
                );
                assert(block_views(blocks@) =~= before.push(
                    BlockView::Thinking(thinking@, opt_string_view(*signature)),
                ));
            },
            AssistantEvent::TextDelta(delta) => {
                push_str(&mut text, delta.as_str());
            },
            AssistantEvent::ToolUse { id, name, input } => {
                flush_text_block(&mut text, &mut blocks);
                let ghost before = block_views(blocks@);
                blocks.push(ContentBlock::ToolUse { id: id.clone(), name: name.clone(), input: input.clone() });
                assert(block_views(blocks@) =~= before.push(BlockView::ToolUse(id@, name@, input@)));
            },
            AssistantEvent::Usage(value) => {
                usage = Some(*value);
            },
            AssistantEvent::PromptCache(event) => {
                caches.push(copy_cache_event(event));
            },
            AssistantEvent::MessageStop => {
                finished = true;
            },
        }
        i += 1;
    }
    assert(events@.take(events.len() as int) =~= events@);
    flush_text_block(&mut text, &mut blocks);
    if !finished {
        return Err(RuntimeError::new("assistant stream ended without a message stop event"));
    }
    if blocks.len() == 0 {
        return Err(RuntimeError::new("assistant stream produced no content"));
    }
    Ok((ConversationMessage::assistant_with_usage(blocks, usage), usage, caches))
}

/// Output of a tool with hook messages appended under a heading.
pub open spec fn merged_feedback(messages: Seq<Seq<char>>, output: Seq<char>, is_error: bool) -> Seq<char> {
    if messages.len() == 0 {
        output
    } else {
        let label = if is_error {
            "Hook feedback (error)"@
        } else {
            "Hook feedback"@
        };
        let section = label + ":\n"@ + join(messages, "\n"@);
        if trim(output).len() > 0 {
            output + "\n\n"@ + section
        } else {
            section
        }
    }
}

/// Appends hook feedback to a tool's output.
pub fn merge_hook_feedback(messages: &Vec<String>, output: String, is_error: bool) -> (r: String)
    ensures
        r@ == merged_feedback(string_views(messages@), output@, is_error),
{
    if messages.len() == 0 {
        return output;
    }
    let mut out: Vec<char> = Vec::new();
    if trim_str(output.as_str()).len() > 0 {
        push_str(&mut out, output.as_str());
        push_str(&mut out, "\n\n");
    }
    if is_error {
        push_str(&mut out, "Hook feedback (error)");
    } else {
        push_str(&mut out, "Hook feedback");
    }
    push_str(&mut out, ":\n");
    let joined = join_strings(messages, "\n");
    push_all(&mut out, &joined);
    string_from_chars(&out)
}

/// Request sent to the model client.
#[derive(Debug)]
pub struct ApiRequest {
    pub system_prompt: Vec<String>,
    pub messages: Vec<ConversationMessage>,
}

/// Details about automatic compaction applied during a turn.
#[derive(Debug, Clone, Copy, PartialEq, Eq, Structural)]
pub struct AutoCompactionEvent {
    pub removed_message_count: usize,
}

/// Summary of one completed turn.
#[derive(Debug)]
pub struct TurnSummary {
    pub assistant_messages: Vec<ConversationMessage>,
    pub tool_results: Vec<ConversationMessage>,
    pub prompt_cache_events: Vec<PromptCacheEvent>,
    pub iterations: usize,
    pub usage: TokenUsage,
    pub auto_compaction: Option<AutoCompactionEvent>,
}

/// Streaming contract of a model client.
pub trait ApiClient {
    fn stream(&mut self, request: ApiRequest) -> Result<Vec<AssistantEvent>, RuntimeError>;
}

/// Dispatcher of model-requested tools.
pub trait ToolExecutor {
    fn execute(&mut self, tool_name: &str, input: &str) -> Result<String, ToolError>;
}

/// A function that runs a tool on its input.
pub trait ToolHandlerFn {
    /// Whether this handler may answer `input` with `result`; a handler
    /// that says nothing of its results may give any.
    closed spec fn handles(&self, input: Seq<char>, result: Result<String, ToolError>) -> bool {
        true
    }

    fn call(&mut self, input: &str) -> (r: Result<String, ToolError>)
        ensures
            old(self).handles(input@, r);
}

/// Calls a handler closure.
/// Trusted: the closure is the caller's code, of which nothing is known
/// here, so nothing is stated of its result.
#[verifier::external_body]
fn call_closure<F: FnMut(&str) -> Result<String, ToolError>>(f: &mut F, input: &str) -> (r: Result<String, ToolError>) {
    f(input)
}

impl<F: FnMut(&str) -> Result<String, ToolError>> ToolHandlerFn for F {
    fn call(&mut self, input: &str) -> Result<String, ToolError> {
        call_closure(self, input)
    }
}

/// A registered tool handler.
pub type ToolHandler = Box<dyn ToolHandlerFn>;

fn call_handler<T: ToolHandlerFn + ?Sized>(handlers: &mut Vec<Box<T>>, i: usize, input: &str) -> (r: Result<
    String,
    ToolError,
>)
    requires
        i < old(handlers)@.len(),
    ensures
        old(handlers)@[i as int].handles(input@, r),
        final(handlers)@.len() == old(handlers)@.len(),
        forall|j: int| 0 <= j < old(handlers)@.len() && j != i ==> final(handlers)@[j] == old(handlers)@[j],
{
    let h = &mut handlers[i];
    h.call(input)
}

fn push_handler<T: ?Sized>(handlers: &mut Vec<Box<T>>, h: Box<T>)
    ensures
        final(handlers)@.len() == old(handlers)@.len() + 1,
        final(handlers)@[old(handlers)@.len() as int] == h,
        forall|j: int| 0 <= j < old(handlers)@.len() ==> final(handlers)@[j] == old(handlers)@[j],
{
    handlers.push(h);
}

/// Position of the last name equal to `name`.
pub open spec fn latest_index(names: Seq<String>, name: Seq<char>) -> Option<int>
    decreases names.len(),
{
    if names.len() == 0 {
        None
    } else if names.last()@ == name {
        Some(names.len() - 1)
    } else {
        latest_index(names.drop_last(), name)
    }
}

/// The handler a name is served by is the one registered under it last:
/// the position found holds that name and no later position does, and no
/// position is found for a name never registered.
pub proof fn law_latest_registration_serves(names: Seq<String>, name: Seq<char>)
    ensures
        latest_index(names, name) matches Some(i) ==> 0 <= i < names.len() && names[i]@ == name && forall|j: int|
            i < j < names.len() ==> #[trigger] names[j]@ != name,
        latest_index(names, name) is None ==> forall|j: int| 0 <= j < names.len() ==> #[trigger] names[j]@ != name,
    decreases names.len(),
{
    if names.len() > 0 && names.last()@ != name {
        law_latest_registration_serves(names.drop_last(), name);
        assert forall|j: int| 0 <= j < names.len() - 1 implies names[j] == names.drop_last()[j] by {}
    }
}


/// Simple in-memory tool executor: tools registered by name. A name
/// registered again is served by its latest handler.
pub struct StaticToolExecutor {
    names: Vec<String>,
    handlers: Vec<ToolHandler>,
}

impl StaticToolExecutor {
    #[verifier::type_invariant]
    spec fn inv(&self) -> bool {
        self.names@.len() == self.handlers@.len()
    }

    /// The names of the registered tools.
    pub closed spec fn names(&self) -> Set<Seq<char>> {
        Set::new(|n: Seq<char>| exists|i: int| 0 <= i < self.names@.len() && self.names@[i]@ == n)
    }

    /// The handler that serves a name: the one registered under it last.
    pub closed spec fn handler_for(&self, name: Seq<char>) -> Option<ToolHandler> {
        match latest_index(self.names@, name) {
            Some(i) => Some(self.handlers@[i]),
            None => None,
        }
    }

    pub fn new() -> (r: Self)
        ensures
            r.names() == Set::<Seq<char>>::empty(),
            forall|n: Seq<char>| r.handler_for(n) is None,
    {
        let r = StaticToolExecutor { names: Vec::new(), handlers: Vec::new() };
        assert(r.names() =~= Set::<Seq<char>>::empty());
        r
    }

    /// Index of the latest handler registered under `tool_name`.
    fn position(&self, tool_name: &str) -> (r: Option<usize>)
        ensures
            match r {
                Some(i) => i < self.names@.len() && self.names@[i as int]@ == tool_name@ && latest_index(
                    self.names@,
                    tool_name@,
                ) == Some(i as int),
                None => !self.names().contains(tool_name@) && latest_index(self.names@, tool_name@) is None,
            },
    {
        let mut k: usize = self.names.len();
        assert(self.names@.take(k as int) =~= self.names@);
        while k > 0
            invariant
                k <= self.names.len(),
                forall|j: int| k <= j < self.names@.len() ==> self.names@[j]@ != tool_name@,
                latest_index(self.names@, tool_name@) == latest_index(self.names@.take(k as int), tool_name@),
            decreases k,
        {
            assert(self.names@.take(k as int).drop_last() =~= self.names@.take(k - 1));
            if crate::text::str_eq(self.names[k - 1].as_str(), tool_name) {
                return Some(k - 1);
            }
            k -= 1;
        }
        None
    }

    /// Registers a handler under a name; it replaces any handler registered
    /// under that name before.
    pub fn register(self, tool_name: &str, handler: ToolHandler) -> (r: Self)
        ensures
            r.names() == self.names().insert(tool_name@),
            r.handler_for(tool_name@) is Some,
            forall|n: Seq<char>| n != tool_name@ ==> r.handler_for(n) == self.handler_for(n),
    {
        proof {
            use_type_invariant(&self);
        }
        let ghost orig = self.names@;
        let ghost oh = self.handlers@;
        let ghost gh = handler;
        let StaticToolExecutor { names, handlers } = self;
        let mut names = names;
        let mut handlers = handlers;
        let name = owned(tool_name);
        names.push(name);
        assert(handlers@ == oh);
        push_handler(&mut handlers, handler);
        assert(handlers@.len() == oh.len() + 1);
        let s = StaticToolExecutor { names, handlers };
        assert forall|n: Seq<char>| s.names().contains(n) <==> self.names().insert(tool_name@).contains(n) by {
            if s.names().contains(n) {
                let i = choose|i: int| 0 <= i < s.names@.len() && s.names@[i]@ == n;
                if i < orig.len() {
                    assert(orig[i] == s.names@[i]);
                }
            }
            if self.names().contains(n) {
                let i = choose|i: int| 0 <= i < orig.len() && orig[i]@ == n;
                assert(s.names@[i] == orig[i]);
            }
            if n == tool_name@ {
                assert(s.names@[orig.len() as int]@ == n);
            }
        }
        assert(s.names() =~= self.names().insert(tool_name@));
        assert(s.names@.drop_last() =~= orig);
        assert(latest_index(s.names@, tool_name@) == Some(orig.len() as int));
        assert(oh.len() == orig.len());
        assert forall|n: Seq<char>| n != tool_name@ implies s.handler_for(n) == self.handler_for(n) by {
            if let Some(i) = latest_index(orig, n) {
                law_latest_registration_serves(orig, n);
                assert(s.handlers@[i] == oh[i]);
            }
        }
        s
    }

    /// Runs a registered tool; an unknown tool is an error naming it. A
    /// registered tool is run by the handler last registered under its
    /// name, on the input as given, and its answer is returned.
    pub fn execute(&mut self, tool_name: &str, input: &str) -> (r: Result<String, ToolError>)
        ensures
            !old(self).names().contains(tool_name@) ==> (r matches Err(e) && e.message() == "unknown tool: "@
                + tool_name@),
            match old(self).handler_for(tool_name@) {
                Some(h) => h.handles(input@, r),
                None => !old(self).names().contains(tool_name@),
            },
            final(self).names() == old(self).names(),
    {
        proof {
            use_type_invariant(&*self);
        }
        match self.position(tool_name) {
            Some(i) => {
                let mut current = StaticToolExecutor::new();
                core::mem::swap(self, &mut current);
                proof {
                    use_type_invariant(&current);
                }
                let StaticToolExecutor { names, handlers } = current;
                let mut handlers = handlers;
                let r = call_handler(&mut handlers, i, input);
                *self = StaticToolExecutor { names, handlers };
                assert(self.names() =~= old(self).names());
                r
            },
            None => {
                let mut m: Vec<char> = Vec::new();
                push_str(&mut m, "unknown tool: ");
                push_str(&mut m, tool_name);
                let text = string_from_chars(&m);
                Err(ToolError { message: text })
            },
        }
    }
}


// ---------------------------------------------------------------------------
// Turn control.
// ---------------------------------------------------------------------------

/// The message of the error that ends a turn that ran too many iterations.
pub open spec fn too_many_iterations_message() -> Seq<char> {
    "conversation loop exceeded the maximum number of iterations"@
}

/// What the loop does after a reply of the model.
#[derive(Debug, Clone, Copy, PartialEq, Eq, Structural)]
pub enum ReplyStep {
    /// Run the requested tools, then send the next request.
    RunTools,
    /// The model stalled: add the auto-continue note and ask again.
    Nudge,
    /// The turn is done.
    Finish,
}

/// The decisions of one turn of the conversation loop: how many requests
/// it may send, and how often a stalled reply is answered with a nudge.
#[derive(Debug)]
pub struct TurnControl {
    iterations: usize,
    stall_nudges: usize,
    tools_ran: bool,
    max_iterations: usize,
    max_stall_nudges: usize,
}

impl TurnControl {
    /// Requests sent so far.
    pub closed spec fn iterations_spec(&self) -> nat {
        self.iterations as nat
    }

    /// Nudges given so far.
    pub closed spec fn nudges(&self) -> nat {
        self.stall_nudges as nat
    }

    /// Whether a reply of this turn asked for tools.
    pub closed spec fn tools_ran_spec(&self) -> bool {
        self.tools_ran
    }

    pub closed spec fn max_iterations_spec(&self) -> nat {
        self.max_iterations as nat
    }

    pub closed spec fn max_nudges(&self) -> nat {
        self.max_stall_nudges as nat
    }

    /// The bounds hold: never more requests, nor nudges, than allowed.
    pub closed spec fn wf(&self) -> bool {
        self.iterations <= self.max_iterations && self.stall_nudges <= self.max_stall_nudges
    }

    pub fn new(max_iterations: usize, max_stall_nudges: usize) -> (r: Self)
        ensures
            r.wf(),
            r.iterations_spec() == 0,
            r.nudges() == 0,
            !r.tools_ran_spec(),
            r.max_iterations_spec() == max_iterations,
            r.max_nudges() == max_stall_nudges,
    {
        TurnControl { iterations: 0, stall_nudges: 0, tools_ran: false, max_iterations, max_stall_nudges }
    }

    pub fn iterations(&self) -> (r: usize)
        ensures
            r == self.iterations_spec(),
    {
        self.iterations
    }

    /// Starts the next iteration before a request is sent; fails once the
    /// turn would exceed its iterations. Returns the iteration's number.
    pub fn begin_iteration(&mut self) -> (r: Result<usize, RuntimeError>)
        requires
            old(self).wf(),
        ensures
            final(self).wf(),
            final(self).nudges() == old(self).nudges(),
            final(self).tools_ran_spec() == old(self).tools_ran_spec(),
            final(self).max_iterations_spec() == old(self).max_iterations_spec(),
            final(self).max_nudges() == old(self).max_nudges(),
            if old(self).iterations_spec() < old(self).max_iterations_spec() {
                r == Ok::<usize, RuntimeError>((old(self).iterations_spec() + 1) as usize)
                    && final(self).iterations_spec() == old(self).iterations_spec() + 1
            } else {
                r matches Err(e) && e.message() == too_many_iterations_message() && !e.context_window_spec()
                    && final(self).iterations_spec() == old(self).iterations_spec()
            },
    {
        if self.iterations >= self.max_iterations {
            return Err(RuntimeError::new("conversation loop exceeded the maximum number of iterations"));
        }
        self.iterations = self.iterations + 1;
        Ok(self.iterations)
    }

    /// Decides what follows a reply that asked for `tool_uses` tools and
    /// whose text is `reply_text`: tools are run; a reply without tools
    /// that stalls is nudged while nudges remain; otherwise the turn ends.
    pub fn after_reply(&mut self, tool_uses: usize, reply_text: &str) -> (r: ReplyStep)
        requires
            old(self).wf(),
        ensures
            final(self).wf(),
            final(self).iterations_spec() == old(self).iterations_spec(),
            final(self).max_iterations_spec() == old(self).max_iterations_spec(),
            final(self).max_nudges() == old(self).max_nudges(),
            if tool_uses > 0 {
                r == ReplyStep::RunTools && final(self).tools_ran_spec() && final(self).nudges() == old(
                    self,
                ).nudges()
            } else if old(self).nudges() < old(self).max_nudges() && stalled(
                reply_text@,
                old(self).tools_ran_spec(),
            ) {
                r == ReplyStep::Nudge && final(self).nudges() == old(self).nudges() + 1
                    && final(self).tools_ran_spec() == old(self).tools_ran_spec()
            } else {
                r == ReplyStep::Finish && final(self).nudges() == old(self).nudges()
                    && final(self).tools_ran_spec() == old(self).tools_ran_spec()
            },
    {
        if tool_uses > 0 {
            self.tools_ran = true;
            return ReplyStep::RunTools;
        }
        if self.stall_nudges < self.max_stall_nudges && is_stalled_reply(reply_text, self.tools_ran) {
            self.stall_nudges = self.stall_nudges + 1;
            ReplyStep::Nudge
        } else {
            ReplyStep::Finish
        }
    }
}

/// However the model replies, a turn sends no more requests than its limit
/// and nudges no more often than its budget: every step keeps both bounds.
pub proof fn law_turn_bounds(before: TurnControl, after: TurnControl)
    requires
        before.wf(),
        after.wf(),
        after.max_iterations_spec() == before.max_iterations_spec(),
        after.max_nudges() == before.max_nudges(),
    ensures
        after.iterations_spec() <= before.max_iterations_spec(),
        after.nudges() <= before.max_nudges(),
{
}

} // verus!
