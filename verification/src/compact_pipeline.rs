//! Session compaction in three stages: drop messages whose file operations
//! a later write supersedes, collapse chains of short chatty messages, and
//! merge messages that share their leading keywords.
use vstd::prelude::*;

use vstd::utf8::encode_utf8;

use crate::text::{
    chars_eq, chars_eq_str, chars_of, dec_string, is_white_space, is_white_space_char, join, owned, push_all,
    push_decimal, push_str, string_from_chars, string_views,
};

verus! {

/// Which stages run and their thresholds.
#[derive(Debug, Clone, Copy, PartialEq, Eq, Structural)]
pub struct CompactionConfig {
    pub stage1_enabled: bool,
    pub stage2_enabled: bool,
    pub stage3_enabled: bool,
    pub collapse_threshold: usize,
    pub cluster_min_size: usize,
    pub preserve_last_n: usize,
}

impl Default for CompactionConfig {
    fn default() -> (r: Self)
        ensures
            r == (CompactionConfig {
                stage1_enabled: true,
                stage2_enabled: true,
                stage3_enabled: true,
                collapse_threshold: 4,
                cluster_min_size: 3,
                preserve_last_n: 10,
            }),
    {
        CompactionConfig {
            stage1_enabled: true,
            stage2_enabled: true,
            stage3_enabled: true,
            collapse_threshold: 4,
            cluster_min_size: 3,
            preserve_last_n: 10,
        }
    }
}

/// What compaction did.
#[derive(Debug, Clone, Copy, PartialEq, Eq, Structural, Default)]
pub struct CompactionStats {
    pub original_count: usize,
    pub final_count: usize,
    pub stage1_removed: usize,
    pub stage2_collapsed: usize,
    pub stage3_clustered: usize,
    pub tokens_saved_estimate: usize,
}

/// Kind of a file operation.
#[derive(Debug, Clone, Copy, PartialEq, Eq, Structural)]
pub enum FileOpType {
    Read,
    Write,
    Edit,
}

/// A file operation made by a message.
#[derive(Debug, Clone, PartialEq, Eq)]
pub struct FileOperation {
    pub op_type: FileOpType,
    pub path: String,
    pub index: usize,
}

/// A message as compaction sees it.
#[derive(Debug, Clone, PartialEq, Eq)]
pub struct CompactMessage {
    pub id: usize,
    pub role: String,
    pub summary: String,
    pub tool_calls: Vec<String>,
    pub file_ops: Vec<FileOperation>,
}

/// The content of a file operation.
pub struct OpView {
    pub op_type: FileOpType,
    pub path: Seq<char>,
    pub index: usize,
}

/// The content of a message.
pub struct MessageView {
    pub id: usize,
    pub role: Seq<char>,
    pub summary: Seq<char>,
    pub tool_calls: Seq<Seq<char>>,
    pub file_ops: Seq<OpView>,
}

pub open spec fn op_view(o: FileOperation) -> OpView {
    OpView { op_type: o.op_type, path: o.path@, index: o.index }
}

pub open spec fn message_view(m: CompactMessage) -> MessageView {
    MessageView {
        id: m.id,
        role: m.role@,
        summary: m.summary@,
        tool_calls: string_views(m.tool_calls@),
        file_ops: m.file_ops@.map_values(|o: FileOperation| op_view(o)),
    }
}

pub open spec fn message_views(s: Seq<CompactMessage>) -> Seq<MessageView> {
    s.map_values(|m: CompactMessage| message_view(m))
}

fn copy_strings(v: &Vec<String>) -> (r: Vec<String>)
    ensures
        r@ == v@,
{
    crate::text::clone_strings(v)
}

fn copy_op(o: &FileOperation) -> (r: FileOperation)
    ensures
        r == *o,
{
    FileOperation { op_type: o.op_type, path: o.path.clone(), index: o.index }
}

fn copy_ops(v: &Vec<FileOperation>) -> (r: Vec<FileOperation>)
    ensures
        r@ == v@,
{
    let mut r: Vec<FileOperation> = Vec::new();
    let mut i: usize = 0;
    while i < v.len()
        invariant
            i <= v.len(),
            r@ == v@.take(i as int),
        decreases v.len() - i,
    {
        r.push(copy_op(&v[i]));
        i += 1;
        assert(r@ =~= v@.take(i as int));
    }
    assert(v@.take(v.len() as int) =~= v@);
    r
}

fn copy_message(m: &CompactMessage) -> (r: CompactMessage)
    ensures
        message_view(r) == message_view(*m),
{
    let r = CompactMessage {
        id: m.id,
        role: m.role.clone(),
        summary: m.summary.clone(),
        tool_calls: copy_strings(&m.tool_calls),
        file_ops: copy_ops(&m.file_ops),
    };
    assert(string_views(r.tool_calls@) =~= string_views(m.tool_calls@));
    assert(r.file_ops@.map_values(|o: FileOperation| op_view(o)) =~= m.file_ops@.map_values(|o: FileOperation| op_view(o)));
    r
}

// ---------------------------------------------------------------------------
// Stage 1: superseded file operations.
// ---------------------------------------------------------------------------

pub open spec fn is_write(t: FileOpType) -> bool {
    t == FileOpType::Write || t == FileOpType::Edit
}

/// Message `j` writes or edits `path`.
pub open spec fn writes(m: MessageView, path: Seq<char>) -> bool {
    exists|b: int| 0 <= b < m.file_ops.len() && #[trigger] m.file_ops[b].path == path && is_write(m.file_ops[b].op_type)
}

/// Message `i` touches a file that a later message writes or edits: its
/// operations are superseded.
pub open spec fn superseded(v: Seq<MessageView>, i: int) -> bool {
    exists|j: int, a: int|
        i < j < v.len() && 0 <= a < v[i].file_ops.len() && #[trigger] writes(v[j], #[trigger] v[i].file_ops[a].path)
}

/// The messages among the first `n` that are not superseded, in order.
pub open spec fn survivors(v: Seq<MessageView>, n: int) -> Seq<MessageView>
    decreases n,
{
    if n <= 0 {
        seq![]
    } else if superseded(v, n - 1) {
        survivors(v, n - 1)
    } else {
        survivors(v, n - 1).push(v[n - 1])
    }
}

/// How many of the first `n` messages are superseded.
pub open spec fn superseded_count(v: Seq<MessageView>, n: int) -> nat
    decreases n,
{
    if n <= 0 {
        0
    } else if superseded(v, n - 1) {
        superseded_count(v, n - 1) + 1
    } else {
        superseded_count(v, n - 1)
    }
}

fn message_writes(m: &CompactMessage, path: &str) -> (r: bool)
    ensures
        r == writes(message_view(*m), path@),
{
    let mut b: usize = 0;
    while b < m.file_ops.len()
        invariant
            b <= m.file_ops.len(),
            forall|k: int|
                0 <= k < b ==> !(#[trigger] message_view(*m).file_ops[k].path == path@ && is_write(
                    message_view(*m).file_ops[k].op_type,
                )),
        decreases m.file_ops.len() - b,
    {
        let op = &m.file_ops[b];
        assert(message_view(*m).file_ops[b as int] == op_view(*op));
        if (op.op_type == FileOpType::Write || op.op_type == FileOpType::Edit) && crate::text::str_eq(
            op.path.as_str(),
            path,
        ) {
            assert(message_view(*m).file_ops[b as int].path == path@ && is_write(
                message_view(*m).file_ops[b as int].op_type,
            ));
            return true;
        }
        b += 1;
    }
    false
}

fn is_superseded(msgs: &Vec<CompactMessage>, i: usize) -> (r: bool)
    requires
        i < msgs@.len(),
    ensures
        r == superseded(message_views(msgs@), i as int),
{
    let ghost v = message_views(msgs@);
    let n = msgs.len();
    let m = &msgs[i];
    assert(v[i as int] == message_view(*m));
    let mut a: usize = 0;
    while a < m.file_ops.len()
        invariant
            i < n,
            n == msgs@.len(),
            v == message_views(msgs@),
            v[i as int] == message_view(*m),
            a <= m.file_ops.len(),
            forall|j: int, x: int|
                i < j < v.len() && 0 <= x < a ==> !#[trigger] writes(v[j], #[trigger] v[i as int].file_ops[x].path),
        decreases m.file_ops.len() - a,
    {
        let path = m.file_ops[a].path.as_str();
        assert(v[i as int].file_ops[a as int].path == path@);
        let mut j: usize = i + 1;
        while j < n
            invariant
                i < j <= n,
                n == msgs@.len(),
                v == message_views(msgs@),
                a < v[i as int].file_ops.len(),
                v[i as int].file_ops[a as int].path == path@,
                forall|k: int| i < k < j ==> !#[trigger] writes(v[k], path@),
            decreases msgs.len() - j,
        {
            assert(v[j as int] == message_view(msgs@[j as int]));
            if message_writes(&msgs[j], path) {
                assert(writes(v[j as int], v[i as int].file_ops[a as int].path));
                return true;
            }
            j += 1;
        }
        a += 1;
    }
    false
}

/// Stage 1: removes messages whose file operations a later write or edit of
/// the same file supersedes; returns the rest and how many were removed.
pub fn stage1_supersede(messages: Vec<CompactMessage>) -> (r: (Vec<CompactMessage>, usize))
    ensures
        message_views(r.0@) == survivors(message_views(messages@), messages@.len() as int),
        r.1 == superseded_count(message_views(messages@), messages@.len() as int),
{
    let ghost v = message_views(messages@);
    let mut kept: Vec<CompactMessage> = Vec::new();
    let mut removed: usize = 0;
    let mut i: usize = 0;
    while i < messages.len()
        invariant
            i <= messages@.len(),
            v == message_views(messages@),
            message_views(kept@) == survivors(v, i as int),
            removed == superseded_count(v, i as int),
            removed <= i,
        decreases messages.len() - i,
    {
        if is_superseded(&messages, i) {
            removed += 1;
        } else {
            let ghost before = message_views(kept@);
            let c = copy_message(&messages[i]);
            kept.push(c);
            assert(v[i as int] == message_view(messages@[i as int]));
            assert(message_views(kept@) =~= before.push(v[i as int]));
        }
        i += 1;
    }
    (kept, removed)
}

// ---------------------------------------------------------------------------
// Stage 2: chatty chains.
// ---------------------------------------------------------------------------

/// A short message (under 20 bytes) without tool calls.
pub open spec fn chatty(m: MessageView) -> bool {
    encode_utf8(m.summary).len() < 20 && m.tool_calls.len() == 0
}

/// Number of consecutive chatty messages from `i`.
pub open spec fn chatty_run(v: Seq<MessageView>, i: int) -> nat
    decreases v.len() - i,
{
    if i < 0 || i >= v.len() || !chatty(v[i]) {
        0
    } else {
        1 + chatty_run(v, i + 1)
    }
}

/// Length of the chain that starts at a chatty message `i`: the run of
/// chatty messages, at most `threshold` long (and at least the message
/// itself).
pub open spec fn chain_len(v: Seq<MessageView>, i: int, threshold: nat) -> nat {
    let cap: nat = if threshold < 1 {
        1
    } else {
        threshold
    };
    if chatty_run(v, i) < cap {
        chatty_run(v, i)
    } else {
        cap
    }
}

/// The message that stands for a collapsed chain of `n` messages.
pub open spec fn collapsed_view(first: MessageView, n: nat) -> MessageView {
    MessageView {
        id: first.id,
        role: "assistant"@,
        summary: "["@ + dec_string(n) + " chatty messages collapsed]"@,
        tool_calls: seq![],
        file_ops: seq![],
    }
}

/// Stage 2 from message `i` on: the messages that result and how many were
/// collapsed.
pub open spec fn collapse_from(v: Seq<MessageView>, i: int, threshold: nat) -> (Seq<MessageView>, nat)
    decreases v.len() - i,
{
    if i < 0 || i >= v.len() {
        (seq![], 0)
    } else if chatty(v[i]) && chain_len(v, i, threshold) >= 2 {
        let n = chain_len(v, i, threshold);
        proof {
            lemma_run_bound(v, i);
        }
        let rest = collapse_from(v, i + n, threshold);
        (seq![collapsed_view(v[i], n)] + rest.0, n + rest.1)
    } else {
        let rest = collapse_from(v, i + 1, threshold);
        (seq![v[i]] + rest.0, rest.1)
    }
}

proof fn lemma_chatty_run(v: Seq<MessageView>, i: int, j: int)
    requires
        0 <= i <= j <= v.len(),
        forall|k: int| i <= k < j ==> chatty(#[trigger] v[k]),
    ensures
        chatty_run(v, i) == (j - i) + chatty_run(v, j),
        chatty_run(v, i) <= v.len() - i,
    decreases j - i,
{
    if i < j {
        lemma_chatty_run(v, i + 1, j);
    } else {
        lemma_run_bound(v, i);
    }
}

pub proof fn lemma_run_bound(v: Seq<MessageView>, i: int)
    requires
        0 <= i <= v.len(),
    ensures
        chatty_run(v, i) <= v.len() - i,
    decreases v.len() - i,
{
    if i < v.len() {
        lemma_run_bound(v, i + 1);
    }
}

fn is_chatty(m: &CompactMessage) -> (r: bool)
    ensures
        r == chatty(message_view(*m)),
{
    m.summary.as_str().as_bytes().len() < 20 && m.tool_calls.len() == 0
}

fn collapsed_message(first: &CompactMessage, n: usize) -> (r: CompactMessage)
    ensures
        message_view(r) == collapsed_view(message_view(*first), n as nat),
{
    let mut s: Vec<char> = Vec::new();
    push_str(&mut s, "[");
    push_decimal(&mut s, n as u64);
    push_str(&mut s, " chatty messages collapsed]");
    let r = CompactMessage {
        id: first.id,
        role: owned("assistant"),
        summary: string_from_chars(&s),
        tool_calls: Vec::new(),
        file_ops: Vec::new(),
    };
    assert(string_views(r.tool_calls@) =~= Seq::<Seq<char>>::empty());
    assert(r.file_ops@.map_values(|o: FileOperation| op_view(o)) =~= Seq::<OpView>::empty());
    assert(r.summary@ =~= "["@ + dec_string(n as nat) + " chatty messages collapsed]"@);
    r
}

/// Stage 2: replaces each chain of up to `threshold` consecutive short
/// messages without tool calls (two or more) by one summary message;
/// returns the result and how many messages were collapsed.
pub fn stage2_collapse(messages: Vec<CompactMessage>, threshold: usize) -> (r: (Vec<CompactMessage>, usize))
    ensures
        message_views(r.0@) == collapse_from(message_views(messages@), 0, threshold as nat).0,
        r.1 == collapse_from(message_views(messages@), 0, threshold as nat).1,
{
    let ghost v = message_views(messages@);
    let n = messages.len();
    let mut result: Vec<CompactMessage> = Vec::new();
    let mut collapsed: usize = 0;
    let mut i: usize = 0;
    while i < n
        invariant
            i <= n,
            n == messages@.len(),
            v == message_views(messages@),
            collapsed <= i,
            collapse_from(v, 0, threshold as nat).0 == message_views(result@) + collapse_from(v, i as int, threshold as nat).0,
            collapse_from(v, 0, threshold as nat).1 == collapsed + collapse_from(v, i as int, threshold as nat).1,
        decreases n - i,
    {
        let msg = &messages[i];
        assert(v[i as int] == message_view(*msg));
        let ghost before = message_views(result@);
        let mut done = false;
        if is_chatty(msg) {
            let mut j: usize = i + 1;
            while j < n && j - i < threshold && is_chatty(&messages[j])
                invariant
                    i < j <= n,
                    n == messages@.len(),
                    v == message_views(messages@),
                    chatty(v[i as int]),
                    j - i == 1 || j - i <= threshold,
                    forall|k: int| i <= k < j ==> chatty(#[trigger] v[k]),
                decreases n - j,
            {
                assert(v[j as int] == message_view(messages@[j as int]));
                j += 1;
            }
            proof {
                lemma_chatty_run(v, i as int, j as int);
                if j < n && j - i < threshold {
                    assert(v[j as int] == message_view(messages@[j as int]));
                }
            }
            let count = j - i;
            assert(count == chain_len(v, i as int, threshold as nat));
            if count >= 2 {
                let c = collapsed_message(msg, count);
                result.push(c);
                collapsed += count;
                assert(message_views(result@) =~= before + seq![collapsed_view(v[i as int], count as nat)]);
                assert(before + (seq![collapsed_view(v[i as int], count as nat)] + collapse_from(v, j as int, threshold as nat).0)
                    =~= message_views(result@) + collapse_from(v, j as int, threshold as nat).0);
                i = j;
                done = true;
            }
        }
        if !done {
            let c = copy_message(msg);
            result.push(c);
            assert(message_views(result@) =~= before + seq![v[i as int]]);
            assert(before + (seq![v[i as int]] + collapse_from(v, i + 1, threshold as nat).0) =~= message_views(result@)
                + collapse_from(v, i + 1, threshold as nat).0);
            i += 1;
        }
    }
    assert(collapse_from(v, i as int, threshold as nat).0 =~= Seq::<MessageView>::empty());
    assert(message_views(result@) + Seq::<MessageView>::empty() =~= message_views(result@));
    (result, collapsed)
}

// ---------------------------------------------------------------------------
// Stage 3: clusters of messages with the same leading keywords.
// ---------------------------------------------------------------------------

/// Words found so far in a text and the word being read.
pub open spec fn word_scan(s: Seq<char>) -> (Seq<Seq<char>>, Seq<char>)
    decreases s.len(),
{
    if s.len() == 0 {
        (seq![], seq![])
    } else {
        let (ws, cur) = word_scan(s.drop_last());
        if is_white_space(s.last()) {
            if cur.len() > 0 {
                (ws.push(cur), seq![])
            } else {
                (ws, seq![])
            }
        } else {
            (ws, cur.push(s.last()))
        }
    }
}

/// The words of a text, as `str::split_whitespace` yields them.
pub open spec fn words(s: Seq<char>) -> Seq<Seq<char>> {
    let (ws, cur) = word_scan(s);
    if cur.len() > 0 {
        ws.push(cur)
    } else {
        ws
    }
}

/// Words longer than four bytes, in order.
pub open spec fn long_words(ws: Seq<Seq<char>>) -> Seq<Seq<char>>
    decreases ws.len(),
{
    if ws.len() == 0 {
        seq![]
    } else if encode_utf8(ws.last()).len() > 4 {
        long_words(ws.drop_last()).push(ws.last())
    } else {
        long_words(ws.drop_last())
    }
}

/// The cluster key of a summary: its first three long words joined by `_`.
pub open spec fn cluster_key(summary: Seq<char>) -> Seq<char> {
    let lw = long_words(words(summary));
    join(lw.take(if lw.len() < 3 {
        lw.len() as int
    } else {
        3
    }), "_"@)
}

/// How many of the first `n` keys equal `k`.
pub open spec fn key_count(keys: Seq<Seq<char>>, k: Seq<char>, n: int) -> nat
    decreases n,
{
    if n <= 0 {
        0
    } else {
        key_count(keys, k, n - 1) + if keys[n - 1] == k {
            1nat
        } else {
            0nat
        }
    }
}

/// Whether an earlier key equals `keys[i]`.
pub open spec fn seen_before(keys: Seq<Seq<char>>, i: int) -> bool {
    exists|j: int| 0 <= j < i && keys[j] == keys[i]
}

/// `[Cluster: N messages about 'key words']`
pub open spec fn cluster_text(n: nat, key: Seq<char>) -> Seq<char> {
    "[Cluster: "@ + dec_string(n) + " messages about '"@ + key.map_values(
        |c: char|
            if c == '_' {
                ' '
            } else {
                c
            },
    ) + "']"@
}

/// Summary of message `i` after clustering: the first of a large enough
/// cluster describes it, the others are marked merged.
pub open spec fn clustered_summary(v: Seq<MessageView>, i: int, min_size: nat) -> Seq<char> {
    let keys = v.map_values(|m: MessageView| cluster_key(m.summary));
    let k = keys[i];
    let n = key_count(keys, k, v.len() as int);
    if k.len() > 0 && n >= min_size {
        if !seen_before(keys, i) {
            cluster_text(n, k)
        } else {
            "[MERGED]"@
        }
    } else {
        v[i].summary
    }
}

/// The messages among the first `n` that stay after clustering, with
/// their summaries as clustering left them.
pub open spec fn cluster_result(v: Seq<MessageView>, n: int, min_size: nat) -> Seq<MessageView>
    decreases n,
{
    if n <= 0 {
        seq![]
    } else if clustered_summary(v, n - 1, min_size) == "[MERGED]"@ {
        cluster_result(v, n - 1, min_size)
    } else {
        cluster_result(v, n - 1, min_size).push(MessageView { summary: clustered_summary(v, n - 1, min_size), ..v[n - 1] })
    }
}

/// How many of the first `n` messages were merged into an earlier one.
pub open spec fn merged_count(v: Seq<MessageView>, n: int, min_size: nat) -> nat
    decreases n,
{
    if n <= 0 {
        0
    } else {
        let keys = v.map_values(|m: MessageView| cluster_key(m.summary));
        let k = keys[n - 1];
        merged_count(v, n - 1, min_size) + if k.len() > 0 && key_count(keys, k, v.len() as int) >= min_size
            && seen_before(keys, n - 1) {
            1nat
        } else {
            0nat
        }
    }
}

pub(crate) fn words_of(s: &[char]) -> (r: Vec<Vec<char>>)
    ensures
        r@.map_values(|w: Vec<char>| w@) == words(s@),
{
    let mut ws: Vec<Vec<char>> = Vec::new();
    let mut cur: Vec<char> = Vec::new();
    let mut i: usize = 0;
    while i < s.len()
        invariant
            i <= s.len(),
            (ws@.map_values(|w: Vec<char>| w@), cur@) == word_scan(s@.take(i as int)),
        decreases s.len() - i,
    {
        assert(s@.take(i + 1).drop_last() =~= s@.take(i as int));
        let ghost before = ws@.map_values(|w: Vec<char>| w@);
        if is_white_space_char(s[i]) {
            if cur.len() > 0 {
                let ghost c = cur@;
                let w = cur;
                ws.push(w);
                cur = Vec::new();
                assert(ws@.map_values(|w: Vec<char>| w@) =~= before.push(c));
            } else {
                cur = Vec::new();
            }
            assert(cur@ =~= Seq::<char>::empty());
        } else {
            cur.push(s[i]);
        }
        i += 1;
    }
    assert(s@.take(s.len() as int) =~= s@);
    if cur.len() > 0 {
        let ghost before = ws@.map_values(|w: Vec<char>| w@);
        let ghost c = cur@;
        ws.push(cur);
        assert(ws@.map_values(|w: Vec<char>| w@) =~= before.push(c));
    }
    ws
}

fn key_of(summary: &str) -> (r: Vec<char>)
    ensures
        r@ == cluster_key(summary@),
{
    let s = chars_of(summary);
    let ws = words_of(&s);
    let ghost wv = ws@.map_values(|w: Vec<char>| w@);
    let mut long: Vec<String> = Vec::new();
    let mut i: usize = 0;
    while i < ws.len()
        invariant
            i <= ws@.len(),
            wv == ws@.map_values(|w: Vec<char>| w@),
            wv == words(s@),
            string_views(long@) == long_words(wv.take(i as int)),
        decreases ws.len() - i,
    {
        assert(wv.take(i + 1).drop_last() =~= wv.take(i as int));
        assert(wv.take(i + 1).last() == ws@[i as int]@);
        let w = string_from_chars(&ws[i]);
        if w.as_str().as_bytes().len() > 4 {
            let ghost before = string_views(long@);
            let ghost wview = w@;
            long.push(w);
            assert(string_views(long@) =~= before.push(wview));
        }
        i += 1;
    }
    assert(wv.take(ws.len() as int) =~= wv);
    let take: usize = if long.len() < 3 {
        long.len()
    } else {
        3
    };
    let mut first: Vec<String> = Vec::new();
    let mut j: usize = 0;
    while j < take
        invariant
            j <= take <= long@.len(),
            first@ == long@.take(j as int),
        decreases take - j,
    {
        first.push(long[j].clone());
        j += 1;
        assert(first@ =~= long@.take(j as int));
    }
    assert(string_views(first@) =~= string_views(long@).take(take as int));
    crate::text::join_strings(&first, "_")
}

fn count_key(keys: &Vec<Vec<char>>, k: &Vec<char>) -> (r: usize)
    ensures
        r == key_count(keys@.map_values(|w: Vec<char>| w@), k@, keys@.len() as int),
{
    let ghost kv = keys@.map_values(|w: Vec<char>| w@);
    let mut c: usize = 0;
    let mut j: usize = 0;
    while j < keys.len()
        invariant
            j <= keys@.len(),
            kv == keys@.map_values(|w: Vec<char>| w@),
            c == key_count(kv, k@, j as int),
            c <= j,
        decreases keys.len() - j,
    {
        assert(kv[j as int] == keys@[j as int]@);
        if chars_eq(&keys[j], k) {
            c += 1;
        }
        j += 1;
    }
    c
}

fn key_seen_before(keys: &Vec<Vec<char>>, i: usize) -> (r: bool)
    requires
        i < keys@.len(),
    ensures
        r == seen_before(keys@.map_values(|w: Vec<char>| w@), i as int),
{
    let ghost kv = keys@.map_values(|w: Vec<char>| w@);
    assert(kv[i as int] == keys@[i as int]@);
    let mut j: usize = 0;
    while j < i
        invariant
            j <= i < keys@.len(),
            kv == keys@.map_values(|w: Vec<char>| w@),
            kv[i as int] == keys@[i as int]@,
            forall|x: int| 0 <= x < j ==> kv[x] != kv[i as int],
        decreases i - j,
    {
        assert(kv[j as int] == keys@[j as int]@);
        if chars_eq(&keys[j], &keys[i]) {
            return true;
        }
        j += 1;
    }
    false
}

fn cluster_label(n: usize, key: &Vec<char>) -> (r: Vec<char>)
    ensures
        r@ == cluster_text(n as nat, key@),
{
    let mut out: Vec<char> = Vec::new();
    push_str(&mut out, "[Cluster: ");
    push_decimal(&mut out, n as u64);
    push_str(&mut out, " messages about '");
    let ghost start = out@;
    let mut j: usize = 0;
    while j < key.len()
        invariant
            j <= key@.len(),
            out@ == start + key@.take(j as int).map_values(
                |c: char|
                    if c == '_' {
                        ' '
                    } else {
                        c
                    },
            ),
        decreases key.len() - j,
    {
        let c = key[j];
        if c == '_' {
            out.push(' ');
        } else {
            out.push(c);
        }
        j += 1;
        assert(out@ =~= start + key@.take(j as int).map_values(
            |c: char|
                if c == '_' {
                    ' '
                } else {
                    c
                },
        ));
    }
    assert(key@.take(key.len() as int) =~= key@);
    push_str(&mut out, "']");
    out
}

/// Stage 3: for each cluster key shared by at least `min_size` messages,
/// the first message describes the cluster and the others are merged into
/// it; returns the rest and how many were merged.
pub fn stage3_cluster(messages: Vec<CompactMessage>, min_size: usize) -> (r: (Vec<CompactMessage>, usize))
    ensures
        message_views(r.0@) == cluster_result(message_views(messages@), messages@.len() as int, min_size as nat),
        r.1 == merged_count(message_views(messages@), messages@.len() as int, min_size as nat),
{
    let ghost v = message_views(messages@);
    let ghost kspec = v.map_values(|m: MessageView| cluster_key(m.summary));
    let n = messages.len();
    let mut keys: Vec<Vec<char>> = Vec::new();
    let mut i: usize = 0;
    while i < n
        invariant
            i <= n,
            n == messages@.len(),
            v == message_views(messages@),
            kspec == v.map_values(|m: MessageView| cluster_key(m.summary)),
            keys@.map_values(|w: Vec<char>| w@) == kspec.take(i as int),
        decreases n - i,
    {
        let k = key_of(messages[i].summary.as_str());
        assert(kspec[i as int] == cluster_key(messages@[i as int].summary@));
        let ghost before = keys@.map_values(|w: Vec<char>| w@);
        let ghost kv = k@;
        keys.push(k);
        assert(keys@.map_values(|w: Vec<char>| w@) =~= before.push(kv));
        assert(v[i as int].summary == messages@[i as int].summary@);
        assert(kspec.take(i + 1) =~= kspec.take(i as int).push(kspec[i as int]));
        assert(keys@.map_values(|w: Vec<char>| w@) =~= kspec.take(i + 1));
        i += 1;
    }
    assert(kspec.take(n as int) =~= kspec);
    let mut result: Vec<CompactMessage> = Vec::new();
    let mut clustered: usize = 0;
    i = 0;
    while i < n
        invariant
            i <= n,
            n == messages@.len(),
            n == keys@.len(),
            v == message_views(messages@),
            kspec == v.map_values(|m: MessageView| cluster_key(m.summary)),
            keys@.map_values(|w: Vec<char>| w@) == kspec,
            message_views(result@) == cluster_result(v, i as int, min_size as nat),
            clustered == merged_count(v, i as int, min_size as nat),
            clustered <= i,
        decreases n - i,
    {
        let msg = &messages[i];
        assert(v[i as int] == message_view(*msg));
        assert(kspec[i as int] == keys@[i as int]@);
        let count = count_key(&keys, &keys[i]);
        let seen = key_seen_before(&keys, i);
        let in_cluster = keys[i].len() > 0 && count >= min_size;
        let summary: Vec<char> = if in_cluster {
            if !seen {
                cluster_label(count, &keys[i])
            } else {
                let mut m: Vec<char> = Vec::new();
                push_str(&mut m, "[MERGED]");
                m
            }
        } else {
            chars_of(msg.summary.as_str())
        };
        assert(summary@ == clustered_summary(v, i as int, min_size as nat));
        if in_cluster && seen {
            clustered += 1;
        }
        if !chars_eq_str(&summary, "[MERGED]") {
            let ghost before = message_views(result@);
            let m = CompactMessage {
                id: msg.id,
                role: msg.role.clone(),
                summary: string_from_chars(&summary),
                tool_calls: copy_strings(&msg.tool_calls),
                file_ops: copy_ops(&msg.file_ops),
            };
            assert(string_views(m.tool_calls@) =~= string_views(msg.tool_calls@));
            assert(m.file_ops@.map_values(|o: FileOperation| op_view(o)) =~= msg.file_ops@.map_values(
                |o: FileOperation| op_view(o),
            ));
            result.push(m);
            assert(message_views(result@) =~= before.push(
                MessageView { summary: clustered_summary(v, i as int, min_size as nat), ..v[i as int] },
            ));
        }
        i += 1;
    }
    (result, clustered)
}

/// The messages after the enabled stages.
pub open spec fn stage1_out(v: Seq<MessageView>, c: CompactionConfig) -> Seq<MessageView> {
    if c.stage1_enabled {
        survivors(v, v.len() as int)
    } else {
        v
    }
}

pub open spec fn stage2_out(v: Seq<MessageView>, c: CompactionConfig) -> Seq<MessageView> {
    if c.stage2_enabled {
        collapse_from(v, 0, c.collapse_threshold as nat).0
    } else {
        v
    }
}

pub open spec fn stage3_out(v: Seq<MessageView>, c: CompactionConfig) -> Seq<MessageView> {
    if c.stage3_enabled {
        cluster_result(v, v.len() as int, c.cluster_min_size as nat)
    } else {
        v
    }
}

/// The messages after compaction.
pub open spec fn compacted(v: Seq<MessageView>, c: CompactionConfig) -> Seq<MessageView> {
    stage3_out(stage2_out(stage1_out(v, c), c), c)
}

/// The statistics of a compaction.
pub open spec fn compaction_stats(v: Seq<MessageView>, c: CompactionConfig) -> CompactionStats {
    let s1 = stage1_out(v, c);
    let s2 = stage2_out(s1, c);
    let fin = stage3_out(s2, c);
    CompactionStats {
        original_count: v.len() as usize,
        final_count: fin.len() as usize,
        stage1_removed: if c.stage1_enabled {
            superseded_count(v, v.len() as int) as usize
        } else {
            0
        },
        stage2_collapsed: if c.stage2_enabled {
            collapse_from(s1, 0, c.collapse_threshold as nat).1 as usize
        } else {
            0
        },
        stage3_clustered: if c.stage3_enabled {
            merged_count(s2, s2.len() as int, c.cluster_min_size as nat) as usize
        } else {
            0
        },
        tokens_saved_estimate: (if v.len() >= fin.len() {
            (v.len() - fin.len()) * 100
        } else {
            0
        }) as usize,
    }
}

/// Runs the enabled stages in order and reports what each did.
pub fn compact_session(messages: Vec<CompactMessage>, config: CompactionConfig) -> (r: (
    Vec<CompactMessage>,
    CompactionStats,
))
    requires
        messages@.len() * 100 <= usize::MAX,
    ensures
        message_views(r.0@) == compacted(message_views(messages@), config),
        r.1 == compaction_stats(message_views(messages@), config),
{
    let ghost v = message_views(messages@);
    let original_count = messages.len();
    let mut stats = CompactionStats {
        original_count,
        final_count: 0,
        stage1_removed: 0,
        stage2_collapsed: 0,
        stage3_clustered: 0,
        tokens_saved_estimate: 0,
    };
    let mut current = messages;
    if config.stage1_enabled {
        let (filtered, removed) = stage1_supersede(current);
        current = filtered;
        stats.stage1_removed = removed;
    }
    assert(message_views(current@) == stage1_out(v, config));
    let ghost s1 = message_views(current@);
    if config.stage2_enabled {
        let (collapsed, count) = stage2_collapse(current, config.collapse_threshold);
        current = collapsed;
        stats.stage2_collapsed = count;
    }
    let ghost s2 = message_views(current@);
    assert(s2 == stage2_out(s1, config));
    if config.stage3_enabled {
        let (clustered, count) = stage3_cluster(current, config.cluster_min_size);
        current = clustered;
        stats.stage3_clustered = count;
    }
    stats.final_count = current.len();
    let saved = original_count.saturating_sub(stats.final_count);
    assert(saved <= original_count);
    assert(saved * 100 <= original_count * 100) by (nonlinear_arith)
        requires
            saved <= original_count,
    ;
    stats.tokens_saved_estimate = saved * 100;
    (current, stats)
}

proof fn lemma_survivors_len(v: Seq<MessageView>, n: int)
    requires
        0 <= n,
    ensures
        survivors(v, n).len() + superseded_count(v, n) == n,
    decreases n,
{
    if n > 0 {
        lemma_survivors_len(v, n - 1);
    }
}

proof fn lemma_collapse_len(v: Seq<MessageView>, i: int, t: nat)
    requires
        0 <= i <= v.len(),
    ensures
        collapse_from(v, i, t).0.len() <= v.len() - i,
    decreases v.len() - i,
{
    if i < v.len() {
        if chatty(v[i]) && chain_len(v, i, t) >= 2 {
            lemma_run_bound(v, i);
            lemma_collapse_len(v, i + chain_len(v, i, t), t);
        } else {
            lemma_collapse_len(v, i + 1, t);
        }
    }
}

proof fn lemma_cluster_len(v: Seq<MessageView>, n: int, m: nat)
    requires
        0 <= n,
    ensures
        cluster_result(v, n, m).len() <= n,
    decreases n,
{
    if n > 0 {
        lemma_cluster_len(v, n - 1, m);
    }
}

/// Compaction never adds messages, and stage 1 removes exactly the
/// superseded ones.
pub proof fn law_compaction_never_grows(v: Seq<MessageView>, c: CompactionConfig)
    ensures
        compacted(v, c).len() <= v.len(),
        c.stage1_enabled ==> stage1_out(v, c).len() + superseded_count(v, v.len() as int) == v.len(),
{
    lemma_survivors_len(v, v.len() as int);
    let s1 = stage1_out(v, c);
    lemma_collapse_len(s1, 0, c.collapse_threshold as nat);
    let s2 = stage2_out(s1, c);
    lemma_cluster_len(s2, s2.len() as int, c.cluster_min_size as nat);
}

/// A message that no later message supersedes survives stage 1.
pub proof fn law_unsuperseded_survives(v: Seq<MessageView>, i: int)
    requires
        0 <= i < v.len(),
        !superseded(v, i),
    ensures
        survivors(v, v.len() as int).contains(v[i]),
{
    lemma_survivor_kept(v, i, v.len() as int);
}

proof fn lemma_survivor_kept(v: Seq<MessageView>, i: int, n: int)
    requires
        0 <= i < n <= v.len(),
        !superseded(v, i),
    ensures
        survivors(v, n).contains(v[i]),
    decreases n,
{
    if n - 1 == i {
        assert(survivors(v, n).last() == v[i]);
    } else {
        lemma_survivor_kept(v, i, n - 1);
        let prev = survivors(v, n - 1);
        let j = choose|j: int| 0 <= j < prev.len() && prev[j] == v[i];
        if !superseded(v, n - 1) {
            assert(survivors(v, n)[j] == prev[j]);
        }
    }
}


/// A message is superseded exactly when a later message writes or edits a
/// file it touches: an edit supersedes like a write does, and a later read
/// supersedes nothing.
pub proof fn law_later_write_or_edit_supersedes(v: Seq<MessageView>, i: int)
    requires
        0 <= i < v.len(),
    ensures
        superseded(v, i) <==> exists|j: int, a: int, b: int|
            i < j < v.len() && 0 <= a < v[i].file_ops.len() && 0 <= b < v[j].file_ops.len()
                && #[trigger] v[j].file_ops[b].path == #[trigger] v[i].file_ops[a].path && (v[j].file_ops[b].op_type
                == FileOpType::Write || v[j].file_ops[b].op_type == FileOpType::Edit),
{
    if superseded(v, i) {
        let (j, a) = choose|j: int, a: int|
            i < j < v.len() && 0 <= a < v[i].file_ops.len() && #[trigger] writes(v[j], #[trigger] v[i].file_ops[a].path);
        let b = choose|b: int|
            0 <= b < v[j].file_ops.len() && #[trigger] v[j].file_ops[b].path == v[i].file_ops[a].path && is_write(
                v[j].file_ops[b].op_type,
            );
        assert(v[j].file_ops[b].path == v[i].file_ops[a].path);
    }
    if exists|j: int, a: int, b: int|
        i < j < v.len() && 0 <= a < v[i].file_ops.len() && 0 <= b < v[j].file_ops.len()
            && #[trigger] v[j].file_ops[b].path == #[trigger] v[i].file_ops[a].path && (v[j].file_ops[b].op_type
            == FileOpType::Write || v[j].file_ops[b].op_type == FileOpType::Edit) {
        let (j, a, b) = choose|j: int, a: int, b: int|
            i < j < v.len() && 0 <= a < v[i].file_ops.len() && 0 <= b < v[j].file_ops.len()
                && #[trigger] v[j].file_ops[b].path == #[trigger] v[i].file_ops[a].path && (v[j].file_ops[b].op_type
                == FileOpType::Write || v[j].file_ops[b].op_type == FileOpType::Edit);
        assert(writes(v[j], v[i].file_ops[a].path));
    }
}

/// A superseded message is dropped by the first stage: it is missing from
/// what the stage keeps, and the stage keeps every other message.
pub proof fn law_superseded_messages_are_dropped(v: Seq<MessageView>)
    ensures
        survivors(v, v.len() as int).len() + superseded_count(v, v.len() as int) == v.len(),
{
    lemma_survivors_count(v, v.len() as int);
}

proof fn lemma_survivors_count(v: Seq<MessageView>, n: int)
    requires
        0 <= n <= v.len(),
    ensures
        survivors(v, n).len() + superseded_count(v, n) == n,
    decreases n,
{
    if n > 0 {
        lemma_survivors_count(v, n - 1);
    }
}

} // verus!
