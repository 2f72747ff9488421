use claw_runtime::compact_pipeline::{
    compact_session, stage1_supersede, stage2_collapse, stage3_cluster, CompactMessage,
    CompactionConfig, FileOpType, FileOperation,
};

fn msg(id: usize, role: &str, summary: &str, tools: &[&str], ops: Vec<FileOperation>) -> CompactMessage {
    CompactMessage {
        id,
        role: role.to_string(),
        summary: summary.to_string(),
        tool_calls: tools.iter().map(|t| t.to_string()).collect(),
        file_ops: ops,
    }
}

fn op(op_type: FileOpType, path: &str, index: usize) -> FileOperation {
    FileOperation { op_type, path: path.to_string(), index }
}

#[test]
fn test_stage1_supersede_removes_obsolete() {
    let messages = vec![
        msg(0, "user", "read file", &[], vec![op(FileOpType::Read, "test.rs", 0)]),
        msg(1, "assistant", "write file", &[], vec![op(FileOpType::Write, "test.rs", 1)]),
    ];
    let (result, removed) = stage1_supersede(messages);
    assert_eq!(removed, 1);
    assert_eq!(result.len(), 1);
}

#[test]
fn test_default_config() {
    let config = CompactionConfig::default();
    assert!(config.stage1_enabled);
    assert!(config.stage2_enabled);
    assert!(config.stage3_enabled);
    assert_eq!(config.collapse_threshold, 4);
    assert_eq!(config.cluster_min_size, 3);
}

#[test]
fn stage1_keeps_reads_of_other_files() {
    let messages = vec![
        msg(0, "user", "read a", &[], vec![op(FileOpType::Read, "a.rs", 0)]),
        msg(1, "assistant", "write b", &[], vec![op(FileOpType::Write, "b.rs", 1)]),
    ];
    let (result, removed) = stage1_supersede(messages);
    assert_eq!(removed, 0);
    assert_eq!(result.len(), 2);
}

#[test]
fn compaction_never_adds_messages() {
    let messages: Vec<CompactMessage> = (0..12)
        .map(|i| msg(i, "assistant", "step", &["bash"], vec![]))
        .collect();
    let (result, stats) = compact_session(messages, CompactionConfig::default());
    assert!(result.len() <= 12);
    assert_eq!(stats.original_count, 12);
    assert_eq!(stats.final_count, result.len());
}

#[test]
fn stage2_and_stage3_do_not_grow_the_session() {
    let messages: Vec<CompactMessage> = (0..6)
        .map(|i| msg(i, "assistant", "same tool", &["grep"], vec![]))
        .collect();
    let (collapsed, _) = stage2_collapse(messages.clone(), 4);
    assert!(collapsed.len() <= 6);
    let (clustered, _) = stage3_cluster(messages, 3);
    assert!(clustered.len() <= 6);
}
