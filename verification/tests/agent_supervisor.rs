use std::path::PathBuf;

use claw_runtime::agent_supervisor::{
    job_listed, new_job_record, read_logs_text, roster_of, select_jobs, short_job_id, state_after_exit,
    tail, AgentJobCreate, AgentJobKind, AgentJobRecord, AgentJobState, AgentSupervisor, ROSTER_VERSION,
};

fn request(kind: AgentJobKind, name: Option<&str>) -> AgentJobCreate {
    AgentJobCreate {
        cwd: PathBuf::from("/work"),
        kind,
        prompt: Some("fix the parser".to_string()),
        command: None,
        name: name.map(str::to_string),
        model: Some("sonnet".to_string()),
        agent: None,
        permission_mode: Some("manual".to_string()),
        reasoning_effort: Some("medium".to_string()),
    }
}

fn job(id: &str, cwd: &str, updated_at: &str) -> AgentJobRecord {
    new_job_record(id.to_string(), request(AgentJobKind::Exec, None), cwd.to_string(), updated_at.to_string())
}

#[test]
fn a_new_job_is_queued_and_working() {
    let record = new_job_record(
        "0000abcd".to_string(),
        request(AgentJobKind::Claude, Some("parser-fix")),
        "/work".to_string(),
        "100".to_string(),
    );
    assert_eq!(record.id, "0000abcd");
    assert_eq!(record.kind, AgentJobKind::Claude);
    assert_eq!(record.state, AgentJobState::Working);
    assert_eq!(record.status.as_deref(), Some("queued"));
    assert_eq!(record.started_at, "100");
    assert_eq!(record.updated_at, "100");
    assert_eq!(record.name.as_deref(), Some("parser-fix"));
    assert_eq!(record.reasoning_effort.as_deref(), Some("medium"));
    assert!(record.pid.is_none() && record.exit_code.is_none() && record.output_tail.is_none());
}

#[test]
fn lifecycle_updates_state_and_default_listing_hides_finished_jobs_in_memory() {
    let mut record = job("a", "/work", "1");
    record.mark_running(1234, "2");
    assert_eq!(record.pid, Some(1234));
    assert_eq!(record.status.as_deref(), Some("running"));
    record.set_session("session-1", "3");
    assert_eq!(record.session_id.as_deref(), Some("session-1"));
    record.set_log("hello\n", "4");
    assert_eq!(record.output_tail.as_deref(), Some("hello\n"));
    record.mark_finished(0, Some("hello\n"), "5");
    assert_eq!(record.state, AgentJobState::Done);
    assert_eq!(record.status.as_deref(), Some("exited"));
    assert_eq!(record.exit_code, Some(0));
    assert_eq!(record.completed_at.as_deref(), Some("5"));
    assert!(record.pid.is_none());
    assert_eq!(record.updated_at, "5");

    let hidden = select_jobs(vec![record], None, false);
    assert!(hidden.is_empty());

    let mut record = job("a", "/work", "1");
    record.mark_finished(2, None, "6");
    assert_eq!(record.state, AgentJobState::Failed);
    assert_eq!(select_jobs(vec![record], None, true).len(), 1);

    let mut record = job("a", "/work", "1");
    record.mark_stopped("7");
    assert_eq!(record.state, AgentJobState::Stopped);
    assert_eq!(record.stopped_at.as_deref(), Some("7"));
    record.mark_respawned("8");
    assert_eq!(record.state, AgentJobState::Working);
    assert_eq!(record.status.as_deref(), Some("queued"));
    assert!(record.stopped_at.is_none() && record.completed_at.is_none() && record.exit_code.is_none());
    assert_eq!(select_jobs(vec![record], None, false).len(), 1);
}

#[test]
fn listing_orders_by_update_then_id_and_filters_by_cwd() {
    let jobs = vec![
        job("b", "/work/one", "10"),
        job("c", "/other", "30"),
        job("a", "/work/two", "10"),
        job("d", "/work", "20"),
    ];
    let listed = select_jobs(jobs, Some("/work"), false);
    let ids: Vec<&str> = listed.iter().map(|j| j.id.as_str()).collect();
    assert_eq!(ids, vec!["d", "a", "b"]);
}

#[test]
fn a_finished_job_keeps_only_the_tail_of_its_output() {
    let long: String = "x".repeat(9000) + "END";
    let mut record = job("a", "/w", "1");
    record.mark_finished(1, Some(&long), "2");
    let kept = record.output_tail.unwrap();
    assert_eq!(kept.chars().count(), 8192);
    assert!(kept.ends_with("END"));
    assert_eq!(tail("héllo", 3), "llo");
    assert_eq!(tail("ab", 5), "ab");
}

#[test]
fn roster_lists_every_job() {
    let mut running = job("a", "/w", "1");
    running.mark_running(7, "2");
    let jobs = vec![running, job("b", "/v", "3")];
    let roster = roster_of(&jobs, "9");
    assert_eq!(roster.version, ROSTER_VERSION);
    assert_eq!(roster.updated_at, "9");
    assert_eq!(roster.sessions.len(), 2);
    assert_eq!(roster.sessions[0].id, "a");
    assert_eq!(roster.sessions[0].pid, Some(7));
    assert_eq!(roster.sessions[0].updated_at.as_deref(), Some("2"));
    assert_eq!(roster.sessions[1].cwd, "/v");
    assert_eq!(roster.sessions[1].started_at.as_deref(), Some("3"));
}

#[test]
fn job_ids_are_eight_hex_digits() {
    assert_eq!(short_job_id(0, 0), "00000000");
    assert_eq!(short_job_id(0x1_2345_6789, 0), "23456789");
    assert_eq!(short_job_id(0xff, 0x0f), "000000f0");
    let nanos: u128 = 0xdead_beef_cafe;
    assert_eq!(short_job_id(nanos, 42), format!("{:08x}", (nanos ^ 42) & 0xffff_ffff));
}

#[test]
fn logs_fall_back_to_the_tail_then_a_note() {
    assert_eq!(read_logs_text(Some("log".into()), Some("tail".into())), "log");
    assert_eq!(read_logs_text(None, Some("tail".into())), "tail");
    assert_eq!(read_logs_text(None, None), "No output captured for this session yet.");
}

#[test]
fn exit_codes_and_liveness() {
    assert_eq!(state_after_exit(0), AgentJobState::Done);
    assert_eq!(state_after_exit(-1), AgentJobState::Failed);
    assert!(job_listed(AgentJobState::Blocked, false, false));
    assert!(job_listed(AgentJobState::Done, true, false));
    assert!(!job_listed(AgentJobState::Stopped, false, false));
    assert!(job_listed(AgentJobState::Stopped, false, true));
}

#[test]
fn daemon_status_reports_paths_and_liveness() {
    let supervisor = AgentSupervisor::from_config_dir("/cfg".to_string());
    let status = supervisor.daemon_status("1.2.3", 0, false);
    assert!(!status.reachable);
    assert_eq!(status.version, "1.2.3");
    assert_eq!(status.roster_path, "/cfg/daemon/roster.json");
    assert_eq!(status.socket_dir, "/cfg/daemon");
    assert_eq!(status.log_path, "/cfg/daemon.log");
    assert!(supervisor.daemon_status("1", 2, false).reachable);
    assert!(supervisor.daemon_status("1", 0, true).reachable);
    assert_eq!(supervisor.state_path("x"), "/cfg/jobs/x/state.json");
    assert_eq!(supervisor.config_dir(), "/cfg");
    assert_eq!(supervisor.jobs_dir(), "/cfg/jobs");
    assert_eq!(supervisor.job_dir("ab12"), "/cfg/jobs/ab12");
    assert_eq!(status.config_dir, "/cfg");
}
