//! Layout of the background-agent supervisor's configuration directory,
//! its job states and daemon status.
use vstd::prelude::*;

use std::path::PathBuf;

use crate::paths::{join_text, path_joined};

use crate::session::copy_option_string;
use crate::text::{chars_lt, chars_of, lemma_seq_lt_irreflexive, lemma_seq_lt_total, lemma_seq_lt_transitive, owned, seq_lt, slice_to_vec, string_from_chars};

verus! {

/// The supervisor of background agent jobs, rooted at a configuration
/// directory.
#[derive(Debug)]
pub struct AgentSupervisor {
    config_dir: String,
}

/// Which jobs a listing includes.
#[derive(Debug)]
pub struct AgentListFilter {
    pub cwd: Option<PathBuf>,
    pub include_all: bool,
}

/// What kind of job to run.
#[derive(Debug, Clone, Copy, PartialEq, Eq, Structural)]
pub enum AgentJobKind {
    Claude,
    Exec,
    Interactive,
}

/// Where a job stands.
#[derive(Debug, Clone, Copy, PartialEq, Eq, Structural)]
pub enum AgentJobState {
    Working,
    Blocked,
    Done,
    Failed,
    Stopped,
}

/// A request to create a job.
#[derive(Debug)]
pub struct AgentJobCreate {
    pub cwd: PathBuf,
    pub kind: AgentJobKind,
    pub prompt: Option<String>,
    pub command: Option<String>,
    pub name: Option<String>,
    pub model: Option<String>,
    pub agent: Option<String>,
    pub permission_mode: Option<String>,
    pub reasoning_effort: Option<String>,
}

/// What the daemon reports of itself.
#[derive(Debug, Clone, PartialEq, Eq)]
pub struct AgentDaemonStatus {
    pub reachable: bool,
    pub version: String,
    pub config_dir: String,
    pub socket_dir: String,
    pub roster_path: String,
    pub log_path: String,
    pub live_sessions: usize,
    pub worker_count: usize,
}

/// The state a job ends in after its process exits with `code`.
pub open spec fn finished_state(code: i32) -> AgentJobState {
    if code == 0 {
        AgentJobState::Done
    } else {
        AgentJobState::Failed
    }
}

/// The state a job ends in after its process exits with `exit_code`.
pub fn state_after_exit(exit_code: i32) -> (r: AgentJobState)
    ensures
        r == finished_state(exit_code),
{
    if exit_code == 0 {
        AgentJobState::Done
    } else {
        AgentJobState::Failed
    }
}

/// Whether a job counts as live: working or blocked, or with a process.
pub open spec fn is_live(state: AgentJobState, has_pid: bool) -> bool {
    state == AgentJobState::Working || state == AgentJobState::Blocked || has_pid
}

/// Whether a listing shows a job.
pub fn job_listed(state: AgentJobState, has_pid: bool, include_all: bool) -> (r: bool)
    ensures
        r == (include_all || is_live(state, has_pid)),
{
    include_all || state == AgentJobState::Working || state == AgentJobState::Blocked || has_pid
}

/// The last `max_chars` characters of a text (all of it when shorter).
pub open spec fn tail_text(value: Seq<char>, max_chars: nat) -> Seq<char> {
    if value.len() <= max_chars {
        value
    } else {
        value.skip(value.len() - max_chars)
    }
}

pub fn tail(value: &str, max_chars: usize) -> (r: String)
    ensures
        r@ == tail_text(value@, max_chars as nat),
{
    let chars = chars_of(value);
    if chars.len() <= max_chars {
        return owned(value);
    }
    let start = chars.len() - max_chars;
    let rest = slice_to_vec(&chars, start, chars.len());
    assert(rest@ =~= chars@.skip(start as int));
    string_from_chars(&rest)
}

impl AgentSupervisor {
    pub fn from_config_dir(config_dir: String) -> (r: Self)
        ensures
            r.dir() == config_dir@,
    {
        AgentSupervisor { config_dir }
    }

    /// The configuration directory, as text.
    pub closed spec fn dir(&self) -> Seq<char> {
        self.config_dir@
    }

    pub fn config_dir(&self) -> (r: &str)
        ensures
            r@ == self.dir(),
    {
        self.config_dir.as_str()
    }

    pub fn jobs_dir(&self) -> (r: String)
        ensures
            r@ == path_joined(self.dir(), "jobs"@),
    {
        join_text(self.config_dir.as_str(), "jobs")
    }

    pub fn daemon_dir(&self) -> (r: String)
        ensures
            r@ == path_joined(self.dir(), "daemon"@),
    {
        join_text(self.config_dir.as_str(), "daemon")
    }

    pub fn roster_path(&self) -> (r: String)
        ensures
            r@ == path_joined(path_joined(self.dir(), "daemon"@), "roster.json"@),
    {
        let d = self.daemon_dir();
        join_text(d.as_str(), "roster.json")
    }

    pub fn log_path(&self) -> (r: String)
        ensures
            r@ == path_joined(self.dir(), "daemon.log"@),
    {
        join_text(self.config_dir.as_str(), "daemon.log")
    }

    pub fn job_dir(&self, id: &str) -> (r: String)
        ensures
            r@ == path_joined(path_joined(self.dir(), "jobs"@), id@),
    {
        let d = self.jobs_dir();
        join_text(d.as_str(), id)
    }

    pub fn state_path(&self, id: &str) -> (r: String)
        ensures
            r@ == path_joined(path_joined(path_joined(self.dir(), "jobs"@), id@), "state.json"@),
    {
        let d = self.job_dir(id);
        join_text(d.as_str(), "state.json")
    }

    /// The daemon status given how many live sessions there are and
    /// whether the roster file exists.
    pub fn daemon_status(&self, version: &str, live_sessions: usize, roster_exists: bool) -> (r: AgentDaemonStatus)
        ensures
            r.reachable == (roster_exists || live_sessions > 0),
            r.version@ == version@,
            r.config_dir@ == self.dir(),
            r.socket_dir@ == path_joined(self.dir(), "daemon"@),
            r.roster_path@ == path_joined(path_joined(self.dir(), "daemon"@), "roster.json"@),
            r.log_path@ == path_joined(self.dir(), "daemon.log"@),
            r.live_sessions == live_sessions,
            r.worker_count == 0,
    {
        AgentDaemonStatus {
            reachable: roster_exists || live_sessions > 0,
            version: owned(version),
            config_dir: self.config_dir.clone(),
            socket_dir: self.daemon_dir(),
            roster_path: self.roster_path(),
            log_path: self.log_path(),
            live_sessions,
            worker_count: 0,
        }
    }
}


// ---------------------------------------------------------------------------
// Job records.
// ---------------------------------------------------------------------------

/// What is recorded of a job.
#[derive(Debug)]
pub struct AgentJobRecord {
    pub id: String,
    pub kind: AgentJobKind,
    pub cwd: String,
    pub started_at: String,
    pub updated_at: String,
    pub state: AgentJobState,
    pub pid: Option<u32>,
    pub status: Option<String>,
    pub waiting_for: Option<String>,
    pub session_id: Option<String>,
    pub name: Option<String>,
    pub prompt: Option<String>,
    pub command: Option<String>,
    pub model: Option<String>,
    pub agent: Option<String>,
    pub permission_mode: Option<String>,
    pub reasoning_effort: Option<String>,
    pub output_tail: Option<String>,
    pub exit_code: Option<i32>,
    pub stopped_at: Option<String>,
    pub completed_at: Option<String>,
}

/// How many characters of a job's output its record keeps.
pub const OUTPUT_TAIL_CHARS: usize = 8192;

pub open spec fn opt_text(o: Option<String>) -> Option<Seq<char>> {
    match o {
        Some(s) => Some(s@),
        None => None,
    }
}

/// Two records describe the same job as it was asked for.
pub open spec fn same_request(a: AgentJobRecord, b: AgentJobRecord) -> bool {
    &&& a.id == b.id
    &&& a.kind == b.kind
    &&& a.cwd == b.cwd
    &&& a.started_at == b.started_at
    &&& a.waiting_for == b.waiting_for
    &&& a.name == b.name
    &&& a.prompt == b.prompt
    &&& a.command == b.command
    &&& a.model == b.model
    &&& a.agent == b.agent
    &&& a.permission_mode == b.permission_mode
    &&& a.reasoning_effort == b.reasoning_effort
}

/// The record of a job just created: working and queued, started and
/// updated at `now`, with nothing run yet.
pub open spec fn is_new_record(r: AgentJobRecord, id: Seq<char>, request: AgentJobCreate, cwd: Seq<char>, now: Seq<char>) -> bool {
    &&& r.id@ == id
    &&& r.kind == request.kind
    &&& r.cwd@ == cwd
    &&& r.started_at@ == now
    &&& r.updated_at@ == now
    &&& r.state == AgentJobState::Working
    &&& r.pid is None
    &&& opt_text(r.status) == Some("queued"@)
    &&& r.waiting_for is None
    &&& r.session_id is None
    &&& r.name == request.name
    &&& r.prompt == request.prompt
    &&& r.command == request.command
    &&& r.model == request.model
    &&& r.agent == request.agent
    &&& r.permission_mode == request.permission_mode
    &&& r.reasoning_effort == request.reasoning_effort
    &&& r.output_tail is None
    &&& r.exit_code is None
    &&& r.stopped_at is None
    &&& r.completed_at is None
}

/// The record of a new job with the given id, for a request whose working
/// directory resolves to `cwd`, created at `now`.
pub fn new_job_record(id: String, request: AgentJobCreate, cwd: String, now: String) -> (r: AgentJobRecord)
    ensures
        is_new_record(r, id@, request, cwd@, now@),
{
    AgentJobRecord {
        id,
        kind: request.kind,
        cwd,
        started_at: now.clone(),
        updated_at: now,
        state: AgentJobState::Working,
        pid: None,
        status: Some(owned("queued")),
        waiting_for: None,
        session_id: None,
        name: request.name,
        prompt: request.prompt,
        command: request.command,
        model: request.model,
        agent: request.agent,
        permission_mode: request.permission_mode,
        reasoning_effort: request.reasoning_effort,
        output_tail: None,
        exit_code: None,
        stopped_at: None,
        completed_at: None,
    }
}

impl AgentJobRecord {
    /// Its process started with `pid`: the job is working and running.
    pub fn mark_running(&mut self, pid: u32, now: &str)
        ensures
            same_request(*final(self), *old(self)),
            final(self).pid == Some(pid),
            opt_text(final(self).status) == Some("running"@),
            final(self).state == AgentJobState::Working,
            final(self).updated_at@ == now@,
            final(self).session_id == old(self).session_id,
            final(self).output_tail == old(self).output_tail,
            final(self).exit_code == old(self).exit_code,
            final(self).stopped_at == old(self).stopped_at,
            final(self).completed_at == old(self).completed_at,
    {
        self.pid = Some(pid);
        self.status = Some(owned("running"));
        self.state = AgentJobState::Working;
        self.updated_at = owned(now);
    }

    /// The job's session is known.
    pub fn set_session(&mut self, session_id: &str, now: &str)
        ensures
            same_request(*final(self), *old(self)),
            opt_text(final(self).session_id) == Some(session_id@),
            final(self).updated_at@ == now@,
            final(self).pid == old(self).pid,
            final(self).status == old(self).status,
            final(self).state == old(self).state,
            final(self).output_tail == old(self).output_tail,
            final(self).exit_code == old(self).exit_code,
            final(self).stopped_at == old(self).stopped_at,
            final(self).completed_at == old(self).completed_at,
    {
        self.session_id = Some(owned(session_id));
        self.updated_at = owned(now);
    }

    /// The job's log now reads `log`: the record keeps its tail.
    pub fn set_log(&mut self, log: &str, now: &str)
        ensures
            same_request(*final(self), *old(self)),
            opt_text(final(self).output_tail) == Some(tail_text(log@, OUTPUT_TAIL_CHARS as nat)),
            final(self).updated_at@ == now@,
            final(self).pid == old(self).pid,
            final(self).status == old(self).status,
            final(self).state == old(self).state,
            final(self).session_id == old(self).session_id,
            final(self).exit_code == old(self).exit_code,
            final(self).stopped_at == old(self).stopped_at,
            final(self).completed_at == old(self).completed_at,
    {
        self.output_tail = Some(tail(log, OUTPUT_TAIL_CHARS));
        self.updated_at = owned(now);
    }

    /// Its process exited with `exit_code`: done on 0, failed otherwise;
    /// the tail of the output, when given, is kept.
    pub fn mark_finished(&mut self, exit_code: i32, output: Option<&str>, now: &str)
        ensures
            same_request(*final(self), *old(self)),
            final(self).pid is None,
            final(self).exit_code == Some(exit_code),
            opt_text(final(self).completed_at) == Some(now@),
            opt_text(final(self).status) == Some("exited"@),
            final(self).state == finished_state(exit_code),
            opt_text(final(self).output_tail) == match output {
                Some(o) => Some(tail_text(o@, OUTPUT_TAIL_CHARS as nat)),
                None => opt_text(old(self).output_tail),
            },
            final(self).updated_at@ == now@,
            final(self).session_id == old(self).session_id,
            final(self).stopped_at == old(self).stopped_at,
    {
        self.pid = None;
        self.exit_code = Some(exit_code);
        self.completed_at = Some(owned(now));
        self.status = Some(owned("exited"));
        self.state = state_after_exit(exit_code);
        if let Some(o) = output {
            self.output_tail = Some(tail(o, OUTPUT_TAIL_CHARS));
        }
        self.updated_at = owned(now);
    }

    /// The job was stopped.
    pub fn mark_stopped(&mut self, now: &str)
        ensures
            same_request(*final(self), *old(self)),
            final(self).pid is None,
            final(self).state == AgentJobState::Stopped,
            opt_text(final(self).status) == Some("stopped"@),
            opt_text(final(self).stopped_at) == Some(now@),
            final(self).updated_at@ == now@,
            final(self).session_id == old(self).session_id,
            final(self).output_tail == old(self).output_tail,
            final(self).exit_code == old(self).exit_code,
            final(self).completed_at == old(self).completed_at,
    {
        self.pid = None;
        self.state = AgentJobState::Stopped;
        self.status = Some(owned("stopped"));
        self.stopped_at = Some(owned(now));
        self.updated_at = owned(now);
    }

    /// The job is queued to run again: what its last run left is cleared.
    pub fn mark_respawned(&mut self, now: &str)
        ensures
            same_request(*final(self), *old(self)),
            final(self).pid is None,
            final(self).state == AgentJobState::Working,
            opt_text(final(self).status) == Some("queued"@),
            final(self).stopped_at is None,
            final(self).completed_at is None,
            final(self).exit_code is None,
            final(self).updated_at@ == now@,
            final(self).session_id == old(self).session_id,
            final(self).output_tail == old(self).output_tail,
    {
        self.pid = None;
        self.state = AgentJobState::Working;
        self.status = Some(owned("queued"));
        self.stopped_at = None;
        self.completed_at = None;
        self.exit_code = None;
        self.updated_at = owned(now);
    }
}

/// What reading a job's logs gives: the log file when it could be read,
/// else the kept tail of the output, else a note that there is none.
pub open spec fn logs_text(log: Option<Seq<char>>, output_tail: Option<Seq<char>>) -> Seq<char> {
    match log {
        Some(l) => l,
        None => match output_tail {
            Some(t) => t,
            None => "No output captured for this session yet."@,
        },
    }
}

pub fn read_logs_text(log: Option<String>, output_tail: Option<String>) -> (r: String)
    ensures
        r@ == logs_text(opt_text(log), opt_text(output_tail)),
{
    match log {
        Some(l) => l,
        None => match output_tail {
            Some(t) => t,
            None => owned("No output captured for this session yet."),
        },
    }
}


// ---------------------------------------------------------------------------
// Listing.
// ---------------------------------------------------------------------------

/// `a` may be listed before `b`: the most recently updated first, then
/// by id.
pub open spec fn listed_before(a: AgentJobRecord, b: AgentJobRecord) -> bool {
    seq_lt(b.updated_at@, a.updated_at@) || (a.updated_at@ == b.updated_at@ && !seq_lt(b.id@, a.id@))
}

/// `a` must be listed before `b`.
pub open spec fn strictly_before(a: AgentJobRecord, b: AgentJobRecord) -> bool {
    seq_lt(b.updated_at@, a.updated_at@) || (a.updated_at@ == b.updated_at@ && seq_lt(a.id@, b.id@))
}

/// Whether a listing shows a job: under the working directory asked for,
/// if any, and live unless every job was asked for.
pub open spec fn shown(r: AgentJobRecord, cwd: Option<Seq<char>>, include_all: bool) -> bool {
    &&& match cwd {
        Some(c) => crate::text::is_prefix(c, r.cwd@),
        None => true,
    }
    &&& (include_all || is_live(r.state, r.pid is Some))
}

pub open spec fn sorted_for_listing(s: Seq<AgentJobRecord>) -> bool {
    forall|i: int, j: int| 0 <= i < j < s.len() ==> listed_before(#[trigger] s[i], #[trigger] s[j])
}

proof fn lemma_not_strictly_before(a: AgentJobRecord, b: AgentJobRecord)
    ensures
        !strictly_before(a, b) ==> listed_before(b, a),
        strictly_before(a, b) ==> listed_before(a, b),
{
    if a.updated_at@ != b.updated_at@ {
        lemma_seq_lt_total(a.updated_at@, b.updated_at@);
    }
    if seq_lt(a.id@, b.id@) && seq_lt(b.id@, a.id@) {
        lemma_seq_lt_transitive(a.id@, b.id@, a.id@);
        lemma_seq_lt_irreflexive(a.id@);
    }
}

proof fn lemma_listed_before_transitive(a: AgentJobRecord, b: AgentJobRecord, c: AgentJobRecord)
    requires
        listed_before(a, b),
        listed_before(b, c),
    ensures
        listed_before(a, c),
{
    let (ua, ub, uc) = (a.updated_at@, b.updated_at@, c.updated_at@);
    if seq_lt(ub, ua) && seq_lt(uc, ub) {
        lemma_seq_lt_transitive(uc, ub, ua);
    } else if seq_lt(ub, ua) {
    } else if seq_lt(uc, ub) {
    } else {
        if seq_lt(c.id@, a.id@) {
            if a.id@ != b.id@ {
                lemma_seq_lt_total(a.id@, b.id@);
                if seq_lt(a.id@, b.id@) {
                    if b.id@ != c.id@ {
                        lemma_seq_lt_total(b.id@, c.id@);
                        lemma_seq_lt_transitive(a.id@, b.id@, c.id@);
                        lemma_seq_lt_transitive(c.id@, a.id@, c.id@);
                        lemma_seq_lt_irreflexive(c.id@);
                    } else {
                        lemma_seq_lt_transitive(c.id@, a.id@, c.id@);
                        lemma_seq_lt_irreflexive(c.id@);
                    }
                }
            } else {
                if b.id@ != c.id@ {
                    lemma_seq_lt_total(b.id@, c.id@);
                    lemma_seq_lt_transitive(b.id@, c.id@, b.id@);
                    lemma_seq_lt_irreflexive(b.id@);
                } else {
                    lemma_seq_lt_irreflexive(c.id@);
                }
            }
        }
    }
}

fn strictly_before_exec(a: &AgentJobRecord, b: &AgentJobRecord) -> (r: bool)
    ensures
        r == strictly_before(*a, *b),
{
    let au = chars_of(a.updated_at.as_str());
    let bu = chars_of(b.updated_at.as_str());
    if chars_lt(&bu, &au) {
        return true;
    }
    if !crate::text::chars_eq(&au, &bu) {
        return false;
    }
    chars_lt(&chars_of(a.id.as_str()), &chars_of(b.id.as_str()))
}

fn is_shown(r: &AgentJobRecord, cwd: Option<&str>, include_all: bool) -> (b: bool)
    ensures
        b == shown(*r, match cwd {
            Some(c) => Some(c@),
            None => None,
        }, include_all),
{
    let under = match cwd {
        Some(c) => crate::text::starts_with_str(&chars_of(r.cwd.as_str()), c),
        None => true,
    };
    under && job_listed(r.state, r.pid.is_some(), include_all)
}

/// Inserts a record where the listing order puts it.
fn insert_sorted(out: &mut Vec<AgentJobRecord>, x: AgentJobRecord)
    requires
        sorted_for_listing(old(out)@),
    ensures
        sorted_for_listing(final(out)@),
        final(out)@.to_multiset() == old(out)@.to_multiset().insert(x),
{
    let mut p: usize = 0;
    while p < out.len()
        invariant
            p <= out@.len(),
            out@ == old(out)@,
            forall|k: int| 0 <= k < p ==> !strictly_before(x, #[trigger] out@[k]),
        ensures
            p <= out@.len(),
            out@ == old(out)@,
            forall|k: int| 0 <= k < p ==> !strictly_before(x, #[trigger] out@[k]),
            p < out@.len() ==> strictly_before(x, out@[p as int]),
        decreases out.len() - p,
    {
        if strictly_before_exec(&x, &out[p]) {
            break;
        }
        p += 1;
    }
    let ghost before = out@;
    let ghost xg = x;
    proof {
        before.to_multiset_ensures();
        vstd::seq_lib::to_multiset_insert(before, p as int, x);
    }
    out.insert(p, x);
    proof {
        assert(out@ == before.insert(p as int, xg));
        assert forall|i: int, j: int| 0 <= i < j < out@.len() implies listed_before(
            #[trigger] out@[i],
            #[trigger] out@[j],
        ) by {
            let n = out@;
            if j < p {
                assert(n[i] == before[i] && n[j] == before[j]);
            } else if j == p {
                assert(n[i] == before[i]);
                assert(n[j] == xg);
                assert(!strictly_before(xg, before[i]));
                lemma_not_strictly_before(xg, before[i]);
            } else if i == p {
                assert(n[j] == before[j - 1]);
                assert(n[i] == xg);
                assert(p < before.len());
                lemma_not_strictly_before(xg, before[p as int]);
                if j - 1 > p {
                    assert(listed_before(before[p as int], before[j - 1]));
                    lemma_listed_before_transitive(xg, before[p as int], before[j - 1]);
                }
            } else if i < p {
                assert(n[i] == before[i] && n[j] == before[j - 1]);
                assert(listed_before(before[i], before[j - 1]));
            } else {
                assert(n[i] == before[i - 1] && n[j] == before[j - 1]);
                assert(listed_before(before[i - 1], before[j - 1]));
            }
        }
    }
}

/// The jobs a listing shows, in listing order: the most recently updated
/// first, then by id.
pub fn select_jobs(records: Vec<AgentJobRecord>, cwd: Option<&str>, include_all: bool) -> (r: Vec<AgentJobRecord>)
    ensures
        sorted_for_listing(r@),
        r@.to_multiset() == records@.filter(
            |x: AgentJobRecord|
                shown(x, match cwd {
                    Some(c) => Some(c@),
                    None => None,
                }, include_all),
        ).to_multiset(),
{
    let ghost pred = |x: AgentJobRecord|
        shown(x, match cwd {
            Some(c) => Some(c@),
            None => None,
        }, include_all);
    let ghost all = records@;
    let mut rest = records;
    let mut out: Vec<AgentJobRecord> = Vec::new();
    proof {
        assert(all.take(all.len() as int) =~= all);
        out@.to_multiset_ensures();
        vstd::multiset::lemma_multiset_empty_len(out@.to_multiset());
        assert(out@.to_multiset() =~= vstd::multiset::Multiset::empty());
        assert(out@.to_multiset().add(all.filter(pred).to_multiset()) =~= all.filter(pred).to_multiset());
    }
    while rest.len() > 0
        invariant
            rest@ == all.take(rest@.len() as int),
            rest@.len() <= all.len(),
            all == records@,
            pred == (|x: AgentJobRecord|
                shown(x, match cwd {
                    Some(c) => Some(c@),
                    None => None,
                }, include_all)),
            sorted_for_listing(out@),
            out@.to_multiset().add(rest@.filter(pred).to_multiset()) == all.filter(pred).to_multiset(),
        decreases rest.len(),
    {
        let ghost r0 = rest@;
        let x = rest.pop().unwrap();
        let ghost xg = x;
        proof {
            reveal(Seq::filter);
            assert(r0.len() > 0);
            assert(r0.filter(pred) == (if pred(r0.last()) {
                r0.drop_last().filter(pred).push(r0.last())
            } else {
                r0.drop_last().filter(pred)
            }));
            assert(r0.drop_last() == rest@);
            assert(rest@ =~= all.take(rest@.len() as int));
            assert(r0.last() == x);
            rest@.filter(pred).to_multiset_ensures();
        }
        if is_shown(&x, cwd, include_all) {
            let ghost o0 = out@;
            insert_sorted(&mut out, x);
            proof {
                assert(pred(xg));
                assert(r0.filter(pred) == rest@.filter(pred).push(xg));
                assert(out@.to_multiset().add(rest@.filter(pred).to_multiset()) =~= o0.to_multiset().add(
                    r0.filter(pred).to_multiset(),
                ));
            }
        } else {
            proof {
                assert(!pred(xg));
                assert(r0.filter(pred) == rest@.filter(pred));
            }
        }
    }
    proof {
        reveal(Seq::filter);
        assert(rest@.filter(pred) =~= Seq::<AgentJobRecord>::empty());
        rest@.filter(pred).to_multiset_ensures();
        vstd::multiset::lemma_multiset_empty_len(rest@.filter(pred).to_multiset());
        assert(out@.to_multiset().add(vstd::multiset::Multiset::empty()) =~= out@.to_multiset());
    }
    out
}


// ---------------------------------------------------------------------------
// The roster.
// ---------------------------------------------------------------------------

/// The version of the roster's format.
pub const ROSTER_VERSION: u32 = 1;

/// One job as the roster lists it.
#[derive(Debug)]
pub struct AgentRosterEntry {
    pub id: String,
    pub state: AgentJobState,
    pub cwd: String,
    pub pid: Option<u32>,
    pub name: Option<String>,
    pub started_at: Option<String>,
    pub updated_at: Option<String>,
}

/// Every job the supervisor knows, as written for the daemon.
#[derive(Debug)]
pub struct AgentRoster {
    pub version: u32,
    pub updated_at: String,
    pub sessions: Vec<AgentRosterEntry>,
}

/// A roster entry lists a job.
pub open spec fn lists(e: AgentRosterEntry, j: AgentJobRecord) -> bool {
    &&& e.id@ == j.id@
    &&& e.state == j.state
    &&& e.cwd@ == j.cwd@
    &&& e.pid == j.pid
    &&& opt_text(e.name) == opt_text(j.name)
    &&& opt_text(e.started_at) == Some(j.started_at@)
    &&& opt_text(e.updated_at) == Some(j.updated_at@)
}

fn roster_entry(j: &AgentJobRecord) -> (r: AgentRosterEntry)
    ensures
        lists(r, *j),
{
    AgentRosterEntry {
        id: j.id.clone(),
        state: j.state,
        cwd: j.cwd.clone(),
        pid: j.pid,
        name: copy_option_string(&j.name),
        started_at: Some(j.started_at.clone()),
        updated_at: Some(j.updated_at.clone()),
    }
}

/// The roster of the given jobs, entry by entry, written at `now`.
pub fn roster_of(jobs: &Vec<AgentJobRecord>, now: &str) -> (r: AgentRoster)
    ensures
        r.version == ROSTER_VERSION,
        r.updated_at@ == now@,
        r.sessions@.len() == jobs@.len(),
        forall|i: int| 0 <= i < jobs@.len() ==> lists(#[trigger] r.sessions@[i], jobs@[i]),
{
    let mut sessions: Vec<AgentRosterEntry> = Vec::new();
    let mut i: usize = 0;
    while i < jobs.len()
        invariant
            i <= jobs@.len(),
            sessions@.len() == i,
            forall|k: int| 0 <= k < i ==> lists(#[trigger] sessions@[k], jobs@[k]),
        decreases jobs.len() - i,
    {
        sessions.push(roster_entry(&jobs[i]));
        i += 1;
    }
    AgentRoster { version: ROSTER_VERSION, updated_at: owned(now), sessions }
}


/// A job id from the clock's nanoseconds and the process id: the low 32
/// bits of their exclusive or, in eight hexadecimal digits.
pub fn short_job_id(nanos: u128, pid: u32) -> (r: String)
    ensures
        r@ == crate::file_ops::hex_padded(((nanos ^ (pid as u128)) & 0xffff_ffffu128) as nat, 8),
{
    let v: u128 = (nanos ^ (pid as u128)) & 0xffff_ffffu128;
    assert(v <= 0xffff_ffffu128) by (bit_vector)
        requires
            v == (nanos ^ (pid as u128)) & 0xffff_ffffu128,
    ;
    let mut out: Vec<char> = Vec::new();
    crate::file_ops::push_hex_padded(&mut out, v as u64, 8);
    assert(out@ =~= crate::file_ops::hex_padded(v as nat, 8));
    string_from_chars(&out)
}


/// A job that finished, failed or was stopped, and has no process, is left
/// out of a default listing and shown when every job is asked for (under
/// the directory asked for); a working job is always shown there.
pub proof fn law_default_listing_shows_live_jobs(r: AgentJobRecord, cwd: Option<Seq<char>>)
    ensures
        r.pid is None && (r.state == AgentJobState::Done || r.state == AgentJobState::Failed || r.state
            == AgentJobState::Stopped) ==> !shown(r, cwd, false),
        shown(r, cwd, true) == match cwd {
            Some(c) => crate::text::is_prefix(c, r.cwd@),
            None => true,
        },
        r.state == AgentJobState::Working ==> shown(r, cwd, false) == shown(r, cwd, true),
{
}

} // verus!
