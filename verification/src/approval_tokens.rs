//! Approval tokens: structured permission grants with a delegation chain and
//! an audit trail.
use vstd::prelude::*;

use crate::text::{chars_of, chars_eq, hex_string, owned, push_hex, push_str, string_from_chars};

verus! {

// ---------------------------------------------------------------------------
// Clock.
// ---------------------------------------------------------------------------

/// Seconds since the Unix epoch, read from the system clock.
/// Trusted: `SystemTime::now().duration_since(UNIX_EPOCH)`; nothing is
/// promised of the value, which the clock decides. A clock set before the
/// epoch reads as 0.
#[verifier::external_body]
fn current_timestamp() -> (r: u64) {
    std::time::SystemTime::now().duration_since(std::time::UNIX_EPOCH).unwrap_or_default().as_secs()
}

/// Nanoseconds since the Unix epoch, read from the system clock.
/// Trusted like [`current_timestamp`]; nothing is promised of the value.
#[verifier::external_body]
fn current_timestamp_nanos() -> (r: u128) {
    std::time::SystemTime::now().duration_since(std::time::UNIX_EPOCH).unwrap_or_default().as_nanos()
}

/// Token text derived from a clock reading in nanoseconds.
pub open spec fn token_for(nanos: nat) -> Seq<char> {
    "approval_"@ + hex_string(nanos)
}

pub fn token_from_nanos(nanos: u128) -> (r: String)
    ensures
        r@ == token_for(nanos as nat),
{
    let mut v: Vec<char> = Vec::new();
    push_str(&mut v, "approval_");
    push_hex(&mut v, nanos);
    string_from_chars(&v)
}

/// A fresh token, `approval_` followed by the clock in hexadecimal.
fn generate_token() -> (r: String)
    ensures
        exists|n: nat| r@ == token_for(n),
{
    let nanos = current_timestamp_nanos();
    token_from_nanos(nanos)
}

// ---------------------------------------------------------------------------
// Scope and delegation.
// ---------------------------------------------------------------------------

/// An approval scope defines what the token authorizes.
#[derive(Debug, Clone)]
pub struct ApprovalScope {
    pub policy: String,
    pub action: String,
    pub repository: Option<String>,
    pub branch: Option<String>,
    pub paths: Vec<String>,
    pub max_uses: u32,
}

impl ApprovalScope {
    pub fn new(policy: &str, action: &str) -> (r: Self)
        ensures
            r.policy@ == policy@,
            r.action@ == action@,
            r.repository is None,
            r.branch is None,
            r.paths@.len() == 0,
            r.max_uses == 1,
    {
        ApprovalScope {
            policy: owned(policy),
            action: owned(action),
            repository: None,
            branch: None,
            paths: Vec::new(),
            max_uses: 1,
        }
    }

    pub fn with_repository(self, repo: &str) -> (r: Self)
        ensures
            r.repository matches Some(x) && x@ == repo@,
            r.policy == self.policy,
            r.action == self.action,
            r.branch == self.branch,
            r.paths == self.paths,
            r.max_uses == self.max_uses,
    {
        let mut s = self;
        s.repository = Some(owned(repo));
        s
    }

    pub fn with_branch(self, branch: &str) -> (r: Self)
        ensures
            r.branch matches Some(x) && x@ == branch@,
            r.policy == self.policy,
            r.action == self.action,
            r.repository == self.repository,
            r.paths == self.paths,
            r.max_uses == self.max_uses,
    {
        let mut s = self;
        s.branch = Some(owned(branch));
        s
    }

    pub fn with_paths(self, paths: Vec<String>) -> (r: Self)
        ensures
            r.paths == paths,
            r.policy == self.policy,
            r.action == self.action,
            r.repository == self.repository,
            r.branch == self.branch,
            r.max_uses == self.max_uses,
    {
        let mut s = self;
        s.paths = paths;
        s
    }

    pub fn with_max_uses(self, max: u32) -> (r: Self)
        ensures
            r.max_uses == max,
            r.policy == self.policy,
            r.action == self.action,
            r.repository == self.repository,
            r.branch == self.branch,
            r.paths == self.paths,
    {
        let mut s = self;
        s.max_uses = max;
        s
    }
}

/// A hop in the delegation chain.
#[derive(Debug, Clone)]
pub struct ApprovalDelegationHop {
    pub actor: String,
    pub reason: String,
    pub session_id: Option<String>,
    pub timestamp: u64,
}

impl ApprovalDelegationHop {
    pub fn new(actor: &str, reason: &str) -> (r: Self)
        ensures
            r.actor@ == actor@,
            r.reason@ == reason@,
            r.session_id is None,
    {
        ApprovalDelegationHop {
            actor: owned(actor),
            reason: owned(reason),
            session_id: None,
            timestamp: current_timestamp(),
        }
    }

    pub fn with_session_id(self, session_id: &str) -> (r: Self)
        ensures
            r.session_id matches Some(x) && x@ == session_id@,
            r.actor == self.actor,
            r.reason == self.reason,
            r.timestamp == self.timestamp,
    {
        let mut s = self;
        s.session_id = Some(owned(session_id));
        s
    }
}

/// Status of an approval token.
#[derive(Debug, Clone, Copy, PartialEq, Eq, Structural)]
pub enum ApprovalTokenStatus {
    Pending,
    Granted,
    Revoked,
    Expired,
    Exhausted,
}

// ---------------------------------------------------------------------------
// Grants.
// ---------------------------------------------------------------------------

/// An approval token grant.
#[derive(Debug, Clone)]
pub struct ApprovalTokenGrant {
    pub token: String,
    pub scope: ApprovalScope,
    pub status: ApprovalTokenStatus,
    pub granted_at: u64,
    pub expires_at: Option<u64>,
    pub uses_remaining: u32,
    pub delegation_chain: Vec<ApprovalDelegationHop>,
    /// Free-form key/value annotations, in insertion order.
    pub metadata: Vec<(String, String)>,
}

/// Whether a grant may be used at time `now`: granted, not past its expiry,
/// and with uses left.
pub open spec fn valid_at(g: ApprovalTokenGrant, now: u64) -> bool {
    &&& g.status == ApprovalTokenStatus::Granted
    &&& match g.expires_at {
        Some(e) => now <= e,
        None => true,
    }
    &&& g.uses_remaining > 0
}

/// The grant after one use: one use fewer, exhausted when none are left.
pub open spec fn after_use(g: ApprovalTokenGrant) -> ApprovalTokenGrant {
    ApprovalTokenGrant {
        uses_remaining: (g.uses_remaining - 1) as u32,
        status: if g.uses_remaining - 1 == 0 {
            ApprovalTokenStatus::Exhausted
        } else {
            g.status
        },
        ..g
    }
}

impl ApprovalTokenGrant {
    pub fn pending(scope: ApprovalScope) -> (r: Self)
        ensures
            exists|n: nat| r.token@ == token_for(n),
            r.scope == scope,
            r.status == ApprovalTokenStatus::Pending,
            r.expires_at is None,
            r.uses_remaining == scope.max_uses,
            r.delegation_chain@.len() == 0,
            r.metadata@.len() == 0,
    {
        let token = generate_token();
        let max_uses = scope.max_uses;
        ApprovalTokenGrant {
            token,
            scope,
            status: ApprovalTokenStatus::Pending,
            granted_at: current_timestamp(),
            expires_at: None,
            uses_remaining: max_uses,
            delegation_chain: Vec::new(),
            metadata: Vec::new(),
        }
    }

    /// Grants the token and records the approver as a delegation hop.
    pub fn granted(self, approver: &str, reason: &str) -> (r: Self)
        ensures
            r.status == ApprovalTokenStatus::Granted,
            r.delegation_chain@.len() == self.delegation_chain@.len() + 1,
            r.delegation_chain@.take(self.delegation_chain@.len() as int) == self.delegation_chain@,
            r.delegation_chain@.last().actor@ == approver@,
            r.delegation_chain@.last().reason@ == reason@,
            r.delegation_chain@.last().session_id is None,
            r.token == self.token,
            r.scope == self.scope,
            r.granted_at == self.granted_at,
            r.expires_at == self.expires_at,
            r.uses_remaining == self.uses_remaining,
            r.metadata == self.metadata,
    {
        let mut s = self;
        s.status = ApprovalTokenStatus::Granted;
        s.delegation_chain.push(ApprovalDelegationHop::new(approver, reason));
        assert(s.delegation_chain@.take(self.delegation_chain@.len() as int) =~= self.delegation_chain@);
        s
    }

    pub fn approve(&mut self)
        ensures
            *final(self) == (ApprovalTokenGrant { status: ApprovalTokenStatus::Granted, ..*old(self) }),
    {
        self.status = ApprovalTokenStatus::Granted;
    }

    pub fn revoke(&mut self)
        ensures
            *final(self) == (ApprovalTokenGrant { status: ApprovalTokenStatus::Revoked, ..*old(self) }),
    {
        self.status = ApprovalTokenStatus::Revoked;
    }

    pub fn set_expires_at(&mut self, epoch_seconds: u64)
        ensures
            *final(self) == (ApprovalTokenGrant { expires_at: Some(epoch_seconds), ..*old(self) }),
    {
        self.expires_at = Some(epoch_seconds);
    }

    pub fn set_max_uses(&mut self, max: u32)
        ensures
            final(self).scope == (ApprovalScope { max_uses: max, ..old(self).scope }),
            final(self).uses_remaining == max,
            final(self).token == old(self).token,
            final(self).status == old(self).status,
            final(self).granted_at == old(self).granted_at,
            final(self).expires_at == old(self).expires_at,
            final(self).delegation_chain == old(self).delegation_chain,
            final(self).metadata == old(self).metadata,
    {
        self.scope.max_uses = max;
        self.uses_remaining = max;
    }

    pub fn add_delegation_hop(&mut self, hop: ApprovalDelegationHop)
        ensures
            final(self).delegation_chain@ == old(self).delegation_chain@.push(hop),
            final(self).token == old(self).token,
            final(self).scope == old(self).scope,
            final(self).status == old(self).status,
            final(self).granted_at == old(self).granted_at,
            final(self).expires_at == old(self).expires_at,
            final(self).uses_remaining == old(self).uses_remaining,
            final(self).metadata == old(self).metadata,
    {
        self.delegation_chain.push(hop);
    }

    /// Whether the grant may be used at time `now`.
    pub fn is_valid_at(&self, now: u64) -> (r: bool)
        ensures
            r == valid_at(*self, now),
    {
        if self.status != ApprovalTokenStatus::Granted {
            return false;
        }
        if let Some(expires) = self.expires_at {
            if now > expires {
                return false;
            }
        }
        self.uses_remaining > 0
    }

    /// Whether the grant may be used now, by the system clock.
    pub fn is_valid(&self) -> (r: bool)
        ensures
            exists|now: u64| r == valid_at(*self, now),
            self.status != ApprovalTokenStatus::Granted ==> !r,
            self.uses_remaining == 0 ==> !r,
            self.status == ApprovalTokenStatus::Granted && self.expires_at is None
                && self.uses_remaining > 0 ==> r,
    {
        let now = current_timestamp();
        self.is_valid_at(now)
    }

    /// Uses the grant once at time `now`.
    pub fn consume_use_at(&mut self, now: u64) -> (r: Result<(), &'static str>)
        ensures
            valid_at(*old(self), now) ==> r is Ok && *final(self) == after_use(*old(self)),
            !valid_at(*old(self), now) ==> (r matches Err(m) && m@ == "Token is not valid"@ && *final(self) == *old(self)),
    {
        if !self.is_valid_at(now) {
            return Err("Token is not valid");
        }
        self.uses_remaining = self.uses_remaining - 1;
        if self.uses_remaining == 0 {
            self.status = ApprovalTokenStatus::Exhausted;
        }
        Ok(())
    }

    /// Uses the grant once, by the system clock.
    pub fn consume_use(&mut self) -> (r: Result<(), &'static str>)
        ensures
            exists|now: u64|
                {
                    &&& valid_at(*old(self), now) ==> r is Ok && *final(self) == after_use(*old(self))
                    &&& !valid_at(*old(self), now) ==> (r matches Err(m) && m@ == "Token is not valid"@
                        && *final(self) == *old(self))
                },
    {
        let now = current_timestamp();
        self.consume_use_at(now)
    }

    pub fn delegation_chain(&self) -> (r: &[ApprovalDelegationHop])
        ensures
            r@ == self.delegation_chain@,
    {
        self.delegation_chain.as_slice()
    }
}

// ---------------------------------------------------------------------------
// Audit trail and ledger.
// ---------------------------------------------------------------------------

/// Audit log entry for token operations.
#[derive(Debug, Clone)]
pub struct ApprovalTokenAudit {
    pub token: String,
    pub action: TokenAuditAction,
    pub actor: String,
    pub timestamp: u64,
    /// Key/value details, in insertion order.
    pub details: Vec<(String, String)>,
}

#[derive(Debug, Clone, Copy, PartialEq, Eq, Structural)]
pub enum TokenAuditAction {
    Created,
    Granted,
    Revoked,
    Consumed,
    Expired,
}

/// Errors in token operations.
#[derive(Debug, Clone, Copy, PartialEq, Eq, Structural)]
pub enum ApprovalTokenError {
    TokenNotFound,
    TokenExpired,
    TokenExhausted,
    TokenRevoked,
    InvalidToken,
}

/// Keyed entries of a ledger: no token is stored twice.
pub open spec fn keys_unique(e: Seq<(String, ApprovalTokenGrant)>) -> bool {
    forall|i: int, j: int|
        0 <= i < e.len() && 0 <= j < e.len() && i != j ==> #[trigger] e[i].0@ != #[trigger] e[j].0@
}

/// The map from token text to grant that keyed entries stand for.
pub open spec fn entries_map(e: Seq<(String, ApprovalTokenGrant)>) -> Map<Seq<char>, ApprovalTokenGrant> {
    Map::new(
        |k: Seq<char>| exists|i: int| 0 <= i < e.len() && e[i].0@ == k,
        |k: Seq<char>| e[choose|i: int| 0 <= i < e.len() && e[i].0@ == k].1,
    )
}

proof fn lemma_entry(e: Seq<(String, ApprovalTokenGrant)>, i: int)
    requires
        keys_unique(e),
        0 <= i < e.len(),
    ensures
        entries_map(e).contains_key(e[i].0@),
        entries_map(e)[e[i].0@] == e[i].1,
{
    let k = e[i].0@;
    assert(exists|j: int| 0 <= j < e.len() && e[j].0@ == k);
    let c = choose|j: int| 0 <= j < e.len() && e[j].0@ == k;
    if c != i {
        assert(e[c].0@ != e[i].0@);
    }
}

proof fn lemma_update_entry(e: Seq<(String, ApprovalTokenGrant)>, i: int, p: (String, ApprovalTokenGrant))
    requires
        keys_unique(e),
        0 <= i < e.len(),
        e[i].0@ == p.0@,
    ensures
        keys_unique(e.update(i, p)),
        entries_map(e.update(i, p)) == entries_map(e).insert(p.0@, p.1),
{
    let e2 = e.update(i, p);
    assert forall|a: int, b: int| 0 <= a < e2.len() && 0 <= b < e2.len() && a != b implies #[trigger] e2[a].0@
        != #[trigger] e2[b].0@ by {
        assert(e2[a].0@ == e[a].0@);
        assert(e2[b].0@ == e[b].0@);
        assert(e[a].0@ != e[b].0@);
    }
    let m = entries_map(e).insert(p.0@, p.1);
    assert forall|k: Seq<char>| entries_map(e2).contains_key(k) <==> m.contains_key(k) by {
        if entries_map(e2).contains_key(k) {
            let j = choose|j: int| 0 <= j < e2.len() && e2[j].0@ == k;
            assert(e[j].0@ == k);
            lemma_entry(e, j);
        }
        if entries_map(e).contains_key(k) {
            let j = choose|j: int| 0 <= j < e.len() && e[j].0@ == k;
            assert(e2[j].0@ == k);
            lemma_entry(e2, j);
        }
        if k == p.0@ {
            lemma_entry(e2, i);
        }
    }
    assert forall|k: Seq<char>| #[trigger] entries_map(e2).contains_key(k) implies entries_map(e2)[k] == m[k] by {
        let j = choose|j: int| 0 <= j < e2.len() && e2[j].0@ == k;
        lemma_entry(e2, j);
        if j != i {
            assert(e[j].0@ == k);
            lemma_entry(e, j);
        }
    }
    assert(entries_map(e2) =~= m);
}

proof fn lemma_push_entry(e: Seq<(String, ApprovalTokenGrant)>, p: (String, ApprovalTokenGrant))
    requires
        keys_unique(e),
        forall|j: int| 0 <= j < e.len() ==> e[j].0@ != p.0@,
    ensures
        keys_unique(e.push(p)),
        entries_map(e.push(p)) == entries_map(e).insert(p.0@, p.1),
{
    let e2 = e.push(p);
    assert forall|a: int, b: int| 0 <= a < e2.len() && 0 <= b < e2.len() && a != b implies #[trigger] e2[a].0@
        != #[trigger] e2[b].0@ by {
        if a < e.len() && b < e.len() {
            assert(e[a].0@ != e[b].0@);
        }
    }
    let m = entries_map(e).insert(p.0@, p.1);
    assert forall|k: Seq<char>| entries_map(e2).contains_key(k) <==> m.contains_key(k) by {
        if entries_map(e2).contains_key(k) {
            let j = choose|j: int| 0 <= j < e2.len() && e2[j].0@ == k;
            if j < e.len() {
                assert(e[j].0@ == k);
                lemma_entry(e, j);
            }
        }
        if entries_map(e).contains_key(k) {
            let j = choose|j: int| 0 <= j < e.len() && e[j].0@ == k;
            assert(e2[j].0@ == k);
            lemma_entry(e2, j);
        }
        if k == p.0@ {
            lemma_entry(e2, e.len() as int);
        }
    }
    assert forall|k: Seq<char>| #[trigger] entries_map(e2).contains_key(k) implies entries_map(e2)[k] == m[k] by {
        let j = choose|j: int| 0 <= j < e2.len() && e2[j].0@ == k;
        lemma_entry(e2, j);
        if j < e.len() {
            assert(e[j].0@ == k);
            lemma_entry(e, j);
        }
    }
    assert(entries_map(e2) =~= m);
}

/// An audit entry for `token`, by `actor`, with no details.
pub open spec fn plain_audit(a: ApprovalTokenAudit, token: Seq<char>, action: TokenAuditAction, actor: Seq<char>) -> bool {
    &&& a.token@ == token
    &&& a.action == action
    &&& a.actor@ == actor
    &&& a.details@.len() == 0
}

/// The grants among `gs` that may be used at time `now`, in order.
pub open spec fn usable_at(gs: Seq<ApprovalTokenGrant>, now: u64) -> Seq<ApprovalTokenGrant> {
    gs.filter(|g: ApprovalTokenGrant| valid_at(g, now))
}

/// Two audit entries that hold the same record.
pub open spec fn same_audit(x: ApprovalTokenAudit, y: ApprovalTokenAudit) -> bool {
    &&& x.token == y.token
    &&& x.action == y.action
    &&& x.actor == y.actor
    &&& x.timestamp == y.timestamp
    &&& x.details@ == y.details@
}

/// What verifying `token` against `grants` reports.
pub open spec fn verification(grants: Map<Seq<char>, ApprovalTokenGrant>, token: Seq<char>) -> Result<
    ApprovalTokenGrant,
    ApprovalTokenError,
> {
    if !grants.contains_key(token) {
        Err(ApprovalTokenError::TokenNotFound)
    } else {
        let g = grants[token];
        match g.status {
            ApprovalTokenStatus::Expired => Err(ApprovalTokenError::TokenExpired),
            ApprovalTokenStatus::Exhausted => Err(ApprovalTokenError::TokenExhausted),
            ApprovalTokenStatus::Revoked => Err(ApprovalTokenError::TokenRevoked),
            ApprovalTokenStatus::Granted => Ok(g),
            ApprovalTokenStatus::Pending => Err(ApprovalTokenError::InvalidToken),
        }
    }
}

/// A grant as `ApprovalTokenGrant::pending(ApprovalScope::new(policy, action).with_max_uses(uses))`
/// followed by `.granted(approver, reason)` builds it.
pub open spec fn fresh_grant(
    g: ApprovalTokenGrant,
    policy: Seq<char>,
    action: Seq<char>,
    uses: u32,
    approver: Seq<char>,
    reason: Seq<char>,
) -> bool {
    &&& exists|n: nat| g.token@ == token_for(n)
    &&& g.scope.policy@ == policy
    &&& g.scope.action@ == action
    &&& g.scope.repository is None
    &&& g.scope.branch is None
    &&& g.scope.paths@.len() == 0
    &&& g.scope.max_uses == uses
    &&& g.status == ApprovalTokenStatus::Granted
    &&& g.uses_remaining == uses
    &&& g.delegation_chain@.len() == 1
    &&& g.delegation_chain@[0].actor@ == approver
    &&& g.delegation_chain@[0].reason@ == reason
    &&& g.delegation_chain@[0].session_id is None
    &&& g.metadata@.len() == 0
}

/// Approval token ledger: tracks all tokens and keeps an audit trail.
#[derive(Debug)]
pub struct ApprovalTokenLedger {
    tokens: Vec<(String, ApprovalTokenGrant)>,
    audit_log: Vec<ApprovalTokenAudit>,
}

fn find_key(tokens: &Vec<(String, ApprovalTokenGrant)>, token: &str) -> (r: Option<usize>)
    ensures
        match r {
            Some(i) => i < tokens@.len() && tokens@[i as int].0@ == token@,
            None => forall|j: int| 0 <= j < tokens@.len() ==> tokens@[j].0@ != token@,
        },
{
    let t = chars_of(token);
    let mut i: usize = 0;
    while i < tokens.len()
        invariant
            i <= tokens.len(),
            t@ == token@,
            forall|j: int| 0 <= j < i ==> tokens@[j].0@ != token@,
        decreases tokens.len() - i,
    {
        let k = chars_of(tokens[i].0.as_str());
        if chars_eq(&k, &t) {
            return Some(i);
        }
        i += 1;
    }
    None
}

fn audit_entry(token: &str, action: TokenAuditAction, actor: &str) -> (r: ApprovalTokenAudit)
    ensures
        plain_audit(r, token@, action, actor@),
{
    ApprovalTokenAudit {
        token: owned(token),
        action,
        actor: owned(actor),
        timestamp: current_timestamp(),
        details: Vec::new(),
    }
}

fn copy_details(d: &Vec<(String, String)>) -> (r: Vec<(String, String)>)
    ensures
        r@ == d@,
{
    let mut r: Vec<(String, String)> = Vec::new();
    let mut i: usize = 0;
    while i < d.len()
        invariant
            i <= d.len(),
            r@ == d@.take(i as int),
        decreases d.len() - i,
    {
        r.push((d[i].0.clone(), d[i].1.clone()));
        i += 1;
        assert(r@ =~= d@.take(i as int));
    }
    assert(d@.take(d.len() as int) =~= d@);
    r
}

fn copy_audit(a: &ApprovalTokenAudit) -> (r: ApprovalTokenAudit)
    ensures
        same_audit(r, *a),
{
    ApprovalTokenAudit {
        token: a.token.clone(),
        action: a.action,
        actor: a.actor.clone(),
        timestamp: a.timestamp,
        details: copy_details(&a.details),
    }
}

impl Default for ApprovalTokenLedger {
    fn default() -> (r: Self)
        ensures
            r.wf(),
            r.grants() == Map::<Seq<char>, ApprovalTokenGrant>::empty(),
            r.audits().len() == 0,
    {
        ApprovalTokenLedger::new()
    }
}

impl ApprovalTokenLedger {
    /// Well-formedness: each token is stored once.
    pub closed spec fn wf(&self) -> bool {
        keys_unique(self.tokens@)
    }

    /// The grants held, by token.
    pub closed spec fn grants(&self) -> Map<Seq<char>, ApprovalTokenGrant> {
        entries_map(self.tokens@)
    }

    /// The grants held, in the order they were first inserted.
    pub closed spec fn grant_seq(&self) -> Seq<ApprovalTokenGrant> {
        self.tokens@.map_values(|p: (String, ApprovalTokenGrant)| p.1)
    }

    /// The audit trail, oldest first.
    pub closed spec fn audits(&self) -> Seq<ApprovalTokenAudit> {
        self.audit_log@
    }

    pub fn new() -> (r: Self)
        ensures
            r.wf(),
            r.grants() == Map::<Seq<char>, ApprovalTokenGrant>::empty(),
            r.grant_seq().len() == 0,
            r.audits().len() == 0,
    {
        let r = ApprovalTokenLedger { tokens: Vec::new(), audit_log: Vec::new() };
        assert(r.grants() =~= Map::<Seq<char>, ApprovalTokenGrant>::empty());
        r
    }

    /// Stores a grant under its token, replacing any grant stored there,
    /// and records its creation.
    pub fn insert(&mut self, grant: ApprovalTokenGrant)
        requires
            old(self).wf(),
        ensures
            final(self).wf(),
            final(self).grants() == old(self).grants().insert(grant.token@, grant),
            final(self).audits().len() == old(self).audits().len() + 1,
            final(self).audits().take(old(self).audits().len() as int) == old(self).audits(),
            plain_audit(final(self).audits().last(), grant.token@, TokenAuditAction::Created, "system"@),
    {
        let entry = audit_entry(grant.token.as_str(), TokenAuditAction::Created, "system");
        self.audit_log.push(entry);
        assert(self.audit_log@.take(old(self).audits().len() as int) =~= old(self).audits());
        let key = owned(grant.token.as_str());
        match find_key(&self.tokens, grant.token.as_str()) {
            Some(i) => {
                proof {
                    lemma_update_entry(self.tokens@, i as int, (key, grant));
                }
                self.tokens.set(i, (key, grant));
            },
            None => {
                proof {
                    lemma_push_entry(self.tokens@, (key, grant));
                }
                self.tokens.push((key, grant));
            },
        }
    }

    pub fn get(&self, token: &str) -> (r: Option<&ApprovalTokenGrant>)
        requires
            self.wf(),
        ensures
            match r {
                Some(g) => self.grants().contains_key(token@) && *g == self.grants()[token@],
                None => !self.grants().contains_key(token@),
            },
    {
        match find_key(&self.tokens, token) {
            Some(i) => {
                proof {
                    lemma_entry(self.tokens@, i as int);
                }
                Some(&self.tokens[i].1)
            },
            None => None,
        }
    }

    /// Revokes a token and records who did it.
    pub fn revoke(&mut self, token: &str, actor: &str) -> (r: Result<ApprovalTokenAudit, ApprovalTokenError>)
        requires
            old(self).wf(),
        ensures
            final(self).wf(),
            !old(self).grants().contains_key(token@) ==> r == Err::<ApprovalTokenAudit, ApprovalTokenError>(
                ApprovalTokenError::TokenNotFound,
            ) && *final(self) == *old(self),
            old(self).grants().contains_key(token@) ==> {
                &&& final(self).grants() == old(self).grants().insert(
                    token@,
                    (ApprovalTokenGrant { status: ApprovalTokenStatus::Revoked, ..old(self).grants()[token@] }),
                )
                &&& (r matches Ok(a) && a.token@ == token@ && a.action == TokenAuditAction::Revoked
                    && a.actor@ == actor@ && a.details@.len() == 1 && a.details@[0].0@ == "reason"@
                    && a.details@[0].1@ == "manual revocation"@ && final(self).audits().len() == old(self).audits().len() + 1
                    && final(self).audits().take(old(self).audits().len() as int) == old(self).audits()
                    && same_audit(final(self).audits().last(), a))
            },
    {
        let i = match find_key(&self.tokens, token) {
            Some(i) => i,
            None => return Err(ApprovalTokenError::TokenNotFound),
        };
        proof {
            lemma_entry(self.tokens@, i as int);
        }
        let mut entry = self.tokens.remove(i);
        entry.1.revoke();
        proof {
            lemma_update_entry(old(self).tokens@, i as int, entry);
        }
        self.tokens.insert(i, entry);
        assert(self.tokens@ =~= old(self).tokens@.update(i as int, entry));
        let mut details: Vec<(String, String)> = Vec::new();
        details.push((owned("reason"), owned("manual revocation")));
        let audit = ApprovalTokenAudit {
            token: owned(token),
            action: TokenAuditAction::Revoked,
            actor: owned(actor),
            timestamp: current_timestamp(),
            details,
        };
        let copy = copy_audit(&audit);
        self.audit_log.push(copy);
        assert(self.audit_log@.take(old(self).audits().len() as int) =~= old(self).audits());
        Ok(audit)
    }


    /// A mutable handle on the grant stored under `token`.
    pub fn get_mut(&mut self, token: &str) -> (r: Option<&mut ApprovalTokenGrant>)
        requires
            old(self).wf(),
        ensures
            match r {
                Some(g) => {
                    &&& old(self).grants().contains_key(token@)
                    &&& *g == old(self).grants()[token@]
                    &&& final(self).wf()
                    &&& final(self).grants() == old(self).grants().insert(token@, *final(g))
                },
                None => !old(self).grants().contains_key(token@) && *final(self) == *old(self),
            },
    {
        match find_key(&self.tokens, token) {
            Some(i) => {
                proof {
                    lemma_entry(self.tokens@, i as int);
                }
                let entry = &mut self.tokens[i];
                proof {
                    lemma_update_entry(old(self).tokens@, i as int, (entry.0, (*final(entry)).1));
                }
                Some(&mut entry.1)
            },
            None => None,
        }
    }

    /// Checks that a token may be used: it exists and is granted.
    pub fn verify(&self, token: &str) -> (r: Result<&ApprovalTokenGrant, ApprovalTokenError>)
        requires
            self.wf(),
        ensures
            match r {
                Ok(g) => verification(self.grants(), token@) == Ok::<ApprovalTokenGrant, ApprovalTokenError>(*g),
                Err(e) => verification(self.grants(), token@) == Err::<ApprovalTokenGrant, ApprovalTokenError>(e),
            },
    {
        let grant = match self.get(token) {
            Some(g) => g,
            None => return Err(ApprovalTokenError::TokenNotFound),
        };
        if grant.status == ApprovalTokenStatus::Expired {
            return Err(ApprovalTokenError::TokenExpired);
        }
        if grant.status == ApprovalTokenStatus::Exhausted {
            return Err(ApprovalTokenError::TokenExhausted);
        }
        if grant.status == ApprovalTokenStatus::Revoked {
            return Err(ApprovalTokenError::TokenRevoked);
        }
        if grant.status != ApprovalTokenStatus::Granted {
            return Err(ApprovalTokenError::InvalidToken);
        }
        Ok(grant)
    }

    /// What consuming `token` at time `now` does to a ledger: `new` is the
    /// ledger after the call and `r` its result.
    pub open spec fn consumed(
        old_ledger: Self,
        new_ledger: Self,
        token: Seq<char>,
        now: u64,
        r: Result<(), ApprovalTokenError>,
    ) -> bool {
        if !old_ledger.grants().contains_key(token) {
            r == Err::<(), ApprovalTokenError>(ApprovalTokenError::TokenNotFound) && new_ledger == old_ledger
        } else if !valid_at(old_ledger.grants()[token], now) {
            r == Err::<(), ApprovalTokenError>(ApprovalTokenError::InvalidToken) && new_ledger == old_ledger
        } else {
            &&& r is Ok
            &&& new_ledger.grants() == old_ledger.grants().insert(token, after_use(old_ledger.grants()[token]))
            &&& new_ledger.audits().len() == old_ledger.audits().len() + 1
            &&& new_ledger.audits().take(old_ledger.audits().len() as int) == old_ledger.audits()
            &&& plain_audit(new_ledger.audits().last(), token, TokenAuditAction::Consumed, "system"@)
        }
    }

    /// Uses a token once at time `now` and records the use.
    pub fn consume_at(&mut self, token: &str, now: u64) -> (r: Result<(), ApprovalTokenError>)
        requires
            old(self).wf(),
        ensures
            final(self).wf(),
            Self::consumed(*old(self), *final(self), token@, now, r),
    {
        let i = match find_key(&self.tokens, token) {
            Some(i) => i,
            None => return Err(ApprovalTokenError::TokenNotFound),
        };
        proof {
            lemma_entry(self.tokens@, i as int);
        }
        if !self.tokens[i].1.is_valid_at(now) {
            return Err(ApprovalTokenError::InvalidToken);
        }
        let mut entry = self.tokens.remove(i);
        let used = entry.1.consume_use_at(now);
        proof {
            lemma_update_entry(old(self).tokens@, i as int, entry);
        }
        self.tokens.insert(i, entry);
        assert(self.tokens@ =~= old(self).tokens@.update(i as int, entry));
        self.audit_log.push(audit_entry(token, TokenAuditAction::Consumed, "system"));
        assert(self.audit_log@.take(old(self).audits().len() as int) =~= old(self).audits());
        match used {
            Ok(()) => Ok(()),
            Err(_) => Err(ApprovalTokenError::InvalidToken),
        }
    }

    /// Uses a token once, by the system clock, and records the use.
    pub fn consume(&mut self, token: &str) -> (r: Result<(), ApprovalTokenError>)
        requires
            old(self).wf(),
        ensures
            final(self).wf(),
            exists|now: u64| Self::consumed(*old(self), *final(self), token@, now, r),
    {
        let now = current_timestamp();
        self.consume_at(token, now)
    }

    pub fn audit_log(&self) -> (r: &[ApprovalTokenAudit])
        ensures
            r@ == self.audits(),
    {
        self.audit_log.as_slice()
    }

    /// The grants usable at time `now`, in insertion order.
    pub fn active_tokens_at(&self, now: u64) -> (r: Vec<&ApprovalTokenGrant>)
        ensures
            r@.map_values(|g: &ApprovalTokenGrant| *g) == usable_at(self.grant_seq(), now),
    {
        let ghost pred = |g: ApprovalTokenGrant| valid_at(g, now);
        let mut r: Vec<&ApprovalTokenGrant> = Vec::new();
        let mut i: usize = 0;
        while i < self.tokens.len()
            invariant
                i <= self.tokens.len(),
                self.grant_seq().len() == self.tokens@.len(),
                pred == (|g: ApprovalTokenGrant| valid_at(g, now)),
                r@.map_values(|g: &ApprovalTokenGrant| *g) == self.grant_seq().take(i as int).filter(pred),
            decreases self.tokens.len() - i,
        {
            let g = &self.tokens[i].1;
            let ghost before = r@;
            let ghost prefix = self.grant_seq().take(i + 1);
            proof {
                assert(prefix.drop_last() =~= self.grant_seq().take(i as int));
                assert(prefix.last() == *g);
            }
            if g.is_valid_at(now) {
                r.push(g);
                assert(r@.map_values(|g: &ApprovalTokenGrant| *g) =~= before.map_values(
                    |g: &ApprovalTokenGrant| *g,
                ).push(*g));
                assert(prefix.filter(pred) == prefix.drop_last().filter(pred).push(*g)) by {
                    reveal(Seq::filter);
                    assert(prefix.len() == i + 1);
                    assert(pred(prefix.last()));
                }
            } else {
                assert(prefix.filter(pred) == prefix.drop_last().filter(pred)) by {
                    reveal(Seq::filter);
                    assert(prefix.len() == i + 1);
                    assert(!pred(prefix.last()));
                }
            }
            i += 1;
        }
        assert(self.grant_seq().take(self.tokens.len() as int) =~= self.grant_seq());
        r
    }

    /// The grants usable now, by the system clock.
    pub fn active_tokens(&self) -> (r: Vec<&ApprovalTokenGrant>)
        ensures
            exists|now: u64| r@.map_values(|g: &ApprovalTokenGrant| *g) == #[trigger] usable_at(self.grant_seq(), now),
    {
        let now = current_timestamp();
        self.active_tokens_at(now)
    }

    /// Creates, grants and stores a single-use token for an action, and
    /// returns its text.
    pub fn grant_for_action(&mut self, policy: &str, action: &str, approver: &str) -> (r: String)
        requires
            old(self).wf(),
        ensures
            final(self).wf(),
            exists|g: ApprovalTokenGrant|
                {
                    &&& fresh_grant(g, policy@, action@, 1, approver@, "auto-approved for action"@)
                    &&& g.expires_at is None
                    &&& g.token@ == r@
                    &&& final(self).grants() == old(self).grants().insert(r@, g)
                },
            final(self).audits().len() == old(self).audits().len() + 1,
            final(self).audits().take(old(self).audits().len() as int) == old(self).audits(),
            plain_audit(final(self).audits().last(), r@, TokenAuditAction::Created, "system"@),
    {
        let scope = ApprovalScope::new(policy, action);
        let grant = ApprovalTokenGrant::pending(scope).granted(approver, "auto-approved for action");
        let token = grant.token.clone();
        let ghost g = grant;
        assert(fresh_grant(g, policy@, action@, 1, approver@, "auto-approved for action"@));
        self.insert(grant);
        assert(g.token@ == token@);
        token
    }
}

/// The grants of a ledger, in insertion order, are exactly the grants it
/// stores by token.
pub proof fn lemma_grant_seq_matches_grants(l: ApprovalTokenLedger)
    requires
        l.wf(),
    ensures
        forall|k: Seq<char>| #[trigger] l.grants().contains_key(k) ==> l.grant_seq().contains(l.grants()[k]),
        forall|i: int| 0 <= i < l.grant_seq().len() ==> l.grants().values().contains(#[trigger] l.grant_seq()[i]),
{
    let e = l.tokens@;
    assert forall|k: Seq<char>| #[trigger] l.grants().contains_key(k) implies l.grant_seq().contains(l.grants()[k]) by {
        let j = choose|j: int| 0 <= j < e.len() && e[j].0@ == k;
        lemma_entry(e, j);
        assert(l.grant_seq()[j] == e[j].1);
    }
    assert forall|i: int| 0 <= i < l.grant_seq().len() implies l.grants().values().contains(
        #[trigger] l.grant_seq()[i],
    ) by {
        lemma_entry(e, i);
        assert(l.grants().contains_key(e[i].0@));
        assert(l.grants()[e[i].0@] == l.grant_seq()[i]);
    }
}

/// Creates a granted single-use token.
pub fn one_time_approval(policy: &str, action: &str, approver: &str) -> (r: ApprovalTokenGrant)
    ensures
        fresh_grant(r, policy@, action@, 1, approver@, "one-time approval"@),
        r.expires_at is None,
{
    let scope = ApprovalScope::new(policy, action);
    ApprovalTokenGrant::pending(scope).granted(approver, "one-time approval")
}

/// The moment `secs` seconds after `now`, held at the largest clock value.
pub open spec fn expiry_after(now: u64, secs: u64) -> u64 {
    if now + secs > u64::MAX {
        u64::MAX
    } else {
        (now + secs) as u64
    }
}

/// Creates a granted token usable `max_uses` times that expires
/// `expires_in_secs` seconds from now. An expiry beyond the range of the
/// clock is held at its largest value.
pub fn multi_use_approval(
    policy: &str,
    action: &str,
    approver: &str,
    max_uses: u32,
    expires_in_secs: u64,
) -> (r: ApprovalTokenGrant)
    ensures
        fresh_grant(r, policy@, action@, max_uses, approver@, "multi-use approval"@),
        exists|now: u64| r.expires_at == Some(#[trigger] expiry_after(now, expires_in_secs)),
{
    let scope = ApprovalScope::new(policy, action).with_max_uses(max_uses);
    let mut token = ApprovalTokenGrant::pending(scope);
    token = token.granted(approver, "multi-use approval");
    let now = current_timestamp();
    token.set_expires_at(now.saturating_add(expires_in_secs));
    token.set_max_uses(max_uses);
    assert(token.expires_at == Some(expiry_after(now, expires_in_secs)));
    token
}

// ---------------------------------------------------------------------------
// Laws.
// ---------------------------------------------------------------------------

/// A grant after `k` uses.
pub open spec fn after_uses(g: ApprovalTokenGrant, k: nat) -> ApprovalTokenGrant
    decreases k,
{
    if k == 0 {
        g
    } else {
        after_use(after_uses(g, (k - 1) as nat))
    }
}

/// A grant valid at `now` with `n` uses left can be used exactly `n` times
/// at `now`: it is still valid after each of the first `n - 1` uses, and
/// after the `n`-th it is exhausted and no longer valid.
pub proof fn law_uses_are_counted(g: ApprovalTokenGrant, now: u64, k: nat)
    requires
        valid_at(g, now),
        k <= g.uses_remaining,
    ensures
        after_uses(g, k).uses_remaining == g.uses_remaining - k,
        k < g.uses_remaining ==> valid_at(after_uses(g, k), now),
        k == g.uses_remaining ==> after_uses(g, k).status == ApprovalTokenStatus::Exhausted
            && !valid_at(after_uses(g, k), now),
        after_uses(g, k).token == g.token,
        after_uses(g, k).expires_at == g.expires_at,
    decreases k,
{
    if k > 0 {
        law_uses_are_counted(g, now, (k - 1) as nat);
    }
}

/// Verifying a token that was just stored gives back the stored grant when
/// it is granted, and the reason it cannot be used otherwise.
pub proof fn law_verify_reads_insert(grants: Map<Seq<char>, ApprovalTokenGrant>, g: ApprovalTokenGrant)
    ensures
        g.status == ApprovalTokenStatus::Granted ==> verification(grants.insert(g.token@, g), g.token@)
            == Ok::<ApprovalTokenGrant, ApprovalTokenError>(g),
        g.status == ApprovalTokenStatus::Revoked ==> verification(grants.insert(g.token@, g), g.token@)
            == Err::<ApprovalTokenGrant, ApprovalTokenError>(ApprovalTokenError::TokenRevoked),
        g.status == ApprovalTokenStatus::Exhausted ==> verification(grants.insert(g.token@, g), g.token@)
            == Err::<ApprovalTokenGrant, ApprovalTokenError>(ApprovalTokenError::TokenExhausted),
        g.status == ApprovalTokenStatus::Pending ==> verification(grants.insert(g.token@, g), g.token@)
            == Err::<ApprovalTokenGrant, ApprovalTokenError>(ApprovalTokenError::InvalidToken),
{
}

/// A revoked token fails verification with `TokenRevoked`, whatever its
/// state was before.
pub proof fn law_revoked_token_is_refused(grants: Map<Seq<char>, ApprovalTokenGrant>, token: Seq<char>)
    requires
        grants.contains_key(token),
    ensures
        verification(
            grants.insert(token, (ApprovalTokenGrant { status: ApprovalTokenStatus::Revoked, ..grants[token] })),
            token,
        ) == Err::<ApprovalTokenGrant, ApprovalTokenError>(ApprovalTokenError::TokenRevoked),
{
}

/// A single-use grant consumed once is exhausted, and verification then
/// reports `TokenExhausted`.
pub proof fn law_single_use_exhausts(grants: Map<Seq<char>, ApprovalTokenGrant>, token: Seq<char>, now: u64)
    requires
        grants.contains_key(token),
        valid_at(grants[token], now),
        grants[token].uses_remaining == 1,
    ensures
        verification(grants.insert(token, after_use(grants[token])), token)
            == Err::<ApprovalTokenGrant, ApprovalTokenError>(ApprovalTokenError::TokenExhausted),
{
}

} // verus!
