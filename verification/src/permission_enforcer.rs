//! Thin compatibility wrapper around [`PermissionPolicy`].
//!
//! The enforcer has no prompter, so in `Prompt` mode it allows every tool:
//! the conversation layer performs the real authorization with a prompter
//! before it consults the enforcer. It is not a security boundary of its own.
use vstd::prelude::*;

use crate::permissions::{
    authorization_step, required_mode, unprompted_outcome, OutcomeView, PermissionMode,
    PermissionOutcome, PermissionPolicy, PolicyView,
};
use crate::text::owned;

verus! {

#[derive(Debug, Clone, PartialEq, Eq)]
pub enum EnforcementResult {
    /// Tool execution is allowed.
    Allowed,
    /// Tool execution was denied due to insufficient permissions.
    Denied { tool: String, active_mode: String, required_mode: String, reason: String },
}

pub enum EnforcementView {
    Allowed,
    Denied { tool: Seq<char>, active_mode: Seq<char>, required_mode: Seq<char>, reason: Seq<char> },
}

impl View for EnforcementResult {
    type V = EnforcementView;

    open spec fn view(&self) -> EnforcementView {
        match self {
            EnforcementResult::Allowed => EnforcementView::Allowed,
            EnforcementResult::Denied { tool, active_mode, required_mode, reason } => EnforcementView::Denied {
                tool: tool@,
                active_mode: active_mode@,
                required_mode: required_mode@,
                reason: reason@,
            },
        }
    }
}

/// What the enforcer reports for an unprompted policy outcome.
pub open spec fn enforcement_of(
    p: PolicyView,
    tool: Seq<char>,
    outcome: OutcomeView,
    required_label: Seq<char>,
) -> EnforcementView {
    if p.active_mode == PermissionMode::Prompt {
        EnforcementView::Allowed
    } else {
        match outcome {
            OutcomeView::Allow => EnforcementView::Allowed,
            OutcomeView::Deny(reason) => EnforcementView::Denied {
                tool,
                active_mode: p.active_mode.name(),
                required_mode: required_label,
                reason,
            },
        }
    }
}

#[derive(Debug, Clone, PartialEq)]
pub struct PermissionEnforcer {
    policy: PermissionPolicy,
}

impl PermissionEnforcer {
    pub closed spec fn policy(&self) -> PolicyView {
        self.policy@
    }

    pub fn new(policy: PermissionPolicy) -> (r: Self)
        ensures
            r.policy() == policy@,
    {
        PermissionEnforcer { policy }
    }

    /// Checks whether a tool can run under the current permission policy.
    pub fn check(&self, tool_name: &str, input: &str) -> (r: EnforcementResult)
        ensures
            r@ == enforcement_of(
                self.policy(),
                tool_name@,
                unprompted_outcome(
                    authorization_step(
                        self.policy(),
                        tool_name@,
                        input@,
                        required_mode(self.policy().requirements, tool_name@),
                        None,
                        None,
                    ),
                ),
                Seq::empty(),
            ),
    {
        if self.policy.active_mode() == PermissionMode::Prompt {
            return EnforcementResult::Allowed;
        }
        match self.policy.authorize(tool_name, input, None) {
            PermissionOutcome::Allow => EnforcementResult::Allowed,
            PermissionOutcome::Deny { reason } => EnforcementResult::Denied {
                tool: owned(tool_name),
                active_mode: owned(self.policy.active_mode().as_str()),
                required_mode: String::new(),
                reason,
            },
        }
    }

    /// Checks whether a tool can run with an explicitly provided required mode.
    pub fn check_with_required_mode(
        &self,
        tool_name: &str,
        input: &str,
        required_mode: PermissionMode,
    ) -> (r: EnforcementResult)
        ensures
            r@ == enforcement_of(
                self.policy(),
                tool_name@,
                unprompted_outcome(
                    authorization_step(self.policy(), tool_name@, input@, required_mode, None, None),
                ),
                required_mode.name(),
            ),
    {
        if self.policy.active_mode() == PermissionMode::Prompt {
            return EnforcementResult::Allowed;
        }
        match self.policy.authorize_with_required_mode(tool_name, input, required_mode, None) {
            PermissionOutcome::Allow => EnforcementResult::Allowed,
            PermissionOutcome::Deny { reason } => EnforcementResult::Denied {
                tool: owned(tool_name),
                active_mode: owned(self.policy.active_mode().as_str()),
                required_mode: owned(required_mode.as_str()),
                reason,
            },
        }
    }
}

/// In `Prompt` mode the enforcer allows every tool.
pub proof fn law_prompt_mode_enforcer_allows(
    p: PolicyView,
    tool: Seq<char>,
    outcome: OutcomeView,
    label: Seq<char>,
)
    requires
        p.active_mode == PermissionMode::Prompt,
    ensures
        enforcement_of(p, tool, outcome, label) == EnforcementView::Allowed,
{
}

} // verus!
