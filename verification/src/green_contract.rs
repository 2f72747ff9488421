//! Green contracts: the test level and provenance a change must show before
//! it counts as green.
use vstd::prelude::*;

use crate::text::{owned, trim, trim_str};

verus! {

/// How much of the test suite has passed, from narrowest to widest.
#[derive(Debug, Clone, Copy, PartialEq, Eq, Structural, PartialOrd, Ord, Hash)]
pub enum GreenLevel {
    TargetedTests,
    Package,
    Workspace,
    MergeReady,
}

/// Position of a level in the order `TargetedTests < Package < Workspace < MergeReady`.
pub open spec fn level_rank(l: GreenLevel) -> int {
    match l {
        GreenLevel::TargetedTests => 0,
        GreenLevel::Package => 1,
        GreenLevel::Workspace => 2,
        GreenLevel::MergeReady => 3,
    }
}

/// Whether `observed` reaches `required`.
pub open spec fn reaches(observed: GreenLevel, required: GreenLevel) -> bool {
    level_rank(observed) >= level_rank(required)
}

pub open spec fn level_name(l: GreenLevel) -> Seq<char> {
    match l {
        GreenLevel::TargetedTests => "targeted_tests"@,
        GreenLevel::Package => "package"@,
        GreenLevel::Workspace => "workspace"@,
        GreenLevel::MergeReady => "merge_ready"@,
    }
}

impl GreenLevel {
    pub fn as_str(self) -> (r: &'static str)
        ensures
            r@ == level_name(self),
    {
        match self {
            GreenLevel::TargetedTests => "targeted_tests",
            GreenLevel::Package => "package",
            GreenLevel::Workspace => "workspace",
            GreenLevel::MergeReady => "merge_ready",
        }
    }

    /// The level's position in the order of levels.
    pub fn rank(self) -> (r: u8)
        ensures
            r == level_rank(self),
    {
        match self {
            GreenLevel::TargetedTests => 0,
            GreenLevel::Package => 1,
            GreenLevel::Workspace => 2,
            GreenLevel::MergeReady => 3,
        }
    }
}

/// A requirement that evidence must meet beyond its level.
#[derive(Debug, Clone, Copy, PartialEq, Eq, Structural)]
pub enum GreenContractRequirement {
    RequiredLevel,
    TestCommandProvenance,
    BaseBranchFreshness,
    RecoveryAttemptContext,
}

/// A test command that was run, and how it exited.
#[derive(Debug, Clone, PartialEq, Eq)]
pub struct TestCommandProvenance {
    pub command: String,
    pub exit_code: i32,
}

/// A test command counts as passing when it exited 0 and is not blank.
pub open spec fn command_passed(c: TestCommandProvenance) -> bool {
    c.exit_code == 0 && trim(c.command@).len() > 0
}

impl TestCommandProvenance {
    pub fn passed(&self) -> (r: bool)
        ensures
            r == command_passed(*self),
    {
        self.exit_code == 0 && trim_str(self.command.as_str()).len() > 0
    }
}

/// A test known to fail intermittently.
#[derive(Debug, Clone, PartialEq, Eq)]
pub struct KnownFlake {
    pub test_name: String,
    pub blocks_green: bool,
}

/// What a change shows of its test runs.
#[derive(Debug, Clone, PartialEq, Eq)]
pub struct GreenEvidence {
    pub observed_level: GreenLevel,
    pub test_commands: Vec<TestCommandProvenance>,
    pub base_branch_fresh: bool,
    pub known_flakes: Vec<KnownFlake>,
    pub recovery_attempt_context_recorded: bool,
}

/// Whether some recorded test command passed.
pub open spec fn has_passing_command(e: GreenEvidence) -> bool {
    exists|i: int| 0 <= i < e.test_commands@.len() && command_passed(#[trigger] e.test_commands@[i])
}

impl GreenEvidence {
    pub fn new(observed_level: GreenLevel) -> (r: Self)
        ensures
            r.observed_level == observed_level,
            r.test_commands@.len() == 0,
            !r.base_branch_fresh,
            r.known_flakes@.len() == 0,
            !r.recovery_attempt_context_recorded,
    {
        GreenEvidence {
            observed_level,
            test_commands: Vec::new(),
            base_branch_fresh: false,
            known_flakes: Vec::new(),
            recovery_attempt_context_recorded: false,
        }
    }

    pub fn with_test_command(self, command: &str, exit_code: i32) -> (r: Self)
        ensures
            r.test_commands@.len() == self.test_commands@.len() + 1,
            r.test_commands@.drop_last() == self.test_commands@,
            r.test_commands@.last().command@ == command@,
            r.test_commands@.last().exit_code == exit_code,
            r.observed_level == self.observed_level,
            r.base_branch_fresh == self.base_branch_fresh,
            r.known_flakes == self.known_flakes,
            r.recovery_attempt_context_recorded == self.recovery_attempt_context_recorded,
    {
        let mut s = self;
        s.test_commands.push(TestCommandProvenance { command: owned(command), exit_code });
        assert(s.test_commands@.drop_last() =~= self.test_commands@);
        s
    }

    pub fn with_base_branch_fresh(self, is_fresh: bool) -> (r: Self)
        ensures
            r == (GreenEvidence { base_branch_fresh: is_fresh, ..self }),
    {
        let mut s = self;
        s.base_branch_fresh = is_fresh;
        s
    }

    pub fn with_known_flake(self, test_name: &str, blocks_green: bool) -> (r: Self)
        ensures
            r.known_flakes@.len() == self.known_flakes@.len() + 1,
            r.known_flakes@.drop_last() == self.known_flakes@,
            r.known_flakes@.last().test_name@ == test_name@,
            r.known_flakes@.last().blocks_green == blocks_green,
            r.observed_level == self.observed_level,
            r.test_commands == self.test_commands,
            r.base_branch_fresh == self.base_branch_fresh,
            r.recovery_attempt_context_recorded == self.recovery_attempt_context_recorded,
    {
        let mut s = self;
        s.known_flakes.push(KnownFlake { test_name: owned(test_name), blocks_green });
        assert(s.known_flakes@.drop_last() =~= self.known_flakes@);
        s
    }

    pub fn with_recovery_attempt_context(self, recorded: bool) -> (r: Self)
        ensures
            r == (GreenEvidence { recovery_attempt_context_recorded: recorded, ..self }),
    {
        let mut s = self;
        s.recovery_attempt_context_recorded = recorded;
        s
    }

    pub fn has_passing_test_command(&self) -> (r: bool)
        ensures
            r == has_passing_command(*self),
    {
        let mut i: usize = 0;
        while i < self.test_commands.len()
            invariant
                i <= self.test_commands.len(),
                forall|j: int| 0 <= j < i ==> !command_passed(#[trigger] self.test_commands@[j]),
            decreases self.test_commands.len() - i,
        {
            if self.test_commands[i].passed() {
                return true;
            }
            i += 1;
        }
        false
    }
}

/// The outcome of checking a level against a contract.
#[allow(inconsistent_fields)]
#[derive(Debug, Clone, Copy, PartialEq, Eq)]
pub enum GreenContractOutcome {
    Satisfied { required_level: GreenLevel, observed_level: GreenLevel },
    Unsatisfied { required_level: GreenLevel, observed_level: Option<GreenLevel> },
}

impl GreenContractOutcome {
    pub fn is_satisfied(&self) -> (r: bool)
        ensures
            r == (*self is Satisfied),
    {
        match self {
            GreenContractOutcome::Satisfied { .. } => true,
            GreenContractOutcome::Unsatisfied { .. } => false,
        }
    }
}

/// The outcome of checking evidence against a contract.
#[derive(Debug, Clone, PartialEq, Eq)]
pub enum GreenEvidenceOutcome {
    Satisfied { required_level: GreenLevel, observed_level: GreenLevel },
    Unsatisfied {
        required_level: GreenLevel,
        observed_level: GreenLevel,
        missing: Vec<GreenContractRequirement>,
        blocking_flakes: Vec<KnownFlake>,
    },
}

impl GreenEvidenceOutcome {
    pub fn is_satisfied(&self) -> (r: bool)
        ensures
            r == (*self is Satisfied),
    {
        match self {
            GreenEvidenceOutcome::Satisfied { .. } => true,
            GreenEvidenceOutcome::Unsatisfied { .. } => false,
        }
    }
}

/// A contract: the level a change must reach and what else it must show.
#[derive(Debug, Clone, PartialEq, Eq)]
pub struct GreenContract {
    pub required_level: GreenLevel,
    pub requirements: Vec<GreenContractRequirement>,
    pub block_known_flakes: bool,
}

/// What checking `observed` against a contract requiring `required` gives.
pub open spec fn level_outcome(required: GreenLevel, observed: Option<GreenLevel>) -> GreenContractOutcome {
    match observed {
        Some(l) => if reaches(l, required) {
            GreenContractOutcome::Satisfied { required_level: required, observed_level: l }
        } else {
            GreenContractOutcome::Unsatisfied { required_level: required, observed_level: observed }
        },
        None => GreenContractOutcome::Unsatisfied { required_level: required, observed_level: None },
    }
}

/// Whether evidence meets one listed requirement.
pub open spec fn requirement_met(r: GreenContractRequirement, e: GreenEvidence) -> bool {
    match r {
        GreenContractRequirement::TestCommandProvenance => has_passing_command(e),
        GreenContractRequirement::BaseBranchFreshness => e.base_branch_fresh,
        GreenContractRequirement::RecoveryAttemptContext => e.recovery_attempt_context_recorded,
        GreenContractRequirement::RequiredLevel => true,
    }
}

/// The listed requirements that the evidence does not meet, in order.
pub open spec fn unmet(reqs: Seq<GreenContractRequirement>, e: GreenEvidence) -> Seq<GreenContractRequirement>
    decreases reqs.len(),
{
    if reqs.len() == 0 {
        seq![]
    } else {
        let rest = unmet(reqs.drop_last(), e);
        if requirement_met(reqs.last(), e) {
            rest
        } else {
            rest.push(reqs.last())
        }
    }
}

/// What evidence is missing for a contract: the level first, when it falls
/// short, then the unmet listed requirements in order.
pub open spec fn missing_requirements(c: GreenContract, e: GreenEvidence) -> Seq<GreenContractRequirement> {
    let level = if reaches(e.observed_level, c.required_level) {
        seq![]
    } else {
        seq![GreenContractRequirement::RequiredLevel]
    };
    level + unmet(c.requirements@, e)
}

/// The flakes that block green, in order.
pub open spec fn blocking(flakes: Seq<KnownFlake>) -> Seq<KnownFlake> {
    flakes.filter(|f: KnownFlake| f.blocks_green)
}

/// The flakes that keep a contract from being met: the blocking flakes
/// when the contract blocks on flakes, none otherwise.
pub open spec fn blocking_flakes_for(c: GreenContract, e: GreenEvidence) -> Seq<KnownFlake> {
    if c.block_known_flakes {
        blocking(e.known_flakes@)
    } else {
        seq![]
    }
}

/// Whether evidence meets a contract.
pub open spec fn evidence_satisfies(c: GreenContract, e: GreenEvidence) -> bool {
    missing_requirements(c, e).len() == 0 && blocking_flakes_for(c, e).len() == 0
}

fn copy_flake(f: &KnownFlake) -> (r: KnownFlake)
    ensures
        r == *f,
{
    KnownFlake { test_name: f.test_name.clone(), blocks_green: f.blocks_green }
}

impl GreenContract {
    pub fn new(required_level: GreenLevel) -> (r: Self)
        ensures
            r.required_level == required_level,
            r.requirements@.len() == 0,
            !r.block_known_flakes,
    {
        GreenContract { required_level, requirements: Vec::new(), block_known_flakes: false }
    }

    /// A contract that also asks for a passing test command, a fresh base
    /// branch and recorded recovery context, and blocks on known flakes.
    pub fn merge_ready(required_level: GreenLevel) -> (r: Self)
        ensures
            r.required_level == required_level,
            r.requirements@ == seq![
                GreenContractRequirement::TestCommandProvenance,
                GreenContractRequirement::BaseBranchFreshness,
                GreenContractRequirement::RecoveryAttemptContext,
            ],
            r.block_known_flakes,
    {
        let mut requirements: Vec<GreenContractRequirement> = Vec::new();
        requirements.push(GreenContractRequirement::TestCommandProvenance);
        requirements.push(GreenContractRequirement::BaseBranchFreshness);
        requirements.push(GreenContractRequirement::RecoveryAttemptContext);
        GreenContract { required_level, requirements, block_known_flakes: true }
    }

    pub fn evaluate(&self, observed_level: Option<GreenLevel>) -> (r: GreenContractOutcome)
        ensures
            r == level_outcome(self.required_level, observed_level),
    {
        match observed_level {
            Some(level) => {
                if level.rank() >= self.required_level.rank() {
                    GreenContractOutcome::Satisfied { required_level: self.required_level, observed_level: level }
                } else {
                    GreenContractOutcome::Unsatisfied { required_level: self.required_level, observed_level }
                }
            },
            None => GreenContractOutcome::Unsatisfied { required_level: self.required_level, observed_level },
        }
    }

    pub fn evaluate_evidence(&self, evidence: &GreenEvidence) -> (r: GreenEvidenceOutcome)
        ensures
            evidence_satisfies(*self, *evidence) ==> r == (GreenEvidenceOutcome::Satisfied {
                required_level: self.required_level,
                observed_level: evidence.observed_level,
            }),
            !evidence_satisfies(*self, *evidence) ==> (r matches GreenEvidenceOutcome::Unsatisfied {
                required_level,
                observed_level,
                missing,
                blocking_flakes,
            } && required_level == self.required_level && observed_level == evidence.observed_level
                && missing@ == missing_requirements(*self, *evidence) && blocking_flakes@ == blocking_flakes_for(
                *self,
                *evidence,
            )),
    {
        let mut missing: Vec<GreenContractRequirement> = Vec::new();
        if evidence.observed_level.rank() < self.required_level.rank() {
            missing.push(GreenContractRequirement::RequiredLevel);
        }
        let ghost level_part = missing@;
        let mut i: usize = 0;
        while i < self.requirements.len()
            invariant
                i <= self.requirements.len(),
                missing@ == level_part + unmet(self.requirements@.take(i as int), *evidence),
            decreases self.requirements.len() - i,
        {
            let requirement = self.requirements[i];
            let met = match requirement {
                GreenContractRequirement::TestCommandProvenance => evidence.has_passing_test_command(),
                GreenContractRequirement::BaseBranchFreshness => evidence.base_branch_fresh,
                GreenContractRequirement::RecoveryAttemptContext => evidence.recovery_attempt_context_recorded,
                GreenContractRequirement::RequiredLevel => true,
            };
            let ghost prefix = self.requirements@.take(i + 1);
            assert(prefix.drop_last() =~= self.requirements@.take(i as int));
            if !met {
                missing.push(requirement);
            }
            assert(missing@ =~= level_part + unmet(prefix, *evidence));
            i += 1;
        }
        assert(self.requirements@.take(self.requirements.len() as int) =~= self.requirements@);
        let mut blocking_flakes: Vec<KnownFlake> = Vec::new();
        if self.block_known_flakes {
            let ghost pred = |f: KnownFlake| f.blocks_green;
            let mut j: usize = 0;
            while j < evidence.known_flakes.len()
                invariant
                    j <= evidence.known_flakes.len(),
                    pred == (|f: KnownFlake| f.blocks_green),
                    blocking_flakes@ == evidence.known_flakes@.take(j as int).filter(pred),
                decreases evidence.known_flakes.len() - j,
            {
                let ghost prefix = evidence.known_flakes@.take(j + 1);
                assert(prefix.drop_last() =~= evidence.known_flakes@.take(j as int));
                let flake = &evidence.known_flakes[j];
                if flake.blocks_green {
                    blocking_flakes.push(copy_flake(flake));
                    assert(prefix.filter(pred) == prefix.drop_last().filter(pred).push(*flake)) by {
                        reveal(Seq::filter);
                        assert(prefix.len() == j + 1);
                        assert(pred(prefix.last()));
                    }
                } else {
                    assert(prefix.filter(pred) == prefix.drop_last().filter(pred)) by {
                        reveal(Seq::filter);
                        assert(prefix.len() == j + 1);
                        assert(!pred(prefix.last()));
                    }
                }
                j += 1;
            }
            assert(evidence.known_flakes@.take(evidence.known_flakes.len() as int) =~= evidence.known_flakes@);
        }
        if missing.len() == 0 && blocking_flakes.len() == 0 {
            GreenEvidenceOutcome::Satisfied {
                required_level: self.required_level,
                observed_level: evidence.observed_level,
            }
        } else {
            GreenEvidenceOutcome::Unsatisfied {
                required_level: self.required_level,
                observed_level: evidence.observed_level,
                missing,
                blocking_flakes,
            }
        }
    }

    pub fn is_satisfied_by(&self, observed_level: GreenLevel) -> (r: bool)
        ensures
            r == reaches(observed_level, self.required_level),
    {
        observed_level.rank() >= self.required_level.rank()
    }
}

// ---------------------------------------------------------------------------
// Laws.
// ---------------------------------------------------------------------------

/// A level that satisfies a contract keeps satisfying it when it rises.
pub proof fn law_higher_level_still_satisfies(required: GreenLevel, observed: GreenLevel, higher: GreenLevel)
    requires
        reaches(observed, required),
        level_rank(higher) >= level_rank(observed),
    ensures
        reaches(higher, required),
        level_outcome(required, Some(higher)) is Satisfied,
{
}

/// Evaluating a level and asking whether it satisfies the contract agree.
pub proof fn law_evaluate_agrees_with_is_satisfied_by(required: GreenLevel, observed: GreenLevel)
    ensures
        (level_outcome(required, Some(observed)) is Satisfied) == reaches(observed, required),
{
}

/// Evidence that satisfies a contract shows a level that satisfies it.
pub proof fn law_satisfied_evidence_reaches_level(c: GreenContract, e: GreenEvidence)
    requires
        evidence_satisfies(c, e),
    ensures
        reaches(e.observed_level, c.required_level),
        level_outcome(c.required_level, Some(e.observed_level)) is Satisfied,
{
    if !reaches(e.observed_level, c.required_level) {
        assert(missing_requirements(c, e)[0] == GreenContractRequirement::RequiredLevel);
    }
}

/// For a contract that lists nothing beyond its level and does not block on
/// flakes, evidence satisfies it exactly when its level does.
pub proof fn law_plain_contract_is_level_only(c: GreenContract, e: GreenEvidence)
    requires
        c.requirements@.len() == 0,
        !c.block_known_flakes,
    ensures
        evidence_satisfies(c, e) == reaches(e.observed_level, c.required_level),
{
    assert(unmet(c.requirements@, e) =~= Seq::<GreenContractRequirement>::empty());
    if !reaches(e.observed_level, c.required_level) {
        assert(missing_requirements(c, e).len() == 1);
    } else {
        assert(missing_requirements(c, e) =~= Seq::<GreenContractRequirement>::empty());
    }
}

/// No contract is ever missing a listed requirement that the evidence
/// meets.
pub proof fn law_missing_are_unmet(reqs: Seq<GreenContractRequirement>, e: GreenEvidence, i: int)
    requires
        0 <= i < unmet(reqs, e).len(),
    ensures
        !requirement_met(unmet(reqs, e)[i], e),
        reqs.contains(unmet(reqs, e)[i]),
    decreases reqs.len(),
{
    if reqs.len() > 0 {
        let rest = unmet(reqs.drop_last(), e);
        if i < rest.len() {
            law_missing_are_unmet(reqs.drop_last(), e, i);
            let j = choose|j: int| 0 <= j < reqs.drop_last().len() && reqs.drop_last()[j] == rest[i];
            assert(reqs[j] == rest[i]);
        } else {
            assert(reqs[reqs.len() - 1] == reqs.last());
        }
    }
}

} // verus!
