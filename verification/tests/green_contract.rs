use claw_runtime::green_contract::{
    GreenContract, GreenContractOutcome, GreenContractRequirement, GreenEvidence,
    GreenEvidenceOutcome, GreenLevel, KnownFlake,
};

#[test]
fn given_matching_level_when_evaluating_contract_then_it_is_satisfied() {
    let contract = GreenContract::new(GreenLevel::Package);
    let outcome = contract.evaluate(Some(GreenLevel::Package));
    assert_eq!(
        outcome,
        GreenContractOutcome::Satisfied {
            required_level: GreenLevel::Package,
            observed_level: GreenLevel::Package,
        }
    );
    assert!(outcome.is_satisfied());
}

#[test]
fn given_higher_level_when_checking_requirement_then_it_still_satisfies_contract() {
    let contract = GreenContract::new(GreenLevel::TargetedTests);
    let is_satisfied = contract.is_satisfied_by(GreenLevel::Workspace);
    assert!(is_satisfied);
}

#[test]
fn given_lower_level_when_evaluating_contract_then_it_is_unsatisfied() {
    let contract = GreenContract::new(GreenLevel::Workspace);
    let outcome = contract.evaluate(Some(GreenLevel::Package));
    assert_eq!(
        outcome,
        GreenContractOutcome::Unsatisfied {
            required_level: GreenLevel::Workspace,
            observed_level: Some(GreenLevel::Package),
        }
    );
    assert!(!outcome.is_satisfied());
}

#[test]
fn given_no_green_level_when_evaluating_contract_then_contract_is_unsatisfied() {
    let contract = GreenContract::new(GreenLevel::MergeReady);
    let outcome = contract.evaluate(None);
    assert_eq!(
        outcome,
        GreenContractOutcome::Unsatisfied {
            required_level: GreenLevel::MergeReady,
            observed_level: None,
        }
    );
}

#[test]
fn merge_ready_contract_requires_provenance_beyond_test_level() {
    let contract = GreenContract::merge_ready(GreenLevel::Workspace);
    let evidence = GreenEvidence::new(GreenLevel::Workspace)
        .with_test_command("cargo test --manifest-path rust/Cargo.toml", 0);
    let outcome = contract.evaluate_evidence(&evidence);
    assert_eq!(
        outcome,
        GreenEvidenceOutcome::Unsatisfied {
            required_level: GreenLevel::Workspace,
            observed_level: GreenLevel::Workspace,
            missing: vec![
                GreenContractRequirement::BaseBranchFreshness,
                GreenContractRequirement::RecoveryAttemptContext,
            ],
            blocking_flakes: vec![],
        }
    );
    assert!(!outcome.is_satisfied());
}

#[test]
fn merge_ready_contract_accepts_complete_test_provenance_context() {
    let contract = GreenContract::merge_ready(GreenLevel::Workspace);
    let evidence = GreenEvidence::new(GreenLevel::MergeReady)
        .with_test_command("cargo test --manifest-path rust/Cargo.toml", 0)
        .with_base_branch_fresh(true)
        .with_recovery_attempt_context(true);
    let outcome = contract.evaluate_evidence(&evidence);
    assert_eq!(
        outcome,
        GreenEvidenceOutcome::Satisfied {
            required_level: GreenLevel::Workspace,
            observed_level: GreenLevel::MergeReady,
        }
    );
}

#[test]
fn known_blocking_flake_prevents_green_contract_satisfaction() {
    let contract = GreenContract::merge_ready(GreenLevel::Workspace);
    let evidence = GreenEvidence::new(GreenLevel::MergeReady)
        .with_test_command("cargo test --manifest-path rust/Cargo.toml", 0)
        .with_base_branch_fresh(true)
        .with_recovery_attempt_context(true)
        .with_known_flake(
            "session_lifecycle_prefers_running_process_over_idle_shell",
            true,
        );
    let outcome = contract.evaluate_evidence(&evidence);
    assert_eq!(
        outcome,
        GreenEvidenceOutcome::Unsatisfied {
            required_level: GreenLevel::Workspace,
            observed_level: GreenLevel::MergeReady,
            missing: vec![],
            blocking_flakes: vec![KnownFlake {
                test_name: "session_lifecycle_prefers_running_process_over_idle_shell"
                    .to_string(),
                blocks_green: true,
            }],
        }
    );
}

#[test]
fn failing_test_command_is_reported_missing() {
    let contract = GreenContract::merge_ready(GreenLevel::Package);
    let evidence = GreenEvidence::new(GreenLevel::Workspace)
        .with_test_command("cargo test", 101)
        .with_base_branch_fresh(true)
        .with_recovery_attempt_context(true);
    assert!(!evidence.has_passing_test_command());
    let outcome = contract.evaluate_evidence(&evidence);
    assert_eq!(
        outcome,
        GreenEvidenceOutcome::Unsatisfied {
            required_level: GreenLevel::Package,
            observed_level: GreenLevel::Workspace,
            missing: vec![GreenContractRequirement::TestCommandProvenance],
            blocking_flakes: vec![],
        }
    );
}

#[test]
fn plain_contract_ignores_non_blocking_flakes() {
    let contract = GreenContract::new(GreenLevel::Package);
    let evidence = GreenEvidence::new(GreenLevel::Package).with_known_flake("slow", false);
    assert!(contract.evaluate_evidence(&evidence).is_satisfied());
}

#[test]
fn levels_have_names_and_ranks() {
    assert_eq!(GreenLevel::TargetedTests.as_str(), "targeted_tests");
    assert_eq!(GreenLevel::MergeReady.as_str(), "merge_ready");
    assert!(GreenLevel::Package.rank() < GreenLevel::Workspace.rank());
    assert!(!GreenContract::new(GreenLevel::Workspace).is_satisfied_by(GreenLevel::Package));
}
