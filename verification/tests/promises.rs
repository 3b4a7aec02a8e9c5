use artifact_groups::artifact::Artifact;
use artifact_groups::promise::AnalysisResult;
use artifact_groups::promise::AnonTargetKey;
use artifact_groups::promise::PromiseArtifactId;
use artifact_groups::promise::PromiseArtifactRegistry;
use artifact_groups::promise::PromiseError;
use artifact_groups::promise::PromiseState;
use artifact_groups::promise::ResolveAttempt;

fn promise_id(target: u64, slot: usize) -> PromiseArtifactId {
    PromiseArtifactId { owner: AnonTargetKey { id: target }, id: slot }
}

#[test]
fn register_starts_unresolved() {
    let mut reg = PromiseArtifactRegistry::new();
    let p = reg.register(promise_id(1, 0));
    assert_eq!(reg.len(), 1);
    assert_eq!(reg.get(p), None);
    assert_eq!(reg.state(p), PromiseState::Unresolved);
}

#[test]
fn only_first_attempt_triggers_analysis() {
    // Two callers race on the same promise: the first is asked to run the
    // analysis, the second sees it in flight and is not.
    let mut reg = PromiseArtifactRegistry::new();
    let p = reg.register(promise_id(5, 0));
    let first = reg.begin_resolve(p);
    assert_eq!(first, ResolveAttempt::NeedAnalysis(AnonTargetKey { id: 5 }));
    let second = reg.begin_resolve(p);
    assert_eq!(second, ResolveAttempt::Pending);
}

#[test]
fn settled_success_is_cached_for_all_callers() {
    let mut reg = PromiseArtifactRegistry::new();
    let id = promise_id(5, 0);
    let p = reg.register(id);
    assert_eq!(reg.begin_resolve(p), ResolveAttempt::NeedAnalysis(AnonTargetKey { id: 5 }));

    let analysis = AnalysisResult { artifacts: vec![(id, Artifact::new(77))] };
    let settled = reg.settle(p, Ok(analysis));
    assert_eq!(settled, Ok(Artifact::new(77)));

    // Every later attempt and peek observes the same cached handle.
    assert_eq!(reg.begin_resolve(p), ResolveAttempt::Resolved(Artifact::new(77)));
    assert_eq!(reg.get(p), Some(Artifact::new(77)));
    assert_eq!(reg.state(p), PromiseState::Resolved(Artifact::new(77)));
}

#[test]
fn analysis_failure_is_cached_and_not_retried() {
    // T's analysis fails with error 404: the failure is returned, cached,
    // and a later attempt observes it without being asked to re-run T.
    let mut reg = PromiseArtifactRegistry::new();
    let id = promise_id(9, 0);
    let p = reg.register(id);
    assert_eq!(reg.begin_resolve(p), ResolveAttempt::NeedAnalysis(AnonTargetKey { id: 9 }));

    let expected = PromiseError::AnalysisFailed { target: AnonTargetKey { id: 9 }, code: 404 };
    assert_eq!(reg.settle(p, Err(404)), Err(expected));
    assert_eq!(reg.begin_resolve(p), ResolveAttempt::Failed(expected));

    // A second (late) report changes nothing: first writer wins.
    let other = AnalysisResult { artifacts: vec![(id, Artifact::new(1))] };
    assert_eq!(reg.settle(p, Ok(other)), Err(expected));
    assert_eq!(reg.state(p), PromiseState::Failed(expected));
}

#[test]
fn missing_output_is_distinct_from_analysis_failure() {
    // T's analysis succeeds but declares a different slot than the promise
    // expects: the error names the contract violation, not a failure of T.
    let mut reg = PromiseArtifactRegistry::new();
    let id = promise_id(3, 2);
    let p = reg.register(id);
    assert_eq!(reg.begin_resolve(p), ResolveAttempt::NeedAnalysis(AnonTargetKey { id: 3 }));

    let analysis = AnalysisResult { artifacts: vec![(promise_id(3, 1), Artifact::new(8))] };
    let settled = reg.settle(p, Ok(analysis));
    assert_eq!(settled, Err(PromiseError::MissingExpectedOutput { id }));
    assert!(!matches!(settled, Err(PromiseError::AnalysisFailed { .. })));
}

#[test]
fn settle_picks_the_expected_slot() {
    let mut reg = PromiseArtifactRegistry::new();
    let id = promise_id(3, 1);
    let p = reg.register(id);
    reg.begin_resolve(p);
    let analysis = AnalysisResult {
        artifacts: vec![
            (promise_id(3, 0), Artifact::new(30)),
            (promise_id(3, 1), Artifact::new(31)),
        ],
    };
    assert_eq!(reg.settle(p, Ok(analysis)), Ok(Artifact::new(31)));
}

#[test]
fn abandoned_attempt_leaves_promise_retryable() {
    // A cancelled resolution leaves the cell unresolved, not poisoned: a
    // future caller is asked to run the analysis again.
    let mut reg = PromiseArtifactRegistry::new();
    let p = reg.register(promise_id(6, 0));
    assert_eq!(reg.begin_resolve(p), ResolveAttempt::NeedAnalysis(AnonTargetKey { id: 6 }));
    reg.abandon(p);
    assert_eq!(reg.state(p), PromiseState::Unresolved);
    assert_eq!(reg.begin_resolve(p), ResolveAttempt::NeedAnalysis(AnonTargetKey { id: 6 }));
}

#[test]
fn abandon_keeps_a_settled_outcome() {
    let mut reg = PromiseArtifactRegistry::new();
    let id = promise_id(6, 0);
    let p = reg.register(id);
    reg.begin_resolve(p);
    let analysis = AnalysisResult { artifacts: vec![(id, Artifact::new(5))] };
    reg.settle(p, Ok(analysis)).unwrap();
    reg.abandon(p);
    assert_eq!(reg.get(p), Some(Artifact::new(5)));
}
