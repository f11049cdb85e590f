use swissarmyhammer::definition::StateKind;
use swissarmyhammer::executor::{
    start, FailureReason, RunError, RunOp, RunStatus, WorkflowExecutor, WorkflowRun,
};
use swissarmyhammer::resolver::MemoryWorkflowStorage;
use swissarmyhammer::parser::{classify_line, parse_workflow, ParseError, Statement};
use swissarmyhammer::validator::{validate, Finding, Severity};

const THREE_STATES: &str = "name: x\n\n[*] --> A\nA --> B\nB --> [*]";

fn no_guards() -> Vec<String> {
    Vec::new()
}

#[test]
fn parses_three_state_diagram() {
    let d = parse_workflow(THREE_STATES).unwrap();
    assert_eq!(d.name, "x");
    assert_eq!(d.description, "");
    assert_eq!(d.version, "1");
    let ids: Vec<&str> = d.states.iter().map(|s| s.id.as_str()).collect();
    assert_eq!(ids, vec!["A", "B"]);
    let initial: Vec<_> = d.transitions.iter().filter(|t| t.from == "[*]").collect();
    assert_eq!(initial.len(), 1);
    assert_eq!(initial[0].to, "A");
    let terminal: Vec<_> = d.transitions.iter().filter(|t| t.to == "[*]").collect();
    assert_eq!(terminal.len(), 1);
    assert_eq!(terminal[0].from, "B");
    assert_eq!(d.initial_state, "A");
    let v = validate(&d);
    assert!(!v.has_errors());
    assert!(v.findings.iter().all(|f| f.severity() != Severity::Error));
}

#[test]
fn fenced_header_and_labels() {
    let text = "---\nname: approve\ndescription: Approve a change\nversion: 2\n---\nstateDiagram-v2\n    %% a comment\n    [*] --> Check\n    state Check <<choice>>\n    Check : run linter\n    Check --> Done : {approved} ship it\n    Check --> Fix : otherwise\n    Fix --> Check\n    Done --> [*]\n    note right of Fix : loops back\n";
    let d = parse_workflow(text).unwrap();
    assert_eq!(d.name, "approve");
    assert_eq!(d.description, "Approve a change");
    assert_eq!(d.version, "2");
    let check = d.states.iter().find(|s| s.id == "Check").unwrap();
    assert_eq!(check.kind, StateKind::Choice);
    assert_eq!(check.actions, vec!["run linter".to_string()]);
    let ship = d.transitions.iter().find(|t| t.to == "Done").unwrap();
    assert_eq!(ship.guard.as_deref(), Some("approved"));
    assert_eq!(ship.label.as_deref(), Some("ship it"));
    let fix = d.transitions.iter().find(|t| t.to == "Fix").unwrap();
    assert_eq!(fix.guard, None);
    assert_eq!(fix.label.as_deref(), Some("otherwise"));
    assert_eq!(d.notes, vec!["note right of Fix : loops back".to_string()]);
    assert!(!validate(&d).has_errors());
}

#[test]
fn two_unguarded_edges_are_ambiguous() {
    let text = "name: x\n\n[*] --> A\nA --> B\nA --> C\nB --> [*]\nC --> [*]";
    match parse_workflow(text) {
        Err(ParseError::AmbiguousTransition { line, state }) => {
            assert_eq!(state, "A");
            assert_eq!(line, 5);
        }
        other => panic!("unexpected: {other:?}"),
    }
}

#[test]
fn fork_allows_unguarded_edges() {
    let text = "name: f\n\n[*] --> F\nstate F <<fork>>\nstate J <<join>>\nF --> B1\nF --> B2\nB1 --> J\nB2 --> J\nJ --> [*]";
    let d = parse_workflow(text).unwrap();
    assert!(!validate(&d).has_errors());
}

#[test]
fn missing_name_and_syntax_errors() {
    assert!(matches!(parse_workflow("title: x\n\n[*] --> A"), Err(ParseError::MissingName)));
    match parse_workflow("name: x\n\n[*] --> A\nA ==> B") {
        Err(ParseError::Syntax { line, token }) => {
            assert_eq!(line, 4);
            assert_eq!(token, "A");
        }
        other => panic!("unexpected: {other:?}"),
    }
    match parse_workflow("name x\n\n[*] --> A") {
        Err(ParseError::Syntax { line, token }) => {
            assert_eq!(line, 1);
            assert_eq!(token, "name");
        }
        other => panic!("unexpected: {other:?}"),
    }
    match parse_workflow("name: x\n\n[*] --> A oops") {
        Err(ParseError::Syntax { line, token }) => {
            assert_eq!(line, 3);
            assert_eq!(token, "oops");
        }
        other => panic!("unexpected: {other:?}"),
    }
}

#[test]
fn classifies_lines() {
    assert!(matches!(classify_line("   "), Statement::Skip));
    assert!(matches!(classify_line("%% note to self"), Statement::Skip));
    assert!(matches!(classify_line("stateDiagram-v2"), Statement::Skip));
    match classify_line("state J <<join>>") {
        Statement::Declare { id, kind } => {
            assert_eq!(id, "J");
            assert_eq!(kind, StateKind::Join);
        }
        other => panic!("unexpected: {other:?}"),
    }
    match classify_line("A  -->  B : {ok}") {
        Statement::Arrow { from, to, guard, label } => {
            assert_eq!(from, "A");
            assert_eq!(to, "B");
            assert_eq!(guard.as_deref(), Some("ok"));
            assert_eq!(label, None);
        }
        other => panic!("unexpected: {other:?}"),
    }
}

#[test]
fn unjoined_fork_branch_is_an_error() {
    let text = "name: f\n\n[*] --> F\nstate F <<fork>>\nstate J <<join>>\nF --> B1\nF --> B2\nB1 --> J\nB2 --> [*]\nJ --> [*]";
    let d = parse_workflow(text).unwrap();
    let v = validate(&d);
    assert!(v.has_errors());
    let unjoined: Vec<&Finding> = v
        .findings
        .iter()
        .filter(|f| matches!(f, Finding::UnjoinedBranch { .. }))
        .collect();
    assert_eq!(unjoined.len(), 1);
    match unjoined[0] {
        Finding::UnjoinedBranch { fork, state } => {
            assert_eq!(fork, "F");
            assert_eq!(state, "B2");
        }
        _ => unreachable!(),
    }
    assert_eq!(unjoined[0].severity(), Severity::Error);
}

#[test]
fn validator_reports_every_finding() {
    let text = "name: bad\n\n[*] --> A\n[*] --> B\nA --> A\nB --> B\nC --> A";
    let d = parse_workflow(text).unwrap();
    let v = validate(&d);
    assert!(matches!(v.findings[0], Finding::MultipleInitialStates));
    assert!(v.findings.iter().any(|f| matches!(f, Finding::UnreachableState { state } if state == "C")));
    assert!(v.findings.iter().any(|f| matches!(f, Finding::NoReachableTerminal)));
    let unreachable = v.findings.iter().find(|f| matches!(f, Finding::UnreachableState { .. })).unwrap();
    assert_eq!(unreachable.severity(), Severity::Warning);

    let empty = parse_workflow("name: e\n\n").unwrap();
    let v = validate(&empty);
    assert!(matches!(v.findings[0], Finding::NoInitialState));
    assert!(matches!(v.findings[1], Finding::NoReachableTerminal));
    assert_eq!(v.findings.len(), 2);
}

#[test]
fn cycles_are_allowed() {
    let text = "name: loop\n\n[*] --> A\nA --> B\nB --> A : {again}\nB --> [*]";
    let d = parse_workflow(text).unwrap();
    assert!(!validate(&d).has_errors());
}

#[test]
fn run_of_three_states_completes() {
    let d = parse_workflow(THREE_STATES).unwrap();
    let mut run = start(7, &d, &no_guards(), 100).unwrap();
    assert_eq!(run.id, 7);
    assert_eq!(run.definition_name, "x");
    assert_eq!(run.status, RunStatus::Running);
    assert_eq!(run.current_states, vec!["A".to_string()]);
    run.advance(&d, &no_guards(), 101).unwrap();
    assert_eq!(run.current_states, vec!["B".to_string()]);
    run.advance(&d, &no_guards(), 102).unwrap();
    assert_eq!(run.status, RunStatus::Completed);
    assert!(run.current_states.is_empty());
    assert_eq!(run.history.len(), 2);
    assert_eq!(run.history[0].state_id, "A");
    assert_eq!(run.history[0].entered_at, 100);
    assert_eq!(run.history[0].exited_at, Some(101));
    assert_eq!(run.history[1].state_id, "B");
    assert_eq!(run.history[1].exited_at, Some(102));
}

#[test]
fn cancel_on_completed_run_is_refused() {
    let d = parse_workflow(THREE_STATES).unwrap();
    let mut run = start(1, &d, &no_guards(), 0).unwrap();
    run.advance(&d, &no_guards(), 1).unwrap();
    run.advance(&d, &no_guards(), 2).unwrap();
    assert_eq!(run.status, RunStatus::Completed);
    let r = run.cancel();
    assert_eq!(r, Err(RunError::InvalidStateTransition { status: RunStatus::Completed }));
    assert_eq!(run.status, RunStatus::Completed);
    assert_eq!(
        run.advance(&d, &no_guards(), 3),
        Err(RunError::InvalidStateTransition { status: RunStatus::Completed })
    );
}

#[test]
fn suspend_resume_cancel() {
    let d = parse_workflow(THREE_STATES).unwrap();
    let mut run = start(1, &d, &no_guards(), 0).unwrap();
    assert_eq!(run.resume(), Err(RunError::InvalidStateTransition { status: RunStatus::Running }));
    run.suspend().unwrap();
    assert_eq!(run.status, RunStatus::Suspended);
    assert_eq!(run.suspend(), Err(RunError::InvalidStateTransition { status: RunStatus::Suspended }));
    assert_eq!(run.current_states, vec!["A".to_string()]);
    run.resume().unwrap();
    assert_eq!(run.status, RunStatus::Running);
    run.cancel().unwrap();
    assert_eq!(run.status, RunStatus::Cancelled);
    assert_eq!(run.cancel(), Ok(()));
    assert_eq!(run.status, RunStatus::Cancelled);
}

#[test]
fn guards_choose_the_first_satisfied_branch() {
    let text = "name: g\n\n[*] --> Check\nstate Check <<choice>>\nCheck --> Yes : {ok}\nCheck --> Also : {ok}\nCheck --> No\nYes --> [*]\nAlso --> [*]\nNo --> [*]";
    let d = parse_workflow(text).unwrap();
    let mut run = start(1, &d, &no_guards(), 0).unwrap();
    run.advance(&d, &vec!["ok".to_string()], 1).unwrap();
    assert_eq!(run.current_states, vec!["Yes".to_string()]);

    let mut run = start(2, &d, &no_guards(), 0).unwrap();
    run.advance(&d, &no_guards(), 1).unwrap();
    assert_eq!(run.current_states, vec!["No".to_string()]);
}

#[test]
fn stuck_state_fails_the_run() {
    let text = "name: s\n\n[*] --> A\nA --> B : {never}\nB --> [*]";
    let d = parse_workflow(text).unwrap();
    let mut run = start(1, &d, &no_guards(), 0).unwrap();
    run.advance(&d, &no_guards(), 1).unwrap();
    assert_eq!(run.status, RunStatus::Failed);
    match &run.failure {
        Some(FailureReason::StuckState { state }) => assert_eq!(state, "A"),
        other => panic!("unexpected: {other:?}"),
    }
    assert_eq!(run.current_states, vec!["A".to_string()]);
}

#[test]
fn fork_and_join() {
    let text = "name: f\n\n[*] --> F\nstate F <<fork>>\nstate J <<join>>\nF --> B1\nF --> B2\nB1 --> X\nX --> J\nB2 --> J\nJ --> [*]";
    let d = parse_workflow(text).unwrap();
    let mut run = start(1, &d, &no_guards(), 0).unwrap();
    assert_eq!(run.current_states, vec!["F".to_string()]);
    run.advance(&d, &no_guards(), 1).unwrap();
    assert_eq!(run.current_states, vec!["B1".to_string(), "B2".to_string()]);
    run.advance(&d, &no_guards(), 2).unwrap();
    assert_eq!(run.current_states, vec!["X".to_string(), "J".to_string()]);
    run.advance(&d, &no_guards(), 3).unwrap();
    assert_eq!(run.current_states, vec!["J".to_string()]);
    run.advance(&d, &no_guards(), 4).unwrap();
    assert_eq!(run.status, RunStatus::Completed);
    let ids: Vec<&str> = run.history.iter().map(|h| h.state_id.as_str()).collect();
    assert_eq!(ids, vec!["F", "B1", "B2", "X", "J"]);
}

#[test]
fn invalid_definition_cannot_start() {
    let d = parse_workflow("name: e\n\nA --> B").unwrap();
    assert!(matches!(start(1, &d, &no_guards(), 0), Err(RunError::InvalidDefinition)));
}

#[test]
fn failed_action_fails_the_run() {
    let d = parse_workflow(THREE_STATES).unwrap();
    let mut run = WorkflowRun::new(3, &d);
    assert_eq!(run.current_states, vec!["[*]".to_string()]);
    run.fail_action("A".to_string(), "boom".to_string()).unwrap();
    assert_eq!(run.status, RunStatus::Failed);
    assert_eq!(run.cancel(), Err(RunError::InvalidStateTransition { status: RunStatus::Failed }));
}

#[test]
fn executor_keeps_runs_by_id() {
    let mut storage = MemoryWorkflowStorage::new();
    storage.store("three".to_string(), parse_workflow(THREE_STATES).unwrap());
    storage.store("bad".to_string(), parse_workflow("name: e\n\nA --> B").unwrap());
    let mut ex = WorkflowExecutor::new();
    assert_eq!(ex.start_run(&storage, "missing", &no_guards(), 0), Err(RunError::UnknownWorkflow));
    assert_eq!(ex.start_run(&storage, "bad", &no_guards(), 0), Err(RunError::InvalidDefinition));
    let a = ex.start_run(&storage, "three", &no_guards(), 0).unwrap();
    let b = ex.start_run(&storage, "three", &no_guards(), 0).unwrap();
    assert_ne!(a, b);
    let d = storage.get("three").unwrap();
    ex.apply(a, RunOp::Advance, d, &no_guards(), 1).unwrap();
    ex.apply(a, RunOp::Advance, d, &no_guards(), 2).unwrap();
    assert_eq!(ex.get_run(a).unwrap().status, RunStatus::Completed);
    assert_eq!(ex.get_run(b).unwrap().current_states, vec!["A".to_string()]);
    ex.apply(b, RunOp::Suspend, d, &no_guards(), 3).unwrap();
    assert_eq!(ex.get_run(b).unwrap().status, RunStatus::Suspended);
    assert_eq!(
        ex.apply(b, RunOp::Advance, d, &no_guards(), 4),
        Err(RunError::InvalidStateTransition { status: RunStatus::Suspended })
    );
    ex.apply(b, RunOp::Resume, d, &no_guards(), 5).unwrap();
    ex.apply(b, RunOp::Cancel, d, &no_guards(), 6).unwrap();
    assert_eq!(ex.get_run(b).unwrap().status, RunStatus::Cancelled);
    assert_eq!(
        ex.apply(a, RunOp::Cancel, d, &no_guards(), 7),
        Err(RunError::InvalidStateTransition { status: RunStatus::Completed })
    );
    assert_eq!(ex.apply(99, RunOp::Cancel, d, &no_guards(), 8), Err(RunError::UnknownRun));
    assert!(ex.get_run(99).is_none());
}

#[test]
fn stray_state_deep_in_a_branch_is_named() {
    let text = "name: f\n\n[*] --> F\nstate F <<fork>>\nstate J <<join>>\nstate C <<choice>>\nF --> B1\nF --> B2\nB1 --> J\nB2 --> C\nC --> J : {ok}\nC --> Out\nOut --> [*]\nJ --> After\nAfter --> [*]";
    let d = parse_workflow(text).unwrap();
    let v = validate(&d);
    let strays: Vec<&str> = v
        .findings
        .iter()
        .filter_map(|f| match f {
            Finding::UnjoinedBranch { state, .. } => Some(state.as_str()),
            _ => None,
        })
        .collect();
    assert_eq!(strays, vec!["Out"]);
    assert!(v.has_errors());
}

#[test]
fn branch_reaching_another_forks_join_is_flagged() {
    let text = "name: f\n\n[*] --> F\nstate F <<fork>>\nstate G <<fork>>\nstate J <<join>>\nstate K <<join>>\nF --> A\nF --> G\nA --> J\nG --> X\nG --> Y\nX --> K\nY --> K\nK --> [*]\nJ --> [*]";
    let d = parse_workflow(text).unwrap();
    let v = validate(&d);
    let strays: Vec<(&str, &str)> = v
        .findings
        .iter()
        .filter_map(|f| match f {
            Finding::UnjoinedBranch { fork, state } => Some((fork.as_str(), state.as_str())),
            _ => None,
        })
        .collect();
    assert!(strays.contains(&("F", "G")));
    assert!(strays.contains(&("F", "X")));
    assert!(!strays.iter().any(|(f, _)| *f == "G"));
}
