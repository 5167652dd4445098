use microflow::engine::{
    ErrorInfo, MainState, NodeError, RecoveryAction, Resolution, RunningSubState, StateError,
    StateMachineContext,
};
use microflow::types::DataValue;
use std::time::Duration;

fn create_recoverable_error() -> ErrorInfo {
    ErrorInfo {
        error: NodeError::new(
            "Test error".to_string(),
            123,
            Some("Test details".to_string()),
        ),
        recoverable: true,
        retry_count: 0,
        suggested_action: RecoveryAction::Retry {
            max_attempts: 3,
            backoff: Duration::from_secs(1),
        },
    }
}

fn create_unrecoverable_error() -> ErrorInfo {
    ErrorInfo {
        error: NodeError::new(
            "Fatal error".to_string(),
            456,
            Some("Fatal details".to_string()),
        ),
        recoverable: false,
        retry_count: 3,
        suggested_action: RecoveryAction::ImmediateFail,
    }
}

#[test]
fn test_state_transition_legitimate_paths() {
    let mut state = MainState::Idle;
    assert!(state.transition(MainState::Pending).is_ok());
    assert_eq!(state, MainState::Pending);

    let mut state = MainState::Pending;
    assert!(state
        .transition(MainState::Running(RunningSubState::Normal))
        .is_ok());
    assert_eq!(state, MainState::Running(RunningSubState::Normal));

    let mut state = MainState::Pending;
    let error_info = create_recoverable_error();
    assert!(state.transition(MainState::Error(error_info.clone())).is_ok());
    match state {
        MainState::Error(info) => assert_eq!(info.error.message, "Test error"),
        _ => panic!("Expected Error state"),
    }

    let mut state = MainState::Pending;
    assert!(state.transition(MainState::Cancelled).is_ok());
    assert_eq!(state, MainState::Cancelled);

    let mut state = MainState::Running(RunningSubState::Normal);
    assert!(state.transition(MainState::Completed).is_ok());
    assert_eq!(state, MainState::Completed);

    let mut state = MainState::Running(RunningSubState::Normal);
    let error_info = create_recoverable_error();
    assert!(state.transition(MainState::Error(error_info.clone())).is_ok());
    match state {
        MainState::Error(info) => assert_eq!(info.error.message, "Test error"),
        _ => panic!("Expected Error state"),
    }

    let mut state = MainState::Running(RunningSubState::Normal);
    assert!(state.transition(MainState::Cancelled).is_ok());
    assert_eq!(state, MainState::Cancelled);

    let mut state = MainState::Error(create_recoverable_error());
    assert!(state
        .transition(MainState::Running(RunningSubState::Normal))
        .is_ok());
    assert_eq!(state, MainState::Running(RunningSubState::Normal));
}

#[test]
fn test_state_transition_invalid_paths() {
    let mut state = MainState::Idle;
    assert!(state
        .transition(MainState::Running(RunningSubState::Normal))
        .is_err());

    let mut state = MainState::Idle;
    assert!(state.transition(MainState::Completed).is_err());

    let mut state = MainState::Completed;
    assert!(state
        .transition(MainState::Running(RunningSubState::Normal))
        .is_err());
    assert!(state.transition(MainState::Idle).is_err());

    let mut state = MainState::Cancelled;
    assert!(state
        .transition(MainState::Running(RunningSubState::Normal))
        .is_err());
    assert!(state.transition(MainState::Idle).is_err());

    let mut state = MainState::Error(create_unrecoverable_error());
    assert!(state
        .transition(MainState::Running(RunningSubState::Normal))
        .is_err());
    assert!(state.transition(MainState::Idle).is_err());
}

#[test]
fn test_running_substate_transitions() {
    let mut state = MainState::Running(RunningSubState::Normal);

    assert!(state
        .transition(MainState::Running(RunningSubState::AwaitingInput))
        .is_ok());
    assert_eq!(state, MainState::Running(RunningSubState::AwaitingInput));

    let mut state = MainState::Running(RunningSubState::AwaitingInput);
    assert!(state
        .transition(MainState::Running(RunningSubState::Iterating {
            current: 0,
            total: Some(10)
        }))
        .is_ok());
    match state {
        MainState::Running(RunningSubState::Iterating { current, total }) => {
            assert_eq!(current, 0);
            assert_eq!(total, Some(10));
        }
        _ => panic!("Expected Running::Iterating"),
    }

    let mut state = MainState::Running(RunningSubState::Iterating {
        current: 0,
        total: Some(10),
    });
    assert!(state
        .transition(MainState::Running(RunningSubState::Branching {
            condition: true,
            selected_branch: "branch1".to_string()
        }))
        .is_ok());
    match state {
        MainState::Running(RunningSubState::Branching {
            condition,
            selected_branch,
        }) => {
            assert_eq!(condition, true);
            assert_eq!(selected_branch, "branch1".to_string());
        }
        _ => panic!("Expected Running::Branching"),
    }

    let mut state = MainState::Running(RunningSubState::Branching {
        condition: true,
        selected_branch: "branch1".to_string(),
    });
    assert!(state
        .transition(MainState::Running(RunningSubState::Concurrent {
            active_tasks: 2
        }))
        .is_ok());
    match state {
        MainState::Running(RunningSubState::Concurrent { active_tasks }) => {
            assert_eq!(active_tasks, 2);
        }
        _ => panic!("Expected Running::Concurrent"),
    }
}

#[test]
fn test_error_recovery() {
    let mut state = MainState::Error(create_recoverable_error());
    assert!(state
        .transition(MainState::Running(RunningSubState::Normal))
        .is_ok());
    assert_eq!(state, MainState::Running(RunningSubState::Normal));

    let mut state = MainState::Error(create_unrecoverable_error());
    assert!(state
        .transition(MainState::Running(RunningSubState::Normal))
        .is_err());
}

#[test]
fn test_state_machine_context() {
    let mut context = StateMachineContext::new(MainState::Idle);
    assert_eq!(context.current_state, MainState::Idle);
    assert!(context.previous_states.is_empty());
    assert!(context.transition_count.is_empty());

    assert!(context.transition(MainState::Pending).is_ok());
    assert_eq!(context.current_state, MainState::Pending);
    assert_eq!(context.previous_states.len(), 1);
    assert_eq!(context.previous_states[0], MainState::Idle);

    assert!(context
        .transition(MainState::Running(RunningSubState::Normal))
        .is_ok());
    assert_eq!(
        context.current_state,
        MainState::Running(RunningSubState::Normal)
    );
    assert_eq!(context.previous_states.len(), 2);
    assert_eq!(context.previous_states[1], MainState::Pending);

    let from_idle_to_pending = (MainState::Idle, MainState::Pending);
    let from_pending_to_running = (
        MainState::Pending,
        MainState::Running(RunningSubState::Normal),
    );
    assert_eq!(
        context
            .transition_count
            .get(&from_idle_to_pending.0, &from_idle_to_pending.1),
        Some(1)
    );
    assert_eq!(
        context
            .transition_count
            .get(&from_pending_to_running.0, &from_pending_to_running.1),
        Some(1)
    );
}

#[test]
fn test_state_as_str() {
    assert_eq!(MainState::Idle.as_str(), "Idle");
    assert_eq!(MainState::Pending.as_str(), "Pending");
    assert_eq!(MainState::Completed.as_str(), "Completed");
    assert_eq!(
        MainState::Error(create_recoverable_error()).as_str(),
        "Error"
    );
    assert_eq!(MainState::Cancelled.as_str(), "Cancelled");

    assert_eq!(
        MainState::Running(RunningSubState::Normal).as_str(),
        "Running::Normal"
    );
    assert_eq!(
        MainState::Running(RunningSubState::AwaitingInput).as_str(),
        "Running::AwaitingInput"
    );
    assert_eq!(
        MainState::Running(RunningSubState::Iterating {
            current: 0,
            total: Some(10)
        })
        .as_str(),
        "Running::Iterating"
    );
    assert_eq!(
        MainState::Running(RunningSubState::Branching {
            condition: true,
            selected_branch: "branch1".to_string()
        })
        .as_str(),
        "Running::Branching"
    );
    assert_eq!(
        MainState::Running(RunningSubState::Concurrent { active_tasks: 2 }).as_str(),
        "Running::Concurrent"
    );
}

#[test]
fn test_state_transition_errors() {
    let mut state = MainState::Idle;
    let result = state.transition(MainState::Completed);
    assert!(result.is_err());
    match result.unwrap_err() {
        StateError::InvalidTransition(msg) => {
            assert!(msg.contains("Cannot transition from Idle to Completed"));
        }
        _ => panic!("Expected InvalidTransition error"),
    }

    let mut state = MainState::Completed;
    let result = state.transition(MainState::Running(RunningSubState::Normal));
    assert!(result.is_err());
    match result.unwrap_err() {
        StateError::InvalidTransition(msg) => {
            assert!(msg.contains("Cannot transition from Completed"));
        }
        _ => panic!("Expected InvalidTransition error"),
    }
}

#[test]
fn refused_step_changes_nothing() {
    let mut context = StateMachineContext::new(MainState::Idle);
    let result = context.transition(MainState::Completed);
    assert_eq!(
        result,
        Err(StateError::InvalidTransition(
            "Cannot transition from Idle to Completed".to_string()
        ))
    );
    assert_eq!(context.current_state, MainState::Idle);
    assert!(context.previous_states.is_empty());
    assert!(context.transition_count.is_empty());
    assert_eq!(
        context
            .transition_count
            .get(&MainState::Idle, &MainState::Completed),
        None
    );
}

#[test]
fn repeated_step_counts_up() {
    let mut context = StateMachineContext::new(MainState::Running(RunningSubState::Normal));
    for _ in 0..3 {
        assert!(context
            .transition(MainState::Running(RunningSubState::Normal))
            .is_ok());
    }
    assert!(context
        .transition(MainState::Running(RunningSubState::AwaitingInput))
        .is_ok());
    let normal = MainState::Running(RunningSubState::Normal);
    let waiting = MainState::Running(RunningSubState::AwaitingInput);
    assert_eq!(context.transition_count.get(&normal, &normal), Some(3));
    assert_eq!(context.transition_count.get(&normal, &waiting), Some(1));
    assert_eq!(context.transition_count.get(&waiting, &normal), None);
    assert_eq!(context.transition_count.len(), 2);
    assert_eq!(context.previous_states().len(), 4);
    assert_eq!(context.current_state(), &waiting);
}

#[test]
fn errors_with_different_payloads_count_apart() {
    let mut first = StateMachineContext::new(MainState::Pending);
    assert!(first
        .transition(MainState::Error(create_recoverable_error()))
        .is_ok());
    let pending = MainState::Pending;
    assert_eq!(
        first
            .transition_count()
            .get(&pending, &MainState::Error(create_recoverable_error())),
        Some(1)
    );
    assert_eq!(
        first
            .transition_count()
            .get(&pending, &MainState::Error(create_unrecoverable_error())),
        None
    );
}

#[test]
fn state_error_to_string() {
    assert_eq!(
        StateError::InvalidTransition("x".to_string()).to_string(),
        "Invalid transition: x"
    );
    assert_eq!(
        StateError::RecoveryFailed("y".to_string()).to_string(),
        "Recovery failed: y"
    );
    assert_eq!(
        StateError::StateAlreadySet("z".to_string()).to_string(),
        "State already set: z"
    );
}

#[test]
fn retry_actions_compare_with_their_backoff() {
    let retry = |secs: u64| RecoveryAction::Retry {
        max_attempts: 3,
        backoff: Duration::from_secs(secs),
    };
    assert!(retry(1).same(&retry(1)));
    assert!(!retry(1).same(&retry(2)));
    assert!(!retry(1).same(&RecoveryAction::Skip));
    assert!(RecoveryAction::ImmediateFail.same(&RecoveryAction::ImmediateFail));

    // Two errors that differ in the backoff only are counted apart.
    let error_with = |secs: u64| {
        let mut info = create_recoverable_error();
        info.suggested_action = retry(secs);
        MainState::Error(info)
    };
    let mut context = StateMachineContext::new(MainState::Pending);
    assert!(context.transition(error_with(1)).is_ok());
    assert_eq!(
        context.transition_count.get(&MainState::Pending, &error_with(1)),
        Some(1)
    );
    assert_eq!(
        context.transition_count.get(&MainState::Pending, &error_with(2)),
        None
    );
    assert!(error_with(1).same(&error_with(1).clone()));
}

#[test]
fn every_pair_of_states_follows_the_table() {
    let states = || {
        vec![
            MainState::Idle,
            MainState::Pending,
            MainState::Running(RunningSubState::Normal),
            MainState::Running(RunningSubState::AwaitingInput),
            MainState::Completed,
            MainState::Error(create_recoverable_error()),
            MainState::Error(create_unrecoverable_error()),
            MainState::Cancelled,
        ]
    };
    let allowed = |from: &MainState, to: &MainState| match (from, to) {
        (MainState::Idle, MainState::Pending) => true,
        (MainState::Pending, MainState::Running(_))
        | (MainState::Pending, MainState::Error(_))
        | (MainState::Pending, MainState::Cancelled) => true,
        (MainState::Running(_), MainState::Running(_))
        | (MainState::Running(_), MainState::Completed)
        | (MainState::Running(_), MainState::Error(_))
        | (MainState::Running(_), MainState::Cancelled) => true,
        (MainState::Error(info), MainState::Running(_)) => info.recoverable,
        _ => false,
    };
    for from in states() {
        for to in states() {
            let mut context = StateMachineContext::new(from.clone());
            let result = context.transition(to.clone());
            assert_eq!(from.can_transition_to(&to), allowed(&from, &to));
            if allowed(&from, &to) {
                assert_eq!(result, Ok(()));
                assert_eq!(context.current_state, to);
                assert_eq!(context.previous_states, vec![from.clone()]);
                assert_eq!(context.transition_count.get(&from, &to), Some(1));
                assert_eq!(context.transition_count.len(), 1);
            } else {
                assert!(matches!(result, Err(StateError::InvalidTransition(_))));
                assert_eq!(context.current_state, from);
                assert!(context.previous_states.is_empty());
                assert!(context.transition_count.is_empty());
            }
        }
    }
}

#[test]
fn errors_resolve_as_they_suggest_if_they_are_recoverable() {
    let info = |recoverable: bool, retry_count: u32, action: RecoveryAction| ErrorInfo {
        error: NodeError::new("e".to_string(), 1, None),
        recoverable,
        retry_count,
        suggested_action: action,
    };
    let retry = || RecoveryAction::Retry {
        max_attempts: 3,
        backoff: Duration::from_millis(250),
    };
    let fallback = || RecoveryAction::Fallback {
        value: DataValue::Text("spare".to_string()),
    };
    assert_eq!(
        info(true, 0, retry()).resolution(),
        Resolution::RetryAfter(Duration::from_millis(250))
    );
    assert_eq!(
        info(true, 2, retry()).resolution(),
        Resolution::RetryAfter(Duration::from_millis(250))
    );
    assert_eq!(info(true, 3, retry()).resolution(), Resolution::FailRun);
    assert_eq!(
        info(true, 0, fallback()).resolution(),
        Resolution::Substitute(DataValue::Text("spare".to_string()))
    );
    assert_eq!(
        info(true, 0, RecoveryAction::Skip).resolution(),
        Resolution::SkipNode
    );
    assert_eq!(
        info(true, 0, RecoveryAction::ImmediateFail).resolution(),
        Resolution::FailRun
    );
    // Nothing is done about an error that is not recoverable.
    assert_eq!(info(false, 0, retry()).resolution(), Resolution::FailRun);
    assert_eq!(info(false, 0, fallback()).resolution(), Resolution::FailRun);
    assert_eq!(
        info(false, 0, RecoveryAction::Skip).resolution(),
        Resolution::FailRun
    );
}

#[test]
fn loop_without_a_bound_is_a_state_of_its_own() {
    let unbounded = RunningSubState::Iterating {
        current: 5,
        total: None,
    };
    let bounded = RunningSubState::Iterating {
        current: 5,
        total: Some(5),
    };
    assert!(unbounded.same(&unbounded.clone()));
    assert!(!unbounded.same(&bounded));
    let mut state = MainState::Running(bounded);
    assert!(state.transition(MainState::Running(unbounded)).is_ok());
    assert_eq!(state.as_str(), "Running::Iterating");
}
