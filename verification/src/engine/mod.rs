//! The lifecycle of a node.

pub mod state_machine;

pub use state_machine::{
    EdgeId, ErrorInfo, ErrorInfoView, MainState, MainStateView, NodeError, NodeErrorView,
    RecoveryAction, RecoveryActionView, Resolution, ResolutionView, RunningSubState,
    RunningSubStateView, StateError,
    StateMachineContext, TransitionCount, TransitionCounts,
};
