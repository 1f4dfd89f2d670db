//! What can go wrong in the pool.

use crate::graph::model::NodeState;
use crate::text;
use vstd::prelude::*;

verus! {

/// An error for people to read: where it happened and what happened.
#[derive(Debug)]
pub struct Message {
    pub context: &'static str,
    pub detail: String,
}

impl Message {
    pub fn new(context: &'static str, detail: String) -> (message: Message)
        ensures
            message.context@ == context@,
            message.detail@ == detail@,
    {
        Message { context, detail }
    }

    /// The message as it is shown.
    pub fn message(&self) -> (text: String)
        ensures
            text@ == self.context@ + self.detail@,
    {
        let mut text = self.context.to_owned();
        text::push_text(&mut text, self.detail.as_str());
        text
    }
}

/// An error of the task graph.
#[derive(Clone, Copy, PartialEq, Eq, Structural, Debug)]
pub enum GraphError {
    /// The graph would outgrow its identifiers.
    TooManyNodes,
    /// A builder node names a dependency that is not there yet.
    UnknownDependency { node: usize, dependency: usize },
    /// An expansion node names a dependency that is not there yet.
    UnknownLocalDependency { node: usize, dependency: usize },
    /// A node was started that the graph does not hold.
    UnknownNode { node: usize },
    /// A node was started that is not ready.
    InvalidStart { node: usize, state: NodeState },
    /// A node was finished that is not running.
    NotRunning { node: usize },
    /// A token is bound to two nodes.
    TokenBoundTwice { token: u64 },
    /// A node would wait for a node that cannot finish before it.
    TokenCycle { node: usize, token: u64 },
    /// A node would wait for a later node of its own expansion.
    ForwardToken { node: usize },
    /// A node waits for a token that no node is bound to.
    UnboundToken { node: usize, token: u64 },
}

/// The name of a node's state.
pub open spec fn state_text(state: NodeState) -> Seq<char> {
    match state {
        NodeState::Pending => "Pending"@,
        NodeState::Ready => "Ready"@,
        NodeState::Running => "Running"@,
        NodeState::Waiting => "Waiting"@,
        NodeState::Succeeded => "Succeeded"@,
        NodeState::Failed => "Failed"@,
        NodeState::Cancelled => "Cancelled"@,
    }
}

fn state_name(state: NodeState) -> (name: &'static str)
    ensures
        name@ == state_text(state),
{
    match state {
        NodeState::Pending => "Pending",
        NodeState::Ready => "Ready",
        NodeState::Running => "Running",
        NodeState::Waiting => "Waiting",
        NodeState::Succeeded => "Succeeded",
        NodeState::Failed => "Failed",
        NodeState::Cancelled => "Cancelled",
    }
}

fn numbered(lead: &str, number: usize, tail: &str) -> (text: String)
    ensures
        text@ == lead@ + text::decimal(number as nat) + tail@,
{
    let mut text = lead.to_owned();
    text::push_size(&mut text, number);
    text::push_text(&mut text, tail);
    text
}

fn token_numbered(mut text: String, token: u64, tail: &str) -> (full: String)
    ensures
        full@ == text@ + text::decimal(token as nat) + tail@,
{
    text::push_decimal(&mut text, token);
    text::push_text(&mut text, tail);
    text
}

impl GraphError {
    /// The error as it is shown.
    pub open spec fn text(self) -> Seq<char> {
        match self {
            GraphError::TooManyNodes => "task graph contains more than u32::MAX nodes"@,
            GraphError::UnknownDependency { node, dependency } => "task graph node "@
                + text::decimal(node as nat) + " depends on unknown or forward node "@
                + text::decimal(dependency as nat) + ""@,
            GraphError::UnknownLocalDependency { node, dependency } => "dynamic graph node "@
                + text::decimal(node as nat) + " depends on unknown or forward node "@
                + text::decimal(dependency as nat) + ""@,
            GraphError::UnknownNode { node } => "scheduler started unknown graph node "@
                + text::decimal(node as nat) + ""@,
            GraphError::InvalidStart { node, state } => "scheduler started graph node "@
                + text::decimal(node as nat) + " from invalid state "@ + state_text(state),
            GraphError::NotRunning { node } => "completion received for graph node "@
                + text::decimal(node as nat) + " outside Running state"@,
            GraphError::TokenBoundTwice { token } => "dynamic graph dependency token TaskDependencyToken("@
                + text::decimal(token as nat) + ") is bound more than once"@,
            GraphError::TokenCycle { node, token } => "dynamic graph node "@ + text::decimal(
                node as nat,
            ) + " creates a cycle through token TaskDependencyToken("@ + text::decimal(
                token as nat,
            ) + ")"@,
            GraphError::ForwardToken { node } => "dynamic graph node "@ + text::decimal(
                node as nat,
            ) + " has a forward token dependency"@,
            GraphError::UnboundToken { node, token } => "dynamic graph node "@ + text::decimal(
                node as nat,
            ) + " depends on unbound token TaskDependencyToken("@ + text::decimal(token as nat)
                + ")"@,
        }
    }

    pub fn message(&self) -> (message: Message)
        ensures
            message.context@ == "Task pool error: "@,
            message.detail@ == self.text(),
    {
        let detail = match self {
            GraphError::TooManyNodes => "task graph contains more than u32::MAX nodes".to_owned(),
            GraphError::UnknownDependency { node, dependency } => token_numbered(
                numbered("task graph node ", *node, " depends on unknown or forward node "),
                *dependency as u64,
                "",
            ),
            GraphError::UnknownLocalDependency { node, dependency } => token_numbered(
                numbered("dynamic graph node ", *node, " depends on unknown or forward node "),
                *dependency as u64,
                "",
            ),
            GraphError::UnknownNode { node } => numbered(
                "scheduler started unknown graph node ",
                *node,
                "",
            ),
            GraphError::InvalidStart { node, state } => {
                let mut text = numbered(
                    "scheduler started graph node ",
                    *node,
                    " from invalid state ",
                );
                text::push_text(&mut text, state_name(*state));
                text
            },
            GraphError::NotRunning { node } => numbered(
                "completion received for graph node ",
                *node,
                " outside Running state",
            ),
            GraphError::TokenBoundTwice { token } => token_numbered(
                "dynamic graph dependency token TaskDependencyToken(".to_owned(),
                *token,
                ") is bound more than once",
            ),
            GraphError::TokenCycle { node, token } => token_numbered(
                numbered(
                    "dynamic graph node ",
                    *node,
                    " creates a cycle through token TaskDependencyToken(",
                ),
                *token,
                ")",
            ),
            GraphError::ForwardToken { node } => numbered(
                "dynamic graph node ",
                *node,
                " has a forward token dependency",
            ),
            GraphError::UnboundToken { node, token } => token_numbered(
                numbered(
                    "dynamic graph node ",
                    *node,
                    " depends on unbound token TaskDependencyToken(",
                ),
                *token,
                ")",
            ),
        };
        Message::new("Task pool error: ", detail)
    }
}

} // verus!
