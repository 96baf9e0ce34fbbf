//! The errors of terminal tasks.

use vstd::prelude::*;

verus! {

/// Why a terminal task failed.
#[derive(Debug, Clone)]
pub enum NodegetError {
    /// The request cannot be served as it is.
    InvalidInput(String),
    /// A connection was not made.
    AgentConnectionError(String),
    Other(String),
}

/// `NodegetError` with texts in place of strings.
pub enum ErrorText {
    InvalidInput(Seq<char>),
    AgentConnectionError(Seq<char>),
    Other(Seq<char>),
}

impl View for NodegetError {
    type V = ErrorText;

    open spec fn view(&self) -> ErrorText {
        match self {
            NodegetError::InvalidInput(message) => ErrorText::InvalidInput(message@),
            NodegetError::AgentConnectionError(message) => ErrorText::AgentConnectionError(
                message@,
            ),
            NodegetError::Other(message) => ErrorText::Other(message@),
        }
    }
}

/// The outcome of a task over texts.
pub open spec fn outcome_text(outcome: Result<(), NodegetError>) -> Result<(), ErrorText> {
    match outcome {
        Ok(()) => Ok(()),
        Err(e) => Err(e@),
    }
}

/// The view of an error keeps its kind and its message, and the outcome over texts keeps whether the
/// task succeeded.
pub proof fn law_error_text(message: String)
    ensures
        NodegetError::InvalidInput(message)@ == ErrorText::InvalidInput(message@),
        NodegetError::AgentConnectionError(message)@ == ErrorText::AgentConnectionError(message@),
        NodegetError::Other(message)@ == ErrorText::Other(message@),
        outcome_text(Ok(())) == Ok::<(), ErrorText>(()),
        outcome_text(Err(NodegetError::InvalidInput(message))) == Err::<(), ErrorText>(
            ErrorText::InvalidInput(message@),
        ),
        outcome_text(Err(NodegetError::AgentConnectionError(message))) == Err::<(), ErrorText>(
            ErrorText::AgentConnectionError(message@),
        ),
        outcome_text(Err(NodegetError::Other(message))) == Err::<(), ErrorText>(
            ErrorText::Other(message@),
        ),
{
}

} // verus!
