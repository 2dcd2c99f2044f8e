//! Failure taxonomy of the agent loop.
//!
//! Transport and backend failures abort a whole turn; a missing tool never
//! does — the loop turns it into result text the model can react to.

use vstd::prelude::*;

verus! {

/// Why a turn, a model call, or a tool resolution failed.
#[derive(Debug)]
pub enum AgentError {
    /// The model backend could not be reached.
    NetworkError { detail: String },
    /// The backend's reply was unparsable or unusable.
    ProtocolError { detail: String },
    /// The backend returned a structured error object.
    ProviderError { code: String, message: String },
    /// A tool invocation named no registered tool.
    ToolNotFound { name: String },
}

impl AgentError {
    /// This failure as one line of text, as the driver reports it.
    pub fn describe(&self) -> (r: String)
        ensures
            (self matches AgentError::NetworkError { detail } ==> r@ == "Network error: "@
                + detail@),
            (self matches AgentError::ProtocolError { detail } ==> r@ == "Protocol error: "@
                + detail@),
            (self matches AgentError::ProviderError { code, message } ==> r@
                == "LLM Provider Error ("@ + code@ + "): "@ + message@),
            (self matches AgentError::ToolNotFound { name } ==> r@ == "Tool "@ + name@
                + " not found"@),
    {
        match self {
            AgentError::NetworkError { detail } => {
                let mut s = String::from_str("Network error: ");
                s.append(detail.as_str());
                s
            },
            AgentError::ProtocolError { detail } => {
                let mut s = String::from_str("Protocol error: ");
                s.append(detail.as_str());
                s
            },
            AgentError::ProviderError { code, message } => {
                let mut s = String::from_str("LLM Provider Error (");
                s.append(code.as_str());
                s.append("): ");
                s.append(message.as_str());
                proof {
                    assert(s@ =~= "LLM Provider Error ("@ + code@ + "): "@ + message@);
                }
                s
            },
            AgentError::ToolNotFound { name } => {
                let mut s = String::from_str("Tool ");
                s.append(name.as_str());
                s.append(" not found");
                proof {
                    assert(s@ =~= "Tool "@ + name@ + " not found"@);
                }
                s
            },
        }
    }
}

} // verus!
