//! The model client's decisions: which endpoint serves a conversation, and
//! what a backend reply means. The transport (an HTTP POST of the
//! transcript) lives with the driver; it hands the parsed reply back as
//! plain values and the classification here is verified.
//!
//! Outbound messages are put in transmission form by
//! `crate::msg::sanitize_messages` before they are serialized.

use vstd::prelude::*;
use crate::config::ProviderConfig;
use crate::errors::AgentError;
use crate::msg::Message;

verus! {

/// A chat-completion client: credentials, endpoint base, and model name.
#[derive(Debug)]
pub struct LLMClient {
    pub api_key: String,
    pub api_base: String,
    pub model: String,
}

impl LLMClient {
    /// Takes the provider's key, its endpoint base or the given default
    /// when it names none, and the model to converse with.
    pub fn new(config: &ProviderConfig, default_base: &str, model: &str) -> (c: LLMClient)
        ensures
            c.api_key@ == config.api_key@,
            c.api_base@ == (match config.api_base {
                Some(b) => b@,
                None => default_base@,
            }),
            c.model@ == model@,
    {
        let api_base = match &config.api_base {
            Some(b) => b.clone(),
            None => String::from_str(default_base),
        };
        LLMClient {
            api_key: config.api_key.clone(),
            api_base,
            model: String::from_str(model),
        }
    }

    /// The chat-completion endpoint called for this client.
    pub fn chat_url(&self) -> (r: String)
        ensures
            r@ == self.api_base@ + "/chat/completions"@,
    {
        let mut s = self.api_base.clone();
        s.append("/chat/completions");
        s
    }
}

/// A backend error object, as plain values.
#[derive(Debug)]
pub struct ErrorInfo {
    /// The backend's error code, already rendered as text.
    pub code: Option<String>,
    pub message: Option<String>,
}

/// A backend reply, already read into plain values by the transport:
/// either a structured error object, or the completion choices.
#[derive(Debug)]
pub struct ChatPayload {
    pub error: Option<ErrorInfo>,
    pub choices: Vec<Message>,
}

/// What a parsed backend reply means. A structured error object becomes a
/// `ProviderError` carrying the backend's code (or `no code`) and message
/// (or the default); otherwise the first completion choice's message is
/// the reply, unmodified, and a reply without any choice is a
/// `ProtocolError`. Exactly these three cases exist.
pub fn interpret_chat_payload(payload: ChatPayload) -> (r: Result<Message, AgentError>)
    ensures
        payload.error matches Some(e) ==> (r matches Err(err) && err matches
            AgentError::ProviderError { code, message } && code@ == (match e.code {
            Some(c) => c@,
            None => "no code"@,
        }) && message@ == (match e.message {
            Some(m) => m@,
            None => "Unknown API Error"@,
        })),
        payload.error is None && payload.choices@.len() == 0 ==> (r matches Err(err)
            && err is ProtocolError),
        payload.error is None && payload.choices@.len() > 0 ==> (r matches Ok(m) && m@
            == payload.choices@[0]@),
{
    match payload.error {
        Some(e) => {
            let code = match e.code {
                Some(c) => c,
                None => String::from_str("no code"),
            };
            let message = match e.message {
                Some(m) => m,
                None => String::from_str("Unknown API Error"),
            };
            Err(AgentError::ProviderError { code, message })
        },
        None => {
            let mut choices = payload.choices;
            if choices.len() == 0 {
                Err(AgentError::ProtocolError {
                    detail: String::from_str("no choices in model reply"),
                })
            } else {
                Ok(choices.remove(0))
            }
        },
    }
}

} // verus!
