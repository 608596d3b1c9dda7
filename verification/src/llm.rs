//! The language-model client abstraction: text-in/text-out completion with
//! a system prompt and a user message, plus the scripted test double.

use vstd::prelude::*;
use vstd::string::StringExecFns;

verus! {

/// Errors that can occur during language-model operations.
#[derive(Debug)]
pub enum LlmError {
    /// The API key environment variable is not set.
    MissingApiKey,
    /// HTTP or network error occurred.
    Http(String),
    /// Failed to parse the model's response.
    Parse(String),
    /// The model returned no text content.
    EmptyResponse,
}

impl LlmError {
    /// A one-line rendering of the error.
    pub fn message(&self) -> (r: String)
        ensures
            match self {
                LlmError::MissingApiKey => r@ == "API key environment variable not set"@,
                LlmError::Http(m) => r@ == "HTTP error: "@ + m@,
                LlmError::Parse(m) => r@ == "Parse error: "@ + m@,
                LlmError::EmptyResponse => r@ == "Model returned empty response"@,
            },
    {
        match self {
            LlmError::MissingApiKey => String::from_str("API key environment variable not set"),
            LlmError::Http(m) => {
                let mut out = String::from_str("HTTP error: ");
                out.append(m.as_str());
                out
            },
            LlmError::Parse(m) => {
                let mut out = String::from_str("Parse error: ");
                out.append(m.as_str());
                out
            },
            LlmError::EmptyResponse => String::from_str("Model returned empty response"),
        }
    }
}

/// The result of a successful completion request.
pub struct Completion {
    /// The generated text from the model.
    pub text: String,
}

/// Generic interface for language-model clients: one completion from a
/// system prompt and a user message. Implementations live with their
/// transports; nothing is assumed of the text that comes back.
pub trait LlmClient {
    /// Generate a completion given a system prompt and user message.
    fn complete(&mut self, system: &str, user: &str) -> Result<Completion, LlmError>;
}

/// Scripted client for tests: returns pre-programmed responses in order,
/// and an empty-response error once they run out.
pub struct MockLlmClient {
    /// The responses still to give, front first.
    pub responses: Vec<String>,
}

impl MockLlmClient {
    /// A mock that will answer with each of the given responses in turn.
    pub fn new(responses: Vec<String>) -> (r: MockLlmClient)
        ensures
            r.responses@ == responses@,
    {
        MockLlmClient { responses }
    }
}

impl LlmClient for MockLlmClient {
    fn complete(&mut self, _system: &str, _user: &str) -> (r: Result<Completion, LlmError>)
        ensures
            old(self).responses@.len() == 0 ==> (r matches Err(LlmError::EmptyResponse)
                && final(self).responses@ == old(self).responses@),
            old(self).responses@.len() > 0 ==> (r matches Ok(c) && c.text
                == old(self).responses@[0] && final(self).responses@ == old(self).responses@.drop_first()),
    {
        if self.responses.len() == 0 {
            Err(LlmError::EmptyResponse)
        } else {
            let text = self.responses.remove(0);
            proof {
                assert(self.responses@ =~= old(self).responses@.drop_first());
            }
            Ok(Completion { text })
        }
    }
}

} // verus!
