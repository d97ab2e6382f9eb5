//! The records of a completion request and of its streamed answer.

use vstd::prelude::*;

verus! {

/// A completion request as the caller states it.
#[derive(Debug)]
pub struct ChatRequest {
    pub message: String,
    pub api_key: String,
    pub api_url: String,
    pub model: String,
    pub history: Vec<ChatMessage>,
}

/// One turn of a conversation: who spoke, and what.
#[derive(Debug)]
pub struct ChatMessage {
    pub role: String,
    pub content: String,
}

/// The body of a completion request.
#[derive(Debug)]
pub struct ChatPayload {
    pub model: String,
    pub messages: Vec<ChatMessage>,
    pub stream: bool,
}

/// One decoded frame of a streamed answer.
#[derive(Debug)]
pub struct StreamResponse {
    pub choices: Vec<StreamChoice>,
}

/// One alternative of a frame.
#[derive(Debug)]
pub struct StreamChoice {
    pub delta: DeltaContent,
    pub finish_reason: Option<String>,
}

/// The increment that a frame carries.
#[derive(Debug)]
pub struct DeltaContent {
    pub content: Option<String>,
}

impl Clone for ChatMessage {
    /// A copy with the same role and content.
    fn clone(&self) -> (copy: Self)
        ensures
            copy == *self,
    {
        ChatMessage { role: self.role.clone(), content: self.content.clone() }
    }
}

impl ChatMessage {
    /// A message of the user with the given content.
    pub fn from_user(content: String) -> (message: ChatMessage)
        ensures
            message.role@ == "user"@,
            message.content == content,
    {
        ChatMessage { role: "user".to_string(), content }
    }
}

impl ChatRequest {
    /// The body to send for this request: the model, the history followed
    /// by the new message as a message of the user, and streaming switched on.
    pub fn into_payload(self) -> (payload: ChatPayload)
        ensures
            payload.model == self.model,
            payload.stream,
            payload.messages@.len() == self.history@.len() + 1,
            payload.messages@.drop_last() == self.history@,
            payload.messages@.last().role@ == "user"@,
            payload.messages@.last().content == self.message,
    {
        let mut messages = self.history;
        messages.push(ChatMessage::from_user(self.message));
        assert(messages@.drop_last() =~= self.history@);
        ChatPayload { model: self.model, messages, stream: true }
    }
}

impl StreamResponse {
    /// The text that this frame adds: the content of its first choice, if
    /// the frame has a choice and that content is there and not empty.
    pub open spec fn fragment(self) -> Option<Seq<char>> {
        if self.choices@.len() == 0 {
            None
        } else {
            match self.choices@[0].delta.content {
                Some(text) => if text@.len() == 0 {
                    None
                } else {
                    Some(text@)
                },
                None => None,
            }
        }
    }

    /// Hands out the text that this frame adds, if any.
    pub fn text_fragment(&self) -> (text: Option<&String>)
        ensures
            match text {
                Some(t) => self.fragment() == Some(t@),
                None => self.fragment() is None,
            },
    {
        if self.choices.len() == 0 {
            return None;
        }
        match &self.choices[0].delta.content {
            Some(text) => {
                if text.as_str().is_empty() {
                    None
                } else {
                    Some(text)
                }
            },
            None => None,
        }
    }
}

} // verus!
