//! The request and response records exchanged with the inference
//! endpoint. Serializing the request and deserializing the response are
//! the surrounding program's work; the library builds the request value
//! and sanitizes the response text.

use vstd::prelude::*;

use crate::sanitize::{sanitize, sanitize_spec};

verus! {

/// The abstract value of an [`OllamaRequest`].
pub ghost struct OllamaRequestV {
    pub model: Seq<char>,
    pub prompt: Seq<char>,
    pub stream: bool,
}

/// One generation request: the model identifier, the prompt and the
/// streaming flag (always off in this pipeline).
#[derive(Debug)]
pub struct OllamaRequest {
    model: String,
    prompt: String,
    stream: bool,
}

impl View for OllamaRequest {
    type V = OllamaRequestV;

    closed spec fn view(&self) -> OllamaRequestV {
        OllamaRequestV { model: self.model@, prompt: self.prompt@, stream: self.stream }
    }
}

impl OllamaRequest {
    /// Builds a request holding exactly the given fields.
    pub fn new(model: String, prompt: String, stream: bool) -> (r: Self)
        ensures
            r@.model == model@,
            r@.prompt == prompt@,
            r@.stream == stream,
    {
        Self { model, prompt, stream }
    }

    /// The model identifier.
    pub fn model(&self) -> (r: &String)
        ensures
            r@ == self@.model,
    {
        &self.model
    }

    /// The prompt text.
    pub fn prompt(&self) -> (r: &String)
        ensures
            r@ == self@.prompt,
    {
        &self.prompt
    }

    /// The streaming flag.
    pub fn stream(&self) -> (r: bool)
        ensures
            r == self@.stream,
    {
        self.stream
    }
}

/// One generation response: the raw text the inference endpoint returned.
/// Its view is that raw text.
#[derive(Debug)]
pub struct OllamaResponse {
    response: String,
}

impl View for OllamaResponse {
    type V = Seq<char>;

    closed spec fn view(&self) -> Seq<char> {
        self.response@
    }
}

impl OllamaResponse {
    /// Wraps the raw response text.
    pub fn new(response: String) -> (r: Self)
        ensures
            r@ == response@,
    {
        Self { response }
    }

    /// The sanitized response: reasoning blocks removed, code fences and
    /// emphasis collapsed to the quality server's markup, whitespace
    /// trimmed.
    pub fn response(&self) -> (r: String)
        ensures
            r@ == sanitize_spec(self@),
    {
        sanitize(self.response.as_str())
    }
}

} // verus!
