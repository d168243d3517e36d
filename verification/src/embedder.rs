//! Summaries of structured events for semantic embedding: the prompt that
//! asks a language model for a one-sentence summary of an event, and the
//! embedder that holds the model and the sentence encoder.

use vstd::prelude::*;
use crate::support::join_text;

verus! {

/// A language model that completes prompts.
pub trait Llm {
    /// Whether `r` is an answer the model may give to `prompt`; a model
    /// that says nothing of its answers leaves every answer possible.
    open spec fn answers(&self, prompt: Seq<char>, r: Result<String, String>) -> bool {
        true
    }

    /// The completion of `prompt`.
    fn complete(&self, prompt: &str) -> (r: Result<String, String>)
        ensures
            self.answers(prompt@, r),
    ;
}

/// The prompt asking for a one-sentence summary of an event of kind
/// `kind` whose payload is the JSON text `json`.
pub open spec fn summary_prompt(kind: Seq<char>, json: Seq<char>) -> Seq<char> {
    "You are an event summariser agent. Summarise the following "@ + kind
        + " event in one short sentence:\n\nEvent Payload (JSON):\n"@ + json + "\n\nSummary:"@
}

/// The prompt asking for a one-sentence summary of an event of kind
/// `kind` whose payload is the JSON text `json`.
pub fn build_prompt(kind: &str, json: &str) -> (p: String)
    ensures
        p@ == summary_prompt(kind@, json@),
{
    let a = join_text("You are an event summariser agent. Summarise the following ", kind);
    let b = join_text(a.as_str(), " event in one short sentence:\n\nEvent Payload (JSON):\n");
    let c = join_text(b.as_str(), json);
    let p = join_text(c.as_str(), "\n\nSummary:");
    proof {
        assert(p@ =~= summary_prompt(kind@, json@));
    }
    p
}

/// Turns events into embeddings: a language model summarises each event
/// in a sentence, and an encoder embeds the sentence.
pub struct SmartEmbedder<L, E> {
    llm: L,
    encoder: E,
}

impl<L: Llm, E> SmartEmbedder<L, E> {
    /// An embedder of `llm` and `encoder`.
    pub fn new(llm: L, encoder: E) -> (s: Self)
        ensures
            s.model() == llm,
            s.sentence_encoder() == encoder,
    {
        SmartEmbedder { llm, encoder }
    }

    /// The language model, as a spec value.
    pub closed spec fn model(&self) -> L {
        self.llm
    }

    /// The sentence encoder, as a spec value.
    pub closed spec fn sentence_encoder(&self) -> E {
        self.encoder
    }

    /// The encoder.
    pub fn encoder(&self) -> (e: &E)
        ensures
            *e == self.sentence_encoder(),
    {
        &self.encoder
    }

    /// The model's one-sentence summary of an event of kind `kind` whose
    /// payload is the JSON text `json`; the prompt is `summary_prompt`.
    pub fn summarise(&self, kind: &str, json: &str) -> (r: Result<String, String>)
        ensures
            self.model().answers(summary_prompt(kind@, json@), r),
    {
        let prompt = build_prompt(kind, json);
        self.llm.complete(prompt.as_str())
    }
}

} // verus!
