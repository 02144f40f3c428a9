//! Plain data carried from the chat listener to the consumer loop.

use vstd::prelude::*;

verus! {

/// Pixel dimensions of an emote image, known once its metadata is resolved.
#[derive(Clone, Copy, PartialEq, Eq, Debug, Structural)]
pub struct EmoteDims {
    pub width: u32,
    pub height: u32,
}

/// One emote occurrence inside a raw chat line, as the chat protocol
/// reports it: the token text and its character range in the message.
pub struct RawEmote {
    pub token: String,
    pub start: usize,
    pub end: usize,
}

/// A raw incoming chat message before enrichment: sender identity, text,
/// and the emote occurrences the protocol annotated.
pub struct RawMessage {
    pub sender: String,
    pub text: String,
    pub emotes: Vec<RawEmote>,
}

/// One emote occurrence enriched with whatever metadata the cache holds:
/// `url` is `None` when resolution failed and the token renders as plain
/// text; `dims` is `None` until the image's intrinsic size is known.
#[derive(Clone)]
pub struct EmoteInstance {
    pub token: String,
    pub start: usize,
    pub end: usize,
    pub url: Option<String>,
    pub dims: Option<EmoteDims>,
}

/// A normalized chat event, produced once per incoming chat line and
/// consumed exactly once by the bridge consumer.
pub struct ChatEvent {
    pub sender: String,
    pub text: String,
    pub emotes: Vec<EmoteInstance>,
}

} // verus!
