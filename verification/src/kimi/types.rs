//! The messages exchanged with the chat-completions API.
use vstd::prelude::*;

verus! {

/// One message of a chat request.
pub struct RequestMessage {
    pub role: String,
    pub content: MessageContent,
}

/// The content of a message: plain text, or a list of parts.
pub enum MessageContent {
    Text(String),
    Parts(Vec<ContentPart>),
}

/// One part of a message: text, or a video given by URL.
pub enum ContentPart {
    Text { text: String },
    VideoUrl { video_url: VideoUrlPayload },
}

pub struct VideoUrlPayload {
    pub url: String,
}

/// The answer to a file upload: the identifier of the stored file.
pub struct UploadFileResponse {
    pub id: String,
}

} // verus!
