//! The typed message model: a closed union over the content kinds and
//! the total projection to and from the flat stored row.

use vstd::prelude::*;
use crate::store::opt_view;
use crate::text::str_eq;
use vstd::string::StringExecFns;

verus! {

/// The identity and delivery state of a message, apart from its content.
#[derive(Debug, Clone)]
pub struct MessageMetadata {
    pub id: String,
    pub chat_id: String,
    pub peer_id: String,
    pub timestamp: i64,
    pub status: crate::store::MessageStatus,
}

/// What a message carries: text, or a media pointer with an optional
/// caption.
#[derive(Debug, Clone)]
pub enum MessageContent {
    Text(String),
    Photo { file_hash: String, caption: Option<String> },
    Video { file_hash: String, caption: Option<String> },
    Document { file_hash: String, caption: Option<String> },
    Voice { file_hash: String, caption: Option<String> },
}

/// The flat row form of a content: its type label, text, and file hash.
pub open spec fn row_of_content(c: MessageContent) -> (Seq<char>, Option<Seq<char>>, Option<
    Seq<char>,
>) {
    match c {
        MessageContent::Text(t) => ("text"@, Some(t@), None),
        MessageContent::Photo { file_hash, caption } => (
            "image"@,
            opt_view(caption),
            Some(file_hash@),
        ),
        MessageContent::Video { file_hash, caption } => (
            "video"@,
            opt_view(caption),
            Some(file_hash@),
        ),
        MessageContent::Document { file_hash, caption } => (
            "document"@,
            opt_view(caption),
            Some(file_hash@),
        ),
        MessageContent::Voice { file_hash, caption } => (
            "voice"@,
            opt_view(caption),
            Some(file_hash@),
        ),
    }
}

impl MessageContent {
    /// The stored content-type label.
    pub fn type_label(&self) -> (r: &'static str)
        ensures
            r@ == row_of_content(*self).0,
    {
        let r = match self {
            MessageContent::Text(_) => "text",
            MessageContent::Photo { .. } => "image",
            MessageContent::Video { .. } => "video",
            MessageContent::Document { .. } => "document",
            MessageContent::Voice { .. } => "voice",
        };
        proof {
            reveal_strlit("text");
            reveal_strlit("image");
            reveal_strlit("video");
            reveal_strlit("document");
            reveal_strlit("voice");
        }
        r
    }
}

/// Rebuild a content from its row form. A media row without a file hash,
/// or an unknown label, reads as text, which is what a defensive reader
/// does with a malformed row; on rows produced by `row_of_content` the
/// projection inverts exactly.
pub fn content_of_row(content_type: &str, text_content: Option<String>, file_hash: Option<
    String,
>) -> (r: MessageContent)
    ensures
        (content_type@ == "text"@ && text_content is Some) ==> r == MessageContent::Text(
            text_content->Some_0,
        ),
        (content_type@ == "image"@ && file_hash is Some) ==> r == (MessageContent::Photo {
            file_hash: file_hash->Some_0,
            caption: text_content,
        }),
        (content_type@ == "video"@ && file_hash is Some) ==> r == (MessageContent::Video {
            file_hash: file_hash->Some_0,
            caption: text_content,
        }),
        (content_type@ == "document"@ && file_hash is Some) ==> r == (MessageContent::Document {
            file_hash: file_hash->Some_0,
            caption: text_content,
        }),
        (content_type@ == "voice"@ && file_hash is Some) ==> r == (MessageContent::Voice {
            file_hash: file_hash->Some_0,
            caption: text_content,
        }),
{
    proof {
        reveal_strlit("text");
        reveal_strlit("image");
        reveal_strlit("video");
        reveal_strlit("document");
        reveal_strlit("voice");
        assert("text"@.len() == 4 && "image"@.len() == 5 && "video"@.len() == 5 && "document"@.len()
            == 8 && "voice"@.len() == 5);
        assert("image"@[0] == 'i' && "video"@[0] == 'v' && "voice"@[0] == 'v');
        assert("video"@[1] == 'i' && "voice"@[1] == 'o');
    }
    if str_eq(content_type, "image") {
        match file_hash {
            Some(h) => {
                return MessageContent::Photo { file_hash: h, caption: text_content };
            },
            None => {},
        }
    } else if str_eq(content_type, "video") {
        match file_hash {
            Some(h) => {
                return MessageContent::Video { file_hash: h, caption: text_content };
            },
            None => {},
        }
    } else if str_eq(content_type, "document") {
        match file_hash {
            Some(h) => {
                return MessageContent::Document { file_hash: h, caption: text_content };
            },
            None => {},
        }
    } else if str_eq(content_type, "voice") {
        match file_hash {
            Some(h) => {
                return MessageContent::Voice { file_hash: h, caption: text_content };
            },
            None => {},
        }
    }
    match text_content {
        Some(t) => MessageContent::Text(t),
        None => MessageContent::Text(String::new()),
    }
}


/// The message id minted for a fresh message: the timestamp and a random
/// suffix, separated by a dash.
pub fn make_message_id(timestamp: u64, suffix: u32) -> (r: String)
    ensures
        r@ == crate::mdns::dec_chars(timestamp) + seq!['-'] + crate::mdns::dec_chars(
            suffix as u64,
        ),
{
    let mut out = String::new();
    crate::mdns::push_u64(&mut out, timestamp);
    out.push('-');
    crate::mdns::push_u64(&mut out, suffix as u64);
    out
}

/// The media type guessed from a file extension, lowercased by the
/// caller; anything unknown ships as a PNG, the most tolerant viewer
/// default.
pub fn mime_for_extension(ext: &str) -> (r: &'static str)
    ensures
        ext@ == "jpg"@ || ext@ == "jpeg"@ ==> r@ == "image/jpeg"@,
        ext@ == "png"@ ==> r@ == "image/png"@,
        ext@ == "gif"@ ==> r@ == "image/gif"@,
        ext@ == "webp"@ ==> r@ == "image/webp"@,
{
    proof {
        reveal_strlit("jpg");
        reveal_strlit("jpeg");
        reveal_strlit("png");
        reveal_strlit("gif");
        reveal_strlit("webp");
        reveal_strlit("image/jpeg");
        reveal_strlit("image/png");
        reveal_strlit("image/gif");
        reveal_strlit("image/webp");
        assert("jpg"@.len() == 3 && "jpeg"@.len() == 4 && "png"@.len() == 3 && "gif"@.len() == 3
            && "webp"@.len() == 4);
        assert("jpg"@[0] == 'j' && "png"@[0] == 'p' && "gif"@[0] == 'g');
        assert("jpeg"@[0] == 'j' && "webp"@[0] == 'w');
    }
    if str_eq(ext, "jpg") || str_eq(ext, "jpeg") {
        "image/jpeg"
    } else if str_eq(ext, "gif") {
        "image/gif"
    } else if str_eq(ext, "webp") {
        "image/webp"
    } else {
        "image/png"
    }
}

/// The data URL a viewer renders media from.
pub fn data_url(mime_type: &str, b64: &str) -> (r: String)
    ensures
        r@ == "data:"@ + mime_type@ + ";base64,"@ + b64@,
{
    let mut out = String::new();
    out.append("data:");
    out.append(mime_type);
    out.append(";base64,");
    out.append(b64);
    out
}

} // verus!

