//! Attachments: how a file or an inline payload is classified, what is
//! stored for it, and the digest that identifies what is stored.

use crate::bindings::{
    base64_encode, base64_standard, hex_encode, hex_lower, known_mime, mime_of_extension, sha256,
    sha256_digest, utf8_text,
};
use crate::path::{extension, extension_of};
use crate::error::AppError;
use crate::text::{same_text, starts_with};
use vstd::prelude::*;
use vstd::string::*;
use vstd::utf8::{decode_utf8, encode_utf8, valid_utf8};

verus! {

/// The coarse kind of an attachment.
#[derive(Debug, Clone, Copy, PartialEq, Eq, Structural)]
pub enum AttachmentType {
    Image,
    Text,
}

/// The kind that a number stands for where kinds are given or kept as
/// numbers: 1 for an image, 2 for text, and none for any other number.
pub open spec fn kind_of_code(code: i64) -> Option<AttachmentType> {
    if code == 1 {
        Some(AttachmentType::Image)
    } else if code == 2 {
        Some(AttachmentType::Text)
    } else {
        None
    }
}

impl AttachmentType {
    /// The kind that the number `code` stands for. A number that stands
    /// for no kind is refused as unsupported.
    pub fn from_code(code: i64) -> (kind: Result<AttachmentType, AppError>)
        ensures
            kind == match kind_of_code(code) {
                Some(k) => Ok::<AttachmentType, AppError>(k),
                None => Err(AppError::UnsupportedType),
            },
    {
        if code == 1 {
            Ok(AttachmentType::Image)
        } else if code == 2 {
            Ok(AttachmentType::Text)
        } else {
            Err(AppError::UnsupportedType)
        }
    }

    /// The number that stands for this kind.
    pub fn code(&self) -> (code: i64)
        ensures
            kind_of_code(code) == Some(*self),
            code == 1 || code == 2,
    {
        match self {
            AttachmentType::Image => 1,
            AttachmentType::Text => 2,
        }
    }
}

/// The `message_id` of an attachment that belongs to no message yet.
pub const UNATTACHED: i64 = -1;

/// An attachment as it is stored. `attachment_content` is the text of a
/// text file, or the data URI of an image; `attachment_hash` is the digest
/// of `attachment_content`.
#[derive(Debug)]
pub struct MessageAttachment {
    pub id: i64,
    pub message_id: i64,
    pub attachment_type: AttachmentType,
    pub attachment_url: String,
    pub attachment_content: String,
    pub attachment_hash: String,
    pub use_vector: bool,
    pub token_count: Option<i32>,
}

/// A `MessageAttachment` by its characters.
#[verifier::ext_equal]
pub struct AttachmentView {
    pub id: i64,
    pub message_id: i64,
    pub attachment_type: AttachmentType,
    pub attachment_url: Seq<char>,
    pub attachment_content: Seq<char>,
    pub attachment_hash: Seq<char>,
    pub use_vector: bool,
    pub token_count: Option<i32>,
}

impl DeepView for MessageAttachment {
    type V = AttachmentView;

    open spec fn deep_view(&self) -> AttachmentView {
        AttachmentView {
            id: self.id,
            message_id: self.message_id,
            attachment_type: self.attachment_type,
            attachment_url: self.attachment_url@,
            attachment_content: self.attachment_content@,
            attachment_hash: self.attachment_hash@,
            use_vector: self.use_vector,
            token_count: self.token_count,
        }
    }
}

/// The identifier under which an attachment was stored.
#[derive(Debug, Clone, Copy, PartialEq, Eq, Structural)]
pub struct AttachmentResult {
    pub attachment_id: i64,
}

/// The digest that identifies `content`: the SHA-256 digest of its UTF-8
/// bytes, in lower-case hexadecimal.
pub open spec fn content_digest(content: Seq<char>) -> Seq<char> {
    hex_lower(sha256_digest(encode_utf8(content)))
}

/// The media type of a file, by the extension of its path: a path without
/// extension counts as one with an extension that is not known.
pub open spec fn guessed_mime(path: Seq<char>) -> Seq<char> {
    match extension(path) {
        Some(extension) => known_mime(extension),
        None => known_mime(Seq::empty()),
    }
}

/// The kind that a media type stands for: text for `text/...`, image for
/// `image/...`, and none for every other.
pub open spec fn kind_of_mime(mime: Seq<char>) -> Option<AttachmentType> {
    if "text/"@.is_prefix_of(mime) {
        Some(AttachmentType::Text)
    } else if "image/"@.is_prefix_of(mime) {
        Some(AttachmentType::Image)
    } else {
        None
    }
}

/// What a data URI of the image type `mime` begins with; `None` for a
/// type that is not stored.
pub open spec fn data_uri_head(mime: Seq<char>) -> Option<Seq<char>> {
    if mime == "image/jpeg"@ {
        Some("data:image/jpeg;base64,"@)
    } else if mime == "image/png"@ {
        Some("data:image/png;base64,"@)
    } else if mime == "image/gif"@ {
        Some("data:image/gif;base64,"@)
    } else if mime == "image/webp"@ {
        Some("data:image/webp;base64,"@)
    } else {
        None
    }
}

/// What is stored for a file of media type `mime` that holds `bytes`: for
/// an image of a stored type, its data URI; for text, the text that the
/// bytes encode. A file of another type is refused as unsupported, and a
/// text file that is not valid UTF-8 as unreadable.
pub open spec fn stored_content(mime: Seq<char>, bytes: Seq<u8>) -> Result<
    (AttachmentType, Seq<char>),
    AppError,
> {
    match kind_of_mime(mime) {
        Some(AttachmentType::Text) => if valid_utf8(bytes) {
            Ok((AttachmentType::Text, decode_utf8(bytes)))
        } else {
            Err(AppError::Transport)
        },
        Some(AttachmentType::Image) => match data_uri_head(mime) {
            Some(head) => Ok((AttachmentType::Image, head + base64_standard(bytes))),
            None => Err(AppError::UnsupportedType),
        },
        None => Err(AppError::UnsupportedType),
    }
}

/// A stored kind and content by its characters.
pub open spec fn stored_view(stored: Result<(AttachmentType, String), AppError>) -> Result<
    (AttachmentType, Seq<char>),
    AppError,
> {
    match stored {
        Ok((kind, content)) => Ok((kind, content@)),
        Err(e) => Err(e),
    }
}

/// The attachment that is created for `content`: it has no identifier and
/// belongs to no message yet, and its hash is the digest of `content`.
pub open spec fn fresh_attachment(
    kind: AttachmentType,
    origin: Seq<char>,
    content: Seq<char>,
) -> AttachmentView {
    AttachmentView {
        id: 0,
        message_id: UNATTACHED,
        attachment_type: kind,
        attachment_url: origin,
        attachment_content: content,
        attachment_hash: content_digest(content),
        use_vector: false,
        token_count: Some(0i32),
    }
}

/// The digest that identifies `content`.
pub fn content_hash(content: &str) -> (hash: String)
    ensures
        hash@ == content_digest(content@),
{
    let digest = sha256(content.as_bytes());
    hex_encode(digest.as_slice())
}

/// The kind that the media type `mime` stands for.
pub fn classify_mime(mime: &str) -> (kind: Result<AttachmentType, AppError>)
    ensures
        kind == match kind_of_mime(mime@) {
            Some(k) => Ok::<AttachmentType, AppError>(k),
            None => Err(AppError::UnsupportedType),
        },
{
    if starts_with(mime, "text/") {
        Ok(AttachmentType::Text)
    } else if starts_with(mime, "image/") {
        Ok(AttachmentType::Image)
    } else {
        Err(AppError::UnsupportedType)
    }
}

/// The media type of a file, guessed from the extension of its path.
pub fn mime_of_path(path: &str) -> (mime: String)
    ensures
        mime@ == guessed_mime(path@),
{
    match extension_of(path) {
        Some(extension) => mime_of_extension(extension),
        None => {
            proof {
                reveal_strlit("");
                assert(""@ =~= Seq::<char>::empty());
            }
            mime_of_extension("")
        },
    }
}

/// The kind of a file, by the extension of its path.
pub fn classify_path(path: &str) -> (kind: Result<AttachmentType, AppError>)
    ensures
        kind == match kind_of_mime(guessed_mime(path@)) {
            Some(k) => Ok::<AttachmentType, AppError>(k),
            None => Err(AppError::UnsupportedType),
        },
{
    let mime = mime_of_path(path);
    classify_mime(mime.as_str())
}

/// The data URI of an image of type `mime` that holds `bytes`; `None` for
/// a type that is not stored.
pub fn image_data_uri(mime: &str, bytes: &[u8]) -> (uri: Option<String>)
    ensures
        uri.deep_view() == match data_uri_head(mime@) {
            Some(head) => Some(head + base64_standard(bytes@)),
            None => None,
        },
{
    let head = if same_text(mime, "image/jpeg") {
        "data:image/jpeg;base64,"
    } else if same_text(mime, "image/png") {
        "data:image/png;base64,"
    } else if same_text(mime, "image/gif") {
        "data:image/gif;base64,"
    } else if same_text(mime, "image/webp") {
        "data:image/webp;base64,"
    } else {
        return None;
    };
    let payload = base64_encode(bytes);
    Some(String::from_str(head).concat(payload.as_str()))
}

/// What is stored for a file of media type `mime` that holds `bytes`.
pub fn prepare_file_content(mime: &str, bytes: &[u8]) -> (stored: Result<
    (AttachmentType, String),
    AppError,
>)
    ensures
        stored_view(stored) == stored_content(mime@, bytes@),
{
    match classify_mime(mime) {
        Err(e) => Err(e),
        Ok(AttachmentType::Text) => match utf8_text(bytes) {
            Ok(text) => Ok((AttachmentType::Text, String::from_str(text))),
            Err(_) => Err(AppError::Transport),
        },
        Ok(AttachmentType::Image) => match image_data_uri(mime, bytes) {
            Some(uri) => Ok((AttachmentType::Image, uri)),
            None => Err(AppError::UnsupportedType),
        },
    }
}

impl MessageAttachment {
    /// The attachment to create for `content`.
    pub fn fresh(kind: AttachmentType, origin: String, content: String) -> (attachment:
        MessageAttachment)
        ensures
            attachment.deep_view() == fresh_attachment(kind, origin@, content@),
    {
        let hash = content_hash(content.as_str());
        MessageAttachment {
            id: 0,
            message_id: UNATTACHED,
            attachment_type: kind,
            attachment_url: origin,
            attachment_content: content,
            attachment_hash: hash,
            use_vector: false,
            token_count: Some(0),
        }
    }
}

} // verus!
