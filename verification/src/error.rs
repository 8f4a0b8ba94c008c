//! The failures that the library reports.

use vstd::prelude::*;
use vstd::string::*;

verus! {

/// Why a call failed.
#[derive(Debug, Clone, Copy, PartialEq, Eq, Structural)]
pub enum AppError {
    /// A local file is missing.
    NotFound,
    /// Content that is neither text nor a supported image.
    UnsupportedType,
    /// The network or a read failed.
    Transport,
    /// A frame of a streamed reply could not be decoded. No call returns
    /// this: the decoder skips such a frame and goes on.
    ProtocolDecode,
    /// The caller asked to stop.
    Cancelled,
    /// The backing store failed.
    Persistence,
    /// A well-formed response without the reply text.
    MissingContent,
    /// A request that names neither a file nor an inline payload.
    InvalidArguments,
}

impl AppError {
    /// The text shown to the user for this failure.
    pub open spec fn message_text(self) -> Seq<char> {
        match self {
            AppError::NotFound => "找不到对应的文件"@,
            AppError::UnsupportedType => "Unsupported file type"@,
            AppError::Transport => "Transport failure"@,
            AppError::ProtocolDecode => "Malformed stream frame"@,
            AppError::Cancelled => "Request cancelled"@,
            AppError::Persistence => "Storage failure"@,
            AppError::MissingContent => "Failed to get content from response"@,
            AppError::InvalidArguments => "无效的参数：需要提供文件URL或者（文件内容、文件名、附件类型）"@,
        }
    }

    /// The text shown to the user for this failure.
    pub fn message(&self) -> (text: String)
        ensures
            text@ == self.message_text(),
    {
        match self {
            AppError::NotFound => String::from_str("找不到对应的文件"),
            AppError::UnsupportedType => String::from_str("Unsupported file type"),
            AppError::Transport => String::from_str("Transport failure"),
            AppError::ProtocolDecode => String::from_str("Malformed stream frame"),
            AppError::Cancelled => String::from_str("Request cancelled"),
            AppError::Persistence => String::from_str("Storage failure"),
            AppError::MissingContent => String::from_str("Failed to get content from response"),
            AppError::InvalidArguments => String::from_str(
                "无效的参数：需要提供文件URL或者（文件内容、文件名、附件类型）",
            ),
        }
    }
}

} // verus!
