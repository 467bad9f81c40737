//! Error kinds of the codec. Every error carries a human-readable message;
//! all errors surface to the caller and none is ever logged or swallowed.

use vstd::prelude::*;

verus! {

/// The error kinds of the library.
///
/// * `ConfigError`: a configuration table is empty or the chip-count range is
///   invalid; detected when a configuration is validated at startup.
/// * `DateCodeError`: an invalid calendar date, a date code of the wrong
///   length or with a character outside the alphabet, or a day offset out of
///   the representable range.
/// * `SnFormatError`: an encoded code of the wrong total length, with the
///   wrong tag character, or with a field that fails a table lookup.
/// * `InvalidParameter`: an attribute value supplied for encoding fails
///   validation; also reported by the shared chip-count decode routine.
#[derive(Debug)]
pub enum SnError {
    ConfigError(String),
    DateCodeError(String),
    SnFormatError(String),
    InvalidParameter(String),
}

impl SnError {
    /// The message text shown to a user: a kind prefix followed by the
    /// message that the error carries.
    pub fn message(&self) -> (r: String)
        ensures
            r@ == self.message_view(),
    {
        match self {
            SnError::ConfigError(msg) => String::from_str("配置错误: ").concat(msg.as_str()),
            SnError::DateCodeError(msg) => String::from_str("日期编码错误: ").concat(
                msg.as_str(),
            ),
            SnError::SnFormatError(msg) => String::from_str("SN码格式错误: ").concat(
                msg.as_str(),
            ),
            SnError::InvalidParameter(msg) => String::from_str("无效的参数: ").concat(
                msg.as_str(),
            ),
        }
    }

    /// The characters of `message`.
    pub open spec fn message_view(&self) -> Seq<char> {
        match self {
            SnError::ConfigError(msg) => "配置错误: "@ + msg@,
            SnError::DateCodeError(msg) => "日期编码错误: "@ + msg@,
            SnError::SnFormatError(msg) => "SN码格式错误: "@ + msg@,
            SnError::InvalidParameter(msg) => "无效的参数: "@ + msg@,
        }
    }
}

} // verus!
