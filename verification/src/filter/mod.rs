pub mod body_action;
pub mod buffer;
pub mod buffer_filter_body;
pub mod codec;
pub mod encoding;
pub mod error;
pub mod filter_body;
pub mod filter_header;
pub mod header_action;
pub mod html_body_action;
pub mod html_to_markdown;
pub mod text_filter_body;

pub use buffer::Buffer;
pub use codec::{DecodeFilterBody, EncodeFilterBody};
pub use encoding::SupportedEncoding;
pub use filter_body::FilterBodyAction;
pub use filter_header::FilterHeaderAction;
