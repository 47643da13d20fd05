//! A minimal HTTP/1.x client core: verified message framing plus the
//! orchestration around an externally supplied, string-based transport.
//!
//! The framing layer converts a structured request into raw wire bytes and
//! parses raw response bytes back into a structured response.  Lines are
//! terminated by a single `\n` (a deliberate simplification of CRLF framing
//! kept for compatibility between this encoder and this decoder, which also
//! tolerates `\r\n` on input).

pub mod client;
pub mod decode;
pub mod encode;
pub mod frame;
pub mod laws;
pub mod message;

pub use client::Client;
pub use client::DirectoryCache;
pub use client::Transmission;
pub use decode::decode;
pub use encode::encode;

pub use message::DecodeError;
pub use message::EncodeError;
pub use message::Error;
pub use message::Header;
pub use message::StructuredRequest;
pub use message::StructuredResponse;
pub use message::Version;
