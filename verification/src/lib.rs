//! A client-side HTTP/2 protocol core: frame codec, HPACK header
//! compression, per-stream state machines and a single-connection engine,
//! written against RFC 7540 and RFC 7541.
//!
//! The crate is transport-agnostic: the connection engine consumes raw bytes
//! and produces raw bytes, so the caller owns the socket and the event loop.

pub mod connection;
pub mod frame;
pub mod hpack;
pub mod huffman;
pub mod request;
pub mod stream;
pub mod stream_coordinator;
pub mod response;
pub mod types;

pub use types::DecodeError;
pub use types::ErrorType;
pub use types::FrameType;
pub use types::HpackError;
pub use types::RequestError;
pub use types::SettingsFlags;
pub use types::SettingsParameter;
pub use request::Method;
pub use request::Request;
pub use request::UrlParts;
pub use response::Response;
pub use connection::Connection;
pub use connection::ConnectionState;
pub use connection::Settings;
