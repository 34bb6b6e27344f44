//! Domain-restricted media reverse proxy core: UMP stream transformation,
//! SABR request building and response parsing, URL validation and rewriting,
//! header policy, and the per-URL integrity MAC.

pub mod dispatch;
pub mod headers;
pub mod proto;
pub mod proxy_image;
pub mod qhash;
pub mod sabr_messages;
pub mod sabr_parser;
pub mod sabr_request;
pub mod strutil;
pub mod transcode;
pub mod ump;
pub mod utils;
pub mod varint;
