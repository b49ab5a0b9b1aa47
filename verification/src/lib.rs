//! An in-process request router: handlers are registered against string
//! paths for two verbs, and a dispatch call decodes a raw little-endian
//! byte payload into the handler's typed scalar arguments positionally.
pub mod handler;
pub mod request;
pub mod scalar;
pub mod server;
pub mod service;
