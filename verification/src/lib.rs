//! The request-dispatch core of a small HTTP server that keeps handler code
//! out of the process that faces the network.
//!
//! - [`http`]: requests and responses, and the bytes that carry them.
//! - [`url`], [`url_laws`]: paths with query parameters.
//! - [`behaviours`]: routes, the route tree and the handlers behind it.
//! - [`ipc`]: the control messages between listener and dispatcher, and
//!   the framing of payloads on the data channels.
//! - [`dispatcher`]: what the dispatcher does with control messages, and
//!   what one isolated execution does with a request.
//! - [`http_client`]: what the listener decides for one connection.
//! - [`args`], [`config`]: the command line and the configuration.
//! - [`text`], [`text_laws`], [`string_map`]: text and maps of text, which
//!   everything else is built on.
//!
//! Nothing here reads or writes outside its arguments. A program around
//! this library owns the sockets, files, processes and scripts.

pub mod args;
pub mod behaviours;
pub mod config;
pub mod dispatcher;
pub mod http;
pub mod http_client;
pub mod ipc;
pub mod string_map;
pub mod text;
pub mod text_laws;
pub mod url;
pub mod url_laws;
