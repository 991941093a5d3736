//! The core of a Wayland compositor gateway: the wire codec with its
//! fixed-capacity buffers, the generational object registry with
//! per-client id tables, the request dispatcher with its take/restore
//! discipline, seat publication, and the protocol-description scanner.
//!
//! Everything here is plain state and arithmetic: sockets, epoll and
//! files live outside, feed bytes and descriptors in through the
//! `client` module's methods, and carry staged bytes back out.

pub mod buffer;
pub mod client;
pub mod codegen;
pub mod dispatch;
pub mod error;
pub mod events;
pub mod input;
pub mod protocol;
pub mod registry;
pub mod scanner;
pub mod store;
pub mod wire;
