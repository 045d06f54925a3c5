//! The core of a user-space USB/IP server.
//!
//! Everything that the server decides is here: the wire format
//! ([`usbip_protocol`], [`decode`]), the devices and who may use them
//! ([`device`], [`server`], [`host`]), the course of a connection
//! ([`session`]), of an URB ([`submit`]) and of a transfer ([`transfer`]), and
//! the command line ([`cli`]). None of it performs I/O: the program around the
//! library owns the sockets and the USB devices, reports what happens, and does
//! what it is told.

pub mod cli;
pub mod decode;
pub mod device;
pub mod error;
pub mod host;
pub mod server;
pub mod session;
pub mod submit;
pub mod text;
pub mod transfer;
pub mod usbip_protocol;
pub mod wire;

pub use device::{SetupPacket, UsbDevice, UsbEndpoint, UsbInterface, UsbSpeed};
pub use error::{ErrorKind, ProtocolError, MAX_PENDING_URBS};
pub use server::{ServerOptions, UsbIpServer, COMMAND_TIMEOUT, MAX_CONNECTIONS, TEARDOWN_TIMEOUT};
