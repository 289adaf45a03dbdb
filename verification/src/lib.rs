//! The terminal state subsystem of a terminal multiplexer: the cell grid,
//! the commands that drive it, the wire format and the delta renderer.

pub mod ansi;
pub mod client;
pub mod input;
pub mod io;
pub mod matrix;
pub mod msg;
pub mod ops;
pub mod render;
pub mod ring;
pub mod server;
pub mod snapshot;
pub mod state;
pub mod term;
pub mod wire;
