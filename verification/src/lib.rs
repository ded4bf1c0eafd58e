//! Open File Lock Handle: the verified core of a tool that finds which processes use a file,
//! a directory or a local port. Native scanning and the terminal interface stand around it.
pub mod text;
pub mod model;
pub mod ports;
pub mod search;
pub mod ranking;
pub mod state;
pub mod tui;
pub mod laws;
pub mod sockets;
pub mod linux;
pub mod path;
pub mod metrics;
pub mod release;
pub mod cli;
pub mod layout;
pub mod queue;
pub mod clock;
