pub mod text;
pub mod utf8_stream;
pub mod scrollback;
pub mod protocol;
pub mod session;
pub mod active_process;
pub mod assets;
pub mod palette;
pub mod session_commands;
pub mod status;
pub mod settings;
pub mod resize;
pub mod connection;
pub mod bridge;
