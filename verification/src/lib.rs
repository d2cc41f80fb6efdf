pub mod baseline;
pub mod cli;
pub mod clock;
pub mod codec;
pub mod config;
pub mod engine;
pub mod failure;
pub mod hashing;
pub mod json;
pub mod matching;
pub mod mcp;
pub mod paths;
pub mod ports;
pub mod processes;
pub mod serve;
pub mod sockets;
pub mod state;
pub mod stored;
pub mod text;
pub mod textmap;
pub mod walk;
pub mod watch;
