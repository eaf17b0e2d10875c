//! The tools that agents call, over two transports.
//!
//! Names, arguments, decisions and rendering are the same over both; only
//! where the work is done differs.
pub mod http_memory_toolbox;
pub mod http_service;
pub mod memory_mcp_server;
pub mod memory_toolbox;
pub mod stdio_shim;
pub mod tool_text;
