pub mod text;
pub mod model;
pub mod logs;
pub mod ports;
pub mod git;
pub mod strays;
pub mod manifest;
pub mod supervisor;
pub mod store;
pub mod paths;
pub mod ui;
pub mod proto;
pub mod cli;
pub mod tray;
pub mod desktop;
pub mod mcp;
pub mod laws;
