pub mod text;
pub mod piece;
pub mod piece_manager;
pub mod content_type;
pub mod stream;
pub mod dash;
pub mod transacted_io;
pub mod urls;
pub mod probe;
pub mod progress;
pub mod auto_rename;
pub mod html;
pub mod plugins;
pub mod page_analyzer;
pub mod host_server;
pub mod proxy;
pub mod stream_download;
pub mod native_cli;
pub mod engine;
pub mod cli_flow;
pub mod library;
pub mod host_log;
