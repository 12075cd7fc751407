//! Verified core of a LAN / peer-to-peer file transfer tool.
pub mod text;
pub mod wire;
pub mod stun;
pub mod digest;
pub mod config;
pub mod auth;
pub mod compression;
pub mod discovery;
pub mod paths;
pub mod transfer_state;
pub mod protocol;
pub mod receiver;
pub mod sender;
pub mod lists;
pub mod history;
pub mod share;
pub mod task_queue;
pub mod progress;
pub mod folder;
pub mod signal;
pub mod signal_server;
pub mod message_store;
pub mod signal_client;
pub mod settings;
pub mod ui;
pub mod tls;
pub mod logs;
pub mod relay;
pub mod limits;
pub mod books;
