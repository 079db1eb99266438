//! Core logic of the van automation hub: command vocabularies, request and
//! voice-command parsing, device bookkeeping and the decisions the hub's
//! main loop takes, each stated and proved with Verus.
pub mod text;
pub mod cli_command;
pub mod thread_sharing;
pub mod ble_server;
pub mod http_server;
pub mod devices;
pub mod session;
