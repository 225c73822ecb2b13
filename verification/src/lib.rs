//! Door access daemon: the verified core.

pub mod automation_state;
pub mod bpf;
pub mod cli;
pub mod codec;
pub mod config;
pub mod control;
pub mod daemon;
pub mod dedup;
pub mod ffi;
pub mod ha_push;
pub mod httpx;
pub mod info;
pub mod laws;
pub mod listen18022;
pub mod listen6672;
pub mod log;
pub mod orchestration;
pub mod self_unlock;
pub mod sender;
pub mod text;
pub mod text_map;
pub mod unlock;
pub mod wire18022;
