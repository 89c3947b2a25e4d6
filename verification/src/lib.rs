//! Verified control plane of an agent runtime.

pub mod agent;
pub mod api;
pub mod approval;
pub mod error;
pub mod event;
pub mod execution;
pub mod filesystem;
pub mod idmap;
pub mod ids;
pub mod ip;
pub mod laws;
pub mod network;
pub mod path;
pub mod policy;
pub mod process;
pub mod recovery;
pub mod room;
pub mod scan;
pub mod state;
pub mod storage;
pub mod supervision;
pub mod supervisor;
pub mod task;
pub mod text;
pub mod time;
pub mod tool;
