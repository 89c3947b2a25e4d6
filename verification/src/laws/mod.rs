//! What the operations are for: laws that relate inputs, results and calls.

pub mod agent;
pub mod api;
pub mod approval;
pub mod bubblewrap;
pub mod cgroup;
pub mod execution;
pub mod filesystem;
pub mod ids;
pub mod ip;
pub mod limits;
pub mod network;
pub mod path;
pub mod policy;
pub mod process;
pub mod recovery;
pub mod rootfs;
pub mod scan;
pub mod seccomp;
pub mod state;
pub mod storage;
pub mod supervisor;
pub mod task;
pub mod text;
pub mod tool;
pub mod validation;
