//! Memory guard daemon: the decisions of a desktop memory-pressure manager.
pub mod cache;
pub mod calibrate;
pub mod checkpoint_helper;
pub mod cli;
pub mod config;
pub mod controller;
pub mod decision;
pub mod doctor;
pub mod error;
pub mod events;
pub mod evictor;
pub mod executor;
pub mod fixed;
pub mod gpu;
pub mod gpu_watch;
pub mod health;
pub mod idle;
pub mod ipc;
pub mod kde;
pub mod logger;
pub mod maintenance;
pub mod meminfo;
pub mod order;
pub mod paths;
pub mod pattern;
pub mod plugin_server;
pub mod preactions;
pub mod process;
pub mod protocol;
pub mod psi;
pub mod recovery;
pub mod registry;
pub mod reports;
pub mod responder;
pub mod spike;
pub mod spike_cycle;
pub mod sweep;
pub mod table;
pub mod text;
pub mod throttle;
pub mod trigger;
pub mod types;
pub mod zram;
