//! Inventory and housekeeping logic for container image tarballs kept on
//! RKE2 cluster nodes: Dockerfile discovery, remote scan reconciliation,
//! selector resolution, table rendering and interactive state.

pub mod strings;
pub mod names;
pub mod models;
pub mod remote;
pub mod image_build;
pub mod log_viewer;
pub mod dockerfile;
pub mod select;
pub mod output;
pub mod inventory;
pub mod commands;
pub mod search;
pub mod popup;
pub mod app_state;
pub mod config;
pub mod view;
pub mod clipboard;
