//! A music daemon's core.

pub mod app;
pub mod cache;
pub mod cache_layer;
pub mod catalog;
pub mod chromium;
pub mod config;
pub mod control;
pub mod cookies;
pub mod double;
pub mod eq;
pub mod error;
pub mod filler;
pub mod home;
pub mod json;
pub mod model;
pub mod mpris;
pub mod mpv;
pub mod orphan_sweep;
pub mod paths;
pub mod persist;
pub mod player;
pub mod protocol;
pub mod provider;
pub mod queue;
pub mod radio;
pub mod rpc;
pub mod singleton;
pub mod soundcloud;
pub mod text;
pub mod textmap;
pub mod time;
pub mod tray;
pub mod watcher;
pub mod ytdlp;
