//! Core logic of a unified download manager: task and engine models, the
//! parsers and validators behind task creation, and the decisions that the
//! engine adapters and the local web API make.
pub mod text;
pub mod models;
pub mod torrent;
pub mod magnet;
pub mod aria2;
pub mod options;
pub mod ytdlp;
pub mod services;
pub mod web;
pub mod state;
pub mod lifecycle;
pub mod adapters;
pub mod qbittorrent;
pub mod monitor;
pub mod system;
pub mod install;
pub mod codec;
pub mod schema;
