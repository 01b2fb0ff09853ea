//! Verified core of an IPTV playlist manager: M3U/M3U8 playlist parsing,
//! stream-body analysis, configuration handling, query building, export
//! rendering and the decision logic of the pull-task center.

pub mod api;
pub mod config;
pub mod export;
pub mod m3u;
pub mod models;
pub mod num;
pub mod pull;
pub mod scheduler;
pub mod sql;
pub mod tasks;
pub mod text;
pub mod validation;
