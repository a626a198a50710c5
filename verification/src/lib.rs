//! Verified core of the push-bridge API: the decisions, encodings and
//! bookkeeping that sit between the messaging services and the app.

pub mod text;
pub mod hex;
pub mod circle;
pub mod protowire;
pub mod config;
pub mod hwinfo;
pub mod poll;
pub mod plist;
pub mod migrate;
pub mod relay;
pub mod time;
pub mod files;
pub mod login;
pub mod streams;
pub mod beacons;
pub mod headers;
pub mod packaging;
pub mod summaries;
pub mod cloud;
