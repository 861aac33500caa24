//! A small configuration manager: two string settings (a GitHub access
//! token and an absolute repository path) kept in a per-user JSON file.
//!
//! `app_config` holds the record and its field validators, `json` the exact
//! file format with its round-trip law, and `app_config_manager` the
//! load-or-create and save steps over the file's content as a value. All
//! filesystem reads and writes stay with the caller.

pub mod app_config;
pub mod app_config_manager;
pub mod json;
