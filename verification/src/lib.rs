//! Verified core of the MultiAGENT desktop workspace: remote-mode message
//! handling, the Chrome native-messaging bridge and small app helpers.

pub mod app_info;
pub mod auth_poll;
pub mod bridge;
pub mod browser;
pub mod chunk;
pub mod json;
pub mod native_host;
pub mod paths;
pub mod remote;
pub mod text;
pub mod ui_text;
