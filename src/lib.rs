//! Verified core of a desktop widget backend: the Wi-Fi controller's decisions over
//! what the network service reports, the launcher's ranking and result layout, and
//! the uptime panel's text.

pub mod network;
pub mod profile;
pub mod connect;
pub mod controller;
pub mod calc;
pub mod apps;
pub mod launcher;
pub mod uptime;
pub mod osrelease;
