//! Verified core of the sing-box dashboard: text handling, address parsing,
//! runtime-file discovery, proxy selection, DNS query preparation and the
//! decisions of the privileged launchd helper.

pub mod config_file;
pub mod dns;
pub mod gateway;
pub mod helper;
pub mod ip;
pub mod json;
pub mod launchd;
pub mod netsetup;
pub mod proxy;
pub mod runtime_scan;
pub mod text;
