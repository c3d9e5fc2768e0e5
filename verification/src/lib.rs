//! Preprocessing of sing-box configurations: outbound providers are loaded,
//! filtered by regex actions and merged into the `outbounds` list, with
//! every outbound tag kept unique.

pub mod convert;
pub mod entries;
pub mod foreign;
pub mod load;
pub mod sing_box;
pub mod sing_config;
