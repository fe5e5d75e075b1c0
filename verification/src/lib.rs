//! A reverse-proxy configuration engine: parsing, validation, compilation and
//! migration of configuration files, and the decisions of the layer-4 proxy.

pub mod bench;
pub mod config;
pub mod layer4;
pub mod literals;
pub mod migrate;
pub mod net;
pub mod num;
pub mod text;
pub mod time;
