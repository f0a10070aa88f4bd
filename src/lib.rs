//! Classification of domains by whether they resolve into a known CDN or
//! edge-provider IPv4 network, with the cache of provider ranges it relies on.

pub mod text;
pub mod ipv4;
pub mod cidr;
pub mod cache;
pub mod fetch;
pub mod policy;
pub mod pipeline;
