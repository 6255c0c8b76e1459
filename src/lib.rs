//! Server-side core of a deployment platform for static web bundles: the
//! bundle registry and its lifecycle, archive naming, the compression
//! decisions and statistics, and the documents pushed to the reverse proxy
//! and the cluster ingress layer.

pub mod bundle;
pub mod caddy;
pub mod compressor;
pub mod id;
pub mod ingress;
pub mod json;
pub mod manager;
pub mod options;
pub mod routes;
pub mod storage;
