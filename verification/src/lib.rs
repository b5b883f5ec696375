//! Container runtime client library: wire formats, request bodies and the
//! state machines behind the Docker Engine / Apple container clients.

pub mod text;
pub mod ports;
pub mod duration;
pub mod wait;
pub mod error;
pub mod copy;
pub mod docker_api;
pub mod tar;
pub mod log_buffer;
pub mod multiplex;
pub mod mounts;
pub mod json;
pub mod healthcheck;
pub mod registry_auth;
pub mod xpc;
pub mod image_config;
pub mod container_cfg;
pub mod exec;
pub mod client;
pub mod http_decode;
pub mod inspect;
pub mod docker_ops;
pub mod cfg_json;
