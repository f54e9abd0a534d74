//! A Nix binary cache route optimizer: the decisions it takes, verified.

pub mod address;
pub mod base32;
pub mod cli;
pub mod codec;
pub mod config;
pub mod cooldown;
pub mod debug;
pub mod double;
pub mod filter;
pub mod headers;
pub mod health;
pub mod hedge;
pub mod level;
pub mod load;
pub mod mesh;
pub mod metrics;
pub mod nar;
pub mod nar_url;
pub mod narinfo;
pub mod narinfo_text;
pub mod netrc;
pub mod number;
pub mod order;
pub mod probe;
pub mod race;
pub mod registry;
pub mod resolve;
pub mod rewrite;
pub mod routes;
pub mod s3;
pub mod s3_config;
pub mod select;
pub mod serve;
pub mod signing;
pub mod startup;
pub mod table;
pub mod text;
pub mod time;
pub mod trust;
pub mod validate;
pub mod warn_buffer;
