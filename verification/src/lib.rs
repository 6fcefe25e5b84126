//! Verified core of the H33 terminal companion: URL joining, token
//! classification, configuration lookup, rule parsing and the small
//! decisions the commands take on the values they fetch.

pub mod text;
pub mod url;
pub mod config;
pub mod auth;
pub mod rules;
pub mod numfmt;
pub mod digest;
pub mod substrate;
pub mod doctor;
pub mod api;
pub mod json;
