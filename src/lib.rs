//! Core of an S3 object-store manager: the rules of the clone and index
//! engines, the catalog's item table, and the helpers they share.

pub mod text;
pub mod clock;
pub mod keys;
pub mod status;
pub mod models;
pub mod index_engine;
pub mod clone_store;
pub mod clone_engine;
pub mod clone_run;
pub mod multipart;
pub mod content_type;
pub mod gateway;
pub mod order;
pub mod catalog;
pub mod files;
