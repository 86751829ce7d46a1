//! Engram: an encrypted vault of memories.
pub mod capture;
pub mod digest;
pub mod embed;
pub mod embedding;
pub mod engram;
pub mod entry;
pub mod error;
pub mod hex;
pub mod hygiene;
pub mod ids;
pub mod json;
pub mod keys;
pub mod links;
pub mod measure;
pub mod noise;
pub mod open;
pub mod patterns;
pub mod qem;
pub mod query;
pub mod rank;
pub mod recall;
pub mod rows;
pub mod schema;
pub mod search;
pub mod sql;
pub mod store;
pub mod sync;
pub mod tables;
pub mod text;
pub mod time;
pub mod upgrade;
pub mod web;
