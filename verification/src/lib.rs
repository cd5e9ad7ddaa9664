//! The core of the Glyph anchor server: a blind store-and-forward vault, the
//! limits that shield it, and the decisions that a server around it carries out.

pub mod anchor;
pub mod config;
pub mod crypto;
pub mod keys;
pub mod network;
pub mod records;
pub mod shield;
pub mod shield_laws;
pub mod startup;
pub mod storage;
pub mod tables;
pub mod vault_laws;
pub mod webhook;
