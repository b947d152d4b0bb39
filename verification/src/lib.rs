//! Lockfile bookkeeping and Nexus Mods request helpers for the nix mod manager.
pub mod lockfile;
pub mod modinfo;
pub mod nexus;
pub mod nix;
pub mod provider;
pub mod query;
pub mod strmap;
pub mod text;
