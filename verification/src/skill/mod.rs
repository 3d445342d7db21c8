//! Skills: definitions, registries, load lifecycle, catalogs and search.

pub mod bootstrap;
pub mod definition;
pub mod lifecycle;
pub mod registry;
pub mod session;
pub mod catalog;
pub mod search;
