//! A registry of kitties: uniquely numbered creatures with a genome, an
//! owner who holds a stake for each of them, and a recorded lineage; and
//! beside it a registry of claims to byte strings.

pub mod currency;
pub mod genome;
pub mod keys;
pub mod poe;
pub mod registry;
