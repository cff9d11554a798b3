//! A registry of resource handles ("vaults"), kept per owner and per chain,
//! each either available or in use.

pub mod keymap;
pub mod registry;
pub mod lemmas;
