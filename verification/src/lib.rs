//! Editing the dependency lists of a Nix file of one fixed shape.
//!
//! The document is a function of one parameter `pkgs` that returns an
//! attribute set. The set holds a list `deps` and, optionally, a set `env`
//! with a library search path list. The crate locates one of the two lists,
//! inserts an entry into it, removes one from it, or enumerates it, and keeps
//! every other character of the document as it was.

use vstd::prelude::*;

pub mod adder;
pub mod editor;
pub mod laws;
pub mod parser;
pub mod path;
pub mod remover;
pub mod stability;
pub mod syntax;
pub mod text;
pub mod verify_getter;

verus! {

/// Which of the two lists an operation works on.
#[derive(Clone, Copy, Debug, PartialEq, Eq, Structural)]
pub enum DepType {
    /// The list `deps` of the top attribute set.
    Regular,
    /// The library search path list under `env`.
    Python,
}

impl Default for DepType {
    fn default() -> (dep_type: DepType)
        ensures
            dep_type == DepType::Regular,
    {
        DepType::Regular
    }
}

} // verus!
