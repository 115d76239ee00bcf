//! Prerequisites of a local Nix installation: a structure-preserving editor
//! for `nix.conf`, and the reconciliation of managed directories and build
//! users against the live system.

pub mod digest;
pub mod directory;
pub mod document;
pub mod executor;
pub mod guard;
pub mod install;
pub mod lines;
pub mod nixconf;
pub mod parse;
pub mod roundtrip;
pub mod step;
pub mod syntax;
pub mod text;
pub mod users;
