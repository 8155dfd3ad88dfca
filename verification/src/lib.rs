//! PetBuddy core library: the verified logic of the desktop pet — pet package
//! decoding and validation, the online gallery index, and the local notify
//! endpoint's request handling.

pub mod archive;
pub mod error;
pub mod gallery;
pub mod json;
pub mod keyed_map;
pub mod notify;
pub mod paths;
pub mod pet;
pub mod pointer;
pub mod shell;
pub mod strings;
pub mod text;
