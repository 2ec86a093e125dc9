//! Local-first secrets management: validated names, the `.enc` secret file
//! format, identity and pocket key handling, and the session cache.

pub mod name;
pub mod text;
pub mod error;
pub mod stanza;
pub mod crypto;
pub mod dek;
pub mod storage;
pub mod hexcode;
pub mod config;
pub mod session;
pub mod io;
pub mod identity;
pub mod keyring;
pub mod pocket;
pub mod secret;
pub mod laws;
