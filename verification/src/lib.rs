//! Parsing of the option strings a sudo front end hands to a plugin.
//!
//! The host process delivers its configuration as a sentinel-terminated
//! array of `key=value` byte strings.  This crate turns an owned copy of
//! those byte strings into a validated key/value map ([`OptionMap`]) and
//! derives from it a strongly typed configuration record ([`Settings`]).
//! Every lookup, coercion and derivation is specified and verified; the
//! raw-pointer walk that copies the host's array stays outside the
//! library and hands it plain byte vectors.

use vstd::prelude::*;

pub mod coerce;
pub mod errors;
pub mod net_addr;
pub mod option_map;
pub mod settings;

pub use coerce::{FromSudoOption, FromSudoOptionList};
pub use errors::Error;
pub use net_addr::{Ip4Addr, NetAddr, NetAddrError};
pub use option_map::OptionMap;
pub use settings::Settings;

verus! {

/// The byte that separates a key from its value in one option string:
/// the ASCII code of `=`.
pub const OPTIONS_SEPARATOR: u8 = 61;

} // verus!
