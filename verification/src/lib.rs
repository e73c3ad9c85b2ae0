//! Switcher for saved kanidm connection profiles: a profile store is read
//! from a TOML file, one profile is chosen by name or by index, a single
//! field of it may be read or replaced through a slash-delimited path, and
//! the chosen profile is rendered as the active configuration.
#![allow(unused_imports)]
use vstd::prelude::*;

pub mod client;
pub mod doc;
pub mod profiles;
pub mod radius;
mod toml_codec;

verus! {

/// Where the active configuration is written (leading `~` is expanded by the caller).
pub const CONFIG_PATH: &'static str = "~/.config/kanidm";

/// Where the profile store is read from (leading `~` is expanded by the caller).
pub const PROFILE_PATH: &'static str = "~/.config/kanidm-profiles.toml";

} // verus!
