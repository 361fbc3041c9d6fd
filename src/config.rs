//! The loader's configuration.

use vstd::prelude::*;
use std::collections::BTreeSet;

verus! {

/// The default of a boolean option.
pub fn default_bool<const V: bool>() -> (r: bool)
    ensures
        r == V,
{
    V
}

/// The default of a set-valued option.
pub fn empty_btreeset<T>() -> (r: BTreeSet<T>) {
    BTreeSet::new()
}

/// The loader's configuration.
#[derive(Clone, Default)]
pub struct Config {
    pub disable_autostart: bool,
    pub enabled_mods: BTreeSet<String>,
    pub developer_mode: Option<bool>,
    /// Honoured only in developer mode.
    pub enable_hook_guards: Option<bool>,
    /// Honoured only in developer mode.
    pub stage0_commands: Option<BTreeSet<String>>,
}

} // verus!
