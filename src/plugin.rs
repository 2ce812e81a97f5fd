//! The entry point that an application shell registers.

use vstd::prelude::*;

verus! {

/// Builder of the gacha plugin of an application shell.
#[derive(Debug, Clone, Copy, Default, PartialEq, Eq, Structural)]
pub struct GachaPluginBuilder {}

/// The plugin's name in the shell.
pub const PLUGIN_NAME: &'static str = "gacha";

impl GachaPluginBuilder {
    pub fn new() -> (r: GachaPluginBuilder)
        ensures
            r == (GachaPluginBuilder {}),
    {
        GachaPluginBuilder {}
    }

    /// The name the plugin registers under.
    pub fn name(&self) -> (r: &'static str)
        ensures
            r@ == PLUGIN_NAME@,
    {
        PLUGIN_NAME
    }
}

} // verus!
