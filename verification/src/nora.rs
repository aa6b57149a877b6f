//! The `nora` plugin group: core, menus, main camera and physics with
//! earth gravity.

use vstd::prelude::*;
use crate::plugins::PluginKind;

verus! {

/// The plugins of the `nora` group, in the order they are added.
pub open spec fn nora_plugins_spec() -> Seq<PluginKind> {
    seq![PluginKind::Core, PluginKind::Menu, PluginKind::MainCamera, PluginKind::GravityPhysics]
}

/// The `nora` plugin group: core, menus, main camera and physics with
/// earth gravity.
pub struct CorePlugins;

impl CorePlugins {
    /// The plugins of the group, in the order they are added.
    pub fn members(&self) -> (r: Vec<PluginKind>)
        ensures
            r@ == nora_plugins_spec(),
    {
        let r = vec![PluginKind::Core, PluginKind::Menu, PluginKind::MainCamera, PluginKind::GravityPhysics];
        assert(r@ == nora_plugins_spec());
        r
    }
}

} // verus!
