//! Composition of the simulator's plugins: which plugins each plugin group
//! brings in, in which order, and the settings of the core plugin.

use vstd::prelude::*;

verus! {

/// The interaction groups of bodies: dynamic bodies can be grabbed and
/// moved, static ones only hovered and selected.
#[derive(Debug, Clone, Copy, PartialEq, Eq, Hash, Structural)]
pub enum InteractionGroup {
    Dynamic,
    Static,
}

/// The plugins of the simulator.
#[derive(Debug, Clone, Copy, PartialEq, Eq, Hash, Structural)]
pub enum PluginKind {
    /// The core plugin: window, rendering defaults and core systems.
    Core,
    /// The egui user interface.
    UI,
    /// The pan-orbit main camera.
    MainCamera,
    /// The default physics: physics with gravity and grabbing of dynamic
    /// bodies.
    DefaultPhysics,
    /// Mouse interaction with the bodies of a group.
    Interaction(InteractionGroup),
    /// Spawning of the built-in models.
    Model,
    /// The side and top menus.
    Menu,
    /// The physics, with earth gravity (0, -9.81, 0).
    GravityPhysics,
    /// Grabbing the bodies of a group with the cursor.
    Grabable(InteractionGroup),
}

/// The plugins of the core plugin group, in the order they are added.
pub open spec fn core_plugins_spec() -> Seq<PluginKind> {
    seq![
        PluginKind::Core,
        PluginKind::UI,
        PluginKind::MainCamera,
        PluginKind::DefaultPhysics,
        PluginKind::Interaction(InteractionGroup::Dynamic),
        PluginKind::Interaction(InteractionGroup::Static),
        PluginKind::Model,
    ]
}

/// The group of plugins that makes up the simulator.
pub struct CorePlugins;

impl CorePlugins {
    /// The plugins of the group, in the order they are added.
    pub fn members(&self) -> (r: Vec<PluginKind>)
        ensures
            r@ == core_plugins_spec(),
    {
        let r = vec![
            PluginKind::Core,
            PluginKind::UI,
            PluginKind::MainCamera,
            PluginKind::DefaultPhysics,
            PluginKind::Interaction(InteractionGroup::Dynamic),
            PluginKind::Interaction(InteractionGroup::Static),
            PluginKind::Model,
        ];
        assert(r@ == core_plugins_spec());
        r
    }
}

/// The physics that the simulator uses by default: earth gravity, and
/// dynamic bodies that can be grabbed.
pub struct DefaultPhysicsPlugin;

impl DefaultPhysicsPlugin {
    /// The plugins it adds, in order.
    pub fn members(&self) -> (r: Vec<PluginKind>)
        ensures
            r@ == seq![PluginKind::GravityPhysics, PluginKind::Grabable(InteractionGroup::Dynamic)],
    {
        let r = vec![PluginKind::GravityPhysics, PluginKind::Grabable(InteractionGroup::Dynamic)];
        assert(r@ == seq![PluginKind::GravityPhysics, PluginKind::Grabable(InteractionGroup::Dynamic)]);
        r
    }
}

/// Window and rendering settings of the core plugin.
pub struct CoreSettings {
    /// The window title.
    pub title: String,
    /// Window width, in logical pixels.
    pub width: u32,
    /// Window height, in logical pixels.
    pub height: u32,
    /// Whether the canvas fits its parent element on the web.
    pub fit_canvas_to_parent: bool,
    /// The selector of the canvas on the web.
    pub canvas: String,
    /// Multisample anti-aliasing samples.
    pub msaa_samples: u32,
    /// The clear color, as a hex RGB string.
    pub clear_color_hex: String,
}

/// The core plugin: window, clear color, anti-aliasing, bevy's default
/// plugins, and the core interaction and spawning systems.
pub struct CorePlugin;

impl CorePlugin {
    /// The settings the core plugin applies.
    pub fn settings(&self) -> (r: CoreSettings)
        ensures
            r.title@ == "Kesko 0.1-alpha"@,
            r.width == 1280,
            r.height == 720,
            r.fit_canvas_to_parent,
            r.canvas@ == "#kesko-wasm"@,
            r.msaa_samples == 4,
            r.clear_color_hex@ == "FFFFFF"@,
    {
        CoreSettings {
            title: "Kesko 0.1-alpha".to_owned(),
            width: 1280,
            height: 720,
            fit_canvas_to_parent: true,
            canvas: "#kesko-wasm".to_owned(),
            msaa_samples: 4,
            clear_color_hex: "FFFFFF".to_owned(),
        }
    }
}

/// Every plugin group of the simulator adds each plugin once.
pub proof fn lemma_core_plugins_distinct()
    ensures
        core_plugins_spec().no_duplicates(),
{
    let s = core_plugins_spec();
    assert forall|i: int, j: int| 0 <= i < s.len() && 0 <= j < s.len() && i != j implies s[i] != s[j] by {}
}

} // verus!
