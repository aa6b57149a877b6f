//! State of the multibody window: which multibody is shown, and how
//! selection events change it.

use vstd::prelude::*;
use crate::controls::SelectionEvent;

verus! {

/// What the window shows of a selected multibody root, when the root could
/// be found: its name and how to control it.
pub struct RootInfo {
    pub name: String,
    pub control_description: Option<String>,
}

/// State of the multibody window. `J` is the table of joint data shown for
/// the selected multibody.
pub struct MultibodyUiState<J> {
    pub ui_open: bool,
    pub multibody_root: Option<u64>,
    pub multibody_name: Option<String>,
    pub multibody_joints: Option<J>,
    pub control_description: Option<String>,
}

/// The state with a closed window and nothing selected.
pub open spec fn cleared<J>() -> MultibodyUiState<J> {
    MultibodyUiState {
        ui_open: false,
        multibody_root: None,
        multibody_name: None,
        multibody_joints: None,
        control_description: None,
    }
}

/// The state after a selection event. Selecting a root opens the window on
/// it and drops the joint table so that it is built again; when the root
/// was found (`info`) its name and control description are shown, otherwise
/// the ones shown stay. Deselecting the shown root closes the window;
/// deselecting another one changes nothing.
pub open spec fn after_event<J>(
    s: MultibodyUiState<J>,
    event: SelectionEvent,
    info: Option<RootInfo>,
) -> MultibodyUiState<J> {
    match event {
        SelectionEvent::Selected(e) => MultibodyUiState {
            ui_open: true,
            multibody_root: Some(e),
            multibody_name: match info {
                Some(i) => Some(i.name),
                None => s.multibody_name,
            },
            multibody_joints: None,
            control_description: match info {
                Some(i) => i.control_description,
                None => s.control_description,
            },
        },
        SelectionEvent::Deselected(e) => if s.multibody_root == Some(e) {
            cleared()
        } else {
            s
        },
    }
}

impl<J> MultibodyUiState<J> {
    /// A closed window with nothing selected.
    pub fn new() -> (r: Self)
        ensures
            r == cleared::<J>(),
    {
        MultibodyUiState {
            ui_open: false,
            multibody_root: None,
            multibody_name: None,
            multibody_joints: None,
            control_description: None,
        }
    }

    /// Closes the window and forgets the selection.
    pub fn reset(&mut self)
        ensures
            *final(self) == cleared::<J>(),
    {
        self.ui_open = false;
        self.multibody_root = None;
        self.multibody_name = None;
        self.multibody_joints = None;
        self.control_description = None;
    }

    /// Applies a selection event (see `after_event`).
    pub fn parse_event(&mut self, event: SelectionEvent, info: Option<RootInfo>)
        ensures
            *final(self) == after_event(*old(self), event, info),
    {
        match event {
            SelectionEvent::Selected(e) => {
                self.ui_open = true;
                self.multibody_root = Some(e);
                if let Some(i) = info {
                    self.multibody_name = Some(i.name);
                    self.control_description = i.control_description;
                }
                self.multibody_joints = None;
            },
            SelectionEvent::Deselected(e) => {
                let shown = match self.multibody_root {
                    Some(r) => r == e,
                    None => false,
                };
                if shown {
                    self.reset();
                }
            },
        }
    }
}

/// Selecting a root and then deselecting it closes the window again,
/// whatever was shown before.
pub proof fn lemma_select_then_deselect<J>(
    s: MultibodyUiState<J>,
    e: u64,
    info: Option<RootInfo>,
    info2: Option<RootInfo>,
)
    ensures
        after_event(after_event(s, SelectionEvent::Selected(e), info), SelectionEvent::Deselected(e), info2)
            == cleared::<J>(),
{
}

/// While a root is shown, deselecting any other root leaves the window as
/// it is.
pub proof fn lemma_deselect_other<J>(s: MultibodyUiState<J>, e: u64, other: u64, info: Option<RootInfo>)
    requires
        s.multibody_root == Some(e),
        other != e,
    ensures
        after_event(s, SelectionEvent::Deselected(other), info) == s,
{
}

/// Selecting a root that was found shows that root: the window opens on
/// it with its own name and its own control description (none when it has
/// none), whatever was shown before, and its joint table is built afresh.
pub proof fn lemma_select_found_root<J>(s: MultibodyUiState<J>, e: u64, info: RootInfo)
    ensures
        after_event(s, SelectionEvent::Selected(e), Some(info)).ui_open,
        after_event(s, SelectionEvent::Selected(e), Some(info)).multibody_root == Some(e),
        after_event(s, SelectionEvent::Selected(e), Some(info)).multibody_name == Some(info.name),
        after_event(s, SelectionEvent::Selected(e), Some(info)).control_description == info.control_description,
        after_event(s, SelectionEvent::Selected(e), Some(info)).multibody_joints is None,
{
}

/// Selecting a root that could not be found opens the window on it and
/// keeps the name and control description that were shown.
pub proof fn lemma_select_unknown_root<J>(s: MultibodyUiState<J>, e: u64)
    ensures
        after_event(s, SelectionEvent::Selected(e), None).ui_open,
        after_event(s, SelectionEvent::Selected(e), None).multibody_root == Some(e),
        after_event(s, SelectionEvent::Selected(e), None).multibody_name == s.multibody_name,
        after_event(s, SelectionEvent::Selected(e), None).control_description == s.control_description,
{
}

} // verus!
