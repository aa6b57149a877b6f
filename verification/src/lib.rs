//! Verified core of the Kesko robotics simulator: request framing and
//! dispatch, simulator and physics event handling, multibody naming,
//! keyboard control decisions for the built-in robots, UI selection state
//! and plugin composition.

pub mod text;
pub mod models;
pub mod tcp;
pub mod multibody;
pub mod simulator;
pub mod physics;
pub mod controls;
pub mod joint;
pub mod ui_state;
pub mod plugins;
pub mod nora;
pub mod conversions;
pub mod event;
pub mod material;
pub mod triangle;
