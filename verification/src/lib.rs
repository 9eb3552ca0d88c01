//! The decisions behind a control panel for a live audio rig.

pub mod chain;
pub mod config;
pub mod labels;
pub mod lates;
pub mod midi;
pub mod number;
pub mod order;
pub mod panel;
pub mod pin;
pub mod quantum;
pub mod rec;
pub mod recordings;
pub mod relay;
pub mod stamp;
pub mod supervise;
pub mod text;
pub mod wiring;
