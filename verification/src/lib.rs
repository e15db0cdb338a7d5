//! The decisions behind Spatiand, a spatial session worn on the face.
//!
//! A session is a compositor, a panel, a mixer and a handful of links to other machines. What
//! each of them *does* belongs to the system around this crate; what each of them *decides* is
//! here, on plain values, with a contract that says what the decision is.

pub mod text;
pub mod system;
pub mod table;
pub mod devices;
pub mod wpctl;
pub mod remote;
pub mod volume_keys;
pub mod sidecar;
pub mod pointer;
pub mod scene;
pub mod cache;
pub mod state;
pub mod status;
pub mod startup;
pub mod waiting;
pub mod prefs;
pub mod pose;
pub mod sensors;
