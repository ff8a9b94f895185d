use vstd::prelude::*;

pub mod back_buffer;
pub mod config;
pub mod eye_resolution;
pub mod foveation;
pub mod gfx;
pub mod previews;
pub mod resolution;
pub mod tags;
pub mod text;
pub mod ui;
pub mod pose_control;
pub mod vr_state;
pub mod dxbc;
pub mod shadergen;
pub mod persist;
pub mod index_laws;
pub mod tag_laws;
