//! Registering a detected point set to a template.

pub mod coherent_point_drift;
pub mod thin_plate_splines;
