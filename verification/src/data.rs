//! File formats.
pub mod obj;
pub mod obj_round_trip;
pub mod offset_laws;
pub mod target_gz;
