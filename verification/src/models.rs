//! The body model and what it is built from.
pub mod alternative;
pub mod angle_laws;
pub mod axis_laws;
pub mod batch_laws;
pub mod blend_shapes;
pub mod body;
pub mod body_laws;
pub mod change_laws;
pub mod face_laws;
pub mod forward;
pub mod forward_laws;
pub mod full_model;
pub mod label_laws;
pub mod local_changes;
pub mod macrodetails;
pub mod matrices;
pub mod motions;
pub mod near_laws;
pub mod option_laws;
pub mod outcome_laws;
pub mod pole_laws;
pub mod pose;
pub mod pose_laws;
pub mod preset_laws;
pub mod presets;
pub mod removal_laws;
pub mod rest_laws;
pub mod retopology;
pub mod retopology_laws;
pub mod rig;
pub mod rig_laws;
pub mod roll_laws;
pub mod round_trip_laws;
pub mod shape_laws;
pub mod target_laws;
pub mod turn_laws;
pub mod weight_laws;
pub mod world;
