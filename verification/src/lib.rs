//! Parametric human body model: mesh and rig file formats, skeleton
//! hierarchies, blend-shape taxonomies and the bookkeeping of forward
//! kinematics, skinning and parameter regression.
pub mod anthropometry;
pub mod data;
pub mod face_segmentation;
pub mod kinematics;
pub mod models;
pub mod names;
pub mod parameters_regressor;
pub mod paths;
pub mod phenotype;
pub mod registration;
pub mod rotation;
pub mod rotation_laws;
pub mod scalar;
pub mod shape_distribution;
pub mod skinning;
pub mod skinning_laws;
pub mod text;
pub mod unit_quaternion_laws;
pub mod utils;
