//! The rows of the robot database.

pub mod model;
