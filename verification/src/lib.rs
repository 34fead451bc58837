//! Prototype-based script objects: property tables with attributes and
//! accessors, an array overlay, and prototype-walking reads and writes over a
//! heap of objects addressed by handle.

pub mod any_object;
pub mod heap;
pub mod laws;
pub mod names;
pub mod number;
pub mod object;
pub mod object_data;
pub mod property;
pub mod property_map;
pub mod script_object;
pub mod shared_object;
pub mod value;
