//! Small containers.

pub mod fixed_size_queue;
