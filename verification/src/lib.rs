//! Host-side logic of a Firewheel audio node that runs a CLAP plugin.
pub mod buffers;
pub mod float_bits;
pub mod params;
pub mod plugin;
