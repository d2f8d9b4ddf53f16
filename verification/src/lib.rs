//! Decoder for the mrsim-txt structured text format: a header of simulation
//! parameters followed by frame clusters holding per-atom, per-axis,
//! delta-encoded quantized coordinates.

pub mod error;
pub mod text;
pub mod scan;
pub mod decimal;
pub mod lines;
pub mod header;
pub mod cluster;
pub mod reconstruct;
pub mod support;
pub mod trajectory;
pub mod laws;

pub use cluster::{Atoms, FrameCluster};
pub use decimal::Decimal;
pub use error::{DecodeError, ErrorKind};
pub use header::Header;
pub use reconstruct::{Axis, Calculated};
pub use trajectory::{parse, Diagnostics, Metadata, MrSimTxt, ParsedData};
