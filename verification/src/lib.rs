//! Runtime bridge for native image-processing filters: a verified model of the
//! foreign-ABI buffer descriptor (an N-dimensional strided view over
//! caller-owned pixel storage) and a cache of dynamically opened shared
//! libraries with idempotent load, explicit unload, reload-in-place and
//! symbol-table access.

pub mod buffer;
pub mod manager;

pub use buffer::Buffer;
pub use buffer::Device;
pub use buffer::Dimension;
pub use buffer::Kind;
pub use buffer::Type;
pub use manager::Manager;
