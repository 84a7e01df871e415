//! Reading and writing the version 16 save container of Hades, and the bridge
//! between its embedded Lua state and JSON.
pub mod blob;
pub mod bytes;
pub mod container;
pub mod json;
pub mod number;
pub mod pascal;
pub mod value;
