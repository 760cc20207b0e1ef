//! Guest/host translation layer for WebAssembly modules built with the
//! Emscripten toolchain: guest linear memory access, marshaling of strings
//! and C structs into fixed guest layouts, module metadata introspection,
//! and path virtualization over a directory mapping table.
pub mod context;
pub mod layout;
pub mod marshal;
pub mod memory;
pub mod module_info;
pub mod paths;
