//! A registry of the functions of an executable under decompilation: each
//! function's address, size, name and status, read from and written to a
//! flat CSV file, with lookups by address and by (demangled) name.
pub mod functions;
pub mod lookup;
pub mod text;
