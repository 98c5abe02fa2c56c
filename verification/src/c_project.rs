//! A small rule set for C programs with strict rules: an object is compiled
//! from exactly one C source, an executable is linked from objects alone.
pub mod c_file;
pub mod h_file;
pub mod o_file;
pub mod x_file;
