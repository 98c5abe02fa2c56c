//! Node kinds for building C programs: sources and headers that are copied,
//! objects, archives and executables that are built.
pub mod a_file;
pub mod c_file;
pub mod h_file;
pub mod o_file;
pub mod x_file;

pub use a_file::AFile;
pub use c_file::CFile;
pub use h_file::HFile;
pub use o_file::OFile;
pub use x_file::XFile;
