//! A minimal in-memory archive: named byte blobs packed into one buffer,
//! each blob deflated on its own, and unpacked again.

pub mod archiver;
pub mod buffer;
pub mod codec;
pub mod file;
pub mod format;
pub mod text;
pub mod theorems;
pub mod unarchiver;

pub use archiver::Archiver;
pub use file::File;
pub use unarchiver::Unarchiver;
