//! World file format and the data exchanged with the background I/O worker.
pub mod codec;
pub mod file_format;
pub mod channels;
pub mod worker;
pub mod staging;
