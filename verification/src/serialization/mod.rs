//! Byte-level and bit-level codecs over caller-owned buffers.

pub mod bit_reader;
pub mod bit_writer;
mod bitops;
pub mod bitstream;
pub mod byte_reader;
pub mod byte_writer;
pub mod wire;

pub use bit_reader::BitReader;
pub use bit_writer::BitWriter;
pub use byte_reader::ByteReader;
pub use byte_writer::ByteWriter;
