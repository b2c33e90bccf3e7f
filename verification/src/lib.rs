//! Block codec and container engine for SBX (SeqBox) archives, with
//! Reed-Solomon error correction.
//!
//! An SBX container stores a file as a row of blocks of one size. Every
//! block carries a header with the container version, the UID of the file, a
//! sequence number and a CRC, so that each block can be told apart and
//! checked on its own; the file can be put together again from a container
//! that is broken up, partly overwritten, or mixed with other data.
//!
//! The library works on bytes held in memory: to read files and to write
//! them is left to the caller. It is laid out as follows.
//!
//! - `sbx_specs`: the table of versions.
//! - `sbx_block`: the block codec: header, CRC, metadata records, the block
//!   as a whole, and the positions of blocks in a container.
//! - `container`: the layout of a container, slot by slot.
//! - `encode_core`, `decode_core`, `check_core`, `repair_core`,
//!   `rescue_core`: the five pipelines.
//! - `block_utils`: the scanner, the search for the reference block, and the
//!   guess of the burst resistance level.
//! - `rs_codec`: what is taken for granted of the Reed-Solomon codec.
//! - `container_laws`, `repair_laws`: what is proved of every container.
//! - `log`, `progress_report`, `misc_utils`, `decimal`, `byte_order`,
//!   `buffer`, `multihash`, `general_error`: what the others share.

pub mod block_utils;
pub mod buffer;
pub mod byte_order;
pub mod check_core;
pub mod container;
pub mod container_laws;
pub mod decimal;
pub mod decode_core;
pub mod encode_core;
pub mod general_error;
pub mod log;
pub mod misc_utils;
pub mod multihash;
pub mod progress_report;
pub mod repair_core;
pub mod repair_laws;
pub mod rescue_core;
pub mod rs_codec;
pub mod sbx_block;
pub mod sbx_specs;
