//! The errors that a pipeline can end with.

use vstd::prelude::*;

verus! {

/// Why a pipeline ended without its result.
#[derive(Clone, Copy, Debug, PartialEq, Eq, Structural)]
pub enum ErrorKind {
    /// The Reed-Solomon parameters are not ones a codec can be made for, or
    /// are missing for a version that needs them, or given for one that has none.
    RSCodecCreateFail,
    /// The burst resistance level is beyond what positions can be computed for.
    BurstTooLarge,
    /// A block could not be written or read.
    BlockError(crate::sbx_block::Error),
    /// The container would need more data blocks than sequence numbers exist.
    SeqNumOverflow,
    /// The container does not fit into memory.
    ContainerTooLarge,
    /// The reference block is not a metadata block.
    ReferenceNotMeta,
    /// The reference block records no file size.
    MissingFileSize,
    /// The reference block records no hash.
    MissingHash,
    /// The data block with this sequence number could not be decoded.
    DecodeFail(u32),
    /// No reference block was found.
    NoReferenceBlock,
    /// The reference block does not record the Reed-Solomon shard counts.
    MissingShardCount,
    /// No burst resistance level fits the container.
    BurstGuessFail,
}

/// An error of a pipeline: its kind, from which the message is made.
#[derive(Clone, Copy, Debug, PartialEq, Eq, Structural)]
pub struct Error {
    pub kind: ErrorKind,
}

impl Error {
    /// An error of the given kind.
    pub fn new(kind: ErrorKind) -> (r: Error)
        ensures
            r.kind == kind,
    {
        Error { kind }
    }

    /// The text that a user is shown for the error.
    pub fn message(&self) -> (r: &'static str)
        ensures
            r@ == error_text(self.kind),
    {
        match self.kind {
            ErrorKind::RSCodecCreateFail => "Reed-Solomon codec creation fail",
            ErrorKind::BurstTooLarge => "Burst error resistance level is too large",
            ErrorKind::BlockError(_) => "Failed to process block",
            ErrorKind::SeqNumOverflow => "Too many blocks, sequence number overflowed",
            ErrorKind::ContainerTooLarge => "Container is too large",
            ErrorKind::ReferenceNotMeta => "Reference block is not a metadata block",
            ErrorKind::MissingFileSize => "Reference block does not have a file size field",
            ErrorKind::MissingHash => "Reference block does not have a hash field",
            ErrorKind::DecodeFail(_) => "Failed to decode data block",
            ErrorKind::NoReferenceBlock => "Failed to find reference block",
            ErrorKind::MissingShardCount => "Reference block does not have the shard count fields",
            ErrorKind::BurstGuessFail => "Failed to guess burst resistance level, please specify via --burst option",
        }
    }
}

/// The text that a user is shown for an error of a kind.
pub open spec fn error_text(kind: ErrorKind) -> Seq<char> {
    match kind {
        ErrorKind::RSCodecCreateFail => "Reed-Solomon codec creation fail"@,
        ErrorKind::BurstTooLarge => "Burst error resistance level is too large"@,
        ErrorKind::BlockError(_) => "Failed to process block"@,
        ErrorKind::SeqNumOverflow => "Too many blocks, sequence number overflowed"@,
        ErrorKind::ContainerTooLarge => "Container is too large"@,
        ErrorKind::ReferenceNotMeta => "Reference block is not a metadata block"@,
        ErrorKind::MissingFileSize => "Reference block does not have a file size field"@,
        ErrorKind::MissingHash => "Reference block does not have a hash field"@,
        ErrorKind::DecodeFail(_) => "Failed to decode data block"@,
        ErrorKind::NoReferenceBlock => "Failed to find reference block"@,
        ErrorKind::MissingShardCount => "Reference block does not have the shard count fields"@,
        ErrorKind::BurstGuessFail => "Failed to guess burst resistance level, please specify via --burst option"@,
    }
}

} // verus!
