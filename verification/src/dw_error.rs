use vstd::prelude::*;

verus! {

/// The error taxonomy of the engine.
///
/// Transport and disk errors originate outside the library and are carried
/// here as plain messages; the remaining variants are produced by the
/// library itself and say exactly which input was refused.
#[derive(Debug, Clone, PartialEq)]
pub enum DWError {
    /// An error from the RPC substrate, as reported by the transport.
    TransportError(String),
    /// A disk I/O error, as reported by the file layer.
    IOError(String),
    /// Bytes that do not parse as an encoded wrapper or population.
    SerializationError,
    /// An unknown mutate-method tag.
    ParseDWMethodError(String),
    /// An out-of-range integer tag for the mutate method.
    ConvertDWMutateMethodError(u8),
    /// An unknown delete-method tag.
    ParseDWDeleteMethodError(String),
    /// An out-of-range integer tag for the delete method.
    ConvertDWDeleteMethodError(u8),
    /// An unknown file-format tag.
    ParseDWFileFormatError(String),
    /// An out-of-range integer tag for the file format.
    ConvertDWFileFormatError(u8),
}

} // verus!
