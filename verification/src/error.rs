//! The error type shared by every fallible operation of the crate.

use vstd::prelude::*;
use vstd::std_specs::convert::FromSpecImpl;
use crate::vector::Vector2;
use serde_cbor::Error as CborError;
use std::io::Error as IoError;
use tiled::TiledError;

verus! {

/// `serde_cbor::Error`, the error of the CBOR encoder and decoder. It is only
/// carried along: nothing is claimed of what it holds.
#[verifier::external_type_specification]
#[verifier::external_body]
pub struct ExCborError(CborError);

/// `std::io::Error`, the error of a byte stream. It is only carried along:
/// nothing is claimed of what it holds.
#[verifier::external_type_specification]
#[verifier::external_body]
pub struct ExIoError(IoError);

/// `tiled::TiledError`, the error of the Tiled map parser. It is only carried
/// along: nothing is claimed of what it holds.
#[verifier::external_type_specification]
#[verifier::external_body]
pub struct ExTiledError(TiledError);

/// What can go wrong with a grid and with the documents around it.
#[derive(Debug)]
#[allow(inconsistent_fields)]
pub enum Error {
    /// A coordinate does not lie within the dimensions of the grid.
    OutOfBounds { dimensions: Vector2, coordinate: Vector2 },
    /// The structured encoding of a grid failed.
    SerdeCBOR { inner: CborError },
    /// Reading or writing a byte stream failed.
    IO { inner: IoError },
    /// A tile map document could not be parsed.
    Tiled { inner: TiledError },
}

pub type TilesResult<T> = Result<T, Error>;

impl From<CborError> for Error {
    fn from(inner: CborError) -> (e: Error) {
        Error::SerdeCBOR { inner }
    }
}

impl FromSpecImpl<CborError> for Error {
    open spec fn obeys_from_spec() -> bool {
        true
    }

    open spec fn from_spec(inner: CborError) -> Error {
        Error::SerdeCBOR { inner }
    }
}

impl From<IoError> for Error {
    fn from(inner: IoError) -> (e: Error) {
        Error::IO { inner }
    }
}

impl FromSpecImpl<IoError> for Error {
    open spec fn obeys_from_spec() -> bool {
        true
    }

    open spec fn from_spec(inner: IoError) -> Error {
        Error::IO { inner }
    }
}

impl From<TiledError> for Error {
    fn from(inner: TiledError) -> (e: Error) {
        Error::Tiled { inner }
    }
}

impl FromSpecImpl<TiledError> for Error {
    open spec fn obeys_from_spec() -> bool {
        true
    }

    open spec fn from_spec(inner: TiledError) -> Error {
        Error::Tiled { inner }
    }
}

} // verus!
