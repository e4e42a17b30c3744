//! Why a text gives no structure.

use vstd::prelude::*;
use crate::geometry::GeometryError;

verus! {

/// Why a text gives no structure. Lines are counted from 1.
#[derive(Debug, Clone, Copy, PartialEq, Eq, Structural)]
pub enum ParseError {
    /// A line names a lattice quantity and gives no number for it.
    TagParse { line: usize },
    /// A line has the shape of an atom row and lacks a coordinate, or one of
    /// its coordinates is no number.
    AtomRowParse { line: usize },
    /// The cell that the text describes has no geometry.
    Geometry(GeometryError),
    /// The pattern that recognizes lines was not accepted.
    Pattern,
}

/// A result of the geometry as a result of parsing: its error becomes an
/// error of parsing.
pub fn from_geometry<T>(r: Result<T, GeometryError>) -> (out: Result<T, ParseError>)
    ensures
        out == (match r {
            Ok(v) => Ok::<T, ParseError>(v),
            Err(e) => Err::<T, ParseError>(ParseError::Geometry(e)),
        }),
{
    match r {
        Ok(v) => Ok(v),
        Err(e) => Err(ParseError::Geometry(e)),
    }
}

} // verus!
