//! Crystal structures for drawing, read from text.
//!
//! A structure is a unit cell, given by its eight corners, and the atoms in
//! it. `cif_parser` reads one from CIF text, `espresso_parser` reads the
//! structures in the output of a Quantum ESPRESSO run. Both hand the cell and
//! the atoms, in fractions of the cell's edges, to `assemble`, which shows the
//! atoms on the faces of the cell on the opposite faces too
//! (`parser_utils`), changes to Cartesian coordinates (`geometry`) and moves
//! everything so that the centre of the cell is the origin.
//!
//! All numbers are decimal fixed-point numbers with fifteen decimal places
//! (`number`, `decimal`); products are rounded to the nearest unit, and
//! `cell_metric` proves that lengths, scalar products and positions stay
//! within a billionth of their exact values. The library holds no
//! floating-point numbers: the cosines of a cell's angles and the sine of
//! gamma are handed to it as `geometry::LatticeTrig`. Lines are recognized
//! with the `regex` crate (`pattern`).

pub mod assemble;
pub mod atom_config;
pub mod cell_metric;
pub mod cif_parser;
pub mod decimal;
pub mod error;
pub mod espresso_parser;
pub mod geometry;
pub mod number;
pub mod parser_utils;
pub mod pattern;
pub mod text;
