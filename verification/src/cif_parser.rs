//! Crystal structures from CIF text.
//!
//! Of the format this reads the six scalar tags of the cell, each on a line
//! of its own that begins with the tag, and the atom rows: lines whose first
//! token is a word of letters and whose second begins with letters that a
//! digit follows. Such a row gives the atom's label as its first token and
//! its fractional coordinates as its fourth, fifth and sixth.

use vstd::prelude::*;
use crate::assemble::{StructureView, assemble, structure_of, structure_view};
use crate::atom_config::{
    Atom, AtomView, ConfigEntry, CrystalStructure, atoms_view, lookup, points_view, resolve,
};
use crate::decimal::{fixed_of, parse_fixed};
use crate::error::{ParseError, from_geometry};
use crate::geometry::{
    GeometryError, LatticeTrig, basis_of_cell, basis_vectors_of_cell, center_of,
};
use crate::number::Fixed;
use crate::pattern::{compile, is_match, regex_accepts, regex_is_match, regex_pattern};
use crate::text::{
    chars_of, has_prefix, is_word, lines_of, seqs_of, split_lines, split_tokens, starts_with,
    string_of, tokens_of,
};

verus! {

/// The pattern of an atom row, for the `regex` crate.
pub const ATOM_ROW_PATTERN: &'static str = "^\\s*[A-Za-z]+\\s+[A-Za-z]+\\d";

/// The lengths of the edges of a cell and its angles in degrees.
#[derive(Debug, Clone, Copy, PartialEq, Eq, Structural)]
pub struct LatticeParameters {
    pub a: Fixed,
    pub b: Fixed,
    pub c: Fixed,
    pub alpha: Fixed,
    pub beta: Fixed,
    pub gamma: Fixed,
}

/// The six quantities of a cell that a line can give.
#[derive(Debug, Clone, Copy, PartialEq, Eq, Structural)]
pub enum Tag {
    LengthA,
    LengthB,
    LengthC,
    AngleAlpha,
    AngleBeta,
    AngleGamma,
}

/// The quantity that a line gives: that of the first of the six tags, in the
/// order a, b, c, alpha, beta, gamma, with which the line begins.
pub open spec fn tag_of(line: Seq<char>) -> Option<Tag> {
    if has_prefix(line, "_cell_length_a"@) {
        Some(Tag::LengthA)
    } else if has_prefix(line, "_cell_length_b"@) {
        Some(Tag::LengthB)
    } else if has_prefix(line, "_cell_length_c"@) {
        Some(Tag::LengthC)
    } else if has_prefix(line, "_cell_angle_alpha"@) {
        Some(Tag::AngleAlpha)
    } else if has_prefix(line, "_cell_angle_beta"@) {
        Some(Tag::AngleBeta)
    } else if has_prefix(line, "_cell_angle_gamma"@) {
        Some(Tag::AngleGamma)
    } else {
        None
    }
}

/// The number that a tag line gives: its second token.
pub open spec fn tag_value(line: Seq<char>) -> Option<int> {
    if tokens_of(line).len() < 2 {
        None
    } else {
        fixed_of(tokens_of(line)[1])
    }
}

/// The cell with the quantity `tag` set to `v`.
pub open spec fn cell_with(cell: LatticeParameters, tag: Tag, v: Fixed) -> LatticeParameters {
    match tag {
        Tag::LengthA => LatticeParameters { a: v, ..cell },
        Tag::LengthB => LatticeParameters { b: v, ..cell },
        Tag::LengthC => LatticeParameters { c: v, ..cell },
        Tag::AngleAlpha => LatticeParameters { alpha: v, ..cell },
        Tag::AngleBeta => LatticeParameters { beta: v, ..cell },
        Tag::AngleGamma => LatticeParameters { gamma: v, ..cell },
    }
}

/// The atom that a row gives: its label is the first token, its coordinates
/// are the fourth, fifth and sixth, and the table gives radius and colour.
pub open spec fn atom_of_row(line: Seq<char>, table: Seq<ConfigEntry>) -> Option<AtomView> {
    let t = tokens_of(line);
    if t.len() < 6 {
        None
    } else {
        match (fixed_of(t[3]), fixed_of(t[4]), fixed_of(t[5])) {
            (Some(x), Some(y), Some(z)) => Some(
                AtomView {
                    name: t[0],
                    x,
                    y,
                    z,
                    radius: lookup(table, t[0]).0,
                    color: lookup(table, t[0]).1,
                },
            ),
            _ => None,
        }
    }
}

/// What has been read of a text: the cell and the atoms.
pub struct CifData {
    pub cell: LatticeParameters,
    pub atoms: Seq<AtomView>,
}

/// A cell of which nothing is known: every quantity is 0.
pub open spec fn zero_cell() -> LatticeParameters {
    LatticeParameters { a: 0, b: 0, c: 0, alpha: 0, beta: 0, gamma: 0 }
}

/// What has been read once the line `line`, the `number`th of the text, has
/// been read after `data`; `is_row` says whether the line has the shape of an
/// atom row.
pub open spec fn after_line(
    data: CifData,
    line: Seq<char>,
    number: usize,
    is_row: bool,
    table: Seq<ConfigEntry>,
) -> Result<CifData, ParseError> {
    let cell = match tag_of(line) {
        None => Some(data.cell),
        Some(tag) => match tag_value(line) {
            None => None,
            Some(v) => Some(cell_with(data.cell, tag, v as i64)),
        },
    };
    match cell {
        None => Err(ParseError::TagParse { line: number }),
        Some(cell) => if !is_row {
            Ok(CifData { cell, atoms: data.atoms })
        } else {
            match atom_of_row(line, table) {
                None => Err(ParseError::AtomRowParse { line: number }),
                Some(atom) => Ok(CifData { cell, atoms: data.atoms.push(atom) }),
            }
        },
    }
}

/// What has been read after the first `n` lines, or the first error among them.
pub open spec fn after_lines(lines: Seq<Seq<char>>, n: int, table: Seq<ConfigEntry>) -> Result<
    CifData,
    ParseError,
>
    decreases n,
{
    if n <= 0 {
        Ok(CifData { cell: zero_cell(), atoms: Seq::empty() })
    } else {
        match after_lines(lines, n - 1, table) {
            Err(e) => Err(e),
            Ok(data) => after_line(
                data,
                lines[n - 1],
                n as usize,
                regex_is_match(ATOM_ROW_PATTERN@, lines[n - 1]),
                table,
            ),
        }
    }
}

/// The cell and the atoms that the text gives, the atoms in the order of
/// their rows and in fractional coordinates.
pub open spec fn cif_data(text: Seq<char>, table: Seq<ConfigEntry>) -> Result<CifData, ParseError> {
    if !regex_accepts(ATOM_ROW_PATTERN@) {
        Err(ParseError::Pattern)
    } else {
        after_lines(lines_of(text), lines_of(text).len() as int, table)
    }
}

/// The structure that the text gives with the angles' cosines and sine `trig`.
pub open spec fn cif_structure(text: Seq<char>, table: Seq<ConfigEntry>, trig: LatticeTrig) -> Result<
    StructureView,
    ParseError,
> {
    match cif_data(text, table) {
        Err(e) => Err(e),
        Ok(data) => match structure_of_cell(data.cell, trig, data.atoms) {
            Err(e) => Err(ParseError::Geometry(e)),
            Ok(s) => Ok(s),
        },
    }
}

/// The structure of the cell `cell` with the atoms `atoms`, in fractions of
/// its edges, where the cosines of the cell's angles and the sine of gamma
/// are `trig`. There is none where gamma is a whole multiple of 180 degrees,
/// whatever `trig` says, and none where the edges have no geometry or a
/// coordinate is out of range.
pub open spec fn structure_of_cell(cell: LatticeParameters, trig: LatticeTrig, atoms: Seq<AtomView>) -> Result<
    StructureView,
    GeometryError,
> {
    match basis_of_cell(cell.a as int, cell.b as int, cell.c as int, cell.gamma as int, trig) {
        Err(e) => Err(e),
        Ok(basis) => match structure_of(basis, atoms) {
            None => Err(GeometryError::OutOfRange),
            Some(s) => Ok(s),
        },
    }
}

/// Reading stops at the first error: it is the error of every longer part of the text.
pub proof fn lemma_error_stays(lines: Seq<Seq<char>>, m: int, n: int, table: Seq<ConfigEntry>)
    requires
        0 <= m <= n,
        after_lines(lines, m, table) is Err,
    ensures
        after_lines(lines, n, table) == after_lines(lines, m, table),
    decreases n - m,
{
    if m < n {
        lemma_error_stays(lines, m, n - 1, table);
    }
}

/// The number that a tag line gives.
pub fn extract_value_from_line(line: &Vec<char>) -> (r: Option<Fixed>)
    ensures
        r is Some == tag_value(line@) is Some,
        r matches Some(v) ==> tag_value(line@) == Some(v as int),
{
    let tokens = split_tokens(line);
    if tokens.len() < 2 {
        return None;
    }
    assert(seqs_of(tokens@)[1] == tokens@[1]@);
    parse_fixed(&tokens[1])
}

/// The quantity that a line gives.
pub fn tag_on_line(line: &Vec<char>) -> (r: Option<Tag>)
    ensures
        r == tag_of(line@),
{
    if starts_with(line, "_cell_length_a") {
        Some(Tag::LengthA)
    } else if starts_with(line, "_cell_length_b") {
        Some(Tag::LengthB)
    } else if starts_with(line, "_cell_length_c") {
        Some(Tag::LengthC)
    } else if starts_with(line, "_cell_angle_alpha") {
        Some(Tag::AngleAlpha)
    } else if starts_with(line, "_cell_angle_beta") {
        Some(Tag::AngleBeta)
    } else if starts_with(line, "_cell_angle_gamma") {
        Some(Tag::AngleGamma)
    } else {
        None
    }
}

/// The atom that a row gives.
pub fn parse_atom_line(line: &Vec<char>, atom_config: &Vec<ConfigEntry>) -> (r: Option<Atom>)
    ensures
        r is Some == atom_of_row(line@, atom_config@) is Some,
        r matches Some(atom) ==> atom_of_row(line@, atom_config@) == Some(atom@) && is_word(
            atom.name@,
        ),
{
    let tokens = split_tokens(line);
    if tokens.len() < 6 {
        return None;
    }
    proof {
        assert(seqs_of(tokens@)[0] == tokens@[0]@);
        assert(seqs_of(tokens@)[3] == tokens@[3]@);
        assert(seqs_of(tokens@)[4] == tokens@[4]@);
        assert(seqs_of(tokens@)[5] == tokens@[5]@);
    }
    let x = parse_fixed(&tokens[3]);
    let y = parse_fixed(&tokens[4]);
    let z = parse_fixed(&tokens[5]);
    match (x, y, z) {
        (Some(x), Some(y), Some(z)) => {
            let name = string_of(&tokens[0]);
            let config = resolve(atom_config, &name);
            Some(Atom { name, x, y, z, radius: config.radius, color: config.color })
        },
        _ => None,
    }
}

/// Reads one line: `cell` and `atoms` hold what was read before it and,
/// where the line is in order, what has been read with it.
pub fn read_line(
    cell: &mut LatticeParameters,
    atoms: &mut Vec<Atom>,
    line: &Vec<char>,
    number: usize,
    is_row: bool,
    atom_config: &Vec<ConfigEntry>,
) -> (r: Result<(), ParseError>)
    ensures
        match after_line(
            CifData { cell: *old(cell), atoms: atoms_view(old(atoms)@) },
            line@,
            number,
            is_row,
            atom_config@,
        ) {
            Ok(data) => r is Ok && data.cell == *final(cell) && data.atoms == atoms_view(
                final(atoms)@,
            ),
            Err(e) => r == Err::<(), ParseError>(e),
        },
{
    match tag_on_line(line) {
        None => {},
        Some(tag) => {
            match extract_value_from_line(line) {
                None => { return Err(ParseError::TagParse { line: number }); },
                Some(v) => {
                    match tag {
                        Tag::LengthA => { cell.a = v; },
                        Tag::LengthB => { cell.b = v; },
                        Tag::LengthC => { cell.c = v; },
                        Tag::AngleAlpha => { cell.alpha = v; },
                        Tag::AngleBeta => { cell.beta = v; },
                        Tag::AngleGamma => { cell.gamma = v; },
                    }
                },
            }
        },
    }
    if is_row {
        match parse_atom_line(line, atom_config) {
            None => { return Err(ParseError::AtomRowParse { line: number }); },
            Some(atom) => {
                assert(atoms_view(atoms@.push(atom)) =~= atoms_view(atoms@).push(atom@));
                atoms.push(atom);
            },
        }
    }
    Ok(())
}

/// The cell and the atoms that `text` gives: the six quantities of the cell,
/// each 0 where no line gives it, and the atoms of the rows in their order,
/// in fractional coordinates, drawn as `atom_config` says.
pub fn read_cif(text: &str, atom_config: &Vec<ConfigEntry>) -> (r: Result<
    (LatticeParameters, Vec<Atom>),
    ParseError,
>)
    ensures
        match cif_data(text@, atom_config@) {
            Ok(data) => r matches Ok(found) && found.0 == data.cell && atoms_view(found.1@)
                == data.atoms,
            Err(e) => r matches Err(x) && x == e,
        },
{
    let row_pattern = match compile(ATOM_ROW_PATTERN) {
        None => { return Err(ParseError::Pattern); },
        Some(re) => re,
    };
    let chars = chars_of(text);
    let lines = split_lines(&chars);
    let mut cell = LatticeParameters { a: 0, b: 0, c: 0, alpha: 0, beta: 0, gamma: 0 };
    let mut atoms: Vec<Atom> = Vec::new();
    let mut i: usize = 0;
    assert(atoms_view(atoms@) =~= Seq::empty());
    while i < lines.len()
        invariant
            i <= lines.len(),
            seqs_of(lines@) == lines_of(text@),
            regex_accepts(ATOM_ROW_PATTERN@),
            regex_pattern(row_pattern) == Some(ATOM_ROW_PATTERN@),
            after_lines(lines_of(text@), i as int, atom_config@) == Ok::<CifData, ParseError>(
                CifData { cell, atoms: atoms_view(atoms@) },
            ),
        decreases lines.len() - i,
    {
        let line = &lines[i];
        assert(seqs_of(lines@)[i as int] == line@);
        let shown = string_of(line);
        proof {
            if after_lines(lines_of(text@), i + 1, atom_config@) is Err {
                lemma_error_stays(lines_of(text@), i + 1, lines.len() as int, atom_config@);
            }
        }
        let is_row = is_match(&row_pattern, shown.as_str());
        match read_line(&mut cell, &mut atoms, line, i + 1, is_row, atom_config) {
            Err(e) => { return Err(e); },
            Ok(()) => {},
        }
        i += 1;
    }
    Ok((cell, atoms))
}

/// The structure of the cell `cell`, as it was read, with the atoms `atoms`,
/// in fractions of its edges, where the cosines of the cell's angles and the
/// sine of gamma are `trig`.
pub fn build_structure(cell: &LatticeParameters, trig: &LatticeTrig, atoms: Vec<Atom>) -> (r: Result<
    CrystalStructure,
    GeometryError,
>)
    ensures
        match structure_of_cell(*cell, *trig, atoms_view(atoms@)) {
            Ok(s) => r matches Ok(found) && structure_view(found) == s,
            Err(e) => r matches Err(x) && x == e,
        },
        r matches Ok(s) ==> s.lattice_vertices.len() == 8 && center_of(
            points_view(s.lattice_vertices@),
        ) == (0int, 0int, 0int),
{
    let basis = basis_vectors_of_cell(cell.a, cell.b, cell.c, cell.gamma, trig)?;
    assemble(&basis, atoms)
}

/// The structure that `text` gives, drawn as `atom_config` says, where the
/// cosines of the cell's angles and the sine of gamma are `trig`.
pub fn parse_cif(text: &str, atom_config: &Vec<ConfigEntry>, trig: &LatticeTrig) -> (r: Result<
    CrystalStructure,
    ParseError,
>)
    ensures
        match cif_structure(text@, atom_config@, *trig) {
            Ok(s) => r matches Ok(found) && structure_view(found) == s,
            Err(e) => r matches Err(x) && x == e,
        },
        r matches Ok(s) ==> s.lattice_vertices.len() == 8 && center_of(
            points_view(s.lattice_vertices@),
        ) == (0int, 0int, 0int),
{
    let (cell, atoms) = read_cif(text, atom_config)?;
    from_geometry(build_structure(&cell, trig, atoms))
}

} // verus!
