//! Crystal structures from the output of a Quantum ESPRESSO run.
//!
//! A line with `CELL_PARAMETERS (alat = ...)` gives the unit of length and
//! is followed by the three edges of a cell, one on each line. A line with
//! `ATOMIC_POSITIONS (...)` is followed by the atoms, one on each line, up to
//! a blank line or a line with `End final coordinates`. Each block of atoms
//! makes a structure with the cell that was read before it, if one was read
//! since the last structure.

use vstd::prelude::*;
use crate::assemble::{StructureView, assemble, structure_of, structure_view};
use crate::atom_config::{
    Atom, AtomView, ConfigEntry, CrystalStructure, Point, atoms_view, lookup, points_view, resolve,
};
use crate::decimal::{fixed_of, parse_fixed};
use crate::error::ParseError;
use crate::geometry::{Basis, GeometryError, Vec3, center_of, fits3, point_view};
use crate::number::{Fixed, SCALE, fixed_mul, mul_fixed, narrow};
use crate::pattern::{
    compile, group_text, is_match, regex_accepts, regex_group, regex_is_match, regex_pattern,
};
use crate::text::{
    blank, chars_of, contains, has_infix, is_blank, lines_of, seqs_of, split_lines, split_tokens,
    string_of, tokens_of,
};

verus! {

/// The pattern of the header of a cell, for the `regex` crate; its group is the unit of length.
pub const CELL_PATTERN: &'static str = "CELL_PARAMETERS\\s+\\(alat\\s*=\\s*([\\d\\.]+)\\)";

/// The pattern of the header of a block of atoms, for the `regex` crate.
pub const POSITIONS_PATTERN: &'static str = "ATOMIC_POSITIONS\\s+\\(([a-zA-Z]+)\\)";

/// The words that end a block of atoms.
pub const END_MARKER: &'static str = "End final coordinates";

/// What the headers on a line say: the unit of length that a header of a cell
/// gives, if the line holds one, and whether the line holds a header of a
/// block of atoms.
pub struct Headers {
    pub cell: Option<Seq<char>>,
    pub positions: bool,
}

/// What the headers on `line` say.
pub open spec fn headers_of(line: Seq<char>) -> Headers {
    Headers {
        cell: regex_group(CELL_PATTERN@, line, 1),
        positions: regex_is_match(POSITIONS_PATTERN@, line),
    }
}

/// Whether every token is a number.
pub open spec fn all_numbers(tokens: Seq<Seq<char>>) -> bool {
    forall|i: int| 0 <= i < tokens.len() ==> fixed_of(#[trigger] tokens[i]) is Some
}

/// The edge that a line gives: its first three tokens, where it has at least
/// three and all its tokens are numbers.
pub open spec fn edge_of_row(line: Seq<char>) -> Option<Vec3> {
    let t = tokens_of(line);
    if t.len() >= 3 && all_numbers(t) {
        Some((fixed_of(t[0]).unwrap(), fixed_of(t[1]).unwrap(), fixed_of(t[2]).unwrap()))
    } else {
        None
    }
}

/// The edge on the line with index `k`: zero where the text ends before it.
pub open spec fn edge_at(lines: Seq<Seq<char>>, k: int) -> Result<Vec3, ParseError> {
    if k >= lines.len() {
        Ok((0, 0, 0))
    } else {
        match edge_of_row(lines[k]) {
            Some(v) => Ok(v),
            None => Err(ParseError::TagParse { line: (k + 1) as usize }),
        }
    }
}

/// The cell whose header is the line with index `h`: the edges on the three
/// lines after it, in units of the header's length.
pub open spec fn cell_after(lines: Seq<Seq<char>>, h: int) -> Result<(Vec3, Vec3, Vec3), ParseError> {
    match edge_at(lines, h + 1) {
        Err(e) => Err(e),
        Ok(a) => match edge_at(lines, h + 2) {
            Err(e) => Err(e),
            Ok(b) => match edge_at(lines, h + 3) {
                Err(e) => Err(e),
                Ok(c) => Ok((a, b, c)),
            },
        },
    }
}

/// Whether the line ends a block of atoms.
pub open spec fn ends_block(line: Seq<char>) -> bool {
    is_blank(line) || has_infix(line, END_MARKER@)
}

/// The atom that a row gives: its label is the first token, its coordinates
/// are the three after it, and the table gives radius and colour.
pub open spec fn atom_of_row(line: Seq<char>, table: Seq<ConfigEntry>) -> Option<AtomView> {
    let t = tokens_of(line);
    if t.len() < 4 {
        None
    } else {
        match (fixed_of(t[1]), fixed_of(t[2]), fixed_of(t[3])) {
            (Some(x), Some(y), Some(z)) => Some(
                AtomView {
                    name: t[0],
                    x,
                    y,
                    z,
                    radius: lookup(table, t[0]).0,
                    color: lookup(table, t[0]).1,
                },
            ),
            _ => None,
        }
    }
}

/// The atoms on the lines from index `k` up to the end of the block.
pub open spec fn atoms_from(lines: Seq<Seq<char>>, k: int, table: Seq<ConfigEntry>) -> Result<
    Seq<AtomView>,
    ParseError,
>
    decreases lines.len() - k,
{
    if k < 0 || k >= lines.len() || ends_block(lines[k]) {
        Ok(Seq::empty())
    } else {
        match atom_of_row(lines[k], table) {
            None => Err(ParseError::AtomRowParse { line: (k + 1) as usize }),
            Some(atom) => match atoms_from(lines, k + 1, table) {
                Err(e) => Err(e),
                Ok(rest) => Ok(seq![atom] + rest),
            },
        }
    }
}

/// The vector `v` times `k`.
pub open spec fn scaled(v: Vec3, k: int) -> Vec3 {
    (fixed_mul(v.0, k), fixed_mul(v.1, k), fixed_mul(v.2, k))
}

/// The structure of the cell with the edges `cell`, in units of `alat`, and
/// the atoms `atoms`, in fractions of the edges. There is none where a
/// coordinate is out of range.
pub open spec fn cell_structure(cell: (Vec3, Vec3, Vec3), alat: int, atoms: Seq<AtomView>) -> Option<
    StructureView,
> {
    let basis = (scaled(cell.0, alat), scaled(cell.1, alat), scaled(cell.2, alat));
    if fits3(basis.0) && fits3(basis.1) && fits3(basis.2) {
        structure_of(basis, atoms)
    } else {
        None
    }
}

/// What has been read of a text: the unit of length, the cell that waits for
/// its atoms, and the structures.
pub struct Progress {
    pub alat: int,
    pub cell: Option<(Vec3, Vec3, Vec3)>,
    pub structures: Seq<StructureView>,
}

/// What has been read once the line with index `i` has been read after
/// `before`, where `headers` is what the headers on that line say.
pub open spec fn after_line(
    before: Progress,
    lines: Seq<Seq<char>>,
    i: int,
    headers: Headers,
    table: Seq<ConfigEntry>,
) -> Result<Progress, ParseError> {
    let with_cell = match headers.cell {
        None => Ok(before),
        Some(unit) => match fixed_of(unit) {
            None => Err(ParseError::TagParse { line: (i + 1) as usize }),
            Some(alat) => match cell_after(lines, i) {
                Err(e) => Err(e),
                Ok(cell) => Ok(Progress { alat, cell: Some(cell), ..before }),
            },
        },
    };
    match with_cell {
        Err(e) => Err(e),
        Ok(p) => if !headers.positions {
            Ok(p)
        } else {
            match atoms_from(lines, i + 1, table) {
                Err(e) => Err(e),
                Ok(atoms) => match p.cell {
                    None => Ok(p),
                    Some(cell) => match cell_structure(cell, p.alat, atoms) {
                        None => Err(ParseError::Geometry(GeometryError::OutOfRange)),
                        Some(s) => Ok(
                            Progress { alat: p.alat, cell: None, structures: p.structures.push(s) },
                        ),
                    },
                },
            }
        },
    }
}

/// What has been read after the first `n` lines, or the first error among them.
pub open spec fn after_lines(lines: Seq<Seq<char>>, n: int, table: Seq<ConfigEntry>) -> Result<
    Progress,
    ParseError,
>
    decreases n,
{
    if n <= 0 {
        Ok(Progress { alat: SCALE as int, cell: None, structures: Seq::empty() })
    } else {
        match after_lines(lines, n - 1, table) {
            Err(e) => Err(e),
            Ok(before) => after_line(before, lines, n - 1, headers_of(lines[n - 1]), table),
        }
    }
}

/// The structures that the text gives, in its order.
pub open spec fn qe_structures(text: Seq<char>, table: Seq<ConfigEntry>) -> Result<
    Seq<StructureView>,
    ParseError,
> {
    if !regex_accepts(CELL_PATTERN@) || !regex_accepts(POSITIONS_PATTERN@) {
        Err(ParseError::Pattern)
    } else {
        match after_lines(lines_of(text), lines_of(text).len() as int, table) {
            Err(e) => Err(e),
            Ok(p) => Ok(p.structures),
        }
    }
}

/// Whether the structure has eight corners with their centre at the origin.
pub open spec fn is_centered(s: CrystalStructure) -> bool {
    s.lattice_vertices.len() == 8 && center_of(points_view(s.lattice_vertices@)) == (
        0int,
        0int,
        0int,
    )
}

/// The structures of a vector as mathematical values.
pub open spec fn structures_view(v: Seq<CrystalStructure>) -> Seq<StructureView> {
    v.map_values(|s: CrystalStructure| structure_view(s))
}

/// Reading stops at the first error: it is the error of every longer part of the text.
pub proof fn lemma_error_stays(lines: Seq<Seq<char>>, m: int, n: int, table: Seq<ConfigEntry>)
    requires
        0 <= m <= n,
        after_lines(lines, m, table) is Err,
    ensures
        after_lines(lines, n, table) == after_lines(lines, m, table),
    decreases n - m,
{
    if m < n {
        lemma_error_stays(lines, m, n - 1, table);
    }
}

/// The edge that a line gives.
fn parse_edge(line: &Vec<char>) -> (r: Option<Point>)
    ensures
        r is Some == edge_of_row(line@) is Some,
        r matches Some(p) ==> edge_of_row(line@) == Some(point_view(p)),
{
    let tokens = split_tokens(line);
    let ghost t = tokens_of(line@);
    let mut first: [Fixed; 3] = [0, 0, 0];
    let mut i: usize = 0;
    while i < tokens.len()
        invariant
            i <= tokens.len(),
            seqs_of(tokens@) == t,
            t == tokens_of(line@),
            forall|k: int| 0 <= k < i ==> fixed_of(#[trigger] t[k]) is Some,
            forall|k: int| 0 <= k < i && k < 3 ==> fixed_of(t[k]) == Some(first[k] as int),
        decreases tokens.len() - i,
    {
        assert(seqs_of(tokens@)[i as int] == tokens@[i as int]@);
        match parse_fixed(&tokens[i]) {
            None => {
                assert(fixed_of(t[i as int]) is None);
                assert(!all_numbers(t));
                return None;
            },
            Some(v) => {
                if i < 3 {
                    first[i] = v;
                }
            },
        }
        i += 1;
    }
    if tokens.len() < 3 {
        return None;
    }
    Some((first[0], first[1], first[2]))
}

/// The edge on the line with index `k`.
fn edge_on_line(lines: &Vec<Vec<char>>, k: usize) -> (r: Result<Point, ParseError>)
    ensures
        match edge_at(seqs_of(lines@), k as int) {
            Ok(v) => r matches Ok(p) && point_view(p) == v,
            Err(e) => r == Err::<Point, ParseError>(e),
        },
{
    if k >= lines.len() {
        return Ok((0, 0, 0));
    }
    assert(seqs_of(lines@)[k as int] == lines@[k as int]@);
    match parse_edge(&lines[k]) {
        Some(p) => Ok(p),
        None => Err(ParseError::TagParse { line: k + 1 }),
    }
}

/// The cell whose header is the line with index `header`: its three edges,
/// in units of the header's length.
pub fn parse_cell_parameters(lines: &Vec<Vec<char>>, header: usize) -> (r: Result<
    Basis,
    ParseError,
>)
    ensures
        match cell_after(seqs_of(lines@), header as int) {
            Ok(cell) => r matches Ok(basis) && basis@ == cell,
            Err(e) => r matches Err(x) && x == e,
        },
{
    let n = lines.len();
    let a = edge_on_line(lines, if n >= 1 && header < n - 1 { header + 1 } else { n })?;
    let b = edge_on_line(lines, if n >= 2 && header < n - 2 { header + 2 } else { n })?;
    let c = edge_on_line(lines, if n >= 3 && header < n - 3 { header + 3 } else { n })?;
    Ok(Basis { a, b, c })
}

/// The atom that a row gives.
fn parse_atom_row(line: &Vec<char>, atom_config: &Vec<ConfigEntry>) -> (r: Option<Atom>)
    ensures
        r is Some == atom_of_row(line@, atom_config@) is Some,
        r matches Some(atom) ==> atom_of_row(line@, atom_config@) == Some(atom@),
{
    let tokens = split_tokens(line);
    if tokens.len() < 4 {
        return None;
    }
    proof {
        assert(seqs_of(tokens@)[0] == tokens@[0]@);
        assert(seqs_of(tokens@)[1] == tokens@[1]@);
        assert(seqs_of(tokens@)[2] == tokens@[2]@);
        assert(seqs_of(tokens@)[3] == tokens@[3]@);
    }
    let x = parse_fixed(&tokens[1]);
    let y = parse_fixed(&tokens[2]);
    let z = parse_fixed(&tokens[3]);
    match (x, y, z) {
        (Some(x), Some(y), Some(z)) => {
            let name = string_of(&tokens[0]);
            let config = resolve(atom_config, &name);
            Some(Atom { name, x, y, z, radius: config.radius, color: config.color })
        },
        _ => None,
    }
}

/// The atoms of the block whose header is the line with index `header`, in
/// the order of their rows and in fractions of the cell's edges.
pub fn parse_atomic_positions(
    lines: &Vec<Vec<char>>,
    header: usize,
    atom_config: &Vec<ConfigEntry>,
) -> (r: Result<Vec<Atom>, ParseError>)
    ensures
        match atoms_from(seqs_of(lines@), header + 1, atom_config@) {
            Ok(atoms) => r matches Ok(found) && atoms_view(found@) == atoms,
            Err(e) => r matches Err(x) && x == e,
        },
{
    let ghost all = seqs_of(lines@);
    let ghost goal = atoms_from(all, header + 1, atom_config@);
    let mut atoms: Vec<Atom> = Vec::new();
    assert(atoms_view(atoms@) =~= Seq::<AtomView>::empty());
    if header >= lines.len() {
        return Ok(atoms);
    }
    let mut k: usize = header + 1;
    assert(atoms_view(atoms@) + Seq::<AtomView>::empty() =~= Seq::<AtomView>::empty());
    while k < lines.len()
        invariant
            header < k <= lines.len(),
            all == seqs_of(lines@),
            goal == atoms_from(all, header + 1, atom_config@),
            goal == (match atoms_from(all, k as int, atom_config@) {
                Ok(rest) => Ok::<Seq<AtomView>, ParseError>(atoms_view(atoms@) + rest),
                Err(e) => Err::<Seq<AtomView>, ParseError>(e),
            }),
        decreases lines.len() - k,
    {
        let line = &lines[k];
        assert(all[k as int] == line@);
        if blank(line) || contains(line, END_MARKER) {
            assert(ends_block(all[k as int]));
            assert(atoms_from(all, k as int, atom_config@) == Ok::<Seq<AtomView>, ParseError>(
                Seq::empty(),
            ));
            assert(atoms_view(atoms@) + Seq::<AtomView>::empty() =~= atoms_view(atoms@));
            return Ok(atoms);
        }
        assert(!ends_block(all[k as int]));
        match parse_atom_row(line, atom_config) {
            None => {
                assert(atoms_from(all, k as int, atom_config@) == Err::<
                    Seq<AtomView>,
                    ParseError,
                >(ParseError::AtomRowParse { line: (k + 1) as usize }));
                return Err(ParseError::AtomRowParse { line: k + 1 });
            },
            Some(atom) => {
                proof {
                    assert(atoms_view(atoms@.push(atom)) =~= atoms_view(atoms@).push(atom@));
                    if let Ok(rest) = atoms_from(all, k + 1, atom_config@) {
                        assert(atoms_view(atoms@).push(atom@) + rest =~= atoms_view(atoms@) + (
                        seq![atom@] + rest));
                    }
                }
                atoms.push(atom);
            },
        }
        k += 1;
    }
    assert(atoms_view(atoms@) + Seq::<AtomView>::empty() =~= atoms_view(atoms@));
    Ok(atoms)
}

/// The vector `v` times `k`, where it is in range.
fn scale_point(v: Point, k: Fixed) -> (r: Option<Point>)
    ensures
        r is Some == fits3(scaled(point_view(v), k as int)),
        r matches Some(p) ==> point_view(p) == scaled(point_view(v), k as int),
{
    match (narrow(mul_fixed(v.0, k)), narrow(mul_fixed(v.1, k)), narrow(mul_fixed(v.2, k))) {
        (Some(x), Some(y), Some(z)) => Some((x, y, z)),
        _ => None,
    }
}

/// The structure of the cell with the edges `cell`, in units of `alat`, and
/// the atoms `atoms`, in fractions of the edges: in Cartesian coordinates
/// about the centre of the cell.
pub fn convert_to_cartesian(atoms: Vec<Atom>, cell: &Basis, alat: Fixed) -> (r: Result<
    CrystalStructure,
    GeometryError,
>)
    ensures
        match cell_structure(cell@, alat as int, atoms_view(atoms@)) {
            Some(s) => r matches Ok(found) && structure_view(found) == s,
            None => r == Err::<CrystalStructure, GeometryError>(GeometryError::OutOfRange),
        },
        r matches Ok(s) ==> is_centered(s),
{
    match (scale_point(cell.a, alat), scale_point(cell.b, alat), scale_point(cell.c, alat)) {
        (Some(a), Some(b), Some(c)) => assemble(&Basis { a, b, c }, atoms),
        _ => Err(GeometryError::OutOfRange),
    }
}

/// The cell that waits for its atoms, as a mathematical value.
pub open spec fn waiting_cell(cell: Option<Basis>) -> Option<(Vec3, Vec3, Vec3)> {
    match cell {
        Some(b) => Some(b@),
        None => None,
    }
}

/// The unit of length that a header gave, as a mathematical value.
pub open spec fn unit_text(unit: Option<String>) -> Option<Seq<char>> {
    match unit {
        Some(text) => Some(text@),
        None => None,
    }
}

/// Whether every structure has eight corners with their centre at the origin.
pub open spec fn all_centered(structures: Seq<CrystalStructure>) -> bool {
    forall|k: int| 0 <= k < structures.len() ==> is_centered(#[trigger] structures[k])
}

/// Reads the line with index `i`, of which `unit` and `positions` say what
/// its headers are: `alat`, `current_cell` and `structures` hold what was
/// read before it and, where the line and the blocks that it opens are in
/// order, what has been read with it.
pub fn read_line(
    alat: &mut Fixed,
    current_cell: &mut Option<Basis>,
    structures: &mut Vec<CrystalStructure>,
    lines: &Vec<Vec<char>>,
    i: usize,
    unit: &Option<String>,
    positions: bool,
    atom_config: &Vec<ConfigEntry>,
) -> (r: Result<(), ParseError>)
    requires
        i < lines.len(),
    ensures
        match after_line(
            Progress {
                alat: *old(alat) as int,
                cell: waiting_cell(*old(current_cell)),
                structures: structures_view(old(structures)@),
            },
            seqs_of(lines@),
            i as int,
            Headers { cell: unit_text(*unit), positions },
            atom_config@,
        ) {
            Ok(p) => r is Ok && p.alat == *final(alat) && p.cell == waiting_cell(
                *final(current_cell),
            ) && p.structures == structures_view(final(structures)@),
            Err(e) => r == Err::<(), ParseError>(e),
        },
        all_centered(old(structures)@) ==> all_centered(final(structures)@),
{
    if let Some(text) = unit {
        *alat = match parse_fixed(&chars_of(text.as_str())) {
            None => { return Err(ParseError::TagParse { line: i + 1 }); },
            Some(v) => v,
        };
        *current_cell = Some(parse_cell_parameters(lines, i)?);
    }
    if positions {
        let atoms = parse_atomic_positions(lines, i, atom_config)?;
        if let Some(cell) = *current_cell {
            match convert_to_cartesian(atoms, &cell, *alat) {
                Err(e) => { return Err(ParseError::Geometry(e)); },
                Ok(s) => {
                    assert(structures_view(structures@.push(s)) =~= structures_view(
                        structures@,
                    ).push(structure_view(s)));
                    structures.push(s);
                },
            }
            *current_cell = None;
        }
    }
    Ok(())
}

/// The structures that `text` gives, in its order, drawn as `atom_config` says.
pub fn parse_qe_output(text: &str, atom_config: &Vec<ConfigEntry>) -> (r: Result<
    Vec<CrystalStructure>,
    ParseError,
>)
    ensures
        match qe_structures(text@, atom_config@) {
            Ok(s) => r matches Ok(found) && structures_view(found@) == s,
            Err(e) => r matches Err(x) && x == e,
        },
        r matches Ok(found) ==> all_centered(found@),
{
    let (cell_pattern, positions_pattern) = match (
        compile(CELL_PATTERN),
        compile(POSITIONS_PATTERN),
    ) {
        (Some(c), Some(p)) => (c, p),
        _ => { return Err(ParseError::Pattern); },
    };
    let chars = chars_of(text);
    let lines = split_lines(&chars);
    let ghost all = lines_of(text@);
    let mut structures: Vec<CrystalStructure> = Vec::new();
    let mut current_cell: Option<Basis> = None;
    let mut alat: Fixed = SCALE;
    let mut i: usize = 0;
    assert(structures_view(structures@) =~= Seq::empty());
    while i < lines.len()
        invariant
            i <= lines.len(),
            seqs_of(lines@) == all,
            all == lines_of(text@),
            all_centered(structures@),
            regex_accepts(CELL_PATTERN@),
            regex_accepts(POSITIONS_PATTERN@),
            regex_pattern(cell_pattern) == Some(CELL_PATTERN@),
            regex_pattern(positions_pattern) == Some(POSITIONS_PATTERN@),
            after_lines(all, i as int, atom_config@) == Ok::<Progress, ParseError>(
                Progress {
                    alat: alat as int,
                    cell: waiting_cell(current_cell),
                    structures: structures_view(structures@),
                },
            ),
        decreases lines.len() - i,
    {
        assert(all[i as int] == lines@[i as int]@);
        proof {
            if after_lines(all, i + 1, atom_config@) is Err {
                lemma_error_stays(all, i + 1, lines.len() as int, atom_config@);
            }
        }
        let shown = string_of(&lines[i]);
        let unit = group_text(&cell_pattern, shown.as_str(), 1);
        let positions = is_match(&positions_pattern, shown.as_str());
        read_line(
            &mut alat,
            &mut current_cell,
            &mut structures,
            &lines,
            i,
            &unit,
            positions,
            atom_config,
        )?;
        i += 1;
    }
    Ok(structures)
}

} // verus!
