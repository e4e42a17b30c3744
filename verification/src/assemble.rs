//! From the atoms of a cell, in fractions of its edges, to the structure that
//! is drawn: atoms with their images, in Cartesian coordinates, and the
//! corners of the cell, all moved so that the centre of the cell is the origin.

use vstd::prelude::*;
use crate::atom_config::{Atom, AtomView, CrystalStructure, Point, atoms_view, points_view};
use crate::geometry::{
    Basis, GeometryError, Vec3, all_fit, cartesian_of, center_of, corners, corners_of, fits3,
    get_lattice_center, lemma_recentered_center_is_origin, minus, moved, point_view, sub_points,
    to_cartesian,
};
use crate::parser_utils::{replicate_boundary_atoms, replicated};

verus! {

/// A structure as a mathematical value: its corners and its atoms.
pub type StructureView = (Seq<Vec3>, Seq<AtomView>);

/// The position of an atom.
pub open spec fn position(a: AtomView) -> Vec3 {
    (a.x, a.y, a.z)
}

/// The atom `a` at the position `p`.
pub open spec fn at(a: AtomView, p: Vec3) -> AtomView {
    AtomView { x: p.0, y: p.1, z: p.2, ..a }
}

/// The atom with fractional coordinates in the cell with the edges `basis`,
/// in Cartesian coordinates about `center`.
pub open spec fn centered(basis: (Vec3, Vec3, Vec3), center: Vec3, a: AtomView) -> AtomView {
    at(a, minus(cartesian_of(basis, position(a)), center))
}

/// Whether the atom can be placed and centred within the range of fixed-point numbers.
pub open spec fn atom_in_range(basis: (Vec3, Vec3, Vec3), center: Vec3, a: AtomView) -> bool {
    fits3(cartesian_of(basis, position(a))) && fits3(
        minus(cartesian_of(basis, position(a)), center),
    )
}

/// Whether all the atoms can be placed and centred.
pub open spec fn atoms_in_range(basis: (Vec3, Vec3, Vec3), center: Vec3, atoms: Seq<AtomView>) -> bool {
    forall|i: int| 0 <= i < atoms.len() ==> atom_in_range(basis, center, #[trigger] atoms[i])
}

/// The structure of the cell with the edges `basis` and the atoms `atoms`,
/// given in fractions of the edges: the atoms and their images on opposite
/// faces, in Cartesian coordinates, and the eight corners, all about the
/// centre of the corners. There is none where a coordinate is out of range.
pub open spec fn structure_of(basis: (Vec3, Vec3, Vec3), atoms: Seq<AtomView>) -> Option<
    StructureView,
> {
    let all = replicated(atoms);
    let center = center_of(corners_of(basis));
    if all_fit(corners_of(basis)) && all_fit(moved(corners_of(basis), center)) && atoms_in_range(
        basis,
        center,
        all,
    ) {
        Some(
            (
                moved(corners_of(basis), center),
                all.map_values(|a: AtomView| centered(basis, center, a)),
            ),
        )
    } else {
        None
    }
}

/// The structure as a mathematical value.
pub open spec fn structure_view(s: CrystalStructure) -> StructureView {
    (points_view(s.lattice_vertices@), atoms_view(s.atoms@))
}

/// The corners of a structure have their centre at the origin.
pub proof fn lemma_structure_is_centered(basis: (Vec3, Vec3, Vec3), atoms: Seq<AtomView>)
    requires
        structure_of(basis, atoms) is Some,
    ensures
        structure_of(basis, atoms).unwrap().0.len() == 8,
        center_of(structure_of(basis, atoms).unwrap().0) == (0int, 0int, 0int),
        structure_of(basis, atoms).unwrap().1.len() == replicated(atoms).len(),
{
    lemma_recentered_center_is_origin(corners_of(basis));
}

/// The points, each moved by `-offset`.
fn move_points(points: &Vec<Point>, offset: Point) -> (r: Result<Vec<Point>, GeometryError>)
    ensures
        match r {
            Ok(v) => all_fit(moved(points_view(points@), point_view(offset))) && points_view(v@)
                == moved(points_view(points@), point_view(offset)),
            Err(e) => e == GeometryError::OutOfRange && !all_fit(
                moved(points_view(points@), point_view(offset)),
            ),
        },
{
    let ghost target = moved(points_view(points@), point_view(offset));
    let mut v: Vec<Point> = Vec::new();
    let mut i: usize = 0;
    while i < points.len()
        invariant
            i <= points.len(),
            target == moved(points_view(points@), point_view(offset)),
            v.len() == i,
            forall|k: int| 0 <= k < i ==> fits3(#[trigger] target[k]) && point_view(v@[k])
                == target[k],
        decreases points.len() - i,
    {
        assert(target[i as int] == minus(point_view(points@[i as int]), point_view(offset)));
        match sub_points(points[i], offset) {
            Ok(p) => {
                v.push(p);
            },
            Err(e) => {
                assert(!fits3(target[i as int]));
                return Err(e);
            },
        }
        i += 1;
    }
    assert(points_view(v@) =~= target);
    Ok(v)
}

/// The atoms in Cartesian coordinates about `center`.
fn place_atoms(basis: &Basis, center: Point, atoms: &Vec<Atom>) -> (r: Result<
    Vec<Atom>,
    GeometryError,
>)
    ensures
        match r {
            Ok(v) => atoms_in_range(basis@, point_view(center), atoms_view(atoms@)) && atoms_view(
                v@,
            ) == atoms_view(atoms@).map_values(
                |a: AtomView| centered(basis@, point_view(center), a),
            ),
            Err(e) => e == GeometryError::OutOfRange && !atoms_in_range(
                basis@,
                point_view(center),
                atoms_view(atoms@),
            ),
        },
{
    let ghost source = atoms_view(atoms@);
    let ghost c = point_view(center);
    let mut v: Vec<Atom> = Vec::new();
    let mut i: usize = 0;
    while i < atoms.len()
        invariant
            i <= atoms.len(),
            source == atoms_view(atoms@),
            c == point_view(center),
            v.len() == i,
            forall|k: int|
                0 <= k < i ==> atom_in_range(basis@, c, #[trigger] source[k]) && v@[k]@
                    == centered(basis@, c, source[k]),
        decreases atoms.len() - i,
    {
        let atom = &atoms[i];
        assert(source[i as int] == atom@);
        let p = match to_cartesian(basis, (atom.x, atom.y, atom.z)) {
            Ok(p) => p,
            Err(e) => {
                assert(!atom_in_range(basis@, c, source[i as int]));
                return Err(e);
            },
        };
        let q = match sub_points(p, center) {
            Ok(q) => q,
            Err(e) => {
                assert(!atom_in_range(basis@, c, source[i as int]));
                return Err(e);
            },
        };
        v.push(
            Atom {
                name: atom.name.clone(),
                x: q.0,
                y: q.1,
                z: q.2,
                radius: atom.radius,
                color: atom.color.clone(),
            },
        );
        i += 1;
    }
    assert(atoms_view(v@) =~= source.map_values(|a: AtomView| centered(basis@, c, a)));
    Ok(v)
}

/// The structure of the cell with the edges `basis` and the atoms `atoms`,
/// which are given in fractions of the edges.
pub fn assemble(basis: &Basis, atoms: Vec<Atom>) -> (r: Result<CrystalStructure, GeometryError>)
    ensures
        match r {
            Ok(s) => structure_of(basis@, atoms_view(atoms@)) == Some(structure_view(s)),
            Err(e) => e == GeometryError::OutOfRange && structure_of(basis@, atoms_view(atoms@))
                is None,
        },
        r matches Ok(s) ==> s.lattice_vertices.len() == 8 && center_of(
            points_view(s.lattice_vertices@),
        ) == (0int, 0int, 0int),
{
    let mut all = atoms;
    replicate_boundary_atoms(&mut all);
    let vertices = corners(basis)?;
    let center = match get_lattice_center(&vertices) {
        Some(c) => c,
        None => { return Err(GeometryError::OutOfRange); },
    };
    let lattice_vertices = move_points(&vertices, center)?;
    let placed = place_atoms(basis, center, &all)?;
    proof {
        lemma_structure_is_centered(basis@, atoms_view(atoms@));
    }
    Ok(CrystalStructure { lattice_vertices, atoms: placed })
}

} // verus!
