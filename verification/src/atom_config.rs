//! The data of a crystal structure: atoms, the cell's corners, and the table
//! that gives each kind of atom its drawing radius and colour.

use vstd::prelude::*;
use crate::number::Fixed;

verus! {

/// An atom: its label, its position, and how it is drawn. The position is in
/// fractions of the cell's edges while a text is read and its atoms are
/// replicated, and Cartesian afterwards.
#[derive(Debug)]
pub struct Atom {
    pub name: String,
    pub x: Fixed,
    pub y: Fixed,
    pub z: Fixed,
    pub radius: Fixed,
    pub color: String,
}

/// An atom as a mathematical value.
pub struct AtomView {
    pub name: Seq<char>,
    pub x: int,
    pub y: int,
    pub z: int,
    pub radius: int,
    pub color: Seq<char>,
}

impl View for Atom {
    type V = AtomView;

    open spec fn view(&self) -> AtomView {
        AtomView {
            name: self.name@,
            x: self.x as int,
            y: self.y as int,
            z: self.z as int,
            radius: self.radius as int,
            color: self.color@,
        }
    }
}

/// A point or a vector in space: its three coordinates.
pub type Point = (Fixed, Fixed, Fixed);

/// A unit cell and the atoms drawn with it.
#[derive(Debug)]
pub struct CrystalStructure {
    /// The corners of the cell: the origin, a, a+b, b, c, a+c, a+b+c, b+c.
    pub lattice_vertices: Vec<Point>,
    pub atoms: Vec<Atom>,
}

/// How one kind of atom is drawn.
#[derive(Debug)]
pub struct AtomConfig {
    pub radius: Fixed,
    pub color: String,
}

/// The drawing data of the atoms with one label.
#[derive(Debug)]
pub struct ConfigEntry {
    pub label: String,
    pub config: AtomConfig,
}

/// The radius of an atom whose label the table does not hold: 0.35.
pub const DEFAULT_RADIUS: Fixed = 350_000_000_000_000;

/// The colour of an atom whose label the table does not hold.
pub open spec fn default_color() -> Seq<char> {
    "#505050"@
}

/// The atoms of a vector as mathematical values.
pub open spec fn atoms_view(atoms: Seq<Atom>) -> Seq<AtomView> {
    atoms.map_values(|a: Atom| a@)
}

/// The points of a vector as triples of integers.
pub open spec fn points_view(points: Seq<Point>) -> Seq<(int, int, int)> {
    points.map_values(|p: Point| (p.0 as int, p.1 as int, p.2 as int))
}

/// Radius and colour as the table gives them for `label`: those of the first
/// entry with that label, and the default where there is none.
pub open spec fn lookup(table: Seq<ConfigEntry>, label: Seq<char>) -> (int, Seq<char>)
    decreases table.len(),
{
    if table.len() == 0 {
        (DEFAULT_RADIUS as int, default_color())
    } else if table[0].label@ == label {
        (table[0].config.radius as int, table[0].config.color@)
    } else {
        lookup(table.drop_first(), label)
    }
}

/// Whether the table holds an entry for `label`.
pub open spec fn has_entry(table: Seq<ConfigEntry>, label: Seq<char>) -> bool {
    exists|i: int| 0 <= i < table.len() && #[trigger] table[i].label@ == label
}

/// A label that the table does not hold is given the default radius and colour.
pub proof fn lemma_lookup_default(table: Seq<ConfigEntry>, label: Seq<char>)
    requires
        !has_entry(table, label),
    ensures
        lookup(table, label) == (DEFAULT_RADIUS as int, default_color()),
    decreases table.len(),
{
    if table.len() > 0 {
        assert(table[0].label@ != label);
        assert forall|i: int| 0 <= i < table.drop_first().len() implies #[trigger] table.drop_first()[i].label@
            != label by {
            assert(table.drop_first()[i] == table[i + 1]);
        }
        lemma_lookup_default(table.drop_first(), label);
    }
}

/// Radius and colour for the atoms labelled `label`.
pub fn resolve(table: &Vec<ConfigEntry>, label: &String) -> (c: AtomConfig)
    ensures
        (c.radius as int, c.color@) == lookup(table@, label@),
        !has_entry(table@, label@) ==> c.radius == DEFAULT_RADIUS && c.color@ == default_color(),
{
    let mut i: usize = 0;
    assert(table@.skip(0) =~= table@);
    while i < table.len()
        invariant
            i <= table.len(),
            lookup(table@, label@) == lookup(table@.skip(i as int), label@),
        decreases table.len() - i,
    {
        proof {
            assert(table@.skip(i as int)[0] == table@[i as int]);
            assert(table@.skip(i as int).drop_first() =~= table@.skip(i + 1));
        }
        if table[i].label == *label {
            let c = AtomConfig { radius: table[i].config.radius, color: table[i].config.color.clone() };
            proof {
                if !has_entry(table@, label@) {
                    assert(table@[i as int].label@ == label@);
                }
            }
            return c;
        }
        i += 1;
    }
    proof {
        assert(table@.skip(table.len() as int).len() == 0);
        if !has_entry(table@, label@) {
            lemma_lookup_default(table@, label@);
        }
    }
    AtomConfig { radius: DEFAULT_RADIUS, color: "#505050".to_owned() }
}

/// A copy of `atom`.
pub fn copy_atom(atom: &Atom) -> (r: Atom)
    ensures
        r@ == atom@,
{
    Atom {
        name: atom.name.clone(),
        x: atom.x,
        y: atom.y,
        z: atom.z,
        radius: atom.radius,
        color: atom.color.clone(),
    }
}

} // verus!
