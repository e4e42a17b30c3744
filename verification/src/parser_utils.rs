//! Atoms on the faces of the cell are shown on the opposite face too.

use vstd::prelude::*;
use crate::atom_config::{Atom, AtomView, atoms_view, copy_atom};
use crate::number::{Fixed, SCALE};

verus! {

/// How near a face a coordinate must be to count as lying on it: 0.01.
pub const EPSILON: Fixed = 10_000_000_000_000;

/// Whether `value` is less than `epsilon` away from `target`.
pub open spec fn close_to(value: int, target: int, epsilon: int) -> bool {
    -epsilon < value - target < epsilon
}

/// By how much the image of an atom is moved along an axis on which its
/// coordinate is `v`: by one cell up where `v` is near 0, by one cell down
/// where it is near 1, and 0 where the atom has no image along that axis.
pub open spec fn axis_shift(v: int) -> int {
    if close_to(v, 0, EPSILON as int) {
        SCALE as int
    } else if close_to(v, SCALE as int, EPSILON as int) {
        -(SCALE as int)
    } else {
        0
    }
}

/// The images of one atom: at most one along each axis, in the order x, y, z,
/// each moved along its own axis only.
pub open spec fn images_of(a: AtomView) -> Seq<AtomView> {
    let along_x = if axis_shift(a.x) != 0 {
        seq![AtomView { x: a.x + axis_shift(a.x), ..a }]
    } else {
        Seq::empty()
    };
    let along_y = if axis_shift(a.y) != 0 {
        seq![AtomView { y: a.y + axis_shift(a.y), ..a }]
    } else {
        Seq::empty()
    };
    let along_z = if axis_shift(a.z) != 0 {
        seq![AtomView { z: a.z + axis_shift(a.z), ..a }]
    } else {
        Seq::empty()
    };
    along_x + along_y + along_z
}

/// The images of all atoms, atom by atom.
pub open spec fn all_images(atoms: Seq<AtomView>) -> Seq<AtomView>
    decreases atoms.len(),
{
    if atoms.len() == 0 {
        Seq::empty()
    } else {
        all_images(atoms.drop_last()) + images_of(atoms.last())
    }
}

/// The atoms with their images: the atoms themselves, unchanged and in their
/// order, and then the images.
pub open spec fn replicated(atoms: Seq<AtomView>) -> Seq<AtomView> {
    atoms + all_images(atoms)
}

/// How many of the three coordinates of an atom are near 0 or near 1.
pub open spec fn faces_of(a: AtomView) -> int {
    (if axis_shift(a.x) != 0 { 1int } else { 0int }) + (if axis_shift(a.y) != 0 { 1int } else { 0int })
        + (if axis_shift(a.z) != 0 { 1int } else { 0int })
}

/// An atom has one image for each face of the cell that it lies on: at most
/// three, and never the seven that all the cells around a corner would give.
pub proof fn lemma_image_count(a: AtomView)
    ensures
        images_of(a).len() == faces_of(a),
        0 <= images_of(a).len() <= 3,
{
}

/// With their images the atoms are at least as many as before and at most
/// four times as many.
pub proof fn lemma_replicated_count(atoms: Seq<AtomView>)
    ensures
        0 <= all_images(atoms).len() <= 3 * atoms.len(),
        atoms.len() <= replicated(atoms).len() <= 4 * atoms.len(),
    decreases atoms.len(),
{
    if atoms.len() > 0 {
        lemma_replicated_count(atoms.drop_last());
        lemma_image_count(atoms.last());
    }
}

/// Whether `value` is less than `epsilon` away from `target`.
pub fn is_close(value: Fixed, target: Fixed, epsilon: Fixed) -> (r: bool)
    ensures
        r == close_to(value as int, target as int, epsilon as int),
{
    let d: i128 = value as i128 - target as i128;
    -(epsilon as i128) < d && d < epsilon as i128
}

/// By how much the image along an axis is moved.
fn shift_of(v: Fixed) -> (s: Fixed)
    ensures
        s == axis_shift(v as int),
        fits_sum(v as int, s as int),
{
    if is_close(v, 0, EPSILON) {
        SCALE
    } else if is_close(v, SCALE, EPSILON) {
        -SCALE
    } else {
        0
    }
}

/// Whether `v + s` is a `Fixed`.
spec fn fits_sum(v: int, s: int) -> bool {
    i64::MIN <= v + s <= i64::MAX
}

/// Appends to `atoms` the images of its atoms on the opposite faces of the cell.
pub fn replicate_boundary_atoms(atoms: &mut Vec<Atom>)
    ensures
        atoms_view(final(atoms)@) == replicated(atoms_view(old(atoms)@)),
        old(atoms).len() <= final(atoms).len() <= 4 * old(atoms).len(),
{
    proof {
        lemma_replicated_count(atoms_view(atoms@));
    }
    let count = atoms.len();
    let ghost before = atoms_view(atoms@);
    let mut i: usize = 0;
    assert(before.take(0) =~= Seq::empty());
    assert(atoms_view(atoms@) =~= before + all_images(before.take(0)));
    while i < count
        invariant
            i <= count,
            count == before.len(),
            count <= atoms.len(),
            atoms_view(atoms@) == before + all_images(before.take(i as int)),
        decreases count - i,
    {
        let ghost start = atoms_view(atoms@);
        assert(start[i as int] == before[i as int]);
        assert(atoms@[i as int]@ == before[i as int]);
        let sx = shift_of(atoms[i].x);
        let sy = shift_of(atoms[i].y);
        let sz = shift_of(atoms[i].z);
        let ghost a = before[i as int];
        let ghost mut added: Seq<AtomView> = Seq::empty();
        if sx != 0 {
            let mut image = copy_atom(&atoms[i]);
            image.x = image.x + sx;
            proof {
                added = added.push(image@);
                assert(atoms_view(atoms@.push(image)) =~= atoms_view(atoms@).push(image@));
            }
            atoms.push(image);
        }
        assert(atoms@[i as int]@ == a);
        if sy != 0 {
            let mut image = copy_atom(&atoms[i]);
            image.y = image.y + sy;
            proof {
                added = added.push(image@);
                assert(atoms_view(atoms@.push(image)) =~= atoms_view(atoms@).push(image@));
            }
            atoms.push(image);
        }
        assert(atoms@[i as int]@ == a);
        if sz != 0 {
            let mut image = copy_atom(&atoms[i]);
            image.z = image.z + sz;
            proof {
                added = added.push(image@);
                assert(atoms_view(atoms@.push(image)) =~= atoms_view(atoms@).push(image@));
            }
            atoms.push(image);
        }
        proof {
            assert(added =~= images_of(a));
            assert(atoms_view(atoms@) =~= start + added);
            assert(before.take(i + 1).drop_last() =~= before.take(i as int));
            assert(before.take(i + 1).last() == a);
            assert(start + added =~= before + (all_images(before.take(i as int)) + images_of(a)));
        }
        i += 1;
    }
    assert(before.take(count as int) =~= before);
}

} // verus!
