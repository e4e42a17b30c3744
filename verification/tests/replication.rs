use crystal_cell::atom_config::Atom;
use crystal_cell::parser_utils::{is_close, replicate_boundary_atoms, EPSILON};

const ONE: i64 = 1_000_000_000_000_000;

fn atom(name: &str, x: i64, y: i64, z: i64) -> Atom {
    Atom { name: name.to_string(), x, y, z, radius: 350_000_000_000_000, color: "#505050".to_string() }
}

fn positions(atoms: &Vec<Atom>) -> Vec<(i64, i64, i64)> {
    atoms.iter().map(|a| (a.x, a.y, a.z)).collect()
}

#[test]
fn atom_on_one_face_has_one_image() {
    let mut atoms = vec![atom("Na", 0, ONE / 2, ONE / 2)];
    replicate_boundary_atoms(&mut atoms);
    assert_eq!(positions(&atoms), vec![(0, ONE / 2, ONE / 2), (ONE, ONE / 2, ONE / 2)]);
}

#[test]
fn atom_on_a_corner_has_three_images() {
    let mut atoms = vec![atom("Na", 0, 0, 0)];
    replicate_boundary_atoms(&mut atoms);
    assert_eq!(positions(&atoms), vec![(0, 0, 0), (ONE, 0, 0), (0, ONE, 0), (0, 0, ONE)]);
}

#[test]
fn atom_on_the_far_faces_is_moved_back() {
    let mut atoms = vec![atom("Cl", ONE, ONE / 2, ONE)];
    replicate_boundary_atoms(&mut atoms);
    assert_eq!(positions(&atoms), vec![(ONE, ONE / 2, ONE), (0, ONE / 2, ONE), (ONE, ONE / 2, 0)]);
}

#[test]
fn atom_inside_has_no_image() {
    let mut atoms = vec![atom("Cl", ONE / 2, ONE / 4, 3 * ONE / 4)];
    replicate_boundary_atoms(&mut atoms);
    assert_eq!(positions(&atoms), vec![(ONE / 2, ONE / 4, 3 * ONE / 4)]);
    let mut none: Vec<Atom> = Vec::new();
    replicate_boundary_atoms(&mut none);
    assert!(none.is_empty());
}

#[test]
fn the_atoms_come_first_and_then_the_images_atom_by_atom() {
    let mut atoms = vec![atom("A", 0, ONE / 2, ONE), atom("B", ONE / 2, ONE / 2, ONE / 2), atom("C", ONE / 2, 0, ONE / 2)];
    replicate_boundary_atoms(&mut atoms);
    let names: Vec<&str> = atoms.iter().map(|a| a.name.as_str()).collect();
    assert_eq!(names, vec!["A", "B", "C", "A", "A", "C"]);
    assert_eq!(
        positions(&atoms),
        vec![
            (0, ONE / 2, ONE),
            (ONE / 2, ONE / 2, ONE / 2),
            (ONE / 2, 0, ONE / 2),
            (ONE, ONE / 2, ONE),
            (0, ONE / 2, 0),
            (ONE / 2, ONE, ONE / 2),
        ]
    );
    assert_eq!(atoms[3].radius, 350_000_000_000_000);
    assert_eq!(atoms[3].color, "#505050");
}

#[test]
fn the_tolerance_is_a_hundredth_on_each_side() {
    assert_eq!(EPSILON, ONE / 100);
    let near = [-EPSILON + 1, -1, 0, 1, EPSILON - 1];
    for d in near {
        let mut atoms = vec![atom("A", d, ONE / 2, ONE / 2)];
        replicate_boundary_atoms(&mut atoms);
        assert_eq!(positions(&atoms), vec![(d, ONE / 2, ONE / 2), (d + ONE, ONE / 2, ONE / 2)]);
        let mut atoms = vec![atom("A", ONE / 2, ONE + d, ONE / 2)];
        replicate_boundary_atoms(&mut atoms);
        assert_eq!(positions(&atoms), vec![(ONE / 2, ONE + d, ONE / 2), (ONE / 2, d, ONE / 2)]);
    }
    for d in [-EPSILON, EPSILON, ONE - EPSILON, ONE + EPSILON, 2 * ONE, -ONE, i64::MAX, i64::MIN] {
        let mut atoms = vec![atom("A", ONE / 2, ONE / 2, d)];
        replicate_boundary_atoms(&mut atoms);
        assert_eq!(atoms.len(), 1);
    }
}

#[test]
fn closeness() {
    assert!(is_close(5, 5, 1));
    assert!(!is_close(5, 5, 0));
    assert!(is_close(5, 7, 3));
    assert!(!is_close(5, 8, 3));
    assert!(is_close(7, 5, 3));
    assert!(!is_close(8, 5, 3));
    assert!(!is_close(i64::MAX, i64::MIN, i64::MAX));
    assert!(!is_close(i64::MIN, i64::MAX, i64::MAX));
    assert!(!is_close(0, 0, -1));
}
