use crystal_cell::atom_config::{Atom, AtomConfig, ConfigEntry};
use crystal_cell::cif_parser::{
    build_structure, extract_value_from_line, parse_atom_line, parse_cif, read_cif, read_line,
    tag_on_line, LatticeParameters, Tag,
};
use crystal_cell::error::ParseError;
use crystal_cell::geometry::{get_lattice_center, GeometryError, LatticeTrig};
use crystal_cell::text::chars_of;

const ONE: i64 = 1_000_000_000_000_000;

fn right_angles() -> LatticeTrig {
    LatticeTrig::new(0, 0, 0, ONE).unwrap()
}

fn no_table() -> Vec<ConfigEntry> {
    Vec::new()
}

fn cubic_text() -> String {
    let mut text = String::new();
    text.push_str("data_cubic\n");
    text.push_str("_cell_length_a 5\n");
    text.push_str("_cell_length_b 5.0\n");
    text.push_str("_cell_length_c 5.000\n");
    text.push_str("_cell_angle_alpha 90\n");
    text.push_str("_cell_angle_beta 90\n");
    text.push_str("_cell_angle_gamma 90\n");
    text.push_str("loop_\n");
    text.push_str("_atom_site_type_symbol\n");
    text.push_str("Na Na1 1 0 0 0 1\n");
    text
}

fn positions(atoms: &Vec<Atom>) -> Vec<(i64, i64, i64)> {
    atoms.iter().map(|a| (a.x, a.y, a.z)).collect()
}

#[test]
fn cubic_cell_with_one_corner_atom() {
    let (cell, atoms) = read_cif(&cubic_text(), &no_table()).unwrap();
    assert_eq!(
        cell,
        LatticeParameters { a: 5 * ONE, b: 5 * ONE, c: 5 * ONE, alpha: 90 * ONE, beta: 90 * ONE, gamma: 90 * ONE }
    );
    assert_eq!(positions(&atoms), vec![(0, 0, 0)]);
    let s = parse_cif(&cubic_text(), &no_table(), &right_angles()).unwrap();
    let h = 5 * ONE / 2;
    let before: Vec<(i64, i64, i64)> = s.atoms.iter().map(|a| (a.x + h, a.y + h, a.z + h)).collect();
    assert_eq!(before, vec![(0, 0, 0), (5 * ONE, 0, 0), (0, 5 * ONE, 0), (0, 0, 5 * ONE)]);
    assert_eq!(
        s.lattice_vertices,
        vec![(-h, -h, -h), (h, -h, -h), (h, h, -h), (-h, h, -h), (-h, -h, h), (h, -h, h), (h, h, h), (-h, h, h)]
    );
    for (i, v) in s.lattice_vertices.iter().enumerate() {
        let w = s.lattice_vertices[[6, 7, 4, 5, 2, 3, 0, 1][i]];
        assert_eq!((v.0, v.1, v.2), (-w.0, -w.1, -w.2));
    }
    for a in s.atoms.iter() {
        assert_eq!((a.name.as_str(), a.radius, a.color.as_str()), ("Na", 350_000_000_000_000, "#505050"));
    }
}

#[test]
fn tag_without_a_number_is_an_error() {
    assert_eq!(read_cif("_cell_length_a\n", &no_table()).err(), Some(ParseError::TagParse { line: 1 }));
    assert_eq!(read_cif("_cell_length_a", &no_table()).err(), Some(ParseError::TagParse { line: 1 }));
    assert_eq!(read_cif("_cell_length_a   \t", &no_table()).err(), Some(ParseError::TagParse { line: 1 }));
    assert_eq!(
        parse_cif("_cell_length_a\n", &no_table(), &right_angles()).err(),
        Some(ParseError::TagParse { line: 1 })
    );
}

#[test]
fn tag_with_something_else_than_a_number_is_an_error() {
    for (text, line) in [
        ("data_x\n_cell_length_a abc\n", 2),
        ("_cell_length_b 5.4307(2)\n", 1),
        ("\n\n_cell_length_c ?\n", 3),
        ("_cell_angle_alpha 9O\n", 1),
        ("_cell_angle_beta nan\n", 1),
        ("_cell_angle_gamma 1e4\n", 1),
        ("_cell_length_a 1\r\n_cell_length_b\r\n", 2),
    ] {
        assert_eq!(read_cif(text, &no_table()).err(), Some(ParseError::TagParse { line }), "{:?}", text);
    }
}

#[test]
fn a_quantity_that_no_line_gives_is_zero() {
    let (cell, atoms) = read_cif("", &no_table()).unwrap();
    assert_eq!(cell, LatticeParameters { a: 0, b: 0, c: 0, alpha: 0, beta: 0, gamma: 0 });
    assert!(atoms.is_empty());
    let (cell, _) = read_cif("_cell_length_b 2.5\n_cell_angle_beta 101.25\n", &no_table()).unwrap();
    assert_eq!(
        cell,
        LatticeParameters { a: 0, b: 5 * ONE / 2, c: 0, alpha: 0, beta: 405 * ONE / 4, gamma: 0 }
    );
}

#[test]
fn a_tag_line_is_known_by_how_it_begins() {
    assert_eq!(tag_on_line(&chars_of("_cell_length_a 1")), Some(Tag::LengthA));
    assert_eq!(tag_on_line(&chars_of("_cell_length_b 1")), Some(Tag::LengthB));
    assert_eq!(tag_on_line(&chars_of("_cell_length_c 1")), Some(Tag::LengthC));
    assert_eq!(tag_on_line(&chars_of("_cell_angle_alpha 1")), Some(Tag::AngleAlpha));
    assert_eq!(tag_on_line(&chars_of("_cell_angle_beta 1")), Some(Tag::AngleBeta));
    assert_eq!(tag_on_line(&chars_of("_cell_angle_gamma 1")), Some(Tag::AngleGamma));
    assert_eq!(tag_on_line(&chars_of("_cell_length_a_esd 1")), Some(Tag::LengthA));
    assert_eq!(tag_on_line(&chars_of(" _cell_length_a 1")), None);
    assert_eq!(tag_on_line(&chars_of("_cell_volume 1")), None);
    assert_eq!(tag_on_line(&chars_of("_CELL_LENGTH_A 1")), None);
    assert_eq!(tag_on_line(&chars_of("")), None);
    let (cell, _) = read_cif("_cell_length_a 1\n_cell_length_a 2\n _cell_length_a 3\n", &no_table()).unwrap();
    assert_eq!(cell.a, 2 * ONE);
}

#[test]
fn the_value_of_a_tag_is_its_second_token() {
    assert_eq!(extract_value_from_line(&chars_of("_cell_length_a 5.4307")), Some(5_430_700_000_000_000));
    assert_eq!(extract_value_from_line(&chars_of("_cell_length_a\t5.4307  7")), Some(5_430_700_000_000_000));
    assert_eq!(extract_value_from_line(&chars_of("x -1e-3 y")), Some(-ONE / 1000));
    assert_eq!(extract_value_from_line(&chars_of("_cell_length_a")), None);
    assert_eq!(extract_value_from_line(&chars_of("_cell_length_a five")), None);
    assert_eq!(extract_value_from_line(&chars_of("")), None);
}

#[test]
fn atom_rows_are_read_in_their_order() {
    let table = vec![ConfigEntry {
        label: "Na".to_string(),
        config: AtomConfig { radius: 1_860_000_000_000_000, color: "#AB5CF2".to_string() },
    }];
    let text = "Na Na1 1 0.5 0.25 0.125 1\n  Cl Cl1 1 0.5 0.5 0.5 1\nO\tO12x\t1\t-0.1\t1.1\t2e-1\n";
    let (_, atoms) = read_cif(text, &table).unwrap();
    let names: Vec<&str> = atoms.iter().map(|a| a.name.as_str()).collect();
    assert_eq!(names, vec!["Na", "Cl", "O"]);
    assert_eq!(
        positions(&atoms),
        vec![(ONE / 2, ONE / 4, ONE / 8), (ONE / 2, ONE / 2, ONE / 2), (-ONE / 10, 11 * ONE / 10, ONE / 5)]
    );
    assert_eq!((atoms[0].radius, atoms[0].color.as_str()), (1_860_000_000_000_000, "#AB5CF2"));
    assert_eq!((atoms[1].radius, atoms[1].color.as_str()), (350_000_000_000_000, "#505050"));
    assert_eq!((atoms[2].radius, atoms[2].color.as_str()), (350_000_000_000_000, "#505050"));
}

#[test]
fn lines_of_another_shape_are_passed_over() {
    let text = "data_NaCl\nloop_\n_atom_site_label\nNa1 Na 1 0 0 0\nNa 11 1 0 0 0\nNa\n\nNa Na 1 0 0 0\n# Na Na1 1 0 0 0\n1 Na1 0 0 0 0\nNa, Na1 1 0 0 0\n";
    let (_, atoms) = read_cif(text, &no_table()).unwrap();
    assert!(atoms.is_empty());
}

#[test]
fn an_atom_row_that_lacks_a_coordinate_is_an_error() {
    for (text, line) in [
        ("Na Na1\n", 1),
        ("Na Na1 1 0.5 0.5\n", 1),
        ("data_x\nNa Na1 1 0.5 0.5 0.5\nCl Cl1 1 0.5 0.5\n", 3),
        ("Na Na1 1 0.5 0.5 x\n", 1),
        ("Na Na1 1 0.5 ? 0.5\n", 1),
        ("Na Na1 1 0.5(1) 0.5 0.5\n", 1),
        ("Na Na1 1 1e4 0.5 0.5\n", 1),
    ] {
        assert_eq!(read_cif(text, &no_table()).err(), Some(ParseError::AtomRowParse { line }), "{:?}", text);
    }
    assert!(read_cif("Na Na1 x 0.5 0.5 0.5 y z\n", &no_table()).is_ok());
}

#[test]
fn the_first_error_in_the_text_is_reported() {
    let text = "Na Na1 1 0.5 0.5\n_cell_length_a\nCl Cl1\n";
    assert_eq!(read_cif(text, &no_table()).err(), Some(ParseError::AtomRowParse { line: 1 }));
    let text = "_cell_length_a\nNa Na1 1 0.5 0.5\n";
    assert_eq!(read_cif(text, &no_table()).err(), Some(ParseError::TagParse { line: 1 }));
}

#[test]
fn one_line_at_a_time() {
    let table = no_table();
    let mut cell = LatticeParameters { a: 1, b: 2, c: 3, alpha: 4, beta: 5, gamma: 6 };
    let mut atoms: Vec<Atom> = Vec::new();
    assert_eq!(read_line(&mut cell, &mut atoms, &chars_of("_cell_angle_gamma 120"), 7, false, &table), Ok(()));
    assert_eq!(cell, LatticeParameters { a: 1, b: 2, c: 3, alpha: 4, beta: 5, gamma: 120 * ONE });
    assert!(atoms.is_empty());
    assert_eq!(read_line(&mut cell, &mut atoms, &chars_of("Fe Fe1 1 0.1 0.2 0.3"), 8, true, &table), Ok(()));
    assert_eq!(positions(&atoms), vec![(ONE / 10, ONE / 5, 3 * ONE / 10)]);
    assert_eq!(read_line(&mut cell, &mut atoms, &chars_of("Fe Fe1 1 0.1 0.2 0.3"), 9, false, &table), Ok(()));
    assert_eq!(atoms.len(), 1);
    assert_eq!(
        read_line(&mut cell, &mut atoms, &chars_of("Fe Fe1 1 0.1 0.2"), 10, true, &table),
        Err(ParseError::AtomRowParse { line: 10 })
    );
    assert_eq!(
        read_line(&mut cell, &mut atoms, &chars_of("_cell_length_a"), 11, false, &table),
        Err(ParseError::TagParse { line: 11 })
    );
    assert_eq!(
        read_line(&mut cell, &mut atoms, &chars_of("_cell_length_a 7 1 0.1 0.2 0.3"), 12, true, &table),
        Ok(())
    );
    assert_eq!(cell.a, 7 * ONE);
    assert_eq!(atoms.len(), 2);
    assert_eq!(atoms[1].name, "_cell_length_a");
    assert!(parse_atom_line(&chars_of("Fe Fe1 1 0.1 0.2 0.3"), &table).is_some());
    assert!(parse_atom_line(&chars_of("Fe Fe1 1 0.1 0.2"), &table).is_none());
}

#[test]
fn triclinic_structure_to_the_last_digit() {
    let text = "_cell_length_a 4\r\n_cell_length_b 5\r\n_cell_length_c 6\r\n_cell_angle_alpha 80\r\n_cell_angle_beta 85\r\n_cell_angle_gamma 75\r\nloop_\r\nSi Si1 1.0 0.25 0.5 0.75\r\nO O1 1.0 0.0 0.5 0.5\r\n";
    let trig = LatticeTrig::new(173648177666930, 87155742747658, 258819045102521, 965925826289068).unwrap();
    let s = parse_cif(text, &no_table(), &trig).unwrap();
    assert_eq!(
        positions(&s.atoms),
        vec![
            (-869266385878512, 234630766837832, 1475756458699004),
            (-1999999999999999, 0, 0),
            (2000000000000001, 0, 0),
        ]
    );
    let names: Vec<&str> = s.atoms.iter().map(|a| a.name.as_str()).collect();
    assert_eq!(names, vec!["Si", "O", "O"]);
    assert_eq!(
        s.lattice_vertices,
        vec![
            (-2908514840999276, -2884076099398333, -2951512917398008),
            (1091485159000724, -2884076099398333, -2951512917398008),
            (2385580384513329, 1945553032047007, -2951512917398008),
            (-1614419615486671, 1945553032047007, -2951512917398008),
            (-2385580384513328, -1945553032047007, 2951512917398008),
            (1614419615486672, -1945553032047007, 2951512917398008),
            (2908514840999277, 2884076099398333, 2951512917398008),
            (-1091485159000723, 2884076099398333, 2951512917398008),
        ]
    );
    assert_eq!(get_lattice_center(&s.lattice_vertices), Some((0, 0, 0)));
}

#[test]
fn a_cell_without_geometry_gives_no_structure() {
    let flat = LatticeTrig::new(0, 0, ONE, 0).unwrap();
    assert_eq!(
        parse_cif(&cubic_text(), &no_table(), &flat).err(),
        Some(ParseError::Geometry(GeometryError::DegenerateAngle))
    );
    let odd = LatticeTrig::new(ONE, ONE, 0, ONE).unwrap();
    assert_eq!(
        parse_cif(&cubic_text(), &no_table(), &odd).err(),
        Some(ParseError::Geometry(GeometryError::InconsistentAngles))
    );
    let text = "_cell_length_a 9e3\n_cell_length_b 9e3\n_cell_length_c 1\n_cell_angle_gamma 0.000000057\nNa Na1 1 0 0 0\n";
    let slanted = LatticeTrig::new(0, 0, ONE, 1).unwrap();
    assert_eq!(
        parse_cif(text, &no_table(), &slanted).err(),
        Some(ParseError::Geometry(GeometryError::OutOfRange))
    );
    let text = "_cell_length_a 9e3\n_cell_length_b 1\n_cell_length_c 1\n_cell_angle_gamma 90\nNa Na1 1 2 0 0\n";
    assert_eq!(
        parse_cif(text, &no_table(), &right_angles()).err(),
        Some(ParseError::Geometry(GeometryError::OutOfRange))
    );
    let text = "_cell_length_a\nNa Na1 1 2 0 0\n";
    assert_eq!(parse_cif(text, &no_table(), &flat).err(), Some(ParseError::TagParse { line: 1 }));
}

#[test]
fn a_text_without_an_angle_gamma_gives_no_structure() {
    let degenerate = Some(ParseError::Geometry(GeometryError::DegenerateAngle));
    assert_eq!(parse_cif("Na Na1 1 0.5 0.5 0.5\n", &no_table(), &right_angles()).err(), degenerate);
    assert_eq!(parse_cif("", &no_table(), &right_angles()).err(), degenerate);
    let text = "_cell_length_a 5\n_cell_length_b 5\n_cell_length_c 5\n_cell_angle_alpha 90\n_cell_angle_beta 90\n";
    assert_eq!(parse_cif(text, &no_table(), &right_angles()).err(), degenerate);
    for gamma in ["0", "180", "180.000000000000000", "-180", "360", "0e5"] {
        let with_gamma = format!("{}_cell_angle_gamma {}\n", text, gamma);
        assert_eq!(parse_cif(&with_gamma, &no_table(), &right_angles()).err(), degenerate, "{}", gamma);
    }
    for gamma in ["90", "179.999999999999999", "0.000000000000001", "181"] {
        let with_gamma = format!("{}_cell_angle_gamma {}\n", text, gamma);
        assert!(parse_cif(&with_gamma, &no_table(), &right_angles()).is_ok(), "{}", gamma);
    }
}

#[test]
fn a_structure_of_the_cell_as_it_was_read() {
    let (cell, atoms) = read_cif(&cubic_text(), &no_table()).unwrap();
    let s = build_structure(&cell, &right_angles(), atoms).unwrap();
    assert_eq!(s.atoms.len(), 4);
    assert_eq!(s.lattice_vertices[6], (5 * ONE / 2, 5 * ONE / 2, 5 * ONE / 2));
    let flat = LatticeParameters { gamma: 180 * ONE, ..cell };
    assert_eq!(build_structure(&flat, &right_angles(), Vec::new()).err(), Some(GeometryError::DegenerateAngle));
    let unknown = LatticeParameters { gamma: 0, ..cell };
    assert_eq!(build_structure(&unknown, &right_angles(), Vec::new()).err(), Some(GeometryError::DegenerateAngle));
}

#[test]
fn a_long_text() {
    let mut text = String::from("_cell_length_a 10\n_cell_length_b 10\n_cell_length_c 10\n_cell_angle_gamma 90\n");
    for i in 0..3000 {
        // rows with x from 0.1000 to 0.3999
        text.push_str(&format!("C C{} 1.0 0.{:04} 0.5 0.5\n", i, i + 1000));
        text.push_str("# a remark between the rows\n");
    }
    let s = parse_cif(&text, &no_table(), &right_angles()).unwrap();
    assert_eq!(s.atoms.len(), 3000);
    assert_eq!(s.atoms[2999].x, 3_999 * (ONE / 1000) - 5 * ONE);
}
