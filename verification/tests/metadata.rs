use crystal_cell::atom_config::{copy_atom, resolve, Atom, AtomConfig, ConfigEntry, DEFAULT_RADIUS};

fn entry(label: &str, radius: i64, color: &str) -> ConfigEntry {
    ConfigEntry { label: label.to_string(), config: AtomConfig { radius, color: color.to_string() } }
}

#[test]
fn missing_label_takes_the_default() {
    let c = resolve(&Vec::new(), &"Xx".to_string());
    assert_eq!(c.radius, 350_000_000_000_000);
    assert_eq!(c.color, "#505050");
    assert_eq!(DEFAULT_RADIUS, 350_000_000_000_000);
    let table = vec![entry("Na", 1_860_000_000_000_000, "#AB5CF2"), entry("Cl", 1_000_000_000_000_000, "#1FF01F")];
    let c = resolve(&table, &"na".to_string());
    assert_eq!((c.radius, c.color.as_str()), (350_000_000_000_000, "#505050"));
    let c = resolve(&table, &"".to_string());
    assert_eq!((c.radius, c.color.as_str()), (350_000_000_000_000, "#505050"));
}

#[test]
fn known_label_takes_its_entry() {
    let table = vec![entry("Na", 1_860_000_000_000_000, "#AB5CF2"), entry("Cl", 1_000_000_000_000_000, "#1FF01F")];
    let c = resolve(&table, &"Na".to_string());
    assert_eq!((c.radius, c.color.as_str()), (1_860_000_000_000_000, "#AB5CF2"));
    let c = resolve(&table, &"Cl".to_string());
    assert_eq!((c.radius, c.color.as_str()), (1_000_000_000_000_000, "#1FF01F"));
}

#[test]
fn the_first_of_two_entries_counts() {
    let table = vec![entry("Na", 1, "#111111"), entry("Na", 2, "#222222")];
    let c = resolve(&table, &"Na".to_string());
    assert_eq!((c.radius, c.color.as_str()), (1, "#111111"));
}

#[test]
fn a_copy_of_an_atom_is_the_atom() {
    let a = Atom { name: "Fe".to_string(), x: 1, y: -2, z: 3, radius: 4, color: "#E06633".to_string() };
    let b = copy_atom(&a);
    assert_eq!((b.name.as_str(), b.x, b.y, b.z, b.radius, b.color.as_str()), ("Fe", 1, -2, 3, 4, "#E06633"));
}
