use invi::inventory::Inventory;
use invi::overview::{compartment_line, container_line, item_line, tag_line, u32_to_hex};

#[test]
fn hex_renders_upper_case() {
    assert_eq!(u32_to_hex(0), "0");
    assert_eq!(u32_to_hex(255), "FF");
    assert_eq!(u32_to_hex(48879), "BEEF");
    assert_eq!(u32_to_hex(u32::MAX), "FFFFFFFF");
}

#[test]
fn overview_lines_match_the_panel_format() {
    let mut inv = Inventory::new();
    inv.add_compartment("Garage");
    inv.add_tag("red");
    inv.add_container("Shelf", 0, vec![0]).unwrap();
    inv.add_item("Drill", 0).unwrap();
    assert_eq!(compartment_line(&inv.compartments[0]), "0000 : Garage");
    assert_eq!(container_line(&inv.containers[0]), "0000 0000 : Shelf");
    assert_eq!(item_line(&inv.items[0]), "0000 0000 : Drill");
    assert_eq!(tag_line(&inv.tags[0]), "   0 : red");
}

#[test]
fn wide_ids_are_not_truncated() {
    let mut t = Inventory::new();
    t.add_tag("x");
    t.tags[0].id = 70000;
    assert_eq!(tag_line(&t.tags[0]), "11170 : x");
}
