use invi::codec::{load_inventory_from_string, save_inventory_to_string};
use invi::inventory::Inventory;

fn populated() -> Inventory {
    let mut inv = Inventory::new();
    inv.add_compartment("Garage");
    inv.add_compartment("North Wall");
    inv.add_tag("red");
    inv.add_tag("heavy");
    inv.add_container("Shelf1", 0, vec![0, 1]).unwrap();
    inv.add_container("Crate", 1, vec![1]).unwrap();
    inv.add_item("Drill", 0).unwrap();
    inv.add_item("Hammer", 1).unwrap();
    inv
}

#[test]
fn snapshot_round_trips_populated_store() {
    let inv = populated();
    let text = save_inventory_to_string(&inv);
    let back = load_inventory_from_string(text.as_str()).unwrap();
    assert_eq!(back, inv);
    assert_eq!(back.cnt_compartment, 2);
    assert_eq!(back.cnt_container, 2);
    assert_eq!(back.cnt_item, 2);
    assert_eq!(back.cnt_tag, 2);
}

#[test]
fn snapshot_round_trips_empty_store() {
    let inv = Inventory::new();
    let text = save_inventory_to_string(&inv);
    assert_eq!(
        text,
        "{\"compartments\":[],\"containers\":[],\"tags\":[],\"items\":[],\
         \"cnt_compartment\":0,\"cnt_container\":0,\"cnt_item\":0,\"cnt_tag\":0}"
    );
    let back = load_inventory_from_string(text.as_str()).unwrap();
    assert_eq!(back, inv);
}

#[test]
fn snapshot_round_trips_names_with_quotes_and_backslashes() {
    let mut inv = Inventory::new();
    inv.add_compartment("a \"quoted\" name");
    inv.add_tag("back\\slash");
    let text = save_inventory_to_string(&inv);
    let back = load_inventory_from_string(text.as_str()).unwrap();
    assert_eq!(back, inv);
}

#[test]
fn snapshot_is_plain_json() {
    let inv = populated();
    let text = save_inventory_to_string(&inv);
    let v: serde_json::Value = serde_json::from_str(&text).unwrap();
    assert_eq!(v["cnt_tag"].as_u64(), Some(2));
    assert_eq!(v["compartments"][1]["name"].as_str(), Some("North Wall"));
    assert_eq!(v["containers"][0]["tags"][1].as_u64(), Some(1));
    assert_eq!(v["items"][1]["id_cont"].as_u64(), Some(1));
}

#[test]
fn escaped_snapshot_is_plain_json_too() {
    let mut inv = Inventory::new();
    inv.add_compartment("a \"quoted\" name");
    inv.add_tag("back\\slash");
    let text = save_inventory_to_string(&inv);
    let v: serde_json::Value = serde_json::from_str(&text).unwrap();
    assert_eq!(v["compartments"][0]["name"].as_str(), Some("a \"quoted\" name"));
    assert_eq!(v["tags"][0]["name"].as_str(), Some("back\\slash"));
}

#[test]
fn load_rejects_garbage() {
    assert!(load_inventory_from_string("").is_none());
    assert!(load_inventory_from_string("{}").is_none());
    assert!(load_inventory_from_string("not json at all").is_none());
    let inv = Inventory::new();
    let mut text = save_inventory_to_string(&inv);
    text.push('x');
    assert!(load_inventory_from_string(text.as_str()).is_none());
}
