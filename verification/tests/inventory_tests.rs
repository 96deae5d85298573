use invi::inventory::Inventory;

#[test]
fn add_container_with_absent_compartment_fails_unchanged() {
    let mut inv = Inventory::new();
    inv.add_compartment("Garage");
    let before = inv.clone();
    let r = inv.add_container("Shelf", 7, Vec::new());
    assert!(r.is_err());
    assert_eq!(inv.containers.len(), before.containers.len());
    assert_eq!(inv, before);
    assert_eq!(
        r.unwrap_err(),
        "The compartment with the id: 7 was not found!!!"
    );
}

#[test]
fn add_container_with_one_bad_tag_fails_unchanged() {
    let mut inv = Inventory::new();
    inv.add_compartment("Garage");
    let before = inv.clone();
    let r = inv.add_container("Shelf", 0, vec![3]);
    assert!(r.is_err());
    assert_eq!(inv, before);
    assert_eq!(inv.containers.len(), 0);
    assert_eq!(r.unwrap_err(), "Check the tag ids, 3 was not found!!!");
}

#[test]
fn add_container_with_five_tags_one_bad_attaches_nothing() {
    let mut inv = Inventory::new();
    inv.add_compartment("Garage");
    for n in ["red", "blue", "green", "metal"] {
        inv.add_tag(n);
    }
    let before = inv.clone();
    // tag id 9 does not exist; ids 0..=3 do
    let r = inv.add_container("Shelf", 0, vec![0, 1, 9, 2, 3]);
    assert!(r.is_err());
    assert_eq!(inv, before);
    assert_eq!(inv.containers.len(), 0);
    assert_eq!(r.unwrap_err(), "Check the tag ids, 9 was not found!!!");
}

#[test]
fn add_container_reports_first_missing_tag() {
    let mut inv = Inventory::new();
    inv.add_compartment("Garage");
    let r = inv.add_container("Shelf", 0, vec![5, 6]);
    assert_eq!(r.unwrap_err(), "Check the tag ids, 5 was not found!!!");
}

#[test]
fn add_tag_ids_increase_strictly() {
    let mut inv = Inventory::new();
    inv.add_tag("first");
    inv.add_tag("second");
    inv.add_tag("third");
    let ids: Vec<u32> = inv.tags.iter().map(|t| t.id).collect();
    assert_eq!(ids, vec![0, 1, 2]);
    for w in ids.windows(2) {
        assert!(w[0] < w[1]);
    }
}

#[test]
fn add_item_links_both_directions() {
    let mut inv = Inventory::new();
    inv.add_compartment("Garage");
    inv.add_container("Shelf", 0, Vec::new()).unwrap();
    inv.add_item("Drill", 0).unwrap();
    assert_eq!(inv.items.len(), 1);
    assert_eq!(inv.items[0].id_cont, 0);
    assert_eq!(inv.items[0].name, "Drill");
    assert_eq!(inv.containers[0].items, vec![0]);
}

#[test]
fn add_item_with_absent_container_fails() {
    let mut inv = Inventory::new();
    let r = inv.add_item("Drill", 0);
    assert_eq!(
        r.unwrap_err(),
        "The container with the id: 0 was not found!!!"
    );
    assert!(inv.items.is_empty());
}

#[test]
fn add_container_records_id_in_compartment() {
    let mut inv = Inventory::new();
    inv.add_compartment("Garage");
    inv.add_compartment("Cellar");
    inv.add_container("Shelf", 1, Vec::new()).unwrap();
    inv.add_container("Box", 0, Vec::new()).unwrap();
    assert_eq!(inv.containers[0].id, 0);
    assert_eq!(inv.containers[1].id, 1);
    assert_eq!(inv.compartments[1].containers, vec![0]);
    assert_eq!(inv.compartments[0].containers, vec![1]);
}

#[test]
fn check_tags_ids_reports_first_missing() {
    let mut inv = Inventory::new();
    inv.add_tag("a");
    assert!(inv.check_tags_ids(&vec![0]).is_ok());
    assert_eq!(inv.check_tags_ids(&vec![0, 4, 5]).unwrap_err(), "4");
}

#[test]
fn check_wf_accepts_built_store_and_rejects_broken_one() {
    let mut inv = Inventory::new();
    inv.add_compartment("Garage");
    inv.add_container("Shelf", 0, Vec::new()).unwrap();
    inv.add_item("Drill", 0).unwrap();
    assert!(inv.check_wf());
    let mut broken = inv.clone();
    broken.items[0].id_cont = 9;
    assert!(!broken.check_wf());
    let mut broken2 = inv.clone();
    broken2.cnt_item = 5;
    assert!(!broken2.check_wf());
}

#[test]
fn search_reports_first_compartment() {
    let mut inv = Inventory::new();
    inv.add_compartment("Garage");
    let r = invi::inventory::search("anything", &inv);
    assert_eq!(r.compartments.len(), 1);
    assert_eq!(r.compartments[0].name, "Garage");
    assert!(r.containers.is_empty());
    assert!(r.tags.is_empty());
    assert!(r.items.is_empty());
}
