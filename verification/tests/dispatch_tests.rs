use invi::dispatch::{dispatch_input, DispatchAction};
use invi::gui::{AppContext, InviLayout};
use invi::inventory::Inventory;

fn fresh() -> AppContext {
    AppContext::new(Inventory::new())
}

#[test]
fn creation_scenario_builds_one_item() {
    let mut ctx = fresh();
    assert_eq!(dispatch_input(":acomp Garage", &mut ctx), DispatchAction::Nothing);
    assert_eq!(dispatch_input(":acont Shelf1 0", &mut ctx), DispatchAction::Nothing);
    assert_eq!(dispatch_input(":aitem Drill 0", &mut ctx), DispatchAction::Nothing);
    assert_eq!(ctx.inventory.items.len(), 1);
    assert_eq!(ctx.inventory.items[0].id_cont, 0);
    assert!(ctx.invi_dirty);
}

#[test]
fn item_into_absent_container_fails_and_store_stays_empty() {
    let mut ctx = fresh();
    assert_eq!(dispatch_input(":aitem Drill 99", &mut ctx), DispatchAction::Nothing);
    assert!(ctx.inventory.items.is_empty());
    assert!(ctx
        .term_text()
        .contains("The container with the id: 99 was not found!!!"));
    assert!(!ctx.invi_dirty);
}

#[test]
fn quit_with_pending_changes_stays_open() {
    let mut ctx = fresh();
    dispatch_input(":atag red", &mut ctx);
    assert!(ctx.invi_dirty);
    assert_eq!(dispatch_input(":q", &mut ctx), DispatchAction::Nothing);
    assert!(ctx.term_text().contains("There are unwritten changes"));
    assert_eq!(dispatch_input(":q!", &mut ctx), DispatchAction::Quit);
}

#[test]
fn quit_without_pending_changes_quits() {
    let mut ctx = fresh();
    assert_eq!(dispatch_input(":q", &mut ctx), DispatchAction::Quit);
}

#[test]
fn write_and_write_quit_ask_for_a_save() {
    let mut ctx = fresh();
    assert_eq!(dispatch_input(":w", &mut ctx), DispatchAction::Save(false));
    assert_eq!(dispatch_input(":wq", &mut ctx), DispatchAction::Save(true));
}

#[test]
fn save_callbacks_drive_the_dirty_flag() {
    let mut ctx = fresh();
    dispatch_input(":atag red", &mut ctx);
    assert!(ctx.invi_dirty);
    invi::dispatch::save_failed(&mut ctx, "disk full");
    assert!(ctx.invi_dirty);
    assert!(ctx.term_text().contains("Error while saving file: disk full"));
    invi::dispatch::save_succeeded(&mut ctx);
    assert!(!ctx.invi_dirty);
}

#[test]
fn view_switch_verbs_change_the_layout() {
    let mut ctx = fresh();
    dispatch_input(":0", &mut ctx);
    assert_eq!(ctx.layout, InviLayout::Terminal);
    dispatch_input(":1", &mut ctx);
    assert_eq!(ctx.layout, InviLayout::Overview);
}

#[test]
fn clear_terminal_verbs_empty_the_pane() {
    let mut ctx = fresh();
    dispatch_input(":aitem Drill 99", &mut ctx);
    assert!(!ctx.term_text().is_empty());
    dispatch_input(":ct", &mut ctx);
    assert!(ctx.term_text().is_empty());
    dispatch_input(":aitem Drill 99", &mut ctx);
    dispatch_input("cls", &mut ctx);
    assert!(ctx.term_text().is_empty());
}

#[test]
fn help_writes_the_listing() {
    let mut ctx = fresh();
    dispatch_input("hlp", &mut ctx);
    assert!(ctx.term_text().contains("This is the Invi help:"));
    assert!(ctx.term_text().contains(":acont"));
}

#[test]
fn unknown_verb_is_echoed() {
    let mut ctx = fresh();
    dispatch_input("frobnicate a b", &mut ctx);
    assert_eq!(
        ctx.term_text(),
        "No use for \"frobnicate\" and args: [\"a\", \"b\"]\n"
    );
}

#[test]
fn arity_errors_are_reported() {
    let mut ctx = fresh();
    dispatch_input(":atag", &mut ctx);
    assert!(ctx.term_text().contains("Error invalid number of arguments"));
    let mut ctx2 = fresh();
    dispatch_input(":aitem OnlyName", &mut ctx2);
    assert!(ctx2.term_text().contains("Error invalid number of arguments"));
}

#[test]
fn bad_id_arguments_are_parse_errors() {
    let mut ctx = fresh();
    dispatch_input(":aitem Drill x7", &mut ctx);
    assert!(ctx.term_text().contains("invalid digit found in string"));
    let mut ctx2 = fresh();
    dispatch_input(":acont Shelf 0 99999999999", &mut ctx2);
    assert!(ctx2
        .term_text()
        .contains("number too large to fit in target type"));
}

#[test]
fn quoted_names_survive_dispatch() {
    let mut ctx = fresh();
    dispatch_input(":acomp \"North Wall\"", &mut ctx);
    assert_eq!(ctx.inventory.compartments[0].name, "North Wall");
}

#[test]
fn submitted_lines_land_in_history() {
    let mut ctx = fresh();
    let seeded = ctx.scroll_items.len();
    dispatch_input(":atag red", &mut ctx);
    dispatch_input("junk", &mut ctx);
    dispatch_input("", &mut ctx);
    assert_eq!(ctx.scroll_items.len(), seeded + 2);
    assert_eq!(ctx.scroll_items[seeded], ":atag red");
    assert_eq!(ctx.scroll_items[seeded + 1], "junk");
}
