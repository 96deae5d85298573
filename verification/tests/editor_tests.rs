use invi::gui::{
    get_input_str_and_clear, get_len_any, get_target_index, handle_input_key, insert_any,
    remote_any, set_txt_input, AppContext, Config, InputKey,
};
use invi::inventory::Inventory;

fn fresh() -> AppContext {
    AppContext::new(Inventory::new())
}

fn type_str(ctx: &mut AppContext, s: &str) {
    for c in s.chars() {
        handle_input_key(InputKey::Char(c), ctx);
    }
}

#[test]
fn backspace_twice_leaves_hel_at_caret_three() {
    let mut ctx = fresh();
    type_str(&mut ctx, "hello");
    handle_input_key(InputKey::Backspace, &mut ctx);
    handle_input_key(InputKey::Backspace, &mut ctx);
    assert_eq!(ctx.txt_input, vec!['h', 'e', 'l']);
    assert_eq!(ctx.cursor_pos, 3);
}

#[test]
fn characters_insert_at_the_caret() {
    let mut ctx = fresh();
    type_str(&mut ctx, "hllo");
    handle_input_key(InputKey::Home, &mut ctx);
    handle_input_key(InputKey::Right, &mut ctx);
    handle_input_key(InputKey::Char('e'), &mut ctx);
    assert_eq!(ctx.txt_input, vec!['h', 'e', 'l', 'l', 'o']);
    assert_eq!(ctx.cursor_pos, 2);
}

#[test]
fn caret_moves_are_clamped() {
    let mut ctx = fresh();
    type_str(&mut ctx, "ab");
    handle_input_key(InputKey::Left, &mut ctx);
    handle_input_key(InputKey::Left, &mut ctx);
    handle_input_key(InputKey::Left, &mut ctx);
    assert_eq!(ctx.cursor_pos, 0);
    handle_input_key(InputKey::Right, &mut ctx);
    handle_input_key(InputKey::Right, &mut ctx);
    handle_input_key(InputKey::Right, &mut ctx);
    assert_eq!(ctx.cursor_pos, 2);
    handle_input_key(InputKey::Home, &mut ctx);
    assert_eq!(ctx.cursor_pos, 0);
    handle_input_key(InputKey::End, &mut ctx);
    assert_eq!(ctx.cursor_pos, 2);
}

#[test]
fn backspace_at_line_start_does_nothing() {
    let mut ctx = fresh();
    type_str(&mut ctx, "ab");
    handle_input_key(InputKey::Home, &mut ctx);
    handle_input_key(InputKey::Backspace, &mut ctx);
    assert_eq!(ctx.txt_input, vec!['a', 'b']);
    assert_eq!(ctx.cursor_pos, 0);
}

#[test]
fn escape_wipes_the_line() {
    let mut ctx = fresh();
    type_str(&mut ctx, "half a line");
    handle_input_key(InputKey::Esc, &mut ctx);
    assert!(ctx.txt_input.is_empty());
    assert_eq!(ctx.cursor_pos, 0);
    assert_eq!(ctx.scroll_back, 0);
}

#[test]
fn up_and_down_cycle_the_seeded_history() {
    let mut ctx = fresh();
    handle_input_key(InputKey::Up, &mut ctx);
    assert_eq!(ctx.txt_input.iter().collect::<String>(), ":atag ");
    handle_input_key(InputKey::Up, &mut ctx);
    assert_eq!(ctx.txt_input.iter().collect::<String>(), ":aitem ");
    handle_input_key(InputKey::Down, &mut ctx);
    assert_eq!(ctx.txt_input.iter().collect::<String>(), ":atag ");
    assert_eq!(ctx.cursor_pos, 6);
}

#[test]
fn submit_returns_line_and_resets_editor() {
    let mut ctx = fresh();
    type_str(&mut ctx, ":atag red");
    let line = get_input_str_and_clear(&mut ctx);
    assert_eq!(line, ":atag red");
    assert!(ctx.txt_input.is_empty());
    assert_eq!(ctx.cursor_pos, 0);
    assert!(ctx.gui_dirty);
}

#[test]
fn set_txt_input_moves_caret_to_end() {
    let mut ctx = fresh();
    set_txt_input(&mut ctx, String::from("abc"));
    assert_eq!(ctx.txt_input, vec!['a', 'b', 'c']);
    assert_eq!(ctx.cursor_pos, 3);
}

#[test]
fn caret_works_in_code_points_not_bytes() {
    let mut ctx = fresh();
    type_str(&mut ctx, "f\u{00e9}e");
    assert_eq!(ctx.cursor_pos, 3);
    handle_input_key(InputKey::Backspace, &mut ctx);
    handle_input_key(InputKey::Backspace, &mut ctx);
    assert_eq!(ctx.txt_input, vec!['f']);
    assert_eq!(ctx.cursor_pos, 1);
}

#[test]
fn byte_offsets_follow_utf8_widths() {
    let line: Vec<char> = "a\u{00e9}\u{20ac}b".chars().collect();
    assert_eq!(get_target_index(&line, 0), 0);
    assert_eq!(get_target_index(&line, 1), 1);
    assert_eq!(get_target_index(&line, 2), 3);
    assert_eq!(get_target_index(&line, 3), 6);
    assert_eq!(get_target_index(&line, 9), 7);
    assert_eq!(get_len_any(&line), 4);
}

#[test]
fn low_level_edits_match_their_indices() {
    let mut line: Vec<char> = "abc".chars().collect();
    insert_any(&mut line, 1, 'x');
    assert_eq!(line, vec!['a', 'x', 'b', 'c']);
    remote_any(&mut line, 2);
    assert_eq!(line, vec!['a', 'x', 'c']);
}

#[test]
fn resize_marks_the_state_dirty() {
    let mut ctx = fresh();
    ctx.need_redraw();
    ctx.check_if_changed(80, 24);
    assert!(ctx.need_redraw());
    ctx.check_if_changed(80, 24);
    assert!(!ctx.need_redraw());
    ctx.check_if_changed(100, 24);
    assert!(ctx.need_redraw());
}

#[test]
fn default_tick_rate_is_100ms() {
    let c = Config::default();
    assert_eq!(c.tick_rate_ms, 100);
}

#[test]
fn other_keys_change_nothing() {
    let mut ctx = fresh();
    type_str(&mut ctx, "ab");
    let before_line = ctx.txt_input.clone();
    handle_input_key(InputKey::Other, &mut ctx);
    assert_eq!(ctx.txt_input, before_line);
    assert_eq!(ctx.cursor_pos, 2);
}
