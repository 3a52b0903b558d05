use lonetypist::app::{App, CURSOR_BLINK_MS, CURSOR_STEADY_MS, HELP_TEXT, STATUS_FG};
use lonetypist::cp437;
use lonetypist::input::Purpose;
use lonetypist::keymap::{Command, Motion};
use lonetypist::menu;
use lonetypist::overlay::{Overlay, Prompt};
use lonetypist::print::{Request, Scope};
use lonetypist::wrap;

const T: u64 = 0;

fn app_with(text: &str) -> App {
    let mut a = App::new();
    a.load_text(text);
    a
}

fn key(a: &mut App, cmd: Command) {
    a.apply(cmd, T);
}

fn mv(motion: Motion) -> Command {
    Command::Move { motion, extend: false }
}

fn numbered(n: usize, prefix: &str) -> String {
    (0..n).map(|i| format!("{prefix}{i}")).collect::<Vec<_>>().join("\n")
}

fn row_text(a: &App, row: usize) -> String {
    (0..80).map(|c| cp437::decode(a.screen().cell(c, row).glyph)).collect()
}

fn screen_text(a: &App) -> String {
    (0..a.screen().rows()).map(|r| row_text(a, r)).collect()
}

#[test]
fn a_new_app_starts_empty_at_the_top() {
    let a = App::new();
    assert_eq!(a.viewport_top(), 0);
    assert_eq!(a.editor().cursor(), 0);
}

#[test]
fn typing_inserts_and_marks_the_document_dirty() {
    let mut a = App::new();
    a.apply(Command::Insert("hi".to_string()), T);
    assert_eq!(a.editor().to_string(), "hi");
    assert!(a.editor().is_dirty());
}

#[test]
fn unrepresentable_characters_are_dropped_at_the_boundary() {
    let mut a = App::new();
    a.apply(Command::Insert("a\u{3042}b".to_string()), T);
    assert_eq!(a.editor().to_string(), "ab", "no glyph, no character");
}

#[test]
fn typographic_characters_are_substituted_on_the_way_in() {
    let mut a = App::new();
    a.apply(Command::Insert("\u{201C}x\u{201D}".to_string()), T);
    assert_eq!(a.editor().to_string(), "\"x\"");
}

#[test]
fn tab_inserts_spaces_to_the_next_stop() {
    let mut a = App::new();
    a.apply(Command::Tab, T);
    assert_eq!(a.editor().to_string(), "        ");
    a.apply(Command::Insert("x".to_string()), T);
    a.apply(Command::Tab, T);
    assert_eq!(a.editor().to_string().len(), 16, "next stop, not another eight");
}

#[test]
fn moving_down_a_line_keeps_the_column() {
    let mut a = app_with("abcdef\nghijkl");
    a.apply(mv(Motion::Right), T);
    a.apply(mv(Motion::Right), T);
    a.apply(mv(Motion::Down), T);
    assert_eq!(a.editor().cursor(), 9, "column 2 of the second line");
}

#[test]
fn moving_down_onto_a_shorter_line_clamps_to_its_end() {
    let mut a = app_with("abcdef\nxy");
    a.apply(mv(Motion::LineEnd), T);
    a.apply(mv(Motion::Down), T);
    assert_eq!(a.editor().cursor(), 9, "end of the short line");
}

#[test]
fn the_goal_column_survives_a_short_line() {
    let mut a = app_with("abcdef\nxy\nabcdef");
    a.apply(mv(Motion::LineEnd), T);
    a.apply(mv(Motion::Down), T);
    a.apply(mv(Motion::Down), T);
    assert_eq!(a.editor().cursor(), 16, "column 6 again on the third line");
}

#[test]
fn line_start_and_end_work_on_the_visual_line() {
    let mut a = app_with("ab\ncd");
    a.apply(mv(Motion::DocEnd), T);
    a.apply(mv(Motion::LineStart), T);
    assert_eq!(a.editor().cursor(), 3);
    a.apply(mv(Motion::LineEnd), T);
    assert_eq!(a.editor().cursor(), 5);
}

#[test]
fn shift_movement_builds_a_selection() {
    let mut a = app_with("abcdef");
    a.apply(Command::Move { motion: Motion::Right, extend: true }, T);
    a.apply(Command::Move { motion: Motion::Right, extend: true }, T);
    assert_eq!(a.editor().selection(), Some((0, 2)));
}

#[test]
fn select_all_covers_the_document() {
    let mut a = app_with("abc");
    a.apply(Command::SelectAll, T);
    assert_eq!(a.editor().selection(), Some((0, 3)));
}

#[test]
fn the_viewport_follows_the_cursor_down() {
    // 40 lines in a 23-row viewport.
    let text = numbered(40, "line ");
    let mut a = app_with(&text);
    assert_eq!(a.viewport_top(), 0);
    a.apply(mv(Motion::DocEnd), T);
    let rows = a.text_rows();
    assert_eq!(a.viewport_top(), 40 - rows, "the last line is the bottom one");
}

#[test]
fn the_viewport_follows_the_cursor_back_up() {
    let text = numbered(40, "line ");
    let mut a = app_with(&text);
    a.apply(mv(Motion::DocEnd), T);
    a.apply(mv(Motion::DocStart), T);
    assert_eq!(a.viewport_top(), 0);
}

#[test]
fn a_short_document_never_scrolls() {
    let mut a = app_with("one\ntwo");
    a.apply(mv(Motion::DocEnd), T);
    assert_eq!(a.viewport_top(), 0);
}

#[test]
fn painting_puts_text_at_the_left_margin() {
    let mut a = app_with("hello");
    a.paint();
    assert_eq!(a.screen().cell(wrap::TEXT_LEFT, wrap::TEXT_TOP).glyph, b'h');
    assert_eq!(a.screen().cell(wrap::TEXT_LEFT - 1, wrap::TEXT_TOP).glyph, 0x20, "margin is blank");
}

#[test]
fn painting_leaves_a_blank_row_above_the_text() {
    let mut a = app_with("hello");
    a.paint();
    for col in 0..a.screen().cols() {
        assert_eq!(a.screen().cell(col, 0).glyph, 0x20, "row 0 is margin");
    }
    assert_eq!(a.editor().to_string(), "hello", "the margin is not in the buffer");
}

#[test]
fn the_menu_bar_does_not_cover_the_cursor() {
    let mut a = App::new();
    key(&mut a, Command::MenuBar);
    a.paint_at(T);
    let (_, row) = a.screen().cursor().expect("cursor still placed");
    assert!(row > 0, "cursor sits below the bar on row 0");
}

#[test]
fn painting_places_the_cursor_at_the_caret() {
    let mut a = app_with("hi");
    a.apply(mv(Motion::Right), T);
    a.paint_at(T);
    assert_eq!(a.screen().cursor(), Some((wrap::TEXT_LEFT + 1, wrap::TEXT_TOP)));
}

#[test]
fn an_open_field_takes_the_cursor_from_the_document() {
    let mut a = app_with("It was a bright cold day in April");
    a.paint_at(0);
    let in_document = a.screen().cursor().expect("a cursor in the document");

    a.open_field(Purpose::CreateAtLaunch, "New Document", "Document to be created:", "");
    a.paint_at(0);
    let in_field = a.screen().cursor().expect("a cursor in the field");

    assert_ne!(in_field, in_document, "the caret follows the modal");
    assert!(in_field.1 > wrap::TEXT_TOP, "the caret is down in the box, not on a text row: {in_field:?}");
}

#[test]
fn dismissing_the_status_line_gives_its_row_to_the_text() {
    let mut a = app_with("hello");
    let rows_with = a.text_rows();
    let bottom = a.screen().rows() - 1;

    a.paint_at(0);
    assert_eq!(a.screen().cell(0, bottom).fg, STATUS_FG, "the status line is there to begin with");

    a.apply(Command::ToggleStatusLine, T);
    assert!(!a.status_line());
    assert_eq!(a.text_rows(), rows_with + 1, "the text gains the freed row");
    a.paint_at(T);
    assert_ne!(a.screen().cell(0, bottom).fg, STATUS_FG, "the bottom row is no longer the status line");

    a.apply(Command::ToggleStatusLine, T);
    assert!(a.status_line(), "and it comes back");
    assert_eq!(a.text_rows(), rows_with);
}

#[test]
fn the_cursor_hides_while_a_selection_is_active() {
    let mut a = app_with("hello");
    a.apply(Command::SelectAll, T);
    a.paint_at(T);
    assert_eq!(a.screen().cursor(), None, "the selection is the marker");
}

#[test]
fn the_cursor_holds_steady_while_typing() {
    let mut a = App::new();
    // Type across more than a blink period; it must never wink out.
    for step in 0..6u64 {
        a.apply(Command::Insert("a".to_string()), step * 200);
        assert!(a.cursor_visible(step * 200), "blinked mid-keystroke");
        assert!(a.cursor_visible(step * 200 + 150), "blinked between keystrokes");
    }
}

#[test]
fn the_cursor_stays_lit_for_a_moment_after_you_stop() {
    let mut a = App::new();
    a.apply(Command::Insert("x".to_string()), 1_000);
    assert!(a.cursor_visible(1_000 + CURSOR_STEADY_MS - 1), "still steady");
}

#[test]
fn the_cursor_blinks_once_you_pause() {
    let mut a = App::new();
    a.apply(Command::Insert("x".to_string()), 0);
    let base = CURSOR_STEADY_MS;
    assert!(a.cursor_visible(base), "on");
    assert!(!a.cursor_visible(base + CURSOR_BLINK_MS), "off");
    assert!(a.cursor_visible(base + CURSOR_BLINK_MS * 2), "on again");
}

#[test]
fn the_idle_blink_is_slow_enough_to_read_as_breathing() {
    // Measure the real thing rather than the constant: sample the
    // cursor once a millisecond and time one complete cycle.
    let mut a = App::new();
    a.apply(Command::Insert("x".to_string()), 0);

    let start = CURSOR_STEADY_MS + 1;
    let mut transitions = Vec::new();
    let mut previous = a.cursor_visible(start);
    for t in start..start + 5_000 {
        let now = a.cursor_visible(t);
        if now != previous {
            transitions.push(t);
            previous = now;
        }
        if transitions.len() == 3 {
            break;
        }
    }
    assert_eq!(transitions.len(), 3, "expected the cursor to blink at all");
    let cycle = transitions[2] - transitions[0];
    assert!(cycle >= 700, "a {cycle}ms cycle reads as flashing, not breathing");
    assert!(cycle <= 1_600, "a {cycle}ms cycle is so slow it looks broken");
}

#[test]
fn moving_the_caret_also_holds_the_cursor_steady() {
    let mut a = app_with("hello");
    a.apply(mv(Motion::Right), 5_000);
    assert!(a.cursor_visible(5_000 + 100), "arrowing about should not blink");
}

#[test]
fn clicking_holds_the_cursor_steady_too() {
    let mut a = app_with("hello");
    a.paint_at(9_000);
    a.click(wrap::TEXT_LEFT + 2, wrap::TEXT_TOP, false);
    assert!(a.cursor_visible(9_000 + 100));
}

#[test]
fn painting_writes_the_status_line_on_the_last_row() {
    let mut a = app_with("hi");
    a.paint();
    let row = a.screen().rows() - 1;
    let line = row_text(&a, row);
    assert!(line.contains("(UNTITLED)"), "got: {line}");
    assert!(line.contains("Ln 1\""), "got: {line}");
    assert!(line.contains("Pos 1\""), "got: {line}");
}

#[test]
fn the_status_line_reflects_the_cursor_position() {
    let mut a = app_with("abcde");
    a.apply(mv(Motion::LineEnd), T);
    a.paint();
    let row = a.screen().rows() - 1;
    let line = row_text(&a, row);
    assert!(line.contains("Pos 1.5\""), "five characters in: {line}");
}

#[test]
fn the_status_line_right_field_is_not_clipped() {
    let mut a = app_with("hi");
    a.paint();
    let row = a.screen().rows() - 1;
    let line = row_text(&a, row);
    assert!(line.trim_end().ends_with("Pos 1\""), "right-aligned: {line:?}");
}

#[test]
fn a_click_maps_a_cell_to_a_character_offset() {
    let a = app_with("hello\nworld");
    let top = wrap::TEXT_TOP;
    assert_eq!(a.offset_at_cell(wrap::TEXT_LEFT + 2, top), 2);
    assert_eq!(a.offset_at_cell(wrap::TEXT_LEFT + 3, top + 1), 9);
}

#[test]
fn a_click_in_the_top_margin_lands_on_the_first_line() {
    let a = app_with("hello\nworld");
    assert_eq!(a.offset_at_cell(wrap::TEXT_LEFT + 2, 0), 2);
}

#[test]
fn a_click_left_of_the_margin_lands_at_the_line_start() {
    let a = app_with("hello");
    assert_eq!(a.offset_at_cell(0, 0), 0);
}

#[test]
fn a_click_past_the_end_of_a_line_lands_at_its_end() {
    let a = app_with("hi\nthere");
    assert_eq!(a.offset_at_cell(79, wrap::TEXT_TOP), 2);
}

#[test]
fn a_click_below_the_last_line_lands_at_the_document_end() {
    let a = app_with("hi");
    assert_eq!(a.offset_at_cell(wrap::TEXT_LEFT, 20), 2);
}

#[test]
fn clicking_moves_the_caret_and_clears_the_selection() {
    let mut a = app_with("hello");
    a.apply(Command::SelectAll, T);
    a.click(wrap::TEXT_LEFT + 2, wrap::TEXT_TOP, false);
    assert_eq!(a.editor().cursor(), 2);
    assert_eq!(a.editor().selection(), None);
}

#[test]
fn dragging_extends_the_selection() {
    let mut a = app_with("hello");
    a.click(wrap::TEXT_LEFT + 1, wrap::TEXT_TOP, false);
    a.click(wrap::TEXT_LEFT + 4, wrap::TEXT_TOP, true);
    assert_eq!(a.editor().selection(), Some((1, 4)));
}

#[test]
fn the_offset_accounts_for_scrolling() {
    let text = numbered(40, "line ");
    let mut a = app_with(&text);
    a.apply(mv(Motion::DocEnd), T);
    let top = a.viewport_top();
    assert!(top > 0);
    let expected = wrap::offset_at(a.lines_for_test(), top, 0);
    assert_eq!(a.offset_at_cell(wrap::TEXT_LEFT, wrap::TEXT_TOP), expected);
}

#[test]
fn scrolling_does_not_move_the_caret() {
    let text = numbered(40, "line ");
    let mut a = app_with(&text);
    a.scroll(5);
    assert_eq!(a.viewport_top(), 5);
    assert_eq!(a.editor().cursor(), 0, "the caret stays put");
}

#[test]
fn scrolling_stops_at_the_document_edges() {
    let mut a = app_with("one\ntwo");
    a.scroll(-10);
    assert_eq!(a.viewport_top(), 0);
    a.scroll(100);
    assert_eq!(a.viewport_top(), 0, "a short document has nowhere to go");
}

#[test]
fn quitting_a_clean_document_needs_no_prompt() {
    let mut a = app_with("saved text");
    a.apply(Command::Quit, T);
    assert!(a.should_quit);
    assert!(matches!(a.overlay(), Overlay::Closed));
}

#[test]
fn quitting_a_dirty_document_asks_first() {
    let mut a = App::new();
    a.apply(Command::Insert("x".to_string()), T);
    a.apply(Command::Quit, T);
    assert!(!a.should_quit, "must not exit while a prompt is open");
    assert!(matches!(a.overlay(), Overlay::Confirm { .. }));
}

#[test]
fn answering_reports_the_prompt_and_the_answer() {
    let mut a = App::new();
    a.apply(Command::Insert("x".to_string()), T);
    a.apply(Command::Quit, T);
    assert_eq!(a.answer(false), Some((Prompt::QuitUnsaved, false)));
    assert!(matches!(a.overlay(), Overlay::Closed));
}

#[test]
fn answering_yes_reports_yes() {
    let mut a = App::new();
    a.apply(Command::Insert("x".to_string()), T);
    a.apply(Command::Quit, T);
    assert_eq!(a.answer(true), Some((Prompt::QuitUnsaved, true)));
}

#[test]
fn answering_with_no_prompt_open_reports_nothing() {
    let mut a = App::new();
    assert_eq!(a.answer(true), None);
}

#[test]
fn escape_dismisses_a_prompt_without_acting() {
    let mut a = App::new();
    a.apply(Command::Insert("x".to_string()), T);
    a.apply(Command::Quit, T);
    a.apply(Command::Dismiss, T);
    assert!(matches!(a.overlay(), Overlay::Closed));
    assert!(!a.should_quit);
}

#[test]
fn keystrokes_do_not_reach_the_document_while_an_overlay_is_open() {
    let mut a = App::new();
    a.apply(Command::Insert("x".to_string()), T);
    a.apply(Command::Quit, T);
    a.apply(Command::Insert("zzz".to_string()), T);
    a.apply(Command::Backspace, T);
    assert_eq!(a.editor().to_string(), "x", "the prompt swallowed them");
}

#[test]
fn an_error_overlay_renders_a_framed_box() {
    let mut a = App::new();
    a.set_overlay(Overlay::Message {
        title: "Error".to_string(),
        body: "File not found".to_string(),
        danger: true,
    });
    a.paint();
    let has_corner = (0..a.screen().rows()).any(|r| (0..80).any(|c| a.screen().cell(c, r).glyph == 0xC9));
    assert!(has_corner, "expected a double-line top-left corner");
}

#[test]
fn f1_opens_and_closes_the_help_overlay() {
    let mut a = App::new();
    a.apply(Command::ToggleHelp, T);
    assert!(matches!(a.overlay(), Overlay::Message { .. }));
    a.apply(Command::Dismiss, T);
    assert!(matches!(a.overlay(), Overlay::Closed));
}

#[test]
fn the_help_overlay_lists_the_keys() {
    let mut a = App::new();
    a.apply(Command::ToggleHelp, T);
    a.paint();
    let all = screen_text(&a);
    assert!(all.contains("Undo"), "expected the key list");
}

#[test]
fn the_word_count_appears_in_the_status_line_then_expires() {
    let mut a = app_with("one two three");
    a.apply(Command::ShowWordCount, T);
    a.paint_at(T);
    let row = a.screen().rows() - 1;
    let line = row_text(&a, row);
    assert!(line.contains("3 words"), "got: {line}");

    // Three seconds later the status line is back to normal.
    a.paint_at(T + 3_001);
    let line = row_text(&a, row);
    assert!(!line.contains("3 words"), "got: {line}");
    assert!(line.contains("Pos"), "got: {line}");
}

#[test]
fn dense_mode_doubles_the_available_rows() {
    let mut a = App::new();
    assert_eq!(a.text_rows(), 23);
    a.apply(Command::ToggleDenseMode, T);
    assert_eq!(a.text_rows(), 48);
    assert!(a.dense());
    a.apply(Command::ToggleDenseMode, T);
    assert_eq!(a.text_rows(), 23);
}

#[test]
fn switching_modes_keeps_the_cursor_on_screen() {
    let text = numbered(60, "line ");
    let mut a = app_with(&text);
    a.apply(mv(Motion::DocEnd), T);
    a.apply(Command::ToggleDenseMode, T);
    let (line, _) = a.cursor_position_for_test();
    assert!(
        line >= a.viewport_top() && line < a.viewport_top() + a.text_rows(),
        "cursor at line {line} is off screen"
    );
}

#[test]
fn the_effects_and_fullscreen_toggles_flip() {
    let mut a = App::new();
    assert!(a.effects());
    a.apply(Command::ToggleEffects, T);
    assert!(!a.effects());
    assert!(!a.fullscreen());
    a.apply(Command::ToggleFullscreen, T);
    assert!(a.fullscreen());
}

#[test]
fn the_menu_bar_opens_and_closes() {
    let mut a = App::new();
    key(&mut a, Command::MenuBar);
    assert!(matches!(a.overlay(), Overlay::Menu(_)));
    key(&mut a, Command::Dismiss);
    assert!(matches!(a.overlay(), Overlay::Closed), "one Esc leaves the bar");
}

#[test]
fn typing_does_not_reach_the_document_while_the_menu_is_open() {
    let mut a = app_with("x");
    key(&mut a, Command::MenuBar);
    key(&mut a, Command::Insert("zzz".to_string()));
    assert_eq!(a.editor().to_string(), "x", "the menu took the letters");
}

#[test]
fn choosing_a_menu_item_runs_its_command_and_closes_the_menu() {
    let mut a = App::new();
    key(&mut a, Command::Insert("hello".to_string()));
    key(&mut a, Command::MenuBar);
    key(&mut a, Command::Insert("e".to_string())); // Edit
    key(&mut a, Command::Insert("u".to_string())); // Undo
    assert_eq!(a.editor().to_string(), "", "Undo actually ran");
    assert!(matches!(a.overlay(), Overlay::Closed), "and the menu closed");
}

#[test]
fn arrowing_to_an_item_and_pressing_enter_runs_it() {
    let mut a = App::new();
    key(&mut a, Command::MenuBar);
    key(&mut a, Command::Insert("v".to_string())); // View
    key(&mut a, Command::Newline); // first item: CRT Effects
    assert!(!a.effects(), "the toggle fired");
    assert!(matches!(a.overlay(), Overlay::Closed));
}

#[test]
fn escape_backs_out_of_a_dropdown_before_leaving_the_bar() {
    let mut a = App::new();
    key(&mut a, Command::MenuBar);
    key(&mut a, mv(Motion::Down));
    key(&mut a, Command::Dismiss);
    assert!(matches!(a.overlay(), Overlay::Menu(_)), "still on the bar");
    key(&mut a, Command::Dismiss);
    assert!(matches!(a.overlay(), Overlay::Closed));
}

#[test]
fn a_modal_field_takes_typing_instead_of_the_document() {
    let mut a = app_with("doc");
    a.open_field(Purpose::SaveAs, "Save Document", "Filename:", "");
    key(&mut a, Command::Insert("notes.txt".to_string()));
    assert_eq!(a.editor().to_string(), "doc", "document untouched");
    let Overlay::Field(f) = a.overlay() else {
        panic!("field should still be open");
    };
    assert_eq!(f.value(), "notes.txt");
}

#[test]
fn a_field_seeds_from_the_current_name() {
    let mut a = App::new();
    a.open_field(Purpose::SaveAs, "Save Document", "Filename:", "ch1.txt");
    let Overlay::Field(f) = a.overlay() else {
        panic!("field");
    };
    assert_eq!(f.value(), "ch1.txt");
    assert_eq!(f.cursor(), 7, "cursor ready at the end");
}

#[test]
fn submitting_a_field_hands_the_value_over_once() {
    let mut a = App::new();
    a.open_field(Purpose::CreateAtLaunch, "New Document", "Name:", "");
    key(&mut a, Command::Insert("chapter-one.txt".to_string()));
    key(&mut a, Command::Newline);
    assert!(matches!(a.overlay(), Overlay::Closed), "the modal closed");
    assert_eq!(a.take_submitted(), Some((Purpose::CreateAtLaunch, "chapter-one.txt".to_string())));
    assert_eq!(a.take_submitted(), None, "taken only once");
}

#[test]
fn escaping_a_field_submits_nothing() {
    let mut a = App::new();
    a.open_field(Purpose::CreateAtLaunch, "New Document", "Name:", "");
    key(&mut a, Command::Insert("draft".to_string()));
    key(&mut a, Command::Dismiss);
    assert!(matches!(a.overlay(), Overlay::Closed));
    assert_eq!(a.take_submitted(), None, "Esc skips straight past");
}

#[test]
fn an_empty_name_is_the_same_as_backing_out() {
    let mut a = App::new();
    a.open_field(Purpose::CreateAtLaunch, "New Document", "Name:", "");
    key(&mut a, Command::Insert("   ".to_string()));
    key(&mut a, Command::Newline);
    assert_eq!(a.take_submitted(), None);
}

#[test]
fn editing_keys_work_inside_a_field() {
    let mut a = App::new();
    a.open_field(Purpose::SaveAs, "Save Document", "Filename:", "abc");
    key(&mut a, Command::Backspace);
    key(&mut a, mv(Motion::LineStart));
    key(&mut a, Command::Insert("X".to_string()));
    let Overlay::Field(f) = a.overlay() else {
        panic!("field");
    };
    assert_eq!(f.value(), "Xab");
}

#[test]
fn painting_a_menu_draws_the_bar_across_the_top() {
    let mut a = App::new();
    key(&mut a, Command::MenuBar);
    a.paint();
    let row = row_text(&a, 0);
    assert!(row.contains("File"), "got: {row}");
    assert!(row.contains("Edit"), "got: {row}");
    assert!(row.contains("Help"), "got: {row}");
}

#[test]
fn painting_a_dropdown_shows_labels_and_their_hotkeys() {
    let mut a = App::new();
    key(&mut a, Command::MenuBar);
    key(&mut a, mv(Motion::Down));
    a.paint();
    let all = screen_text(&a);
    assert!(all.contains("Save As..."), "label missing");
    assert!(all.contains("F10"), "hotkey missing");
    assert!(all.contains("Exit"), "label missing");
}

#[test]
fn painting_a_field_shows_its_title_label_and_value() {
    let mut a = App::new();
    a.open_field(Purpose::CreateAtLaunch, "New Document", "Document to be created:", "ch1.txt");
    a.paint();
    let all = screen_text(&a);
    assert!(all.contains("New Document"), "title missing");
    assert!(all.contains("Document to be created:"), "label missing");
    assert!(all.contains("ch1.txt"), "value missing");
    assert!(all.contains("Esc"), "the way out is shown");
}

#[test]
fn escape_opens_the_menu_when_the_document_has_focus() {
    let mut a = app_with("some words");
    key(&mut a, Command::Dismiss);
    assert!(matches!(a.overlay(), Overlay::Menu(_)), "Esc has nothing to dismiss, so it offers the menu");
}

#[test]
fn escape_still_closes_the_menu_rather_than_reopening_it() {
    let mut a = App::new();
    key(&mut a, Command::Dismiss); // opens
    key(&mut a, Command::Dismiss); // closes
    assert!(matches!(a.overlay(), Overlay::Closed), "not a loop");
}

#[test]
fn escape_inside_a_field_cancels_instead_of_opening_the_menu() {
    let mut a = App::new();
    a.open_field(Purpose::SaveAs, "Save Document", "Filename:", "x");
    key(&mut a, Command::Dismiss);
    assert!(matches!(a.overlay(), Overlay::Closed), "cancelled, not a menu");
    assert_eq!(a.take_submitted(), None);
}

#[test]
fn escape_inside_a_confirmation_dismisses_it() {
    let mut a = App::new();
    key(&mut a, Command::Insert("x".to_string()));
    key(&mut a, Command::Quit);
    key(&mut a, Command::Dismiss);
    assert!(matches!(a.overlay(), Overlay::Closed));
    assert!(!a.should_quit);
}

#[test]
fn escape_does_not_disturb_the_document() {
    let mut a = app_with("hello");
    key(&mut a, mv(Motion::DocEnd));
    key(&mut a, Command::Dismiss);
    key(&mut a, Command::Dismiss);
    assert_eq!(a.editor().to_string(), "hello");
    assert_eq!(a.editor().cursor(), 5, "and the caret stays put");
}

#[test]
fn the_help_overlay_names_both_ways_into_the_menu() {
    let mut a = App::new();
    key(&mut a, Command::ToggleHelp);
    a.paint();
    let all = screen_text(&a);
    assert!(all.contains("Menu bar"), "help should name the menu key");
}

#[test]
fn a_menu_item_the_shell_owns_is_handed_back_to_it() {
    let mut a = App::new();
    key(&mut a, Command::MenuBar);
    key(&mut a, Command::Insert("f".to_string())); // File
    key(&mut a, Command::Insert("s".to_string())); // Save
    assert!(matches!(a.overlay(), Overlay::Closed), "the menu closed");
    assert_eq!(a.take_deferred(), Some(Command::Save));
    assert_eq!(a.take_deferred(), None, "taken once");
}

#[test]
fn a_hotkey_the_app_can_perform_is_not_deferred() {
    let mut a = App::new();
    let before = a.effects();
    key(&mut a, Command::MenuBar);
    key(&mut a, Command::Insert("v".to_string())); // View
    key(&mut a, Command::Insert("c".to_string())); // CRT Effects
    assert_ne!(a.effects(), before, "the toggle fired");
    assert_eq!(a.take_deferred(), None);
}

#[test]
fn every_menu_item_either_acts_or_is_deferred() {
    let table = menu::menus();
    for m in table.iter() {
        for it in m.items.iter() {
            let Some(cmd) = it.command.clone() else {
                continue;
            };
            let mut a = app_with("some text");
            let before = (a.effects(), a.dense(), a.fullscreen(), a.status_line());
            key(&mut a, cmd.clone());
            let acted = a.take_deferred().is_some()
                || !matches!(a.overlay(), Overlay::Closed)
                || (a.effects(), a.dense(), a.fullscreen(), a.status_line()) != before
                || a.should_quit
                || matches!(cmd, Command::Undo | Command::Redo | Command::SelectAll)
                || matches!(cmd, Command::ShowWordCount);
            assert!(acted, "{} > {} did nothing", m.title, it.label);
        }
    }
}

#[test]
fn the_print_screen_offers_full_document_page_and_disk() {
    let mut a = app_with("hello");
    a.open_print(Some("LPT1".to_string()));
    a.paint();
    let all = screen_text(&a);
    assert!(all.contains("1 - Full Document"), "got: {all}");
    assert!(all.contains("2 - Page"));
    assert!(all.contains("3 - Document to Disk"));
    assert!(all.contains("LPT1"), "shows the printer");
    assert!(all.contains("Selection: 0"));
    let bottom = a.screen().rows() - 1;
    assert_eq!(a.screen().cursor(), Some((11, bottom)), "cursor on the 0");
}

#[test]
fn choosing_one_asks_for_the_full_document() {
    let mut a = app_with("hello");
    a.open_print(None);
    key(&mut a, Command::Insert("1".to_string()));
    assert!(matches!(a.overlay(), Overlay::Closed));
    assert_eq!(a.take_print_request(), Some(Request::Printer(Scope::Full)));
}

#[test]
fn choosing_two_asks_for_the_cursor_page() {
    let text = numbered(60, "l");
    let mut a = app_with(&text);
    a.apply(mv(Motion::DocEnd), T);
    a.open_print(None);
    key(&mut a, Command::Insert("2".to_string()));
    assert_eq!(a.take_print_request(), Some(Request::Printer(Scope::Page(1))));
}

#[test]
fn choosing_three_prints_to_disk() {
    let mut a = app_with("hello");
    a.open_print(None);
    key(&mut a, Command::Insert("3".to_string()));
    assert_eq!(a.take_print_request(), Some(Request::ToFile(Scope::Full)));
}

#[test]
fn zero_or_escape_leaves_the_print_screen_with_no_job() {
    for cmd in [Command::Insert("0".to_string()), Command::Dismiss] {
        let mut a = app_with("hello");
        a.open_print(None);
        key(&mut a, cmd);
        assert!(matches!(a.overlay(), Overlay::Closed));
        assert_eq!(a.take_print_request(), None);
    }
}

#[test]
fn a_stray_key_on_the_print_screen_is_ignored() {
    let mut a = app_with("hello");
    a.open_print(None);
    key(&mut a, Command::Insert("x".to_string()));
    assert!(matches!(a.overlay(), Overlay::Print { .. }), "still open");
    assert_eq!(a.editor().to_string(), "hello", "nothing typed through");
}

#[test]
fn an_empty_document_has_no_print_job() {
    let a = app_with("   \n\n");
    assert_eq!(a.print_job(Scope::Full), None);
    let a = app_with("hello");
    assert!(a.print_job(Scope::Full).unwrap().contains("hello"));
}

#[test]
fn a_notice_borrows_the_status_line_and_then_expires() {
    let mut a = app_with("hello");
    a.paint_at(1_000);
    a.notify("Sent 1 page to LPT1");
    a.paint_at(1_500);
    let row = a.screen().rows() - 1;
    let line = row_text(&a, row);
    assert!(line.contains("Sent 1 page to LPT1"), "got: {line}");
    a.paint_at(5_000);
    let line = row_text(&a, row);
    assert!(line.contains("Pg 1"), "back to the readout: {line}");
}

#[test]
fn the_help_overlay_names_print() {
    assert!(HELP_TEXT.contains("Shft-F7  Print"));
    assert!(HELP_TEXT.contains("Cmd-P  Print"));
}
