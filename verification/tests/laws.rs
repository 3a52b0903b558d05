use lonetypist::app::{App, BG, FG};
use lonetypist::cp437;
use lonetypist::editor::Editor;
use lonetypist::keymap::{Command, Motion};
use lonetypist::overlay::{Overlay, Prompt};
use lonetypist::paths::{resolve, Error};
use lonetypist::print::{job, page_count, paginate, render, Scope, FORM_FEED};
use lonetypist::status;
use lonetypist::text;
use lonetypist::wrap;

fn chars(s: &str) -> Vec<char> {
    s.chars().collect()
}

#[test]
fn undo_takes_back_an_edit_and_redo_puts_it_back() {
    let mut e = Editor::from_str("abc");
    e.set_cursor(3, false);
    e.insert(&chars("de"));
    assert_eq!(e.to_string(), "abcde");
    assert!(e.undo());
    assert_eq!(e.to_string(), "abc");
    assert!(e.redo());
    assert_eq!(e.to_string(), "abcde");
    assert!(e.undo());
    assert!(!e.undo(), "nothing left to undo");
}

#[test]
fn undo_takes_back_a_deletion() {
    let mut e = Editor::from_str("hello");
    e.set_cursor(5, false);
    e.backspace();
    e.set_cursor(0, false);
    e.delete_forward();
    assert_eq!(e.to_string(), "ell");
    assert!(e.undo());
    assert!(e.undo());
    assert_eq!(e.to_string(), "hello");
}

#[test]
fn the_document_is_clean_exactly_at_the_saved_text() {
    let mut e = Editor::from_str("draft");
    assert!(!e.is_dirty());
    e.set_cursor(5, false);
    e.insert(&chars("!"));
    assert!(e.is_dirty());
    e.undo();
    assert!(!e.is_dirty(), "back to what was saved");
    e.insert(&chars("?"));
    e.mark_saved();
    assert!(!e.is_dirty());
}

#[test]
fn the_wrap_keeps_every_line_within_the_text_column() {
    let long = "word ".repeat(60) + "\n" + &"x".repeat(150);
    let t = chars(&long);
    let lines = wrap::wrap(&t, wrap::TEXT_COLS);
    assert!(lines.len() > 4);
    for l in &lines {
        assert!(l.end - l.start <= wrap::TEXT_COLS);
        assert!(!t[l.start..l.end].contains(&'\n'));
    }
    assert_eq!(lines.last().unwrap().end, t.len());
}

#[test]
fn a_column_on_a_line_reads_back_as_that_line() {
    let t = chars("first line\nsecond\nthird one here");
    let lines = wrap::wrap(&t, wrap::TEXT_COLS);
    for line in 0..lines.len() {
        let off = wrap::offset_at(&lines, line, 4);
        assert_eq!(wrap::position_of(&lines, off).0, line);
    }
    assert_eq!(wrap::offset_at(&lines, 1, 99), 17, "past the end lands at the line's end");
}

#[test]
fn the_page_count_matches_the_pages() {
    for n in [1usize, 53, 54, 55, 108, 109] {
        let text = (0..n).map(|i| format!("l{i}")).collect::<Vec<_>>().join("\n");
        let t = chars(&text);
        let lines = wrap::wrap(&t, wrap::TEXT_COLS);
        assert_eq!(page_count(&lines), paginate(&t, &lines).len(), "{n} lines");
    }
}

#[test]
fn a_job_never_ends_in_a_form_feed() {
    let text = (0..120).map(|i| format!("l{i}")).collect::<Vec<_>>().join("\n");
    let t = chars(&text);
    let lines = wrap::wrap(&t, wrap::TEXT_COLS);
    let out = job(&t, &lines, Scope::Full).unwrap();
    assert!(!out.ends_with(FORM_FEED));
    assert_eq!(out.matches(FORM_FEED).count(), 2, "three pages, two breaks");
    assert_eq!(render(&[]), "");
}

#[test]
fn every_edit_leaves_the_caret_in_view() {
    let mut a = App::new();
    for _ in 0..40 {
        a.apply(Command::Newline, 0);
    }
    let (line, _) = a.cursor_position_for_test();
    assert_eq!(line, 40);
    assert!(a.viewport_top() <= line && line < a.viewport_top() + a.text_rows());
    a.apply(Command::Move { motion: Motion::DocStart, extend: false }, 0);
    assert_eq!(a.viewport_top(), 0);
    a.apply(Command::Move { motion: Motion::PageDown, extend: false }, 0);
    let (line, _) = a.cursor_position_for_test();
    assert_eq!(line, a.text_rows());
    assert!(a.viewport_top() <= line && line < a.viewport_top() + a.text_rows());
}

#[test]
fn an_open_box_keeps_the_document() {
    let mut a = App::new();
    a.load_text("text");
    a.confirm(Prompt::NewUnsaved, "Discard?");
    a.apply(Command::Insert("y".to_string()), 0);
    a.apply(Command::Move { motion: Motion::DocEnd, extend: false }, 0);
    a.apply(Command::DeleteForward, 0);
    assert_eq!(a.editor().to_string(), "text");
    assert_eq!(a.editor().cursor(), 0);
    assert_eq!(a.answer(true), Some((Prompt::NewUnsaved, true)));
}

#[test]
fn the_fence_only_refuses() {
    let base = "/Users/who/Documents";
    for v in ["a.txt", "book/../b.txt", "/Users/who/Documents/c.txt", "./d.txt"] {
        assert_eq!(resolve(base, None, v, true), resolve(base, None, v, false), "{v}");
    }
    for v in ["/etc/hosts", "../x.txt", "~/x.txt"] {
        assert_eq!(resolve(base, Some("/Users/who"), v, true), Err(Error::Outside), "{v}");
        assert!(resolve(base, Some("/Users/who"), v, false).is_ok(), "{v}");
    }
}

#[test]
fn only_whitespace_is_empty() {
    assert_eq!(resolve("/b", None, " \t ", true), Err(Error::Empty));
    assert_eq!(resolve("/b", None, "", false), Err(Error::Empty));
    assert_eq!(resolve("/b", None, " x ", false), Ok("/b/x".to_string()));
}

#[test]
fn a_path_is_cleaned_lexically() {
    assert_eq!(resolve("/b", None, "./x/./y/../z.txt", false), Ok("/b/x/z.txt".to_string()));
    assert_eq!(resolve("/", None, "../../a", false), Ok("/a".to_string()));
    assert_eq!(resolve("rel", None, "a//b", false), Ok("rel/a/b".to_string()));
}

#[test]
fn scrolling_keeps_the_caret_and_the_text() {
    let mut a = App::new();
    let text = (0..50).map(|i| format!("line {i}")).collect::<Vec<_>>().join("\n");
    a.load_text(&text);
    a.scroll(1000);
    assert_eq!(a.viewport_top(), 50 - a.text_rows());
    a.scroll(-3);
    assert_eq!(a.viewport_top(), 50 - a.text_rows() - 3);
    assert_eq!(a.editor().cursor(), 0);
    assert_eq!(a.editor().to_string(), text);
}

#[test]
fn a_selection_paints_inverted() {
    let mut a = App::new();
    a.load_text("abc");
    a.apply(Command::Move { motion: Motion::Right, extend: true }, 0);
    a.paint_at(0);
    let sel = a.screen().cell(wrap::TEXT_LEFT, wrap::TEXT_TOP);
    assert_eq!((sel.fg, sel.bg), (BG, FG));
    let rest = a.screen().cell(wrap::TEXT_LEFT + 1, wrap::TEXT_TOP);
    assert_eq!((rest.fg, rest.bg), (FG, BG));
    assert_eq!(cp437::decode(rest.glyph), 'b');
}

#[test]
fn the_status_line_names_the_file_in_dos_form() {
    assert_eq!(status::dos_path(Some("/Users/me/ch-1.txt"), false), "C:\\USERS\\ME\\CH-1.TXT");
    assert_eq!(status::dos_path(None, true), "(UNTITLED) *");
    let m = status::measure(55, 63);
    assert_eq!(status::right_field(&m), "Doc 1   Pg 2   Ln 1.17\"   Pos 7.3\"");
}

#[test]
fn a_confirmation_paints_its_question_in_a_box() {
    let mut a = App::new();
    a.apply(Command::Insert("x".to_string()), 0);
    a.apply(Command::Quit, 0);
    a.paint_at(0);
    let all: String = (0..a.screen().rows())
        .flat_map(|r| (0..80).map(move |c| (c, r)))
        .map(|(c, r)| cp437::decode(a.screen().cell(c, r).glyph))
        .collect();
    assert!(all.contains("Save changes to this document? (Y/N)"));
    assert!(matches!(a.overlay(), Overlay::Confirm { .. }));
}

#[test]
fn characters_become_strings_and_back() {
    assert_eq!(text::string_of(&chars("caf\u{e9}")), "caf\u{e9}");
    assert_eq!(text::chars_of("xyz"), chars("xyz"));
    let mut s = String::from("n=");
    text::push_decimal(&mut s, 4070);
    assert_eq!(s, "n=4070");
}

#[test]
fn the_field_scrolls_a_long_value_to_keep_the_cursor_in_view() {
    let mut a = App::new();
    let long = "x".repeat(50) + "END";
    a.open_field(lonetypist::input::Purpose::SaveAs, "Save Document", "Filename:", &long);
    a.paint_at(0);
    let (cx, cy) = a.screen().cursor().expect("the field's cursor");
    assert!(cx < 18 + 44);
    let row: String = (0..80).map(|c| cp437::decode(a.screen().cell(c, cy).glyph)).collect();
    assert!(row.contains("END"), "the end of the value is shown: {row}");
}

#[test]
fn left_and_right_along_the_bar_take_each_other_back() {
    let t = lonetypist::menu::menus();
    let mut s = lonetypist::menu::MenuState::new();
    s.left(&t);
    assert_eq!(s.menu(), 4, "wraps to the last menu");
    s.right(&t);
    assert_eq!(s, lonetypist::menu::MenuState::new());
}

#[test]
fn up_and_down_in_a_dropdown_take_each_other_back() {
    let t = lonetypist::menu::menus();
    let mut s = lonetypist::menu::MenuState::new();
    s.down(&t); // open File on its first item
    for _ in 0..4 {
        s.down(&t);
    }
    assert_eq!(s.item(), Some(4), "New");
    s.down(&t);
    assert_eq!(s.item(), Some(6), "the rule is skipped");
    s.up(&t);
    assert_eq!(s.item(), Some(4));
    s.up(&t);
    s.up(&t);
    s.up(&t);
    s.up(&t);
    assert_eq!(s.item(), Some(0));
    s.up(&t);
    assert_eq!(s.item(), Some(8), "wraps to Exit");
    s.down(&t);
    assert_eq!(s.item(), Some(0));
}

#[test]
fn an_offset_read_as_line_and_column_reads_back() {
    let long = "word ".repeat(30) + "\nshort\n\nend";
    let t = chars(&long);
    let lines = wrap::wrap(&t, wrap::TEXT_COLS);
    for off in 0..=t.len() {
        let (line, col) = wrap::position_of(&lines, off);
        assert_eq!(wrap::offset_at(&lines, line, col), off, "offset {off}");
    }
}

#[test]
fn typing_keeps_only_what_the_screen_can_draw() {
    let typed = cp437::accept_text("a\u{7}b\u{2014}c\u{2026}\u{4e2d}\u{e9}\u{2018}");
    assert_eq!(typed.iter().collect::<String>(), "ab-c...\u{e9}'");
    for c in typed {
        assert!(cp437::encode(c).is_some());
    }
}

#[test]
fn escape_closes_any_box_without_acting() {
    let mut a = App::new();
    a.load_text("text");
    a.open_print(None);
    a.apply(Command::Dismiss, 0);
    assert!(matches!(a.overlay(), Overlay::Closed));
    assert_eq!(a.take_print_request(), None);

    a.open_field(lonetypist::input::Purpose::Retrieve, "Retrieve", "File:", "a.txt");
    a.apply(Command::Dismiss, 0);
    assert!(matches!(a.overlay(), Overlay::Closed));
    assert_eq!(a.take_submitted(), None);

    a.apply(Command::ToggleHelp, 0);
    a.apply(Command::Dismiss, 0);
    assert!(matches!(a.overlay(), Overlay::Closed));
    assert_eq!(a.editor().to_string(), "text");
}

#[test]
fn the_cursor_holds_steady_after_any_key_even_in_a_box() {
    let mut a = App::new();
    a.apply(Command::MenuBar, 10_000);
    a.apply(Command::Move { motion: Motion::Down, extend: false }, 20_000);
    for d in [0u64, 1, 500, 999] {
        assert!(a.cursor_visible(20_000 + d));
    }
}

#[test]
fn a_line_prints_on_the_page_the_status_line_names() {
    let text = (0..130).map(|i| format!("l{i}")).collect::<Vec<_>>().join("\n");
    let t = chars(&text);
    let lines = wrap::wrap(&t, wrap::TEXT_COLS);
    let pages = paginate(&t, &lines);
    for line in [0usize, 53, 54, 107, 108, 129] {
        let page = lonetypist::print::page_of(line);
        assert_eq!(pages[page][line % 54], format!("l{line}"));
        let m = status::measure(line, 0);
        assert_eq!(m.page, page + 1);
    }
}

#[test]
fn a_resolved_path_resolves_to_itself() {
    for v in ["a/./b/../c.txt", "~/x//y/", "/tmp/../etc/./hosts", "../../up"] {
        let p = resolve("/Users/who/Documents", Some("/Users/who"), v, false).unwrap();
        assert_eq!(resolve("/", None, &p, false), Ok(p.clone()), "{v}");
        assert!(!p.contains("/./") && !p.contains("/../") && !p.contains("//"), "{p}");
    }
}

#[test]
fn a_message_box_swallows_every_key_but_escape() {
    let mut a = App::new();
    a.load_text("doc");
    a.apply(Command::ToggleHelp, 0);
    for cmd in [Command::Insert("q".to_string()), Command::Quit, Command::Save, Command::Newline] {
        a.apply(cmd, 0);
        assert!(matches!(a.overlay(), Overlay::Message { .. }));
    }
    assert!(!a.should_quit);
    assert_eq!(a.take_deferred(), None);
    assert_eq!(a.editor().to_string(), "doc");
    a.apply(Command::Dismiss, 0);
    assert!(matches!(a.overlay(), Overlay::Closed));
}

#[test]
fn a_switch_flipped_twice_puts_everything_back() {
    for cmd in [Command::ToggleEffects, Command::ToggleFullscreen, Command::ToggleStatusLine, Command::ToggleDenseMode] {
        let mut a = App::new();
        let before = (a.effects(), a.fullscreen(), a.status_line(), a.dense(), a.text_rows());
        a.apply(cmd.clone(), 0);
        let mid = (a.effects(), a.fullscreen(), a.status_line(), a.dense());
        let flipped = [mid.0 != before.0, mid.1 != before.1, mid.2 != before.2, mid.3 != before.3];
        assert_eq!(flipped.iter().filter(|f| **f).count(), 1, "{cmd:?}");
        a.apply(cmd, 0);
        assert_eq!((a.effects(), a.fullscreen(), a.status_line(), a.dense(), a.text_rows()), before);
    }
}

#[test]
fn the_menu_table_is_the_one_the_bar_teaches() {
    let t = lonetypist::menu::menus();
    let titles: Vec<&str> = t.iter().map(|m| m.title).collect();
    assert_eq!(titles, vec!["File", "Edit", "View", "Tools", "Help"]);
    let save = &t[0].items[2];
    assert_eq!((save.label, save.hotkey, save.command.clone()), ("Save", "Cmd-S", Some(Command::Save)));
    let exit = &t[0].items[8];
    assert_eq!((exit.label, exit.hotkey, exit.command.clone()), ("Exit", "F7", Some(Command::Quit)));
    assert!(t[1].items[2].command.is_none(), "a rule");
}
