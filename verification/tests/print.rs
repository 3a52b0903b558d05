use lonetypist::print::{job, page_count, page_of, paginate, render, Scope, LEFT_MARGIN, TOP_MARGIN};
use lonetypist::status::LINES_PER_PAGE;
use lonetypist::wrap::{self, VisualLine};

fn wrapped(s: &str) -> (Vec<char>, Vec<VisualLine>) {
    let text: Vec<char> = s.chars().collect();
    let lines = wrap::wrap(&text, wrap::TEXT_COLS);
    (text, lines)
}

#[test]
fn a_short_document_is_one_page() {
    let (t, l) = wrapped("hello\nworld");
    assert_eq!(page_count(&l), 1);
    assert_eq!(paginate(&t, &l), vec![vec!["hello", "world"]]);
}

#[test]
fn an_empty_document_is_still_one_blank_page() {
    let (t, l) = wrapped("");
    assert_eq!(page_count(&l), 1);
    assert_eq!(paginate(&t, &l).len(), 1);
}

#[test]
fn pages_break_where_the_status_line_says_they_do() {
    let text = (0..(LINES_PER_PAGE + 1)).map(|i| format!("line {i}")).collect::<Vec<_>>().join("\n");
    let (t, l) = wrapped(&text);
    let pages = paginate(&t, &l);
    assert_eq!(pages.len(), 2);
    assert_eq!(pages[0].len(), LINES_PER_PAGE);
    assert_eq!(pages[1], vec![format!("line {LINES_PER_PAGE}")]);
    assert_eq!(page_of(LINES_PER_PAGE - 1), 0);
    assert_eq!(page_of(LINES_PER_PAGE), 1);
}

#[test]
fn rendering_adds_the_margins_and_a_form_feed_between_pages() {
    let pages = vec![vec!["one".to_string()], vec!["two".to_string()]];
    let out = render(&pages);
    let expected = format!(
        "{top}{pad}one\n\x0c{top}{pad}two\n",
        top = "\n".repeat(TOP_MARGIN),
        pad = " ".repeat(LEFT_MARGIN)
    );
    assert_eq!(out, expected);
    assert!(!out.ends_with('\x0c'), "no trailing form feed");
}

#[test]
fn blank_lines_carry_no_margin_spaces() {
    let out = render(&[vec![String::new(), "x".to_string()]]);
    let body: Vec<&str> = out.lines().skip(TOP_MARGIN).collect();
    assert_eq!(body, vec!["", "          x"]);
}

#[test]
fn a_single_page_job_takes_just_that_page() {
    let text = (0..(LINES_PER_PAGE + 1)).map(|i| format!("line {i}")).collect::<Vec<_>>().join("\n");
    let (t, l) = wrapped(&text);
    let second = job(&t, &l, Scope::Page(1)).expect("page 2 exists");
    assert!(second.contains(&format!("line {LINES_PER_PAGE}")));
    assert!(!second.contains("line 0\n"));
    assert!(!second.contains('\x0c'));
    assert_eq!(job(&t, &l, Scope::Page(5)), None, "no such page");
}
