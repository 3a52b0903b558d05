use lonetypist::paths::{resolve, Error};

const BASE: &str = "/Users/who/Documents";
const HOME: &str = "/Users/who";

fn ok(p: &str) -> Result<String, Error> {
    Ok(p.to_string())
}

#[test]
fn a_bare_name_lands_in_the_writing_folder() {
    assert_eq!(
        resolve(BASE, Some(HOME), "chapter-one.txt", false),
        ok("/Users/who/Documents/chapter-one.txt")
    );
}

#[test]
fn surrounding_space_is_ignored() {
    assert_eq!(
        resolve(BASE, Some(HOME), "  chapter-one.txt  ", false),
        ok("/Users/who/Documents/chapter-one.txt")
    );
}

#[test]
fn a_tilde_means_home() {
    assert_eq!(resolve(BASE, Some(HOME), "~/notes/todo.txt", false), ok("/Users/who/notes/todo.txt"));
}

#[test]
fn an_absolute_path_is_taken_as_given() {
    assert_eq!(resolve(BASE, Some(HOME), "/tmp/a.txt", false), ok("/tmp/a.txt"));
}

#[test]
fn a_subfolder_is_fine_when_fenced() {
    assert_eq!(resolve(BASE, Some(HOME), "book/ch1.txt", true), ok("/Users/who/Documents/book/ch1.txt"));
}

#[test]
fn fenced_refuses_a_path_that_leaves_the_folder() {
    assert_eq!(resolve(BASE, Some(HOME), "/etc/hosts", true), Err(Error::Outside));
    assert_eq!(resolve(BASE, Some(HOME), "~/Desktop/a.txt", true), Err(Error::Outside));
}

#[test]
fn fenced_refuses_climbing_out_with_dot_dot() {
    assert_eq!(resolve(BASE, Some(HOME), "../../etc/hosts", true), Err(Error::Outside));
}

#[test]
fn dot_dot_inside_the_folder_is_allowed() {
    assert_eq!(resolve(BASE, Some(HOME), "book/../ch1.txt", true), ok("/Users/who/Documents/ch1.txt"));
}

#[test]
fn unfenced_allows_anywhere() {
    assert_eq!(resolve(BASE, Some(HOME), "/etc/hosts", false), ok("/etc/hosts"));
}

#[test]
fn nothing_typed_is_an_error() {
    assert_eq!(resolve(BASE, Some(HOME), "   ", false), Err(Error::Empty));
}

#[test]
fn a_missing_home_falls_back_to_the_writing_folder() {
    assert_eq!(resolve(BASE, None, "~/a.txt", true), ok("/Users/who/Documents/a.txt"));
}
