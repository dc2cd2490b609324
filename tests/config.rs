use todo_outline::celebration::{centered_column, firework_visible};
use todo_outline::config::{
    expand_tilde, get_active_list_path, join_path, list_file_name, list_stem, named_list_path, Config,
};

#[test]
fn default_config_values() {
    let c = Config::default();
    assert_eq!(c.todo.active_list, "default");
    assert_eq!(c.todo.list_extension, "adoc");
    assert_eq!(c.todo.path, "~/todos");
    assert_eq!(c.editor.command, "nvim");
}

#[test]
fn list_stem_cuts_at_first_dot() {
    assert_eq!(list_stem("work.adoc"), "work");
    assert_eq!(list_stem("a.b.c"), "a");
    assert_eq!(list_stem("plain"), "plain");
    assert_eq!(list_stem(".hidden"), "");
    assert_eq!(list_stem(""), "");
}

#[test]
fn file_names_and_paths() {
    assert_eq!(list_file_name("work", "adoc"), "work.adoc");
    assert_eq!(join_path("/home/u/todos", "work.adoc"), "/home/u/todos/work.adoc");
    assert_eq!(join_path("/home/u/todos/", "work.adoc"), "/home/u/todos/work.adoc");
    assert_eq!(join_path("", "work.adoc"), "work.adoc");
    assert_eq!(join_path("/base", "/abs"), "/abs");
}

#[test]
fn tilde_expansion() {
    assert_eq!(expand_tilde("~/todos", "/home/u"), "/home/u/todos");
    assert_eq!(expand_tilde("/srv/todos", "/home/u"), "/srv/todos");
    assert_eq!(expand_tilde("~user/x", "/home/u"), "~user/x");
}

#[test]
fn active_and_named_list_paths() {
    let c = Config::default();
    assert_eq!(get_active_list_path(&c, "/home/u/todos"), "/home/u/todos/default.adoc");
    let (path, file) = named_list_path(&c, "/home/u/todos", "shop.txt");
    assert_eq!(file, "shop.adoc");
    assert_eq!(path, "/home/u/todos/shop.adoc");
}

#[test]
fn fireworks_start_two_at_a_time() {
    assert!(firework_visible(0, 5, 0, 0));
    assert!(firework_visible(0, 5, 1, 0));
    assert!(!firework_visible(0, 5, 2, 0));
    assert!(firework_visible(0, 5, 2, 1));
    assert!(!firework_visible(1, 5, 0, 1));
    assert!(firework_visible(1, 5, 0, 2));
    assert!(!firework_visible(2, 5, 4, 3));
}

#[test]
fn centered_columns() {
    assert_eq!(centered_column(80, 28), 26);
    assert_eq!(centered_column(80, 79), 0);
    assert_eq!(centered_column(80, 100), 0);
}
