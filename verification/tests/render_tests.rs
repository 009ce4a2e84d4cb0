use ruls::entry::{Entry, Meta};
use ruls::opts::Options;
use ruls::render::{list_directory, path_header, render_listing};

fn meta(is_dir: bool, size: u64) -> Meta {
    Meta {
        is_dir,
        is_symlink: false,
        size,
        mode: Some(if is_dir { 0o755 } else { 0o644 }),
        nlink: Some(1),
        uid: Some(0),
        gid: Some(0),
        mtime: Some(0),
    }
}

fn file(name: &str, size: u64) -> Entry {
    Entry { name: name.to_string(), meta: meta(false, size), link_target: None }
}

fn dir(name: &str) -> Entry {
    Entry { name: name.to_string(), meta: meta(true, 4), link_target: None }
}

#[test]
fn empty_listing_renders_nothing() {
    let o = Options::plain();
    assert_eq!(render_listing(&Vec::new(), &o, false), "");
    let mut one = Options::plain();
    one.one_per_line = true;
    assert_eq!(render_listing(&Vec::new(), &one, false), "");
    let mut long = Options::plain();
    long.long = true;
    assert_eq!(render_listing(&Vec::new(), &long, false), "");
}

#[test]
fn directory_of_only_dotfiles_lists_as_nothing() {
    let o = Options::plain();
    let out = list_directory(vec![file(".hidden", 1), file(".also", 2)], &o, false);
    assert_eq!(out, "");
}

#[test]
fn default_mode_is_one_row_with_two_space_gaps() {
    let o = Options::plain();
    let out = render_listing(&vec![file("a", 1), file("b", 2), file("c", 3)], &o, false);
    assert_eq!(out, "a  b  c\n");
}

#[test]
fn one_per_line_mode() {
    let mut o = Options::plain();
    o.one_per_line = true;
    let out = render_listing(&vec![file("a", 1), file("b", 2)], &o, false);
    assert_eq!(out, "a\nb\n");
}

#[test]
fn long_format_wins_over_one_per_line() {
    let mut o = Options::plain();
    o.long = true;
    o.one_per_line = true;
    let out = render_listing(&vec![file("a.txt", 100)], &o, false);
    let lines: Vec<&str> = out.lines().collect();
    assert_eq!(lines.len(), 1);
    assert!(lines[0].starts_with("-rw-r--r--  1 0        0             100 "));
    assert!(lines[0].ends_with(" a.txt"));
}

#[test]
fn long_format_lists_one_line_per_entry_in_order() {
    let mut o = Options::plain();
    o.long = true;
    let out = render_listing(&vec![file("a", 1), dir("d"), file("z", 2)], &o, false);
    let lines: Vec<&str> = out.lines().collect();
    assert_eq!(lines.len(), 3);
    assert!(lines[0].ends_with(" a"));
    assert!(lines[1].starts_with("drwxr-xr-x"));
    assert!(lines[1].ends_with(" d"));
    assert!(lines[2].ends_with(" z"));
    assert!(out.ends_with('\n'));
}

#[test]
fn listing_scenario_default_and_flags() {
    let entries = || vec![file("b.txt", 100), file("a.txt", 50), file(".hidden", 10), dir("sub")];

    let mut o = Options::plain();
    o.one_per_line = true;
    assert_eq!(list_directory(entries(), &o, false), "a.txt\nb.txt\nsub\n");

    let mut all = o;
    all.all = true;
    assert_eq!(list_directory(entries(), &all, false), ".hidden\na.txt\nb.txt\nsub\n");

    let mut by_size = o;
    by_size.sort_size = true;
    assert_eq!(list_directory(entries(), &by_size, false), "b.txt\na.txt\nsub\n");

    let mut dirs_first = by_size;
    dirs_first.dirs_first = true;
    assert_eq!(list_directory(entries(), &dirs_first, false), "sub\nb.txt\na.txt\n");
}

#[test]
fn reversed_listing_is_the_mirror() {
    let entries = || vec![file("b.txt", 100), file("a.txt", 50), dir("sub")];
    let mut o = Options::plain();
    o.one_per_line = true;
    let mut rev = o;
    rev.reverse = true;
    assert_eq!(list_directory(entries(), &o, false), "a.txt\nb.txt\nsub\n");
    assert_eq!(list_directory(entries(), &rev, false), "sub\nb.txt\na.txt\n");
}

#[test]
fn headers_for_multiple_path_arguments() {
    assert_eq!(path_header("dirA", 0, true), "dirA:\n");
    assert_eq!(path_header("dirB", 1, true), "\ndirB:\n");
}

#[test]
fn no_header_for_a_single_path_argument() {
    assert_eq!(path_header("dirA", 0, false), "");
    assert_eq!(path_header("dirB", 1, false), "\n");
}
