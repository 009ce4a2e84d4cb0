use ruls::entry::{Entry, Meta};
use ruls::opts::Options;
use ruls::order::sort_entries;

fn meta(is_dir: bool, size: u64, mtime: i64) -> Meta {
    Meta {
        is_dir,
        is_symlink: false,
        size,
        mode: Some(if is_dir { 0o755 } else { 0o644 }),
        nlink: Some(1),
        uid: Some(0),
        gid: Some(0),
        mtime: Some(mtime),
    }
}

fn file(name: &str, size: u64, mtime: i64) -> Entry {
    Entry { name: name.to_string(), meta: meta(false, size, mtime), link_target: None }
}

fn dir(name: &str, size: u64) -> Entry {
    Entry { name: name.to_string(), meta: meta(true, size, 0), link_target: None }
}

fn scenario() -> Vec<Entry> {
    vec![
        file("b.txt", 100, 30),
        file("a.txt", 50, 10),
        file(".hidden", 10, 20),
        dir("sub", 4),
    ]
}

fn names(v: &[Entry]) -> Vec<&str> {
    v.iter().map(|e| e.name.as_str()).collect()
}

#[test]
fn default_sorts_by_name_bytes() {
    let o = Options::plain();
    let sorted = sort_entries(scenario(), &o);
    assert_eq!(names(&sorted), vec![".hidden", "a.txt", "b.txt", "sub"]);
}

#[test]
fn dot_sorts_before_lowercase() {
    let o = Options::plain();
    let sorted = sort_entries(vec![file("a.txt", 1, 0), file(".hidden", 1, 0)], &o);
    assert_eq!(names(&sorted), vec![".hidden", "a.txt"]);
}

#[test]
fn name_order_is_case_sensitive_byte_order() {
    let o = Options::plain();
    let sorted = sort_entries(vec![file("a.txt", 1, 0), file("B.txt", 1, 0)], &o);
    assert_eq!(names(&sorted), vec!["B.txt", "a.txt"]);
}

#[test]
fn size_sorts_descending() {
    let mut o = Options::plain();
    o.sort_size = true;
    let sorted = sort_entries(scenario(), &o);
    assert_eq!(names(&sorted), vec!["b.txt", "a.txt", ".hidden", "sub"]);
}

#[test]
fn time_sorts_descending() {
    let mut o = Options::plain();
    o.sort_time = true;
    let sorted = sort_entries(scenario(), &o);
    assert_eq!(names(&sorted), vec!["b.txt", ".hidden", "a.txt", "sub"]);
}

#[test]
fn size_wins_over_time_when_both_set() {
    let mut o = Options::plain();
    o.sort_size = true;
    o.sort_time = true;
    let sorted = sort_entries(scenario(), &o);
    assert_eq!(names(&sorted), vec!["b.txt", "a.txt", ".hidden", "sub"]);
}

#[test]
fn equal_sizes_fall_back_to_name() {
    let mut o = Options::plain();
    o.sort_size = true;
    let sorted = sort_entries(
        vec![file("z", 5, 0), file("a", 5, 0), file("m", 9, 0)],
        &o,
    );
    assert_eq!(names(&sorted), vec!["m", "a", "z"]);
}

#[test]
fn missing_mtime_sorts_as_epoch_start() {
    let mut o = Options::plain();
    o.sort_time = true;
    let mut unknown = file("unknown", 1, 0);
    unknown.meta.mtime = None;
    let sorted = sort_entries(vec![unknown, file("recent", 1, 99)], &o);
    assert_eq!(names(&sorted), vec!["recent", "unknown"]);
}

#[test]
fn dirs_first_with_size_key() {
    let mut o = Options::plain();
    o.dirs_first = true;
    o.sort_size = true;
    let sorted = sort_entries(scenario(), &o);
    assert_eq!(names(&sorted), vec!["sub", "b.txt", "a.txt", ".hidden"]);
}

#[test]
fn dirs_first_never_puts_a_file_before_a_dir() {
    let mut o = Options::plain();
    o.dirs_first = true;
    o.sort_time = true;
    let sorted = sort_entries(
        vec![file("x", 1, 50), dir("d2", 1), file("y", 1, 5), dir("d1", 1)],
        &o,
    );
    let first_file = sorted.iter().position(|e| !e.meta.is_dir).unwrap();
    for e in sorted.iter().skip(first_file) {
        assert!(!e.meta.is_dir);
    }
}

#[test]
fn repeated_sorts_give_the_same_sequence() {
    let mut o = Options::plain();
    o.sort_size = true;
    o.dirs_first = true;
    let once = sort_entries(scenario(), &o);
    let twice = sort_entries(sort_entries(scenario(), &o), &o);
    assert_eq!(names(&once), names(&twice));
}

#[test]
fn reverse_is_the_exact_mirror() {
    let o = Options::plain();
    let mut o_rev = Options::plain();
    o_rev.reverse = true;
    let plain = sort_entries(scenario(), &o);
    let rev = sort_entries(scenario(), &o_rev);
    let mut mirrored: Vec<&str> = names(&plain);
    mirrored.reverse();
    assert_eq!(names(&rev), mirrored);
}

#[test]
fn reverse_mirrors_size_order_too() {
    let mut o = Options::plain();
    o.sort_size = true;
    let mut o_rev = Options::plain();
    o_rev.sort_size = true;
    o_rev.reverse = true;
    let plain = sort_entries(scenario(), &o);
    let rev = sort_entries(scenario(), &o_rev);
    let mut mirrored: Vec<&str> = names(&plain);
    mirrored.reverse();
    assert_eq!(names(&rev), mirrored);
}
