use ruls::entry::{Entry, Meta};
use ruls::fields::{
    classify_suffix, format_group, format_long, format_long_line, format_mtime, format_name,
    format_nlink, format_owner, format_permissions, format_size_field, format_time_parts,
    is_executable, pad_left, pad_right, u64_to_dec,
};
use ruls::opts::Options;

fn meta(is_dir: bool, is_symlink: bool, size: u64, mode: Option<u32>) -> Meta {
    Meta {
        is_dir,
        is_symlink,
        size,
        mode,
        nlink: Some(1),
        uid: Some(1000),
        gid: Some(1000),
        mtime: Some(0),
    }
}

#[test]
fn decimal_rendering_is_exact() {
    assert_eq!(u64_to_dec(0), "0");
    assert_eq!(u64_to_dec(7), "7");
    assert_eq!(u64_to_dec(100), "100");
    assert_eq!(u64_to_dec(1234567890), "1234567890");
    assert_eq!(u64_to_dec(u64::MAX), "18446744073709551615");
}

#[test]
fn pad_left_right_aligns_to_width() {
    assert_eq!(pad_left("5", 2), " 5");
    assert_eq!(pad_left("12", 2), "12");
    assert_eq!(pad_left("123", 2), "123");
    assert_eq!(pad_left("100", 8), "     100");
    assert_eq!(pad_left("123456789", 8), "123456789");
}

#[test]
fn pad_right_left_aligns_to_width() {
    assert_eq!(pad_right("root", 8), "root    ");
    assert_eq!(pad_right("12345678", 8), "12345678");
    assert_eq!(pad_right("123456789", 8), "123456789");
}

#[test]
fn permissions_for_a_directory() {
    let m = meta(true, false, 4096, Some(0o755));
    assert_eq!(format_permissions(&m), "drwxr-xr-x");
}

#[test]
fn permissions_for_a_regular_file() {
    let m = meta(false, false, 10, Some(0o644));
    assert_eq!(format_permissions(&m), "-rw-r--r--");
}

#[test]
fn permissions_for_a_symlink_start_with_l() {
    let m = meta(false, true, 7, Some(0o777));
    assert_eq!(format_permissions(&m), "lrwxrwxrwx");
}

#[test]
fn permissions_without_mode_metadata() {
    assert_eq!(format_permissions(&meta(true, false, 0, None)), "d---------");
    assert_eq!(format_permissions(&meta(false, false, 0, None)), "----------");
    assert_eq!(format_permissions(&meta(false, true, 0, None)), "----------");
}

#[test]
fn executability_needs_a_bit_and_not_a_dir() {
    assert!(is_executable(&meta(false, false, 1, Some(0o755))));
    assert!(is_executable(&meta(false, false, 1, Some(0o100))));
    assert!(!is_executable(&meta(false, false, 1, Some(0o644))));
    assert!(!is_executable(&meta(true, false, 1, Some(0o755))));
    assert!(!is_executable(&meta(false, false, 1, None)));
}

#[test]
fn placeholders_where_metadata_is_missing() {
    let mut m = meta(false, false, 1, Some(0o644));
    m.nlink = None;
    m.uid = None;
    m.gid = None;
    assert_eq!(format_nlink(&m), "1");
    assert_eq!(format_owner(&m), "-");
    assert_eq!(format_group(&m), "-");
}

#[test]
fn numeric_ids_render_in_decimal() {
    let m = meta(false, false, 1, Some(0o644));
    assert_eq!(format_nlink(&m), "1");
    assert_eq!(format_owner(&m), "1000");
    assert_eq!(format_group(&m), "1000");
}

#[test]
fn size_field_is_exact_bytes_by_default() {
    let o = Options::plain();
    assert_eq!(format_size_field(&meta(false, false, 100, Some(0o644)), &o), "100");
    assert_eq!(format_size_field(&meta(false, false, 0, Some(0o644)), &o), "0");
}

#[test]
fn size_field_human_readable_uses_decimal_units() {
    let mut o = Options::plain();
    o.human_readable = true;
    assert_eq!(format_size_field(&meta(false, false, 100, Some(0o644)), &o), "100 B");
    assert_eq!(format_size_field(&meta(false, false, 1500, Some(0o644)), &o), "1.50 kB");
    assert_eq!(format_size_field(&meta(false, false, 1000000, Some(0o644)), &o), "1 MB");
}

#[test]
fn human_readable_is_monotonic_for_same_unit_values() {
    let mut o = Options::plain();
    o.human_readable = true;
    let pairs = [(100u64, 200u64), (1100, 2500), (2000, 3000), (1100000, 9900000)];
    for (small, large) in pairs {
        let s = format_size_field(&meta(false, false, small, Some(0o644)), &o);
        let l = format_size_field(&meta(false, false, large, Some(0o644)), &o);
        assert!(s < l, "{s} should order below {l}");
    }
}

#[test]
fn time_parts_render_exactly() {
    assert_eq!(format_time_parts(1, 1, 0, 0), "Jan  1 00:00");
    assert_eq!(format_time_parts(12, 31, 23, 59), "Dec 31 23:59");
    assert_eq!(format_time_parts(2, 10, 5, 7), "Feb 10 05:07");
    assert_eq!(format_time_parts(9, 9, 19, 40), "Sep  9 19:40");
}

#[test]
fn mtime_field_has_the_fixed_layout() {
    let months = [
        "Jan", "Feb", "Mar", "Apr", "May", "Jun", "Jul", "Aug", "Sep", "Oct", "Nov", "Dec",
    ];
    let mut m = meta(false, false, 1, Some(0o644));
    for mtime in [Some(0i64), Some(1_700_000_000), Some(-1), None] {
        m.mtime = mtime;
        let t = format_mtime(&m);
        let chars: Vec<char> = t.chars().collect();
        assert_eq!(chars.len(), 12, "{t}");
        assert!(months.contains(&&t[0..3]), "{t}");
        assert_eq!(chars[3], ' ');
        assert!(chars[4] == ' ' || chars[4].is_ascii_digit());
        assert!(chars[5].is_ascii_digit());
        assert_eq!(chars[6], ' ');
        assert!(chars[7].is_ascii_digit() && chars[8].is_ascii_digit());
        assert_eq!(chars[9], ':');
        assert!(chars[10].is_ascii_digit() && chars[11].is_ascii_digit());
    }
}

#[test]
fn classify_suffixes() {
    assert_eq!(classify_suffix(&meta(true, false, 1, Some(0o755))), "/");
    assert_eq!(classify_suffix(&meta(false, true, 1, Some(0o777))), "@");
    assert_eq!(classify_suffix(&meta(false, false, 1, Some(0o755))), "*");
    assert_eq!(classify_suffix(&meta(false, false, 1, Some(0o644))), "");
}

#[test]
fn names_are_colored_by_classification() {
    let o = Options::plain();
    let d = Entry { name: "docs".to_string(), meta: meta(true, false, 1, Some(0o755)), link_target: None };
    assert_eq!(format_name(&d, &o, true), "\u{1b}[34mdocs\u{1b}[39m");
    let l = Entry { name: "link".to_string(), meta: meta(false, true, 1, Some(0o777)), link_target: None };
    assert_eq!(format_name(&l, &o, true), "\u{1b}[36mlink\u{1b}[39m");
    let x = Entry { name: "run".to_string(), meta: meta(false, false, 1, Some(0o755)), link_target: None };
    assert_eq!(format_name(&x, &o, true), "\u{1b}[32mrun\u{1b}[39m");
    let p = Entry { name: "notes".to_string(), meta: meta(false, false, 1, Some(0o644)), link_target: None };
    assert_eq!(format_name(&p, &o, true), "notes");
}

#[test]
fn classify_suffix_comes_after_the_color_directive() {
    let mut o = Options::plain();
    o.classify = true;
    let d = Entry { name: "docs".to_string(), meta: meta(true, false, 1, Some(0o755)), link_target: None };
    assert_eq!(format_name(&d, &o, true), "\u{1b}[34mdocs\u{1b}[39m/");
    assert_eq!(format_name(&d, &o, false), "docs/");
}

#[test]
fn long_line_is_assembled_with_fixed_widths() {
    let o = Options::plain();
    let e = Entry {
        name: "a.txt".to_string(),
        meta: meta(false, false, 100, Some(0o644)),
        link_target: None,
    };
    let line = format_long_line(&e, &o, false, "Jan  1 00:00");
    assert_eq!(line, "-rw-r--r--  1 1000     1000          100 Jan  1 00:00 a.txt");
}

#[test]
fn long_line_pads_short_and_keeps_long_values() {
    let o = Options::plain();
    let mut wide = meta(false, false, 123456789, Some(0o644));
    wide.nlink = Some(123);
    wide.uid = Some(123456789);
    wide.gid = Some(1);
    let e = Entry { name: "big".to_string(), meta: wide, link_target: None };
    let line = format_long_line(&e, &o, false, "Jan  1 00:00");
    assert_eq!(line, "-rw-r--r-- 123 123456789 1        123456789 Jan  1 00:00 big");
}

#[test]
fn full_long_line_wraps_a_twelve_character_time() {
    let o = Options::plain();
    let e = Entry {
        name: "a.txt".to_string(),
        meta: meta(false, false, 100, Some(0o644)),
        link_target: None,
    };
    let line = format_long(&e, &o, false);
    assert!(line.starts_with("-rw-r--r--  1 1000     1000          100 "));
    assert!(line.ends_with(" a.txt"));
    assert_eq!(line.chars().count(), "-rw-r--r--  1 1000     1000          100 ".len() + 12 + " a.txt".len());
}

#[test]
fn broken_symlink_keeps_its_target_annotation() {
    let mut o = Options::plain();
    o.classify = true;
    let e = Entry {
        name: "link".to_string(),
        meta: meta(false, true, 7, Some(0o777)),
        link_target: Some("missing".to_string()),
    };
    let line = format_long_line(&e, &o, false, "Jan  1 00:00");
    assert!(line.starts_with("lrwxrwxrwx"));
    assert!(line.ends_with("link@ -> missing"));
}

#[test]
fn unreadable_symlink_target_is_omitted_silently() {
    let o = Options::plain();
    let e = Entry {
        name: "link".to_string(),
        meta: meta(false, true, 7, Some(0o777)),
        link_target: None,
    };
    let line = format_long_line(&e, &o, false, "Jan  1 00:00");
    assert!(line.starts_with("lrwxrwxrwx"));
    assert!(line.ends_with(" link"));
}
