//! Per-entry display fields: the permission string, link count, owner and
//! group ids, the size field, the modification time, and the name with its
//! optional color directive and classification suffix.

use vstd::prelude::*;
use vstd::string::{StrSliceExecFns, StringExecFns};
use owo_colors::OwoColorize;
use crate::entry::{Entry, Meta};
use crate::opts::Options;

verus! {

// ---------------------------------------------------------------------------
// decimal rendering of unsigned counters
// ---------------------------------------------------------------------------
pub open spec fn digit_char(d: nat) -> char {
    if d == 0 {
        '0'
    } else if d == 1 {
        '1'
    } else if d == 2 {
        '2'
    } else if d == 3 {
        '3'
    } else if d == 4 {
        '4'
    } else if d == 5 {
        '5'
    } else if d == 6 {
        '6'
    } else if d == 7 {
        '7'
    } else if d == 8 {
        '8'
    } else {
        '9'
    }
}

/// The decimal digits of `n`, most significant first, with no leading zeros
/// (a single `0` for zero).
pub open spec fn dec_digits(n: nat) -> Seq<char>
    decreases n,
{
    if n < 10 {
        seq![digit_char(n)]
    } else {
        dec_digits(n / 10).push(digit_char(n % 10))
    }
}

fn digit_str(d: u64) -> (r: &'static str)
    ensures
        r@ == seq![digit_char(d as nat)],
{
    if d == 0 {
        proof {
            reveal_strlit("0");
            assert("0"@ =~= seq![digit_char(0)]);
        }
        "0"
    } else if d == 1 {
        proof {
            reveal_strlit("1");
            assert("1"@ =~= seq![digit_char(1)]);
        }
        "1"
    } else if d == 2 {
        proof {
            reveal_strlit("2");
            assert("2"@ =~= seq![digit_char(2)]);
        }
        "2"
    } else if d == 3 {
        proof {
            reveal_strlit("3");
            assert("3"@ =~= seq![digit_char(3)]);
        }
        "3"
    } else if d == 4 {
        proof {
            reveal_strlit("4");
            assert("4"@ =~= seq![digit_char(4)]);
        }
        "4"
    } else if d == 5 {
        proof {
            reveal_strlit("5");
            assert("5"@ =~= seq![digit_char(5)]);
        }
        "5"
    } else if d == 6 {
        proof {
            reveal_strlit("6");
            assert("6"@ =~= seq![digit_char(6)]);
        }
        "6"
    } else if d == 7 {
        proof {
            reveal_strlit("7");
            assert("7"@ =~= seq![digit_char(7)]);
        }
        "7"
    } else if d == 8 {
        proof {
            reveal_strlit("8");
            assert("8"@ =~= seq![digit_char(8)]);
        }
        "8"
    } else {
        proof {
            reveal_strlit("9");
            assert("9"@ =~= seq![digit_char(9)]);
        }
        "9"
    }
}

/// Renders an unsigned counter as its decimal digits.
pub fn u64_to_dec(n: u64) -> (r: String)
    ensures
        r@ == dec_digits(n as nat),
    decreases n,
{
    if n < 10 {
        String::from_str(digit_str(n))
    } else {
        let mut s = u64_to_dec(n / 10);
        s.append(digit_str(n % 10));
        proof {
            assert(dec_digits(n as nat) =~= dec_digits((n as nat) / 10).push(
                digit_char((n as nat) % 10),
            ));
            assert(s@ =~= dec_digits(n as nat));
        }
        s
    }
}

// ---------------------------------------------------------------------------
// fixed-width padding
// ---------------------------------------------------------------------------
pub open spec fn spaces(n: nat) -> Seq<char>
    decreases n,
{
    if n == 0 {
        Seq::empty()
    } else {
        spaces((n - 1) as nat).push(' ')
    }
}

pub proof fn lemma_spaces(n: nat)
    ensures
        spaces(n).len() == n,
        forall|i: int| 0 <= i < n ==> spaces(n)[i] == ' ',
    decreases n,
{
    if n > 0 {
        lemma_spaces((n - 1) as nat);
    }
}

/// `s` right-aligned in a field at least `w` wide.
pub open spec fn pad_left_spec(s: Seq<char>, w: nat) -> Seq<char> {
    if s.len() >= w {
        s
    } else {
        spaces((w - s.len()) as nat) + s
    }
}

/// `s` left-aligned in a field at least `w` wide.
pub open spec fn pad_right_spec(s: Seq<char>, w: nat) -> Seq<char> {
    if s.len() >= w {
        s
    } else {
        s + spaces((w - s.len()) as nat)
    }
}

/// Law: a right-aligned field is at least `w` wide, never truncates its
/// content, and carries that content at its right edge with blanks before it.
pub proof fn lemma_pad_left_widths(s: Seq<char>, w: nat)
    ensures
        pad_left_spec(s, w).len() >= w,
        pad_left_spec(s, w).len() >= s.len(),
        pad_left_spec(s, w).subrange(
            pad_left_spec(s, w).len() - s.len(),
            pad_left_spec(s, w).len() as int,
        ) == s,
        forall|i: int| 0 <= i < pad_left_spec(s, w).len() - s.len() ==> pad_left_spec(s, w)[i] == ' ',
{
    lemma_spaces((w - s.len()) as nat);
    if s.len() >= w {
        assert(pad_left_spec(s, w).subrange(0, s.len() as int) =~= s);
    } else {
        assert(pad_left_spec(s, w).subrange(
            pad_left_spec(s, w).len() - s.len(),
            pad_left_spec(s, w).len() as int,
        ) =~= s);
    }
}

/// Law: a left-aligned field is at least `w` wide, never truncates its
/// content, and carries that content at its left edge with blanks after it.
pub proof fn lemma_pad_right_widths(s: Seq<char>, w: nat)
    ensures
        pad_right_spec(s, w).len() >= w,
        pad_right_spec(s, w).len() >= s.len(),
        pad_right_spec(s, w).subrange(0, s.len() as int) == s,
        forall|i: int|
            s.len() <= i < pad_right_spec(s, w).len() ==> pad_right_spec(s, w)[i] == ' ',
{
    lemma_spaces((w - s.len()) as nat);
    assert(pad_right_spec(s, w).subrange(0, s.len() as int) =~= s);
}

fn space_string(n: usize) -> (r: String)
    ensures
        r@ == spaces(n as nat),
{
    let mut s = String::new();
    let mut i: usize = 0;
    while i < n
        invariant
            i <= n,
            s@ == spaces(i as nat),
        decreases n - i,
    {
        s.append(" ");
        proof {
            reveal_strlit(" ");
            assert(spaces((i + 1) as nat) =~= spaces(i as nat) + " "@);
        }
        i = i + 1;
    }
    s
}

/// Right-aligns `s` to at least `w` characters.
pub fn pad_left(s: &str, w: usize) -> (r: String)
    ensures
        r@ == pad_left_spec(s@, w as nat),
{
    let len = s.unicode_len();
    if len >= w {
        String::from_str(s)
    } else {
        let mut p = space_string(w - len);
        p.append(s);
        p
    }
}

/// Left-aligns `s` to at least `w` characters.
pub fn pad_right(s: &str, w: usize) -> (r: String)
    ensures
        r@ == pad_right_spec(s@, w as nat),
{
    let len = s.unicode_len();
    let mut p = String::from_str(s);
    if len < w {
        let sp = space_string(w - len);
        p.append(sp.as_str());
    }
    p
}

// ---------------------------------------------------------------------------
// the permission string
// ---------------------------------------------------------------------------
/// The type character: `d` for a directory, `l` for a symlink, `-` else.
/// Without permission metadata only directories are distinguished.
pub open spec fn type_char(m: Meta) -> char {
    match m.mode {
        Some(_) => if m.is_dir {
            'd'
        } else if m.is_symlink {
            'l'
        } else {
            '-'
        },
        None => if m.is_dir {
            'd'
        } else {
            '-'
        },
    }
}

/// The nine `rwx` positions for owner, group and other, each `-` when its
/// bit is unset.
pub open spec fn perm_bits(mode: u32) -> Seq<char> {
    seq![
        if mode & 0o400u32 != 0 { 'r' } else { '-' },
        if mode & 0o200u32 != 0 { 'w' } else { '-' },
        if mode & 0o100u32 != 0 { 'x' } else { '-' },
        if mode & 0o040u32 != 0 { 'r' } else { '-' },
        if mode & 0o020u32 != 0 { 'w' } else { '-' },
        if mode & 0o010u32 != 0 { 'x' } else { '-' },
        if mode & 0o004u32 != 0 { 'r' } else { '-' },
        if mode & 0o002u32 != 0 { 'w' } else { '-' },
        if mode & 0o001u32 != 0 { 'x' } else { '-' },
    ]
}

/// The 10-character permission string. Without permission metadata the nine
/// positions are all `-`.
pub open spec fn perm_string(m: Meta) -> Seq<char> {
    match m.mode {
        Some(mode) => seq![type_char(m)] + perm_bits(mode),
        None => seq![type_char(m), '-', '-', '-', '-', '-', '-', '-', '-', '-'],
    }
}

fn type_char_str(m: &Meta) -> (r: String)
    ensures
        r@ == seq![type_char(*m)],
{
    proof {
        reveal_strlit("d");
        reveal_strlit("l");
        reveal_strlit("-");
        assert("d"@ =~= seq!['d']);
        assert("l"@ =~= seq!['l']);
        assert("-"@ =~= seq!['-']);
    }
    if m.is_dir {
        String::from_str("d")
    } else {
        match m.mode {
            Some(_) => if m.is_symlink {
                String::from_str("l")
            } else {
                String::from_str("-")
            },
            None => String::from_str("-"),
        }
    }
}

fn append_perm_bit(s: &mut String, set: bool, lit: &str)
    ensures
        final(s)@ == old(s)@ + (if set {
            lit@
        } else {
            seq!['-']
        }),
{
    if set {
        s.append(lit);
    } else {
        proof {
            reveal_strlit("-");
            assert("-"@ =~= seq!['-']);
        }
        s.append("-");
    }
}

/// The permission field of a long-format line.
pub fn format_permissions(m: &Meta) -> (r: String)
    ensures
        r@ == perm_string(*m),
{
    let mut s = type_char_str(m);
    proof {
        reveal_strlit("r");
        reveal_strlit("w");
        reveal_strlit("x");
        assert("r"@ =~= seq!['r']);
        assert("w"@ =~= seq!['w']);
        assert("x"@ =~= seq!['x']);
    }
    match m.mode {
        Some(mode) => {
            append_perm_bit(&mut s, mode & 0o400u32 != 0, "r");
            append_perm_bit(&mut s, mode & 0o200u32 != 0, "w");
            append_perm_bit(&mut s, mode & 0o100u32 != 0, "x");
            append_perm_bit(&mut s, mode & 0o040u32 != 0, "r");
            append_perm_bit(&mut s, mode & 0o020u32 != 0, "w");
            append_perm_bit(&mut s, mode & 0o010u32 != 0, "x");
            append_perm_bit(&mut s, mode & 0o004u32 != 0, "r");
            append_perm_bit(&mut s, mode & 0o002u32 != 0, "w");
            append_perm_bit(&mut s, mode & 0o001u32 != 0, "x");
            proof {
                assert(s@ =~= perm_string(*m));
            }
        },
        None => {
            proof {
                reveal_strlit("---------");
            }
            s.append("---------");
            proof {
                assert("---------"@ =~= seq!['-', '-', '-', '-', '-', '-', '-', '-', '-']);
                assert(s@ =~= perm_string(*m));
            }
        },
    }
    s
}

/// Law: the permission string is 10 characters whose first classifies the
/// entry — `d` for every directory; with permission metadata `l` exactly
/// for a symlink; without it `-` for everything that is not a directory.
pub proof fn lemma_perm_string_shape(m: Meta)
    ensures
        perm_string(m).len() == 10,
        perm_string(m)[0] == type_char(m),
        m.is_dir ==> perm_string(m)[0] == 'd',
        (m.mode matches Some(_)) ==> (perm_string(m)[0] == 'l' <==> (m.is_symlink && !m.is_dir)),
        (m.mode matches None) && !m.is_dir ==> perm_string(m)[0] == '-',
        forall|i: int|
            0 <= i < 10 ==> (#[trigger] perm_string(m)[i] == 'd' || perm_string(m)[i] == 'l'
                || perm_string(m)[i] == 'r' || perm_string(m)[i] == 'w' || perm_string(m)[i] == 'x'
                || perm_string(m)[i] == '-'),
{
}

/// Whether any execute bit is set on a non-directory; always false without
/// permission metadata.
pub open spec fn is_exec_spec(m: Meta) -> bool {
    match m.mode {
        Some(mode) => mode & 0o111u32 != 0 && !m.is_dir,
        None => false,
    }
}

pub fn is_executable(m: &Meta) -> (r: bool)
    ensures
        r == is_exec_spec(*m),
{
    match m.mode {
        Some(mode) => mode & 0o111u32 != 0 && !m.is_dir,
        None => false,
    }
}

// ---------------------------------------------------------------------------
// link count, owner, group
// ---------------------------------------------------------------------------
/// The hard-link count, `1` where the platform lacks it.
pub open spec fn nlink_string(m: Meta) -> Seq<char> {
    match m.nlink {
        Some(n) => dec_digits(n as nat),
        None => seq!['1'],
    }
}

pub fn format_nlink(m: &Meta) -> (r: String)
    ensures
        r@ == nlink_string(*m),
{
    match m.nlink {
        Some(n) => u64_to_dec(n),
        None => {
            proof {
                reveal_strlit("1");
                assert("1"@ =~= seq!['1']);
            }
            String::from_str("1")
        },
    }
}

/// The numeric owner id, `-` where the platform lacks it.
pub open spec fn owner_string(m: Meta) -> Seq<char> {
    match m.uid {
        Some(u) => dec_digits(u as nat),
        None => seq!['-'],
    }
}

pub fn format_owner(m: &Meta) -> (r: String)
    ensures
        r@ == owner_string(*m),
{
    match m.uid {
        Some(u) => u64_to_dec(u as u64),
        None => {
            proof {
                reveal_strlit("-");
                assert("-"@ =~= seq!['-']);
            }
            String::from_str("-")
        },
    }
}

/// The numeric group id, `-` where the platform lacks it.
pub open spec fn group_string(m: Meta) -> Seq<char> {
    match m.gid {
        Some(g) => dec_digits(g as nat),
        None => seq!['-'],
    }
}

pub fn format_group(m: &Meta) -> (r: String)
    ensures
        r@ == group_string(*m),
{
    match m.gid {
        Some(g) => u64_to_dec(g as u64),
        None => {
            proof {
                reveal_strlit("-");
                assert("-"@ =~= seq!['-']);
            }
            String::from_str("-")
        },
    }
}

// ---------------------------------------------------------------------------
// the size field
// ---------------------------------------------------------------------------
/// What the human-readable scheme renders for a byte count: a decimal
/// (1000-based) magnitude with a unit suffix, computed by an outside crate
/// and a function of the byte count alone.
pub uninterp spec fn human_size_of(n: u64) -> Seq<char>;

/// Relies on humansize::format_size with its DECIMAL options: the rendering
/// is a pure function of the byte count.
#[verifier::external_body]
fn human_size(n: u64) -> (r: String)
    ensures
        r@ == human_size_of(n),
{
    humansize::format_size(n, humansize::DECIMAL)
}

/// The size field: the human-readable rendering when that option is set,
/// the exact decimal byte count otherwise.
pub open spec fn size_field(o: Options, m: Meta) -> Seq<char> {
    if o.human_readable {
        human_size_of(m.size)
    } else {
        dec_digits(m.size as nat)
    }
}

pub fn format_size_field(m: &Meta, o: &Options) -> (r: String)
    ensures
        r@ == size_field(*o, *m),
{
    if o.human_readable {
        human_size(m.size)
    } else {
        u64_to_dec(m.size)
    }
}

// ---------------------------------------------------------------------------
// the modification time
// ---------------------------------------------------------------------------
/// Relies on chrono's Datelike and Timelike accessors: the local civil time
/// of the given instant, as (month, day, hour, minute), with month counted
/// from 1 and day from 1. The values depend on the machine's time zone, so
/// only their documented ranges are claimed. An instant the zone cannot map
/// (a skipped clock hour) falls back to the current time inside the body.
#[verifier::external_body]
fn local_time_parts(secs: i64) -> (r: (u8, u8, u8, u8))
    ensures
        1 <= r.0 <= 12,
        1 <= r.1 <= 31,
        r.2 <= 23,
        r.3 <= 59,
{
    let dt = match chrono::TimeZone::timestamp_opt(&chrono::Local, secs, 0) {
        chrono::LocalResult::Single(d) => d,
        chrono::LocalResult::Ambiguous(d, _) => d,
        chrono::LocalResult::None => chrono::Local::now(),
    };
    (
        chrono::Datelike::month(&dt) as u8,
        chrono::Datelike::day(&dt) as u8,
        chrono::Timelike::hour(&dt) as u8,
        chrono::Timelike::minute(&dt) as u8,
    )
}

/// Relies on chrono::Local::now and the same accessors: the current local
/// civil time as (month, day, hour, minute). The clock decides the values,
/// so only their documented ranges are claimed.
#[verifier::external_body]
fn now_time_parts() -> (r: (u8, u8, u8, u8))
    ensures
        1 <= r.0 <= 12,
        1 <= r.1 <= 31,
        r.2 <= 23,
        r.3 <= 59,
{
    let dt = chrono::Local::now();
    (
        chrono::Datelike::month(&dt) as u8,
        chrono::Datelike::day(&dt) as u8,
        chrono::Timelike::hour(&dt) as u8,
        chrono::Timelike::minute(&dt) as u8,
    )
}

/// The three-letter English month abbreviation, months counted from 1.
pub open spec fn month_abbrev(mon: u8) -> Seq<char> {
    if mon == 1 {
        seq!['J', 'a', 'n']
    } else if mon == 2 {
        seq!['F', 'e', 'b']
    } else if mon == 3 {
        seq!['M', 'a', 'r']
    } else if mon == 4 {
        seq!['A', 'p', 'r']
    } else if mon == 5 {
        seq!['M', 'a', 'y']
    } else if mon == 6 {
        seq!['J', 'u', 'n']
    } else if mon == 7 {
        seq!['J', 'u', 'l']
    } else if mon == 8 {
        seq!['A', 'u', 'g']
    } else if mon == 9 {
        seq!['S', 'e', 'p']
    } else if mon == 10 {
        seq!['O', 'c', 't']
    } else if mon == 11 {
        seq!['N', 'o', 'v']
    } else {
        seq!['D', 'e', 'c']
    }
}

/// Two decimal digits, zero-padded.
pub open spec fn two_digits(n: u8) -> Seq<char> {
    seq![digit_char((n / 10) as nat), digit_char((n % 10) as nat)]
}

/// The day of month, space-padded to two characters.
pub open spec fn padded_day(d: u8) -> Seq<char> {
    if d < 10 {
        seq![' ', digit_char(d as nat)]
    } else {
        two_digits(d)
    }
}

/// The 12-character time field: abbreviated month, space-padded day,
/// 24-hour zero-padded hour and minute — `Jan  1 00:00`.
pub open spec fn time_display(mon: u8, day: u8, hour: u8, min: u8) -> Seq<char> {
    month_abbrev(mon) + seq![' '] + padded_day(day) + seq![' '] + two_digits(hour) + seq![':']
        + two_digits(min)
}

/// The ranges the calendar gives the four time parts.
pub open spec fn valid_time_parts(mon: u8, day: u8, hour: u8, min: u8) -> bool {
    1 <= mon <= 12 && 1 <= day <= 31 && hour <= 23 && min <= 59
}

/// What a rendered time field is: the fixed 12-character layout around
/// calendar-range parts.
pub open spec fn time_field_ok(t: Seq<char>) -> bool {
    exists|mon: u8, day: u8, hour: u8, min: u8|
        valid_time_parts(mon, day, hour, min) && t == time_display(mon, day, hour, min)
}

/// Law: the time field's layout is fixed — 12 characters, with single
/// spaces after the month and the day and a colon between hour and minute.
pub proof fn lemma_time_display_shape(mon: u8, day: u8, hour: u8, min: u8)
    ensures
        time_display(mon, day, hour, min).len() == 12,
        time_display(mon, day, hour, min)[3] == ' ',
        time_display(mon, day, hour, min)[6] == ' ',
        time_display(mon, day, hour, min)[9] == ':',
{
}

fn month_str(mon: u8) -> (r: &'static str)
    ensures
        r@ == month_abbrev(mon),
{
    if mon == 1 {
        proof {
            reveal_strlit("Jan");
            assert("Jan"@ =~= month_abbrev(1));
        }
        "Jan"
    } else if mon == 2 {
        proof {
            reveal_strlit("Feb");
            assert("Feb"@ =~= month_abbrev(2));
        }
        "Feb"
    } else if mon == 3 {
        proof {
            reveal_strlit("Mar");
            assert("Mar"@ =~= month_abbrev(3));
        }
        "Mar"
    } else if mon == 4 {
        proof {
            reveal_strlit("Apr");
            assert("Apr"@ =~= month_abbrev(4));
        }
        "Apr"
    } else if mon == 5 {
        proof {
            reveal_strlit("May");
            assert("May"@ =~= month_abbrev(5));
        }
        "May"
    } else if mon == 6 {
        proof {
            reveal_strlit("Jun");
            assert("Jun"@ =~= month_abbrev(6));
        }
        "Jun"
    } else if mon == 7 {
        proof {
            reveal_strlit("Jul");
            assert("Jul"@ =~= month_abbrev(7));
        }
        "Jul"
    } else if mon == 8 {
        proof {
            reveal_strlit("Aug");
            assert("Aug"@ =~= month_abbrev(8));
        }
        "Aug"
    } else if mon == 9 {
        proof {
            reveal_strlit("Sep");
            assert("Sep"@ =~= month_abbrev(9));
        }
        "Sep"
    } else if mon == 10 {
        proof {
            reveal_strlit("Oct");
            assert("Oct"@ =~= month_abbrev(10));
        }
        "Oct"
    } else if mon == 11 {
        proof {
            reveal_strlit("Nov");
            assert("Nov"@ =~= month_abbrev(11));
        }
        "Nov"
    } else {
        proof {
            reveal_strlit("Dec");
            assert("Dec"@ =~= month_abbrev(mon));
        }
        "Dec"
    }
}

fn append_two_digits(s: &mut String, n: u8)
    ensures
        final(s)@ == old(s)@ + two_digits(n),
{
    s.append(digit_str((n / 10) as u64));
    s.append(digit_str((n % 10) as u64));
    proof {
        assert(s@ =~= old(s)@ + two_digits(n));
    }
}

/// Renders the 12-character time field from its plain parts.
pub fn format_time_parts(mon: u8, day: u8, hour: u8, min: u8) -> (r: String)
    ensures
        r@ == time_display(mon, day, hour, min),
        r@.len() == 12,
{
    proof {
        reveal_strlit(" ");
        reveal_strlit(":");
        assert(" "@ =~= seq![' ']);
        assert(":"@ =~= seq![':']);
    }
    let mut s = String::from_str(month_str(mon));
    s.append(" ");
    if day < 10 {
        s.append(" ");
        s.append(digit_str(day as u64));
    } else {
        append_two_digits(&mut s, day);
    }
    s.append(" ");
    append_two_digits(&mut s, hour);
    s.append(":");
    append_two_digits(&mut s, min);
    proof {
        assert(s@ =~= time_display(mon, day, hour, min));
        lemma_time_display_shape(mon, day, hour, min);
    }
    s
}

/// The modification-time field: the entry's time in the local zone, or the
/// current time when the entry's time could not be read — always the fixed
/// 12-character layout around the parts the calendar gave.
pub fn format_mtime(m: &Meta) -> (r: String)
    ensures
        r@.len() == 12,
        time_field_ok(r@),
{
    let parts = match m.mtime {
        Some(t) => local_time_parts(t),
        None => now_time_parts(),
    };
    let r = format_time_parts(parts.0, parts.1, parts.2, parts.3);
    proof {
        assert(valid_time_parts(parts.0, parts.1, parts.2, parts.3) && r@ == time_display(
            parts.0,
            parts.1,
            parts.2,
            parts.3,
        ));
    }
    r
}

// ---------------------------------------------------------------------------
// the name: color, classification, symlink annotation
// ---------------------------------------------------------------------------
/// A string wrapped in an ANSI color directive: the escape that selects the
/// given foreground code, the text, then the escape back to the default
/// foreground.
pub open spec fn color_wrapped(code: Seq<char>, s: Seq<char>) -> Seq<char> {
    seq!['\u{1b}', '['] + code + seq!['m'] + s + seq!['\u{1b}', '[', '3', '9', 'm']
}

/// Relies on owo_colors: `blue()` displays as `\x1b[34m`, the text, then
/// `\x1b[39m`.
#[verifier::external_body]
fn paint_blue(s: &str) -> (r: String)
    ensures
        r@ == color_wrapped(seq!['3', '4'], s@),
{
    s.blue().to_string()
}

/// Relies on owo_colors: `cyan()` displays as `\x1b[36m`, the text, then
/// `\x1b[39m`.
#[verifier::external_body]
fn paint_cyan(s: &str) -> (r: String)
    ensures
        r@ == color_wrapped(seq!['3', '6'], s@),
{
    s.cyan().to_string()
}

/// Relies on owo_colors: `green()` displays as `\x1b[32m`, the text, then
/// `\x1b[39m`.
#[verifier::external_body]
fn paint_green(s: &str) -> (r: String)
    ensures
        r@ == color_wrapped(seq!['3', '2'], s@),
{
    s.green().to_string()
}

/// The classification suffix: `/` for directories, `@` for symlinks, `*`
/// for executables, nothing otherwise.
pub open spec fn classify_suffix_spec(m: Meta) -> Seq<char> {
    if m.is_dir {
        seq!['/']
    } else if m.is_symlink {
        seq!['@']
    } else if is_exec_spec(m) {
        seq!['*']
    } else {
        Seq::empty()
    }
}

pub fn classify_suffix(m: &Meta) -> (r: &'static str)
    ensures
        r@ == classify_suffix_spec(*m),
{
    proof {
        reveal_strlit("/");
        reveal_strlit("@");
        reveal_strlit("*");
        reveal_strlit("");
        assert("/"@ =~= seq!['/']);
        assert("@"@ =~= seq!['@']);
        assert("*"@ =~= seq!['*']);
        assert(""@ =~= Seq::<char>::empty());
    }
    if m.is_dir {
        "/"
    } else if m.is_symlink {
        "@"
    } else if is_executable(m) {
        "*"
    } else {
        ""
    }
}

/// The name under the basic color scheme: directories blue, symlinks cyan,
/// executable regular files green, everything else unpainted.
pub open spec fn colored_name(m: Meta, name: Seq<char>, use_color: bool) -> Seq<char> {
    if !use_color {
        name
    } else if m.is_dir {
        color_wrapped(seq!['3', '4'], name)
    } else if m.is_symlink {
        color_wrapped(seq!['3', '6'], name)
    } else if is_exec_spec(m) {
        color_wrapped(seq!['3', '2'], name)
    } else {
        name
    }
}

fn colorize_name(e: &Entry) -> (r: String)
    ensures
        r@ == colored_name(e.meta, e.name@, true),
{
    if e.meta.is_dir {
        paint_blue(e.name.as_str())
    } else if e.meta.is_symlink {
        paint_cyan(e.name.as_str())
    } else if is_executable(&e.meta) {
        paint_green(e.name.as_str())
    } else {
        String::from_str(e.name.as_str())
    }
}

/// The displayed name: colored when color is on, with the classification
/// suffix appended (after coloring) when classify is on.
pub open spec fn name_field(e: Entry, o: Options, use_color: bool) -> Seq<char> {
    colored_name(e.meta, e.name@, use_color) + (if o.classify {
        classify_suffix_spec(e.meta)
    } else {
        Seq::empty()
    })
}

pub fn format_name(e: &Entry, o: &Options, use_color: bool) -> (r: String)
    ensures
        r@ == name_field(*e, *o, use_color),
{
    let mut s = if use_color {
        colorize_name(e)
    } else {
        String::from_str(e.name.as_str())
    };
    if o.classify {
        s.append(classify_suffix(&e.meta));
    }
    proof {
        assert(s@ =~= name_field(*e, *o, use_color));
    }
    s
}

/// The symlink-target annotation of a long-format line: ` -> target` when
/// the entry is a symlink whose target could be read, nothing otherwise.
pub open spec fn link_annotation(e: Entry) -> Seq<char> {
    if e.meta.is_symlink {
        match e.link_target {
            Some(t) => seq![' ', '-', '>', ' '] + t@,
            None => Seq::empty(),
        }
    } else {
        Seq::empty()
    }
}

// ---------------------------------------------------------------------------
// the long-format line
// ---------------------------------------------------------------------------
/// A long-format line: permissions, the link count right-aligned to at
/// least 2, owner and group left-aligned to at least 8, the size field
/// right-aligned to at least 8, the time, the name, then the symlink
/// annotation — separated by single spaces.
pub open spec fn long_line(e: Entry, o: Options, use_color: bool, time: Seq<char>) -> Seq<char> {
    perm_string(e.meta) + seq![' '] + pad_left_spec(nlink_string(e.meta), 2) + seq![' ']
        + pad_right_spec(owner_string(e.meta), 8) + seq![' '] + pad_right_spec(
        group_string(e.meta),
        8,
    ) + seq![' '] + pad_left_spec(size_field(o, e.meta), 8) + seq![' '] + time + seq![' ']
        + name_field(e, o, use_color) + link_annotation(e)
}

/// Assembles a long-format line around an already-rendered time field.
pub fn format_long_line(e: &Entry, o: &Options, use_color: bool, time: &str) -> (r: String)
    ensures
        r@ == long_line(*e, *o, use_color, time@),
{
    proof {
        reveal_strlit(" ");
        assert(" "@ =~= seq![' ']);
    }
    let mut line = format_permissions(&e.meta);
    let nlink = format_nlink(&e.meta);
    let padded_nlink = pad_left(nlink.as_str(), 2);
    line.append(" ");
    line.append(padded_nlink.as_str());
    let owner = format_owner(&e.meta);
    let padded_owner = pad_right(owner.as_str(), 8);
    line.append(" ");
    line.append(padded_owner.as_str());
    let group = format_group(&e.meta);
    let padded_group = pad_right(group.as_str(), 8);
    line.append(" ");
    line.append(padded_group.as_str());
    let size = format_size_field(&e.meta, o);
    let padded_size = pad_left(size.as_str(), 8);
    line.append(" ");
    line.append(padded_size.as_str());
    line.append(" ");
    line.append(time);
    line.append(" ");
    let name = format_name(e, o, use_color);
    line.append(name.as_str());
    if e.meta.is_symlink {
        match &e.link_target {
            Some(t) => {
                proof {
                    reveal_strlit(" -> ");
                    assert(" -> "@ =~= seq![' ', '-', '>', ' ']);
                }
                line.append(" -> ");
                line.append(t.as_str());
            },
            None => {},
        }
    }
    proof {
        assert(line@ =~= long_line(*e, *o, use_color, time@));
    }
    line
}

/// The full long-format line of one entry: its fields around its rendered
/// modification time, a 12-character local-time field.
pub fn format_long(e: &Entry, o: &Options, use_color: bool) -> (r: String)
    ensures
        exists|t: Seq<char>| time_field_ok(t) && r@ == long_line(*e, *o, use_color, t),
{
    let time = format_mtime(&e.meta);
    let r = format_long_line(e, o, use_color, time.as_str());
    proof {
        let t = time@;
        assert(time_field_ok(t) && r@ == long_line(*e, *o, use_color, t));
    }
    r
}

} // verus!
