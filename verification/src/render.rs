//! Assembling the lines of a listing, and a whole directory's output.

use vstd::prelude::*;
use vstd::string::{StrSliceExecFns, StringExecFns};
use crate::entry::Entry;
use crate::fields::{format_long_line, format_mtime, format_name, long_line, name_field, time_field_ok};
use crate::filter::{filter_entries, filtered};
use crate::opts::Options;
use crate::order::{sort_entries, sorted_le};

verus! {

/// The displayed names of a listing, in sequence order.
pub open spec fn name_views(items: Seq<Entry>, o: Options, use_color: bool) -> Seq<Seq<char>> {
    Seq::new(items.len(), |i: int| name_field(items[i], o, use_color))
}

/// The long-format lines of a listing, one rendered time field per entry.
pub open spec fn long_views(
    items: Seq<Entry>,
    o: Options,
    use_color: bool,
    times: Seq<Seq<char>>,
) -> Seq<Seq<char>> {
    Seq::new(items.len(), |i: int| long_line(items[i], o, use_color, times[i]))
}

/// Lines joined with one newline after each; no lines, no output.
pub open spec fn joined_lines(lines: Seq<Seq<char>>) -> Seq<char>
    decreases lines.len(),
{
    if lines.len() == 0 {
        Seq::empty()
    } else {
        joined_lines(lines.drop_last()) + lines.last() + seq!['\n']
    }
}

/// Names on one row, separated by two spaces.
pub open spec fn two_space_row(names: Seq<Seq<char>>) -> Seq<char>
    decreases names.len(),
{
    if names.len() == 0 {
        Seq::empty()
    } else if names.len() == 1 {
        names[0]
    } else {
        two_space_row(names.drop_last()) + seq![' ', ' '] + names.last()
    }
}

/// The default single-row layout: the row and one trailing newline, or
/// nothing at all for an empty listing.
pub open spec fn row_line(names: Seq<Seq<char>>) -> Seq<char> {
    if names.len() == 0 {
        Seq::empty()
    } else {
        two_space_row(names) + seq!['\n']
    }
}

/// What a rendered listing is. Long format (which wins over one-per-line)
/// joins one long line per entry, each around a 12-character time field;
/// one-per-line joins the displayed names; the default is a single
/// two-space-separated row. An empty listing renders as nothing.
pub open spec fn listing_rendering(
    items: Seq<Entry>,
    o: Options,
    use_color: bool,
    times: Seq<Seq<char>>,
    r: Seq<char>,
) -> bool {
    if o.long {
        &&& times.len() == items.len()
        &&& (forall|i: int| 0 <= i < times.len() ==> #[trigger] time_field_ok(times[i]))
        &&& r == joined_lines(long_views(items, o, use_color, times))
    } else if o.one_per_line {
        &&& times == Seq::<Seq<char>>::empty()
        &&& r == joined_lines(name_views(items, o, use_color))
    } else {
        &&& times == Seq::<Seq<char>>::empty()
        &&& r == row_line(name_views(items, o, use_color))
    }
}

/// Renders an already-filtered, already-sorted listing.
pub fn render_listing(items: &Vec<Entry>, o: &Options, use_color: bool) -> (r: String)
    ensures
        exists|times: Seq<Seq<char>>|
            #[trigger] listing_rendering(items@, *o, use_color, times, r@),
        items@.len() == 0 ==> r@.len() == 0,
{
    proof {
        reveal_strlit("\n");
        assert("\n"@ =~= seq!['\n']);
    }
    let n = items.len();
    if o.long {
        let mut out = String::new();
        let ghost mut times: Seq<Seq<char>> = Seq::empty();
        let mut i: usize = 0;
        while i < n
            invariant
                n == items@.len(),
                i <= n,
                times.len() == i,
                forall|k: int| 0 <= k < i ==> #[trigger] time_field_ok(times[k]),
                out@ == joined_lines(long_views(items@.subrange(0, i as int), *o, use_color, times)),
                "\n"@ =~= seq!['\n'],
            decreases n - i,
        {
            let ghost old_times = times;
            let ghost old_out = out@;
            let time = format_mtime(&items[i].meta);
            let line = format_long_line(&items[i], o, use_color, time.as_str());
            out.append(line.as_str());
            out.append("\n");
            proof {
                times = times.push(time@);
                let prev = long_views(items@.subrange(0, i as int), *o, use_color, old_times);
                let now = long_views(items@.subrange(0, i + 1), *o, use_color, times);
                assert(now.drop_last() =~= prev);
                assert(now.last() == line@);
                assert(out@ =~= joined_lines(now));
            }
            i = i + 1;
        }
        proof {
            assert(items@.subrange(0, n as int) =~= items@);
            assert(listing_rendering(items@, *o, use_color, times, out@));
            if items@.len() == 0 {
                assert(out@ =~= Seq::<char>::empty());
            }
        }
        out
    } else if o.one_per_line {
        let mut out = String::new();
        let mut i: usize = 0;
        while i < n
            invariant
                n == items@.len(),
                i <= n,
                out@ == joined_lines(name_views(items@.subrange(0, i as int), *o, use_color)),
                "\n"@ =~= seq!['\n'],
            decreases n - i,
        {
            let name = format_name(&items[i], o, use_color);
            out.append(name.as_str());
            out.append("\n");
            proof {
                let prev = name_views(items@.subrange(0, i as int), *o, use_color);
                let now = name_views(items@.subrange(0, i + 1), *o, use_color);
                assert(now.drop_last() =~= prev);
                assert(now.last() == name@);
                assert(out@ =~= joined_lines(now));
            }
            i = i + 1;
        }
        proof {
            assert(items@.subrange(0, n as int) =~= items@);
            let ghost times = Seq::<Seq<char>>::empty();
            assert(listing_rendering(items@, *o, use_color, times, out@));
        }
        out
    } else {
        let mut out = String::new();
        if n == 0 {
            proof {
                let ghost times = Seq::<Seq<char>>::empty();
                assert(listing_rendering(items@, *o, use_color, times, out@));
            }
            return out;
        }
        proof {
            reveal_strlit("  ");
            assert("  "@ =~= seq![' ', ' ']);
        }
        let first = format_name(&items[0], o, use_color);
        out.append(first.as_str());
        proof {
            assert(name_views(items@.subrange(0, 1), *o, use_color).len() == 1);
            assert(out@ =~= two_space_row(name_views(items@.subrange(0, 1), *o, use_color)));
        }
        let mut i: usize = 1;
        while i < n
            invariant
                n == items@.len(),
                1 <= i <= n,
                out@ == two_space_row(name_views(items@.subrange(0, i as int), *o, use_color)),
                "\n"@ =~= seq!['\n'],
                "  "@ =~= seq![' ', ' '],
            decreases n - i,
        {
            let name = format_name(&items[i], o, use_color);
            out.append("  ");
            out.append(name.as_str());
            proof {
                let prev = name_views(items@.subrange(0, i as int), *o, use_color);
                let now = name_views(items@.subrange(0, i + 1), *o, use_color);
                assert(now.drop_last() =~= prev);
                assert(now.last() == name@);
                assert(out@ =~= two_space_row(now));
            }
            i = i + 1;
        }
        out.append("\n");
        proof {
            assert(items@.subrange(0, n as int) =~= items@);
            let ghost times = Seq::<Seq<char>>::empty();
            assert(out@ =~= row_line(name_views(items@, *o, use_color)));
            assert(listing_rendering(items@, *o, use_color, times, out@));
        }
        out
    }
}

/// One directory's full listing: the entries the dotfile rules admit, in
/// the listing order (mirrored under the reverse flag), rendered in the
/// selected layout. An empty filtered listing produces no output at all.
pub fn list_directory(entries: Vec<Entry>, o: &Options, use_color: bool) -> (r: String)
    ensures
        exists|shown: Seq<Entry>, times: Seq<Seq<char>>|
            {
                &&& shown.to_multiset() == filtered(entries@, *o).to_multiset()
                &&& shown.len() == filtered(entries@, *o).len()
                &&& sorted_le(*o, if o.reverse { shown.reverse() } else { shown })
                &&& #[trigger] listing_rendering(shown, *o, use_color, times, r@)
            },
        filtered(entries@, *o).len() == 0 ==> r@.len() == 0,
{
    let ghost input = entries@;
    let kept = filter_entries(entries, o);
    let shown = sort_entries(kept, o);
    let r = render_listing(&shown, o, use_color);
    proof {
        let times = choose|times: Seq<Seq<char>>|
            #[trigger] listing_rendering(shown@, *o, use_color, times, r@);
        assert(listing_rendering(shown@, *o, use_color, times, r@));
    }
    r
}

/// The text printed ahead of one listing: a blank separator line before
/// every listing but the first, and a `path:` header line when more than
/// one listing takes part (several path arguments, or every directory of a
/// recursive walk).
pub open spec fn header_spec(path: Seq<char>, index: int, multiple: bool) -> Seq<char> {
    (if index > 0 {
        seq!['\n']
    } else {
        Seq::<char>::empty()
    }) + (if multiple {
        path + seq![':', '\n']
    } else {
        Seq::<char>::empty()
    })
}

pub fn path_header(path: &str, index: usize, multiple: bool) -> (r: String)
    ensures
        r@ == header_spec(path@, index as int, multiple),
{
    let mut s = String::new();
    if index > 0 {
        proof {
            reveal_strlit("\n");
            assert("\n"@ =~= seq!['\n']);
        }
        s.append("\n");
    }
    if multiple {
        s.append(path);
        proof {
            reveal_strlit(":\n");
            assert(":\n"@ =~= seq![':', '\n']);
        }
        s.append(":\n");
    }
    proof {
        assert(s@ =~= header_spec(path@, index as int, multiple));
    }
    s
}

} // verus!
