//! Which entries a listing shows: the dotfile rules.

use vstd::prelude::*;
use vstd::string::StrSliceExecFns;
use crate::entry::Entry;
use crate::opts::Options;

verus! {

/// The literal name `.`.
pub open spec fn is_dot_name(n: Seq<char>) -> bool {
    n.len() == 1 && n[0] == '.'
}

/// The literal name `..`.
pub open spec fn is_dot_dot_name(n: Seq<char>) -> bool {
    n.len() == 2 && n[0] == '.' && n[1] == '.'
}

/// Whether a listing shows an entry of this base name.
///
/// Names not starting with `.` are always shown. Dotted names are shown
/// when show-all is set; with show-almost-all they are shown except for the
/// literal `.` and `..`; with neither flag they are hidden.
pub open spec fn include_spec(n: Seq<char>, o: Options) -> bool {
    if n.len() == 0 || n[0] != '.' {
        true
    } else if o.all {
        true
    } else if o.almost_all {
        !is_dot_name(n) && !is_dot_dot_name(n)
    } else {
        false
    }
}

/// Decides whether one entry of the given base name appears in the listing.
pub fn should_include(name: &str, o: &Options) -> (r: bool)
    ensures
        r == include_spec(name@, *o),
{
    let len = name.unicode_len();
    if len == 0 {
        return true;
    }
    if name.get_char(0) != '.' {
        return true;
    }
    if o.all {
        return true;
    }
    if o.almost_all {
        if len == 1 {
            return false;
        }
        if len == 2 && name.get_char(1) == '.' {
            return false;
        }
        return true;
    }
    false
}

/// Law: with show-all set, every name is included, the literal `.` and `..`
/// among them.
pub proof fn lemma_filter_show_all(n: Seq<char>, o: Options)
    requires
        o.all,
    ensures
        include_spec(n, o),
{
}

/// Law: with show-almost-all set (and show-all off), a name is included
/// exactly when it is not the literal `.` or `..`.
pub proof fn lemma_filter_almost_all(n: Seq<char>, o: Options)
    requires
        o.almost_all,
        !o.all,
    ensures
        include_spec(n, o) <==> !(is_dot_name(n) || is_dot_dot_name(n)),
{
}

/// Law: with neither flag set, a name is included exactly when it does not
/// start with `.`.
pub proof fn lemma_filter_default(n: Seq<char>, o: Options)
    requires
        !o.all,
        !o.almost_all,
    ensures
        include_spec(n, o) <==> !(n.len() > 0 && n[0] == '.'),
{
}

/// The subsequence of `s` whose names the options admit, in input order.
pub open spec fn filtered(s: Seq<Entry>, o: Options) -> Seq<Entry>
    decreases s.len(),
{
    if s.len() == 0 {
        Seq::empty()
    } else if include_spec(s.last().name@, o) {
        filtered(s.drop_last(), o).push(s.last())
    } else {
        filtered(s.drop_last(), o)
    }
}

/// Law: with show-all set, filtering keeps every entry the directory read
/// produced, the literal `.` and `..` among them, in order.
pub proof fn lemma_filtered_show_all(s: Seq<Entry>, o: Options)
    requires
        o.all,
    ensures
        filtered(s, o) == s,
    decreases s.len(),
{
    if s.len() == 0 {
        assert(filtered(s, o) =~= s);
    } else {
        lemma_filtered_show_all(s.drop_last(), o);
        assert(filtered(s, o) =~= s);
    }
}

/// Law: filtering admits only names the dotfile rules include — under
/// neither flag no dotted name, under show-almost-all everything but the
/// literal `.` and `..`.
pub proof fn lemma_filtered_admits_only_included(s: Seq<Entry>, o: Options)
    ensures
        forall|k: int|
            0 <= k < filtered(s, o).len() ==> include_spec(
                #[trigger] filtered(s, o)[k].name@,
                o,
            ),
    decreases s.len(),
{
    if s.len() > 0 {
        lemma_filtered_admits_only_included(s.drop_last(), o);
    }
}

/// Keeps exactly the entries the dotfile rules admit, in input order.
pub fn filter_entries(entries: Vec<Entry>, o: &Options) -> (r: Vec<Entry>)
    ensures
        r@ == filtered(entries@, *o),
{
    let ghost orig = entries@;
    let mut items = entries;
    let mut r: Vec<Entry> = Vec::new();
    let ghost mut done: Seq<Entry> = Seq::empty();
    while items.len() > 0
        invariant
            orig == done + items@,
            r@ == filtered(done, *o),
        decreases items@.len(),
    {
        let e = items.remove(0);
        let keep = should_include(e.name.as_str(), o);
        proof {
            assert(done.push(e).drop_last() =~= done);
            assert(done.push(e).last() == e);
        }
        if keep {
            r.push(e);
        }
        proof {
            done = done.push(e);
            assert(orig =~= done + items@);
        }
    }
    proof {
        assert(done =~= orig);
    }
    r
}

} // verus!
