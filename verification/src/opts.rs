//! The listing options, captured once at startup.

use vstd::prelude::*;

verus! {

/// The user-selected options that drive filtering, sorting and rendering.
/// Color choice is resolved by the caller (terminal detection is I/O) and
/// handed to the rendering functions as a plain `bool`.
#[derive(Clone, Copy, PartialEq, Eq, Structural)]
pub struct Options {
    /// `-a`: show every entry, dotfiles and the literal `.` / `..` included.
    pub all: bool,
    /// `-A`: show dotfiles, but not the literal `.` / `..`.
    pub almost_all: bool,
    /// `-l`: detailed multi-field lines.
    pub long: bool,
    /// `-h`: sizes with a decimal magnitude suffix instead of a byte count.
    pub human_readable: bool,
    /// `-R`: recursive descent (driven by the caller; kept for completeness).
    pub recursive: bool,
    /// `-r`: mirror the fully sorted order.
    pub reverse: bool,
    /// `-t`: sort by modification time, most recent first.
    pub sort_time: bool,
    /// `-S`: sort by size, largest first; wins over `-t` when both are set.
    pub sort_size: bool,
    /// `-1`: one name per line (ignored when `-l` is set).
    pub one_per_line: bool,
    /// `-F`: append a type-indicator suffix to each name.
    pub classify: bool,
    /// `--dirs-first`: directories ahead of everything else.
    pub dirs_first: bool,
}

impl Options {
    /// Options with every flag off: the default invocation.
    pub fn plain() -> (r: Options)
        ensures
            r == (Options {
                all: false,
                almost_all: false,
                long: false,
                human_readable: false,
                recursive: false,
                reverse: false,
                sort_time: false,
                sort_size: false,
                one_per_line: false,
                classify: false,
                dirs_first: false,
            }),
    {
        Options {
            all: false,
            almost_all: false,
            long: false,
            human_readable: false,
            recursive: false,
            reverse: false,
            sort_time: false,
            sort_size: false,
            one_per_line: false,
            classify: false,
            dirs_first: false,
        }
    }
}

} // verus!
