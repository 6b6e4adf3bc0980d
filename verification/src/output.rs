use vstd::prelude::*;

use crate::column::Columns;
use crate::dir_action::RecurseOptions;
use crate::filter::FileFilter;

verus! {

/// Whether output is painted at all, and whether colour intensity
/// scales with file size.  Which palette the painted form uses is a
/// collaborator's concern, outside the listing engine; the render
/// paths of this crate emit plain, monochrome text, and carry this
/// decision through for the palette collaborator to act on.
#[derive(Debug, Copy, Clone, PartialEq, Eq, Structural)]
pub struct Colours {
    /// Whether anything is painted.
    pub colourful: bool,
    /// Whether larger files are painted more strongly.
    pub scale: bool,
}

impl Colours {
    /// Painted output.
    pub fn colourful(scale: bool) -> (r: Colours)
        ensures
            r == (Colours { colourful: true, scale }),
    {
        Colours { colourful: true, scale }
    }

    /// Plain output.
    pub fn plain() -> (r: Colours)
        ensures
            r == (Colours { colourful: false, scale: false }),
    {
        Colours { colourful: false, scale: false }
    }
}

/// The lines view shows each file on a line of its own, name only.
#[derive(Debug, Copy, Clone, PartialEq, Eq, Structural)]
pub struct Lines {
    pub colours: Colours,
}

/// The grid view packs the names into columns that fit the terminal.
#[derive(Debug, Copy, Clone, PartialEq, Eq, Structural)]
pub struct Grid {
    /// Whether entries run across each row rather than down each
    /// column.
    pub across: bool,
    /// The width the grid must fit in.
    pub console_width: usize,
    pub colours: Colours,
}

/// The details view shows one line per file: the resolved metadata
/// columns, then the name.
#[derive(Debug, Copy, Clone)]
pub struct Details {
    /// The columns to show, or none for the tree form of the view.
    pub columns: Option<Columns>,
    /// Whether a header row comes first.
    pub header: bool,
    /// The recursion options, where the directory action has any.
    pub recurse: Option<RecurseOptions>,
    /// The filter, which the tree form applies at each level.
    pub filter: FileFilter,
    /// Whether extended attributes are shown.
    pub xattr: bool,
    pub colours: Colours,
}

/// The combined view packs details blocks into a grid.
#[derive(Debug, Copy, Clone)]
pub struct GridDetails {
    pub grid: Grid,
    pub details: Details,
}

} // verus!
