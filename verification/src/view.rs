use vstd::prelude::*;
use vstd::view::View as _;

use crate::dir_action::DirAction;
use crate::filter::FileFilter;
use crate::misfire::Misfire;
use crate::column::Columns;
use crate::options::{spec_columns_cfg, Flags};
use crate::output::{Colours, Details, Grid, GridDetails, Lines};
use crate::text::{digits_val, num_body, parse_usize, str_eq, valid_usize_str};

verus! {

/// Whether a view carries a repository status column at all.
pub open spec fn spec_should_scan(v: View) -> bool {
    match v {
        View::Details(d) => match d.columns {
            Option::Some(c) => c.git,
            Option::None => false,
        },
        View::GridDetails(gd) => match gd.details.columns {
            Option::Some(c) => c.git,
            Option::None => false,
        },
        _ => false,
    }
}

/// The **view** carries everything about how output is formatted.
#[derive(Debug, Clone)]
pub enum View {
    Details(Details),
    Grid(Grid),
    GridDetails(GridDetails),
    Lines(Lines),
}

/// The width the output must fit in, where one is known.
#[derive(Debug, Copy, Clone)]
pub enum TerminalWidth {
    /// The user asked for this many columns.
    Requested(usize),
    /// The terminal was found to have this many columns.
    Terminal(usize),
    /// No width is known: output is not going to a terminal, and no
    /// override was given.
    Unset,
}

/// Whether the width environment text, if present, is a number.
pub open spec fn columns_env_ok(columns_env: Option<&str>) -> bool {
    match columns_env {
        Option::Some(s) => valid_usize_str(s@),
        Option::None => true,
    }
}

/// The width the environment and the terminal resolve to.
pub open spec fn spec_terminal_width(columns_env: Option<&str>, terminal: Option<usize>) ->
    TerminalWidth
    recommends
        columns_env_ok(columns_env),
{
    match columns_env {
        Option::Some(s) => TerminalWidth::Requested(digits_val(num_body(s@)) as usize),
        Option::None => match terminal {
            Option::Some(w) => TerminalWidth::Terminal(w),
            Option::None => TerminalWidth::Unset,
        },
    }
}

/// The plain width a resolved terminal width holds, if any.
pub open spec fn spec_width_of(tw: TerminalWidth) -> Option<usize> {
    match tw {
        TerminalWidth::Requested(w) => Option::Some(w),
        TerminalWidth::Terminal(w) => Option::Some(w),
        TerminalWidth::Unset => Option::None,
    }
}

impl TerminalWidth {
    /// Resolves the width: an override from the environment wins and
    /// must be a number; otherwise the terminal's own width, if any.
    pub fn deduce(columns_env: Option<&str>, terminal: Option<usize>) -> (r: Result<
        TerminalWidth,
        Misfire,
    >)
        ensures
            match r {
                Ok(tw) => columns_env_ok(columns_env) && tw == spec_terminal_width(
                    columns_env,
                    terminal,
                ),
                Err(m) => !columns_env_ok(columns_env) && m is FailedParse,
            },
    {
        if let Option::Some(columns) = columns_env {
            match parse_usize(columns) {
                Ok(width) => Ok(TerminalWidth::Requested(width)),
                Err(_) => Err(Misfire::FailedParse(String::from_str(columns))),
            }
        } else if let Option::Some(width) = terminal {
            Ok(TerminalWidth::Terminal(width))
        } else {
            Ok(TerminalWidth::Unset)
        }
    }

    /// The width held, if any.
    pub fn as_ref(&self) -> (r: Option<&usize>)
        ensures
            match *self {
                TerminalWidth::Requested(v) => r is Some && *r->0 == v,
                TerminalWidth::Terminal(v) => r is Some && *r->0 == v,
                TerminalWidth::Unset => r is None,
            },
    {
        match self {
            TerminalWidth::Requested(width) => Option::Some(width),
            TerminalWidth::Terminal(width) => Option::Some(width),
            TerminalWidth::Unset => Option::None,
        }
    }
}

/// When painted, rather than plain, output is shown.
///
/// Unless told otherwise, output is painted only when it is going to
/// a terminal, so pipes into other programs see plain text.
#[derive(Debug, Copy, Clone, PartialEq, Eq, Structural)]
pub enum TerminalColours {
    /// Paint even when output is not going to a terminal.
    Always,
    /// Paint when output is going to a terminal, not otherwise.
    Automatic,
    /// Never paint.
    Never,
}

impl Default for TerminalColours {
    /// Painting follows the terminal unless asked otherwise.
    fn default() -> (r: TerminalColours)
        ensures
            r == TerminalColours::Automatic,
    {
        TerminalColours::Automatic
    }
}

/// Whether a text is one of the words the colour option accepts.
pub open spec fn is_colour_word(s: Seq<char>) -> bool {
    ||| s == "always"@
    ||| s == "auto"@
    ||| s == "automatic"@
    ||| s == "never"@
}

/// The choice each accepted colour word picks.
pub open spec fn spec_colour_word(s: Seq<char>) -> TerminalColours
    recommends
        is_colour_word(s),
{
    if s == "always"@ {
        TerminalColours::Always
    } else if s == "auto"@ || s == "automatic"@ {
        TerminalColours::Automatic
    } else {
        TerminalColours::Never
    }
}

/// The choice an optional colour word picks.
pub open spec fn spec_colour_choice(color: Option<&str>) -> TerminalColours {
    match color {
        Option::Some(s) => spec_colour_word(s@),
        Option::None => TerminalColours::Automatic,
    }
}

impl TerminalColours {
    /// Reads a colour word.  The argument resolver accepts only the
    /// known words, so anything else is out of reach here.
    pub fn from_str(s: &str) -> (r: TerminalColours)
        requires
            is_colour_word(s@),
        ensures
            r == spec_colour_word(s@),
    {
        if str_eq(s, "always") {
            TerminalColours::Always
        } else if str_eq(s, "auto") || str_eq(s, "automatic") {
            TerminalColours::Automatic
        } else {
            TerminalColours::Never
        }
    }

    /// Decides the colour choice from the option, if given.
    pub fn deduce(color: Option<&str>) -> (r: TerminalColours)
        requires
            color is Some ==> is_colour_word(color->0@),
        ensures
            r == spec_colour_choice(color),
    {
        match color {
            Option::Some(word) => TerminalColours::from_str(word),
            Option::None => TerminalColours::Automatic,
        }
    }
}

/// The colours a choice resolves to: `on` says whether the automatic
/// choice finds a terminal (or a usable width) to paint for.
pub open spec fn spec_colours(tc: TerminalColours, scale: bool, on: bool) -> Colours {
    match tc {
        TerminalColours::Always => Colours { colourful: true, scale },
        TerminalColours::Never => Colours { colourful: false, scale: false },
        TerminalColours::Automatic => if on {
            Colours { colourful: true, scale }
        } else {
            Colours { colourful: false, scale: false }
        },
    }
}

/// The details configuration the tree form uses: no metadata columns,
/// no header.
pub open spec fn spec_tree_details(
    filter: FileFilter,
    action: DirAction,
    colours: Colours,
) -> Details {
    Details {
        columns: Option::None,
        header: false,
        recurse: crate::dir_action::spec_recurse_options(action),
        filter,
        xattr: false,
        colours,
    }
}

/// The details configuration the long view uses.
pub open spec fn spec_long_details(
    flags: Flags,
    filter: FileFilter,
    action: DirAction,
    terminal: Option<usize>,
) -> Details {
    Details {
        columns: Option::Some(spec_columns_cfg(flags)),
        header: flags.header,
        recurse: crate::dir_action::spec_recurse_options(action),
        filter,
        xattr: flags.xattr_capable && flags.extended,
        colours: spec_colours(
            spec_colour_choice_of(flags),
            flags.color_scale,
            terminal is Some,
        ),
    }
}

/// The colour choice a flag set holds.
pub open spec fn spec_colour_choice_of(flags: Flags) -> TerminalColours {
    match flags.color {
        Option::Some(s) => spec_colour_word(s@),
        Option::None => TerminalColours::Automatic,
    }
}

/// The view chosen when the long switch is off, or to fill the grid
/// half of the combined view: a grid when a width is known, lines
/// otherwise, with the tree form of details overriding both.
pub open spec fn spec_scan_view(
    flags: Flags,
    filter: FileFilter,
    action: DirAction,
    width: Option<usize>,
) -> View {
    let tc = spec_colour_choice_of(flags);
    match width {
        Option::Some(w) => {
            let colours = spec_colours(tc, flags.color_scale, true);
            if flags.oneline {
                View::Lines(Lines { colours })
            } else if flags.tree {
                View::Details(spec_tree_details(filter, action, colours))
            } else {
                View::Grid(Grid { across: flags.across, console_width: w, colours })
            }
        },
        Option::None => {
            let colours = spec_colours(tc, flags.color_scale, false);
            if flags.tree {
                View::Details(spec_tree_details(filter, action, colours))
            } else {
                View::Lines(Lines { colours })
            }
        },
    }
}

/// Whether deciding the view reads the terminal width at all: the
/// long view alone never does.
pub open spec fn scan_runs(flags: Flags) -> bool {
    !flags.long || flags.grid
}

/// The view the whole flag set decides, once the terminal width has
/// resolved.  The combined grid-details view exists only where a
/// grid could be formed: with no width to pack for, it falls back to
/// the long details view, and the tree form of details overrides
/// both.
pub open spec fn spec_deduce_view(
    flags: Flags,
    filter: FileFilter,
    action: DirAction,
    terminal: Option<usize>,
    width: Option<usize>,
) -> View {
    if flags.long {
        let details = spec_long_details(flags, filter, action, terminal);
        if flags.grid {
            match spec_scan_view(flags, filter, action, width) {
                View::Grid(g) => View::GridDetails(GridDetails { grid: g, details }),
                View::Details(d) => View::Details(d),
                _ => View::Details(details),
            }
        } else {
            View::Details(details)
        }
    } else {
        spec_scan_view(flags, filter, action, width)
    }
}

impl View {
    /// Decides which view to use, and everything the view needs.
    ///
    /// `columns_env` is the width override from the environment;
    /// `terminal` is the terminal's own width, where output goes to
    /// one.  An override that is not a number is a misfire.
    pub fn deduce(
        flags: &Flags,
        columns_env: Option<&str>,
        terminal: Option<usize>,
        filter: FileFilter,
        dir_action: DirAction,
    ) -> (r: Result<View, Misfire>)
        requires
            flags.color is Some ==> is_colour_word(flags.color->0@),
            flags.time is Some ==> crate::column::is_time_word(flags.time->0@),
        ensures
            match r {
                Ok(v) => {
                    &&& scan_runs(*flags) ==> columns_env_ok(columns_env)
                    &&& v == spec_deduce_view(
                        *flags,
                        filter,
                        dir_action,
                        terminal,
                        spec_width_of(spec_terminal_width(columns_env, terminal)),
                    )
                },
                Err(m) => scan_runs(*flags) && !columns_env_ok(columns_env)
                    && m is FailedParse,
            },
    {
        if flags.long {
            let details = View::long_details(flags, terminal, filter, dir_action);
            if flags.grid {
                match View::other_options_scan(flags, columns_env, terminal, filter, dir_action) {
                    Ok(View::Grid(grid)) => Ok(
                        View::GridDetails(GridDetails { grid, details }),
                    ),
                    Ok(View::Details(d)) => Ok(View::Details(d)),
                    Ok(_) => Ok(View::Details(details)),
                    Err(e) => Err(e),
                }
            } else {
                Ok(View::Details(details))
            }
        } else {
            View::other_options_scan(flags, columns_env, terminal, filter, dir_action)
        }
    }

    /// The details configuration of the long view.
    fn long_details(
        flags: &Flags,
        terminal: Option<usize>,
        filter: FileFilter,
        dir_action: DirAction,
    ) -> (r: Details)
        requires
            flags.color is Some ==> is_colour_word(flags.color->0@),
            flags.time is Some ==> crate::column::is_time_word(flags.time->0@),
        ensures
            r == spec_long_details(*flags, filter, dir_action, terminal),
    {
        let term_colours = TerminalColours::deduce(match &flags.color {
            Option::Some(s) => Option::Some(s.as_str()),
            Option::None => Option::None,
        });
        let colours = match term_colours {
            TerminalColours::Always => Colours::colourful(flags.color_scale),
            TerminalColours::Never => Colours::plain(),
            TerminalColours::Automatic => {
                if terminal.is_some() {
                    Colours::colourful(flags.color_scale)
                } else {
                    Colours::plain()
                }
            },
        };
        Details {
            columns: Option::Some(Columns::deduce(flags)),
            header: flags.header,
            recurse: dir_action.recurse_options(),
            filter,
            xattr: flags.xattr_capable && flags.extended,
            colours,
        }
    }

    /// The view used when the long switch is off: grid, lines, or the
    /// tree form of details, following the terminal width.
    fn other_options_scan(
        flags: &Flags,
        columns_env: Option<&str>,
        terminal: Option<usize>,
        filter: FileFilter,
        dir_action: DirAction,
    ) -> (r: Result<View, Misfire>)
        requires
            flags.color is Some ==> is_colour_word(flags.color->0@),
        ensures
            match r {
                Ok(v) => columns_env_ok(columns_env) && v == spec_scan_view(
                    *flags,
                    filter,
                    dir_action,
                    spec_width_of(spec_terminal_width(columns_env, terminal)),
                ),
                Err(m) => !columns_env_ok(columns_env) && m is FailedParse,
            },
    {
        let term_colours = TerminalColours::deduce(match &flags.color {
            Option::Some(s) => Option::Some(s.as_str()),
            Option::None => Option::None,
        });
        let term_width = match TerminalWidth::deduce(columns_env, terminal) {
            Ok(tw) => tw,
            Err(e) => {
                return Err(e);
            },
        };
        if let Option::Some(width) = term_width.as_ref() {
            let colours = match term_colours {
                TerminalColours::Always => Colours::colourful(flags.color_scale),
                TerminalColours::Never => Colours::plain(),
                TerminalColours::Automatic => Colours::colourful(flags.color_scale),
            };
            if flags.oneline {
                Ok(View::Lines(Lines { colours }))
            } else if flags.tree {
                Ok(
                    View::Details(
                        Details {
                            columns: Option::None,
                            header: false,
                            recurse: dir_action.recurse_options(),
                            filter,
                            xattr: false,
                            colours,
                        },
                    ),
                )
            } else {
                Ok(View::Grid(Grid { across: flags.across, console_width: *width, colours }))
            }
        } else {
            let colours = match term_colours {
                TerminalColours::Always => Colours::colourful(flags.color_scale),
                TerminalColours::Never => Colours::plain(),
                TerminalColours::Automatic => Colours::plain(),
            };
            if flags.tree {
                Ok(
                    View::Details(
                        Details {
                            columns: Option::None,
                            header: false,
                            recurse: dir_action.recurse_options(),
                            filter,
                            xattr: false,
                            colours,
                        },
                    ),
                )
            } else {
                Ok(View::Lines(Lines { colours }))
            }
        }
    }
}

} // verus!
