use vstd::prelude::*;

use crate::misfire::Misfire;
use crate::text::{digits_val, num_body, opt_str_view, parse_usize, valid_usize_str};

verus! {

/// What to do on meeting a directory.
#[derive(Debug, Copy, Clone)]
pub enum DirAction {
    /// The directory is listed along with the regular files, its
    /// contents never queried.
    AsFile,
    /// The directory is opened and its files listed separately.  This
    /// is what happens when nothing else is asked for.
    List,
    /// The directory is opened, and its own child directories are
    /// then opened in turn, as the options say.
    Recurse(RecurseOptions),
}

/// How to recurse into a directory.
#[derive(Debug, Copy, Clone)]
pub struct RecurseOptions {
    /// Whether nesting is drawn inline as a tree, rather than each
    /// directory getting a section of its own.
    pub tree: bool,
    /// How deep the recursion may go, if a limit was given.
    pub max_depth: Option<usize>,
}

impl DirAction {
    /// Decides the action from the three command-line switches and
    /// the recursion depth text, if one was given.
    pub fn deduce(recurse: bool, list_dirs: bool, tree: bool, level: Option<&str>) -> (r: Result<
        DirAction,
        Misfire,
    >)
        ensures
            match r {
                Ok(a) => {
                    &&& needs_level(recurse, list_dirs, tree) ==> level_parses(opt_str_view(level))
                    &&& a == spec_deduce_action(recurse, list_dirs, tree, opt_str_view(level))
                },
                Err(m) => needs_level(recurse, list_dirs, tree) && !level_parses(
                    opt_str_view(level),
                ) && m is FailedParse,
            },
    {
        if recurse {
            match RecurseOptions::deduce(level, false) {
                Ok(o) => {
                    proof {
                        assert(o == RecurseOptions {
                            tree: false,
                            max_depth: spec_max_depth(opt_str_view(level)),
                        });
                    }
                    Ok(DirAction::Recurse(o))
                },
                Err(m) => Err(m),
            }
        } else if list_dirs {
            Ok(DirAction::AsFile)
        } else if tree {
            match RecurseOptions::deduce(level, true) {
                Ok(o) => {
                    proof {
                        assert(o == RecurseOptions {
                            tree: true,
                            max_depth: spec_max_depth(opt_str_view(level)),
                        });
                    }
                    Ok(DirAction::Recurse(o))
                },
                Err(m) => Err(m),
            }
        } else {
            Ok(DirAction::List)
        }
    }

    /// The recursion options, where this action has any.
    pub fn recurse_options(&self) -> (r: Option<RecurseOptions>)
        ensures
            r == spec_recurse_options(*self),
    {
        match self {
            DirAction::Recurse(opts) => Option::Some(*opts),
            _ => Option::None,
        }
    }

    /// Whether directories are shown as plain entries rather than
    /// opened.
    pub fn treat_dirs_as_files(&self) -> (r: bool)
        ensures
            r == (match self {
                DirAction::AsFile => true,
                DirAction::Recurse(o) => o.tree,
                DirAction::List => false,
            }),
    {
        match self {
            DirAction::AsFile => true,
            DirAction::Recurse(o) => o.tree,
            DirAction::List => false,
        }
    }
}

/// Whether the chosen action reads the depth text at all.
pub open spec fn needs_level(recurse: bool, list_dirs: bool, tree: bool) -> bool {
    recurse || (!list_dirs && tree)
}

/// Whether an optional depth text parses as a depth.
pub open spec fn level_parses(level: Option<Seq<char>>) -> bool {
    match level {
        Option::Some(s) => valid_usize_str(s),
        Option::None => true,
    }
}

/// The depth limit an optional depth text gives.
pub open spec fn spec_max_depth(level: Option<Seq<char>>) -> Option<usize>
    recommends
        level_parses(level),
{
    match level {
        Option::Some(s) => Option::Some(digits_val(num_body(s)) as usize),
        Option::None => Option::None,
    }
}

/// The recursion options, where the action has any.
pub open spec fn spec_recurse_options(a: DirAction) -> Option<RecurseOptions> {
    match a {
        DirAction::Recurse(o) => Option::Some(o),
        _ => Option::None,
    }
}

/// The action the four inputs decide, when the depth text parses.
pub open spec fn spec_deduce_action(
    recurse: bool,
    list_dirs: bool,
    tree: bool,
    level: Option<Seq<char>>,
) -> DirAction {
    if recurse {
        DirAction::Recurse(RecurseOptions { tree: false, max_depth: spec_max_depth(level) })
    } else if list_dirs {
        DirAction::AsFile
    } else if tree {
        DirAction::Recurse(RecurseOptions { tree: true, max_depth: spec_max_depth(level) })
    } else {
        DirAction::List
    }
}

impl RecurseOptions {
    /// Reads the recursion options from the depth text, if one was
    /// given: a text that does not parse as a number is a misfire.
    pub fn deduce(level: Option<&str>, tree: bool) -> (r: Result<RecurseOptions, Misfire>)
        ensures
            match r {
                Ok(o) => {
                    &&& level_parses(opt_str_view(level))
                    &&& o.tree == tree
                    &&& o.max_depth == spec_max_depth(opt_str_view(level))
                },
                Err(m) => !level_parses(opt_str_view(level)) && m is FailedParse,
            },
    {
        let max_depth = if let Option::Some(text) = level {
            match parse_usize(text) {
                Ok(l) => Option::Some(l),
                Err(_) => {
                    return Err(Misfire::FailedParse(String::from_str(text)));
                },
            }
        } else {
            Option::None
        };
        Ok(RecurseOptions { tree, max_depth })
    }

    /// Whether a directory of the given depth lies past the limit.
    pub fn is_too_deep(&self, depth: usize) -> (r: bool)
        ensures
            r == (match self.max_depth {
                Option::Some(d) => d <= depth,
                Option::None => false,
            }),
    {
        match self.max_depth {
            Option::None => false,
            Option::Some(d) => d <= depth,
        }
    }
}

} // verus!
