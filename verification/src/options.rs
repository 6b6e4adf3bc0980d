use vstd::prelude::*;
use vstd::view::View as _;

use crate::column::{is_time_word, spec_time_types, Columns, SizeFormat, TimeTypes};
use crate::dir_action::{level_parses, needs_level, spec_deduce_action, DirAction};
use crate::filter::{is_sort_word, spec_sort_word, FileFilter, SortField};
use crate::misfire::Misfire;
use crate::text::opt_string_view;
use crate::view::{
    columns_env_ok, is_colour_word, scan_runs, spec_deduce_view, spec_should_scan,
    spec_terminal_width, spec_width_of, View,
};

verus! {

/// What the argument resolver hands the engine: every switch, and the
/// raw value of each option that takes one.  Conflicting combinations
/// have already been rejected before this point.
#[derive(Debug, Clone)]
pub struct Flags {
    pub long: bool,
    pub grid: bool,
    pub oneline: bool,
    pub tree: bool,
    pub across: bool,
    pub header: bool,
    pub binary: bool,
    pub bytes: bool,
    pub inode: bool,
    pub links: bool,
    pub blocks: bool,
    pub group: bool,
    pub git: bool,
    pub extended: bool,
    pub recurse: bool,
    pub list_dirs: bool,
    pub all: bool,
    pub reverse: bool,
    pub group_directories_first: bool,
    pub modified: bool,
    pub created: bool,
    pub accessed: bool,
    pub color_scale: bool,
    /// Whether this build and platform can read extended attributes
    /// at all: a capability found once at startup and threaded in.
    pub xattr_capable: bool,
    /// The sort field word, where one was given.
    pub sort: Option<String>,
    /// The time word, where one was given.
    pub time: Option<String>,
    /// The recursion depth text, where one was given.
    pub level: Option<String>,
    /// The colour word, where one was given.
    pub color: Option<String>,
}

/// The column set a flag set asks for.
pub open spec fn spec_columns_cfg(flags: Flags) -> Columns {
    Columns {
        size_format: if flags.binary {
            SizeFormat::BinaryBytes
        } else if flags.bytes {
            SizeFormat::JustBytes
        } else {
            SizeFormat::DecimalBytes
        },
        time_types: spec_time_types(
            flags.modified,
            flags.created,
            flags.accessed,
            opt_string_view(flags.time),
        ),
        inode: flags.inode,
        links: flags.links,
        blocks: flags.blocks,
        group: flags.group,
        git: flags.git,
    }
}

impl Columns {
    /// The column set these flags ask for.
    pub fn deduce(flags: &Flags) -> (r: Columns)
        requires
            flags.time is Some ==> is_time_word(flags.time->0@),
        ensures
            r == spec_columns_cfg(*flags),
    {
        Columns {
            size_format: SizeFormat::deduce(flags.binary, flags.bytes),
            time_types: TimeTypes::deduce(
                flags.modified,
                flags.created,
                flags.accessed,
                match &flags.time {
                    Option::Some(s) => Option::Some(s.as_str()),
                    Option::None => Option::None,
                },
            ),
            inode: flags.inode,
            links: flags.links,
            blocks: flags.blocks,
            group: flags.group,
            git: flags.git,
        }
    }
}

/// The filter a flag set asks for.
pub open spec fn spec_file_filter(flags: Flags) -> FileFilter {
    FileFilter {
        list_dirs_first: flags.group_directories_first,
        reverse: flags.reverse,
        show_invisibles: flags.all,
        sort_field: match flags.sort {
            Option::Some(s) => spec_sort_word(s@),
            Option::None => SortField::Name,
        },
    }
}

impl FileFilter {
    /// The filter these flags ask for.
    pub fn deduce(flags: &Flags) -> (r: FileFilter)
        requires
            flags.sort is Some ==> is_sort_word(flags.sort->0@),
        ensures
            r == spec_file_filter(*flags),
    {
        let sort_field = match &flags.sort {
            Option::Some(word) => SortField::from_str(word.as_str()),
            Option::None => SortField::Name,
        };
        FileFilter {
            list_dirs_first: flags.group_directories_first,
            reverse: flags.reverse,
            show_invisibles: flags.all,
            sort_field,
        }
    }
}

/// The parsed, checked form of the command line: what to do with
/// directories, how to filter and sort, how to render, and which
/// paths to show.
#[derive(Debug, Clone)]
pub struct Options {
    /// What to do on meeting a directory.
    pub dir_action: DirAction,
    /// How files are filtered and sorted before they are shown.
    pub filter: FileFilter,
    /// The output view to use.
    pub view: View,
    /// The paths to list.
    pub paths: Vec<String>,
}

impl Options {
    /// Builds the whole option set from the flags, the environment's
    /// width override, the terminal's width, and the paths.
    pub fn deduce(
        flags: &Flags,
        columns_env: Option<&str>,
        terminal: Option<usize>,
        paths: Vec<String>,
    ) -> (r: Result<Options, Misfire>)
        requires
            flags.color is Some ==> is_colour_word(flags.color->0@),
            flags.time is Some ==> is_time_word(flags.time->0@),
            flags.sort is Some ==> is_sort_word(flags.sort->0@),
        ensures
            match r {
                Ok(o) => {
                    &&& needs_level(flags.recurse, flags.list_dirs, flags.tree) ==> level_parses(
                        opt_string_view(flags.level),
                    )
                    &&& scan_runs(*flags) ==> columns_env_ok(columns_env)
                    &&& o.dir_action == spec_deduce_action(
                        flags.recurse,
                        flags.list_dirs,
                        flags.tree,
                        opt_string_view(flags.level),
                    )
                    &&& o.filter == spec_file_filter(*flags)
                    &&& o.view == spec_deduce_view(
                        *flags,
                        o.filter,
                        o.dir_action,
                        terminal,
                        spec_width_of(spec_terminal_width(columns_env, terminal)),
                    )
                    &&& o.paths == paths
                },
                Err(m) => m is FailedParse && ((needs_level(
                    flags.recurse,
                    flags.list_dirs,
                    flags.tree,
                ) && !level_parses(opt_string_view(flags.level))) || (scan_runs(*flags)
                    && !columns_env_ok(columns_env))),
            },
    {
        let level_ref = match &flags.level {
            Option::Some(s) => Option::Some(s.as_str()),
            Option::None => Option::None,
        };
        let dir_action = match DirAction::deduce(
            flags.recurse,
            flags.list_dirs,
            flags.tree,
            level_ref,
        ) {
            Ok(a) => a,
            Err(m) => {
                return Err(m);
            },
        };
        let filter = FileFilter::deduce(flags);
        let view = match View::deduce(flags, columns_env, terminal, filter, dir_action) {
            Ok(v) => v,
            Err(m) => {
                return Err(m);
            },
        };
        Ok(Options { dir_action, filter, view, paths })
    }

    /// Whether the chosen view has a repository status column at all,
    /// which is the only reason to go looking for a repository.
    pub fn should_scan_for_git(&self) -> (r: bool)
        ensures
            r == spec_should_scan(self.view),
    {
        match &self.view {
            View::Details(d) => match &d.columns {
                Option::Some(cols) => cols.should_scan_for_git(),
                Option::None => false,
            },
            View::GridDetails(gd) => match &gd.details.columns {
                Option::Some(cols) => cols.should_scan_for_git(),
                Option::None => false,
            },
            _ => false,
        }
    }
}

} // verus!
