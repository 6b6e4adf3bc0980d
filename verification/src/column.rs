use vstd::prelude::*;

use crate::fs::Dir;
use crate::text::str_eq;

verus! {

/// One metadata column of the details view.
#[derive(Debug, Copy, Clone, PartialEq, Eq, Structural)]
pub enum Column {
    Permissions,
    FileSize(SizeFormat),
    Timestamp(TimeType),
    Blocks,
    User,
    Group,
    HardLinks,
    Inode,
    GitStatus,
}

/// Each column picks its own **alignment**: numbers sit against the
/// right edge, text against the left.
#[derive(Debug, Copy, Clone, PartialEq, Eq, Structural)]
pub enum Alignment {
    Left,
    Right,
}

/// The alignment of each column.
pub open spec fn spec_alignment(c: Column) -> Alignment {
    match c {
        Column::FileSize(_) => Alignment::Right,
        Column::HardLinks => Alignment::Right,
        Column::Inode => Alignment::Right,
        Column::Blocks => Alignment::Right,
        Column::GitStatus => Alignment::Right,
        _ => Alignment::Left,
    }
}

/// The heading text of each column.
pub open spec fn spec_header(c: Column) -> Seq<char> {
    match c {
        Column::Permissions => "Permissions"@,
        Column::FileSize(_) => "Size"@,
        Column::Timestamp(t) => spec_time_header(t),
        Column::Blocks => "Blocks"@,
        Column::User => "User"@,
        Column::Group => "Group"@,
        Column::HardLinks => "Links"@,
        Column::Inode => "inode"@,
        Column::GitStatus => "Git"@,
    }
}

impl Column {
    /// The alignment this column uses.
    pub fn alignment(&self) -> (r: Alignment)
        ensures
            r == spec_alignment(*self),
    {
        match self {
            Column::FileSize(_) => Alignment::Right,
            Column::HardLinks => Alignment::Right,
            Column::Inode => Alignment::Right,
            Column::Blocks => Alignment::Right,
            Column::GitStatus => Alignment::Right,
            _ => Alignment::Left,
        }
    }

    /// The text printed at the top of this column when a header row
    /// was asked for.
    pub fn header(&self) -> (r: &'static str)
        ensures
            r@ == spec_header(*self),
    {
        match self {
            Column::Permissions => "Permissions",
            Column::FileSize(_) => "Size",
            Column::Timestamp(t) => t.header(),
            Column::Blocks => "Blocks",
            Column::User => "User",
            Column::Group => "Group",
            Column::HardLinks => "Links",
            Column::Inode => "inode",
            Column::GitStatus => "Git",
        }
    }
}

/// How file sizes are written out.
#[derive(Debug, Copy, Clone, PartialEq, Eq, Structural)]
pub enum SizeFormat {
    /// Sizes carry decimal prefixes: a thousand bytes make a K.
    DecimalBytes,
    /// Sizes carry binary prefixes: 1024 bytes make a Ki.
    BinaryBytes,
    /// Sizes are plain byte counts.
    JustBytes,
}

impl Default for SizeFormat {
    /// Decimal prefixes are the most commonly understood, so they are
    /// what sizes use unless asked otherwise.
    fn default() -> (r: SizeFormat)
        ensures
            r == SizeFormat::DecimalBytes,
    {
        SizeFormat::DecimalBytes
    }
}

impl SizeFormat {
    /// Picks the size format from the two switches, which the
    /// argument resolver has already kept from conflicting.
    pub fn deduce(binary: bool, bytes: bool) -> (r: SizeFormat)
        ensures
            r == (if binary {
                SizeFormat::BinaryBytes
            } else if bytes {
                SizeFormat::JustBytes
            } else {
                SizeFormat::DecimalBytes
            }),
    {
        if binary {
            SizeFormat::BinaryBytes
        } else if bytes {
            SizeFormat::JustBytes
        } else {
            SizeFormat::DecimalBytes
        }
    }
}

/// The three time fields a filesystem keeps for a file.
#[derive(Debug, Copy, Clone, PartialEq, Eq, Structural)]
pub enum TimeType {
    /// When the file was last read.
    Accessed,
    /// When the file was last changed.
    Modified,
    /// When the file was created.
    Created,
}

/// The heading text of each timestamp column.
pub open spec fn spec_time_header(t: TimeType) -> Seq<char> {
    match t {
        TimeType::Accessed => "Date Accessed"@,
        TimeType::Modified => "Date Modified"@,
        TimeType::Created => "Date Created"@,
    }
}

impl TimeType {
    /// The heading text for this time field's column.
    pub fn header(&self) -> (r: &'static str)
        ensures
            r@ == spec_time_header(*self),
    {
        match self {
            TimeType::Accessed => "Date Accessed",
            TimeType::Modified => "Date Modified",
            TimeType::Created => "Date Created",
        }
    }
}

/// Which of a file's time fields are shown.  There is always at least
/// one: with nothing asked for, the modification time is shown.
#[derive(Debug, Copy, Clone, PartialEq, Eq, Structural)]
pub struct TimeTypes {
    pub accessed: bool,
    pub modified: bool,
    pub created: bool,
}

impl Default for TimeTypes {
    /// Only the modification time, unless something else is asked
    /// for.
    fn default() -> (r: TimeTypes)
        ensures
            r == (TimeTypes { accessed: false, modified: true, created: false }),
    {
        TimeTypes { accessed: false, modified: true, created: false }
    }
}

/// Whether a text is one of the words the time option accepts.
pub open spec fn is_time_word(s: Seq<char>) -> bool {
    ||| s == "mod"@
    ||| s == "modified"@
    ||| s == "acc"@
    ||| s == "accessed"@
    ||| s == "cr"@
    ||| s == "created"@
}

/// The time fields each accepted word picks.
pub open spec fn spec_time_word(s: Seq<char>) -> TimeTypes
    recommends
        is_time_word(s),
{
    if s == "mod"@ || s == "modified"@ {
        TimeTypes { accessed: false, modified: true, created: false }
    } else if s == "acc"@ || s == "accessed"@ {
        TimeTypes { accessed: true, modified: false, created: false }
    } else {
        TimeTypes { accessed: false, modified: false, created: true }
    }
}

/// The time fields the four inputs pick: an explicit time word wins;
/// otherwise the three switches; with nothing given, the default.
pub open spec fn spec_time_types(
    modified: bool,
    created: bool,
    accessed: bool,
    time: Option<Seq<char>>,
) -> TimeTypes {
    match time {
        Option::Some(w) => spec_time_word(w),
        Option::None => if modified || created || accessed {
            TimeTypes { accessed, modified, created }
        } else {
            TimeTypes { accessed: false, modified: true, created: false }
        },
    }
}

impl TimeTypes {
    /// Reads a time word.  The argument resolver accepts only the six
    /// known words, so anything else is out of reach here.
    pub fn from_str(s: &str) -> (r: TimeTypes)
        requires
            is_time_word(s@),
        ensures
            r == spec_time_word(s@),
    {
        if str_eq(s, "mod") || str_eq(s, "modified") {
            TimeTypes { accessed: false, modified: true, created: false }
        } else if str_eq(s, "acc") || str_eq(s, "accessed") {
            TimeTypes { accessed: true, modified: false, created: false }
        } else {
            TimeTypes { accessed: false, modified: false, created: true }
        }
    }

    /// Decides which time fields to show, from the switches and the
    /// time word, if one was given.
    pub fn deduce(modified: bool, created: bool, accessed: bool, time: Option<&str>) -> (r:
        TimeTypes)
        requires
            time is Some ==> is_time_word(time->0@),
        ensures
            r == spec_time_types(
                modified,
                created,
                accessed,
                crate::text::opt_str_view(time),
            ),
    {
        match time {
            Option::Some(word) => TimeTypes::from_str(word),
            Option::None => {
                if modified || created || accessed {
                    TimeTypes { accessed, modified, created }
                } else {
                    TimeTypes { accessed: false, modified: true, created: false }
                }
            },
        }
    }
}

/// Which metadata columns the details view shows.
#[derive(Debug, Copy, Clone, PartialEq, Eq, Structural)]
pub struct Columns {
    pub size_format: SizeFormat,
    pub time_types: TimeTypes,
    pub inode: bool,
    pub links: bool,
    pub blocks: bool,
    pub group: bool,
    pub git: bool,
}

/// A column that is present only when asked for.
pub open spec fn opt_col(wanted: bool, c: Column) -> Seq<Column> {
    if wanted {
        seq![c]
    } else {
        Seq::empty()
    }
}

/// The columns shown for a directory, in order.  The status column
/// comes last, and only when it was asked for and the directory at
/// hand resolves to a repository.
pub open spec fn spec_columns_for(c: Columns, git_here: bool) -> Seq<Column> {
    opt_col(c.inode, Column::Inode) + seq![Column::Permissions] + opt_col(
        c.links,
        Column::HardLinks,
    ) + seq![Column::FileSize(c.size_format)] + opt_col(c.blocks, Column::Blocks) + seq![
        Column::User,
    ] + opt_col(c.group, Column::Group) + opt_col(
        c.time_types.modified,
        Column::Timestamp(TimeType::Modified),
    ) + opt_col(c.time_types.created, Column::Timestamp(TimeType::Created)) + opt_col(
        c.time_types.accessed,
        Column::Timestamp(TimeType::Accessed),
    ) + opt_col(c.git && git_here, Column::GitStatus)
}

impl Columns {
    /// Whether the status column could be shown at all, which is the
    /// only reason to go looking for a repository.
    pub fn should_scan_for_git(&self) -> (r: bool)
        ensures
            r == self.git,
    {
        self.git
    }

    /// The columns to show for one directory.
    pub fn for_dir(&self, dir: Option<&Dir>) -> (r: Vec<Column>)
        ensures
            r@ == spec_columns_for(*self, match dir {
                Option::Some(d) => d.git,
                Option::None => false,
            }),
    {
        let mut columns: Vec<Column> = Vec::new();
        push_opt(&mut columns, self.inode, Column::Inode);
        push_one(&mut columns, Column::Permissions);
        push_opt(&mut columns, self.links, Column::HardLinks);
        push_one(&mut columns, Column::FileSize(self.size_format));
        push_opt(&mut columns, self.blocks, Column::Blocks);
        push_one(&mut columns, Column::User);
        push_opt(&mut columns, self.group, Column::Group);
        push_opt(&mut columns, self.time_types.modified, Column::Timestamp(TimeType::Modified));
        push_opt(&mut columns, self.time_types.created, Column::Timestamp(TimeType::Created));
        push_opt(&mut columns, self.time_types.accessed, Column::Timestamp(TimeType::Accessed));
        let git_here = match dir {
            Option::Some(d) => self.should_scan_for_git() && d.has_git_repo(),
            Option::None => false,
        };
        push_opt(&mut columns, git_here, Column::GitStatus);
        proof {
            let ghost gh = match dir {
                Option::Some(d) => d.git,
                Option::None => false,
            };
            assert(git_here == (self.git && gh));
            assert(Seq::<Column>::empty() + opt_col(self.inode, Column::Inode) =~= opt_col(
                self.inode,
                Column::Inode,
            ));
        }
        columns
    }
}

/// Adds one column.
fn push_one(v: &mut Vec<Column>, c: Column)
    ensures
        final(v)@ == old(v)@ + seq![c],
{
    v.push(c);
    proof {
        assert(old(v)@.push(c) =~= old(v)@ + seq![c]);
    }
}

/// Adds one column when it is wanted.
fn push_opt(v: &mut Vec<Column>, wanted: bool, c: Column)
    ensures
        final(v)@ == old(v)@ + opt_col(wanted, c),
{
    if wanted {
        v.push(c);
        proof {
            assert(old(v)@.push(c) =~= old(v)@ + opt_col(wanted, c));
        }
    } else {
        proof {
            assert(old(v)@ =~= old(v)@ + opt_col(wanted, c));
        }
    }
}

} // verus!
