use vstd::prelude::*;

verus! {

/// The kind of filesystem object an entry is, as captured from its
/// metadata's type bits at enumeration time.
#[derive(PartialEq, Eq, Structural, Clone, Copy, Debug)]
pub enum FileType {
    Regular,
    Directory,
    Symlink,
    Other,
}

/// A copy of the metadata captured for one filesystem object when it
/// was enumerated.  It is never re-queried afterwards.
#[derive(Clone, Copy, Debug)]
pub struct Metadata {
    /// Size of the file in bytes.
    pub size: u64,
    /// Inode number.
    pub inode: u64,
    /// Number of hard links.
    pub links: u64,
    /// Number of filesystem blocks.
    pub blocks: u64,
    /// Modification timestamp, in seconds.
    pub mtime: i64,
    /// Access timestamp, in seconds.
    pub atime: i64,
    /// Change/creation timestamp, in seconds.
    pub ctime: i64,
    /// Owning user id.
    pub uid: u32,
    /// Owning group id.
    pub gid: u32,
    /// Permission bits (the low nine mode bits).
    pub permissions: u32,
    /// The type bit of the object.
    pub filetype: FileType,
}

/// Whether a name counts as hidden: the names that begin with `.`.
pub open spec fn is_dotfile_name(name: Seq<char>) -> bool {
    name.len() > 0 && name[0] == '.'
}

/// The extension of a file name: the part after the final `.`, if the
/// name contains one, with ASCII letters lowered.
pub open spec fn ext_of(name: Seq<char>) -> Option<Seq<char>> {
    if exists|i: int| 0 <= i < name.len() && name[i] == '.' {
        let last = last_dot(name);
        Some(lower_ascii(name.subrange(last + 1, name.len() as int)))
    } else {
        None
    }
}

/// The index of the final `.` in a name that contains one.
pub open spec fn last_dot(name: Seq<char>) -> int
    recommends
        exists|i: int| 0 <= i < name.len() && name[i] == '.',
    decreases name.len(),
{
    if name.len() == 0 {
        0
    } else if name[name.len() - 1] == '.' {
        name.len() - 1
    } else {
        last_dot(name.drop_last())
    }
}

/// A character with ASCII upper-case letters lowered and everything
/// else untouched.
pub open spec fn lower_ascii_char(c: char) -> char {
    if 'A' <= c <= 'Z' {
        (((c as u32) + 32) as u8) as char
    } else {
        c
    }
}

/// A character sequence with each ASCII upper-case letter lowered.
pub open spec fn lower_ascii(s: Seq<char>) -> Seq<char> {
    s.map_values(|c: char| lower_ascii_char(c))
}

/// One filesystem object, already enumerated: its name, its path, its
/// captured metadata, and what is derived from them.  Immutable after
/// construction.
#[derive(Clone, Debug)]
pub struct File {
    /// The name of the entry: the final component of its path.
    pub name: String,
    /// The path the entry was reached by.
    pub path: String,
    /// The extension derived from the name, if the name has one.
    pub ext: Option<String>,
    /// The metadata captured at enumeration time.
    pub metadata: Metadata,
    /// The resolved name of the owning user, when the lookup succeeded.
    pub user_name: Option<String>,
    /// The resolved name of the owning group, when the lookup succeeded.
    pub group_name: Option<String>,
    /// The two-character version-control status for this entry, when
    /// one was computed.
    pub git_status: Option<String>,
}

impl File {
    /// A `File` is well formed when its extension is the one derived
    /// from its name.
    pub open spec fn wf(&self) -> bool {
        match self.ext {
            Some(e) => ext_of(self.name@) == Some(e@),
            None => ext_of(self.name@) is None,
        }
    }

    /// Whether this entry is a directory.
    pub open spec fn spec_is_directory(&self) -> bool {
        self.metadata.filetype is Directory
    }

    #[verifier::when_used_as_spec(spec_is_directory)]
    pub fn is_directory(&self) -> (r: bool)
        ensures
            r == self.spec_is_directory(),
    {
        matches!(self.metadata.filetype, FileType::Directory)
    }

    /// Whether this entry's name marks it as hidden.
    pub open spec fn spec_is_dotfile(&self) -> bool {
        is_dotfile_name(self.name@)
    }

    #[verifier::when_used_as_spec(spec_is_dotfile)]
    pub fn is_dotfile(&self) -> (r: bool)
        ensures
            r == self.spec_is_dotfile(),
    {
        if self.name.unicode_len() == 0 {
            false
        } else {
            self.name.as_str().get_char(0) == '.'
        }
    }

    /// An exact copy of this entry.
    pub fn clone_entry(&self) -> (r: File)
        ensures
            r == *self,
    {
        File {
            name: self.name.clone(),
            path: self.path.clone(),
            ext: match &self.ext {
                Option::Some(e) => Option::Some(e.clone()),
                Option::None => Option::None,
            },
            metadata: self.metadata,
            user_name: match &self.user_name {
                Option::Some(u) => Option::Some(u.clone()),
                Option::None => Option::None,
            },
            group_name: match &self.group_name {
                Option::Some(g) => Option::Some(g.clone()),
                Option::None => Option::None,
            },
            git_status: match &self.git_status {
                Option::Some(g) => Option::Some(g.clone()),
                Option::None => Option::None,
            },
        }
    }

    /// Builds an entry from its parts, deriving the extension from the
    /// name.
    pub fn new(name: String, path: String, metadata: Metadata) -> (r: File)
        ensures
            r.wf(),
            r.name == name,
            r.path == path,
            r.metadata == metadata,
            r.user_name is None,
            r.group_name is None,
            r.git_status is None,
    {
        let ext = extension_of(&name);
        File {
            name,
            path,
            ext,
            metadata,
            user_name: None,
            group_name: None,
            git_status: None,
        }
    }
}

/// Computes the extension of a name: the part after the final `.`,
/// ASCII-lowered, or `None` when the name has no `.` at all.
pub fn extension_of(name: &String) -> (r: Option<String>)
    ensures
        match r {
            Some(e) => ext_of(name@) == Some(e@),
            None => ext_of(name@) is None,
        },
{
    let n = name.as_str().unicode_len();
    let mut i = n;
    loop
        invariant
            0 <= i <= n,
            n == name@.len(),
            forall|j: int| i <= j < n ==> name@[j] != '.',
        decreases i,
    {
        if i == 0 {
            assert(forall|j: int| 0 <= j < name@.len() ==> name@[j] != '.');
            return None;
        }
        i = i - 1;
        if name.as_str().get_char(i) == '.' {
            assert(last_dot_is(name@, i as int)) by {
                lemma_last_dot(name@, i as int);
            }
            let mut out = String::new();
            let mut k = i + 1;
            loop
                invariant
                    i + 1 <= k <= n,
                    n == name@.len(),
                    0 <= i < n,
                    name@[i as int] == '.',
                    last_dot(name@) == i as int,
                    out@ == lower_ascii(name@.subrange(i + 1, k as int)),
                decreases n - k,
            {
                if k == n {
                    assert(name@.subrange(i + 1, n as int) =~= name@.subrange(
                        i + 1,
                        name@.len() as int,
                    ));
                    assert(exists|j: int| 0 <= j < name@.len() && name@[j] == '.');
                    return Some(out);
                }
                let c = name.as_str().get_char(k);
                let lc = lower_char(c);
                push_char(&mut out, lc);
                assert(lower_ascii(name@.subrange(i + 1, k + 1 as int)) =~= lower_ascii(
                    name@.subrange(i + 1, k as int),
                ) + seq![lower_ascii_char(name@[k as int])]) by {
                    assert(name@.subrange(i + 1, k + 1 as int) =~= name@.subrange(i + 1, k as int)
                        + seq![name@[k as int]]);
                }
                k = k + 1;
            }
        }
    }
}

/// Helper predicate: `i` is the final dot of `name`.
pub open spec fn last_dot_is(name: Seq<char>, i: int) -> bool {
    &&& 0 <= i < name.len()
    &&& name[i] == '.'
    &&& forall|j: int| i < j < name.len() ==> name[j] != '.'
    &&& last_dot(name) == i
}

/// When `i` holds a dot and nothing after it does, `i` is where
/// `last_dot` points.
proof fn lemma_last_dot(name: Seq<char>, i: int)
    requires
        0 <= i < name.len(),
        name[i] == '.',
        forall|j: int| i < j < name.len() ==> name[j] != '.',
    ensures
        last_dot_is(name, i),
    decreases name.len(),
{
    if i == name.len() - 1 {
    } else {
        assert(name[name.len() - 1] != '.');
        lemma_last_dot(name.drop_last(), i);
        assert(name.drop_last()[i] == name[i]);
    }
}

/// Lowers one ASCII upper-case letter; leaves every other character.
pub fn lower_char(c: char) -> (r: char)
    ensures
        r == lower_ascii_char(c),
{
    if 'A' <= c && c <= 'Z' {
        (((c as u32) + 32) as u8) as char
    } else {
        c
    }
}

/// Appends one character to a string.  Relies on `String::push`, which
/// vstd gives no specification: it adds exactly the one character.
#[verifier::external_body]
pub fn push_char(s: &mut String, c: char)
    ensures
        final(s)@ == old(s)@ + seq![c],
{
    s.push(c);
}

/// Relies on `users::get_user_by_uid`: the answer comes from the
/// system's user database, so nothing is promised of it.
#[verifier::external_body]
fn lookup_user_name(uid: u32) -> (r: Option<String>) {
    users::get_user_by_uid(uid).map(|u| u.name().to_string_lossy().into_owned())
}

/// Relies on `users::get_group_by_gid`: the answer comes from the
/// system's group database, so nothing is promised of it.
#[verifier::external_body]
fn lookup_group_name(gid: u32) -> (r: Option<String>) {
    users::get_group_by_gid(gid).map(|g| g.name().to_string_lossy().into_owned())
}

/// Fills in each entry's owner and group names from the system's
/// databases.  Whatever the lookups answer, everything else about
/// each entry stays as it was.
pub fn resolve_owner_names(files: &mut Vec<File>)
    ensures
        final(files)@.len() == old(files)@.len(),
        forall|i: int|
            0 <= i < old(files)@.len() ==> {
                &&& final(files)@[i].name == old(files)@[i].name
                &&& final(files)@[i].path == old(files)@[i].path
                &&& final(files)@[i].ext == old(files)@[i].ext
                &&& final(files)@[i].metadata == old(files)@[i].metadata
                &&& final(files)@[i].git_status == old(files)@[i].git_status
            },
{
    let ghost orig = files@;
    let n = files.len();
    let mut out: Vec<File> = Vec::new();
    let mut i: usize = 0;
    while i < n
        invariant
            0 <= i <= n,
            files@ == orig,
            n == orig.len(),
            out@.len() == i,
            forall|k: int|
                0 <= k < i ==> {
                    &&& out@[k].name == orig[k].name
                    &&& out@[k].path == orig[k].path
                    &&& out@[k].ext == orig[k].ext
                    &&& out@[k].metadata == orig[k].metadata
                    &&& out@[k].git_status == orig[k].git_status
                },
        decreases n - i,
    {
        let mut f = files[i].clone_entry();
        let user = lookup_user_name(f.metadata.uid);
        let group = lookup_group_name(f.metadata.gid);
        f.user_name = user;
        f.group_name = group;
        out.push(f);
        i = i + 1;
    }
    *files = out;
}

/// Relies on `git2::Repository::discover`: whether some ancestor of
/// the path holds a repository depends on the machine, so nothing is
/// promised of the answer.  The first call runs the C library's
/// one-time initialization, which can fail only for environment-wide
/// reasons (allocation at startup), never from this input.
#[verifier::external_body]
fn discover_git_repo(path: &str) -> (r: bool) {
    git2::Repository::discover(path).is_ok()
}

/// A directory whose contents are to be listed: its path, and whether
/// an ancestor version-control repository was found for it.
#[derive(Clone, Debug)]
pub struct Dir {
    /// The path of the directory.
    pub path: String,
    /// Whether a version-control repository covers this directory.
    pub git: bool,
}

impl Dir {
    /// Opens a directory for listing.  The repository scan runs only
    /// when the caller wants the status column at all; without it the
    /// flag stays off.
    pub fn new(path: String, scan_git: bool) -> (r: Dir)
        ensures
            r.path == path,
            !scan_git ==> !r.git,
    {
        let git = if scan_git {
            discover_git_repo(path.as_str())
        } else {
            false
        };
        Dir { path, git }
    }

    /// Whether a version-control repository covers this directory.
    pub open spec fn spec_has_git_repo(&self) -> bool {
        self.git
    }

    #[verifier::when_used_as_spec(spec_has_git_repo)]
    pub fn has_git_repo(&self) -> (r: bool)
        ensures
            r == self.git,
    {
        self.git
    }
}

} // verus!
