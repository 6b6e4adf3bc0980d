use vstd::prelude::*;

use core::cmp::Ordering;

use crate::fs::{is_dotfile_name, File};
use crate::natural::{
    cmp_char, cmp_int, cmp_lex, flip, lemma_lex_flip, lemma_lex_trans, lemma_nat_cmp_flip,
    lemma_nat_cmp_trans, nat_cmp,
};

verus! {

/// The field to sort a directory's entries by.
#[derive(PartialEq, Eq, Structural, Debug, Copy, Clone)]
pub enum SortField {
    Unsorted,
    Name,
    Extension,
    Size,
    FileInode,
    ModifiedDate,
    AccessedDate,
    CreatedDate,
}

impl Default for SortField {
    /// Entries are sorted by name unless something else is asked for.
    fn default() -> (r: SortField)
        ensures
            r == SortField::Name,
    {
        SortField::Name
    }
}

/// Whether a text is one of the words the sort option accepts: a
/// field name, exactly as written or all in lower case.
pub open spec fn is_sort_word(s: Seq<char>) -> bool {
    ||| s == "Unsorted"@
    ||| s == "unsorted"@
    ||| s == "Name"@
    ||| s == "name"@
    ||| s == "Extension"@
    ||| s == "extension"@
    ||| s == "Size"@
    ||| s == "size"@
    ||| s == "FileInode"@
    ||| s == "fileinode"@
    ||| s == "ModifiedDate"@
    ||| s == "modifieddate"@
    ||| s == "AccessedDate"@
    ||| s == "accesseddate"@
    ||| s == "CreatedDate"@
    ||| s == "createddate"@
}

/// The sort field each accepted word picks.
pub open spec fn spec_sort_word(s: Seq<char>) -> SortField
    recommends
        is_sort_word(s),
{
    if s == "Unsorted"@ || s == "unsorted"@ {
        SortField::Unsorted
    } else if s == "Name"@ || s == "name"@ {
        SortField::Name
    } else if s == "Extension"@ || s == "extension"@ {
        SortField::Extension
    } else if s == "Size"@ || s == "size"@ {
        SortField::Size
    } else if s == "FileInode"@ || s == "fileinode"@ {
        SortField::FileInode
    } else if s == "ModifiedDate"@ || s == "modifieddate"@ {
        SortField::ModifiedDate
    } else if s == "AccessedDate"@ || s == "accesseddate"@ {
        SortField::AccessedDate
    } else {
        SortField::CreatedDate
    }
}

impl SortField {
    /// Reads a sort word.  The argument resolver accepts only the
    /// known field names, so anything else is out of reach here.
    pub fn from_str(s: &str) -> (r: SortField)
        requires
            is_sort_word(s@),
        ensures
            r == spec_sort_word(s@),
    {
        if crate::text::str_eq(s, "Unsorted") || crate::text::str_eq(s, "unsorted") {
            SortField::Unsorted
        } else if crate::text::str_eq(s, "Name") || crate::text::str_eq(s, "name") {
            SortField::Name
        } else if crate::text::str_eq(s, "Extension") || crate::text::str_eq(s, "extension") {
            SortField::Extension
        } else if crate::text::str_eq(s, "Size") || crate::text::str_eq(s, "size") {
            SortField::Size
        } else if crate::text::str_eq(s, "FileInode") || crate::text::str_eq(s, "fileinode") {
            SortField::FileInode
        } else if crate::text::str_eq(s, "ModifiedDate") || crate::text::str_eq(
            s,
            "modifieddate",
        ) {
            SortField::ModifiedDate
        } else if crate::text::str_eq(s, "AccessedDate") || crate::text::str_eq(
            s,
            "accesseddate",
        ) {
            SortField::AccessedDate
        } else {
            SortField::CreatedDate
        }
    }
}

/// The **file filter** processes a vector of files before they are
/// shown, filtering and sorting them as the configuration asks.
#[derive(PartialEq, Eq, Structural, Debug, Copy, Clone)]
pub struct FileFilter {
    /// Whether directories are moved before all other entries.
    pub list_dirs_first: bool,
    /// Whether the fully sorted sequence is reversed at the end.
    pub reverse: bool,
    /// Whether hidden entries are kept.
    pub show_invisibles: bool,
    /// The field to sort by.
    pub sort_field: SortField,
}

impl Default for FileFilter {
    /// Nothing filtered, nothing reordered beyond the name sort.
    fn default() -> (r: FileFilter)
        ensures
            r == (FileFilter {
                list_dirs_first: false,
                reverse: false,
                show_invisibles: false,
                sort_field: SortField::Name,
            }),
    {
        FileFilter {
            list_dirs_first: false,
            reverse: false,
            show_invisibles: false,
            sort_field: SortField::Name,
        }
    }
}

/// Comparison of the extension fields of two entries: an absent
/// extension sorts before any present one, and two present ones
/// compare lexicographically.
pub open spec fn cmp_ext(a: File, b: File) -> Ordering {
    match (a.ext, b.ext) {
        (Option::None, Option::None) => Ordering::Equal,
        (Option::None, Option::Some(_)) => Ordering::Less,
        (Option::Some(_), Option::None) => Ordering::Greater,
        (Option::Some(x), Option::Some(y)) => cmp_lex(x@, y@),
    }
}

/// How two entries compare under one sort field.  Name comparisons are
/// in natural order; an extension tie falls back to the natural order
/// of the names.
pub open spec fn cmp_file(field: SortField, a: File, b: File) -> Ordering {
    match field {
        SortField::Unsorted => Ordering::Equal,
        SortField::Name => nat_cmp(a.name@, b.name@),
        SortField::Extension => match cmp_ext(a, b) {
            Ordering::Equal => nat_cmp(a.name@, b.name@),
            o => o,
        },
        SortField::Size => cmp_int(a.metadata.size as int, b.metadata.size as int),
        SortField::FileInode => cmp_int(a.metadata.inode as int, b.metadata.inode as int),
        SortField::ModifiedDate => cmp_int(a.metadata.mtime as int, b.metadata.mtime as int),
        SortField::AccessedDate => cmp_int(a.metadata.atime as int, b.metadata.atime as int),
        SortField::CreatedDate => cmp_int(a.metadata.ctime as int, b.metadata.ctime as int),
    }
}

/// A lexicographic tie means the two sequences are the same.
proof fn lemma_lex_eq(a: Seq<char>, b: Seq<char>)
    requires
        cmp_lex(a, b) == Ordering::Equal,
    ensures
        a == b,
    decreases a.len(),
{
    if a.len() == 0 {
        assert(a =~= b);
    } else {
        assert(cmp_char(a[0], b[0]) == Ordering::Equal);
        lemma_lex_eq(a.drop_first(), b.drop_first());
        assert(a =~= b) by {
            assert(a[0] == b[0]);
            assert(forall|i: int|
                1 <= i < a.len() ==> a[i] == a.drop_first()[i - 1] && b[i] == b.drop_first()[i
                    - 1]);
        }
    }
}

/// Exchanging the entries being compared flips the outcome.
pub proof fn lemma_cmp_file_flip(field: SortField, a: File, b: File)
    ensures
        cmp_file(field, b, a) == flip(cmp_file(field, a, b)),
{
    match field {
        SortField::Name => lemma_nat_cmp_flip(a.name@, b.name@),
        SortField::Extension => {
            if a.ext is Some && b.ext is Some {
                lemma_lex_flip(a.ext->0@, b.ext->0@);
            }
            lemma_nat_cmp_flip(a.name@, b.name@);
        },
        _ => (),
    }
}

/// Entry comparison under any field is transitive.
pub proof fn lemma_cmp_file_trans(field: SortField, a: File, b: File, c: File)
    requires
        cmp_file(field, a, b) != Ordering::Greater,
        cmp_file(field, b, c) != Ordering::Greater,
    ensures
        cmp_file(field, a, c) != Ordering::Greater,
{
    match field {
        SortField::Name => lemma_nat_cmp_trans(a.name@, b.name@, c.name@),
        SortField::Extension => {
            let xab = cmp_ext(a, b);
            let xbc = cmp_ext(b, c);
            if xab == Ordering::Equal && xbc == Ordering::Equal {
                if a.ext is Some {
                    lemma_lex_eq(a.ext->0@, b.ext->0@);
                }
                if b.ext is Some {
                    lemma_lex_eq(b.ext->0@, c.ext->0@);
                }
                lemma_nat_cmp_trans(a.name@, b.name@, c.name@);
            } else if xab == Ordering::Equal {
                // The extensions of `a` and `b` agree, so `a` against
                // `c` compares as `b` against `c` did.
                if a.ext is Some {
                    lemma_lex_eq(a.ext->0@, b.ext->0@);
                }
            } else if xbc == Ordering::Equal {
                if b.ext is Some {
                    lemma_lex_eq(b.ext->0@, c.ext->0@);
                }
            } else {
                // Both extension comparisons are strictly Less.
                if a.ext is Some && b.ext is Some && c.ext is Some {
                    lemma_lex_trans(a.ext->0@, b.ext->0@, c.ext->0@);
                }
            }
        },
        _ => (),
    }
}

/// An entry that compares above an entry tied with `e` also compares
/// above `e`.
pub proof fn lemma_cmp_file_greater_of_equal(field: SortField, y: File, x: File, e: File)
    requires
        cmp_file(field, y, x) == Ordering::Greater,
        cmp_file(field, x, e) == Ordering::Equal,
    ensures
        cmp_file(field, y, e) == Ordering::Greater,
{
    lemma_cmp_file_flip(field, x, e);
    if cmp_file(field, y, e) != Ordering::Greater {
        lemma_cmp_file_trans(field, y, e, x);
    }
}

/// Stable insertion of an entry into a sequence: `x` is placed after
/// every element it does not compare strictly above.
pub open spec fn insert_sorted(s: Seq<File>, x: File, field: SortField) -> Seq<File>
    decreases s.len(),
{
    if s.len() == 0 {
        seq![x]
    } else if cmp_file(field, s.last(), x) == Ordering::Greater {
        insert_sorted(s.drop_last(), x, field).push(s.last())
    } else {
        s.push(x)
    }
}

/// The stable sort of a sequence under one field: each element is
/// inserted, in order, into the sorted sequence of those before it.
pub open spec fn sort_by_field(s: Seq<File>, field: SortField) -> Seq<File>
    decreases s.len(),
{
    if s.len() == 0 {
        s
    } else {
        insert_sorted(sort_by_field(s.drop_last(), field), s.last(), field)
    }
}

/// A sequence is sorted when no element compares strictly above a
/// later one.
pub open spec fn sorted_by(s: Seq<File>, field: SortField) -> bool {
    forall|i: int, j: int|
        0 <= i < j < s.len() ==> cmp_file(field, s[i], s[j]) != Ordering::Greater
}

/// Where the suffix from `j` on compares strictly above `x` and the
/// element before `j`, if any, does not, insertion places `x` at `j`.
proof fn lemma_insert_at(s: Seq<File>, x: File, field: SortField, j: int)
    requires
        0 <= j <= s.len(),
        forall|k: int| j <= k < s.len() ==> cmp_file(field, s[k], x) == Ordering::Greater,
        j > 0 ==> cmp_file(field, s[j - 1], x) != Ordering::Greater,
    ensures
        insert_sorted(s, x, field) == s.take(j) + seq![x] + s.skip(j),
    decreases s.len(),
{
    if s.len() == 0 {
        assert(insert_sorted(s, x, field) =~= s.take(j) + seq![x] + s.skip(j));
    } else if j == s.len() {
        assert(cmp_file(field, s.last(), x) != Ordering::Greater);
        assert(s.push(x) =~= s.take(j) + seq![x] + s.skip(j));
    } else {
        assert(cmp_file(field, s.last(), x) == Ordering::Greater);
        let d = s.drop_last();
        assert(forall|k: int| j <= k < d.len() ==> d[k] == s[k]);
        assert(j > 0 ==> d[j - 1] == s[j - 1]);
        lemma_insert_at(d, x, field, j);
        assert(insert_sorted(d, x, field).push(s.last()) =~= s.take(j) + seq![x] + s.skip(j)) by {
            assert(d.take(j) =~= s.take(j));
            assert(d.skip(j).push(s.last()) =~= s.skip(j));
        }
    }
}

/// Every element of an insertion result is the inserted entry or one
/// of the original elements.
proof fn lemma_insert_contents(s: Seq<File>, x: File, field: SortField)
    ensures
        insert_sorted(s, x, field).len() == s.len() + 1,
        forall|i: int|
            0 <= i < insert_sorted(s, x, field).len() ==> (insert_sorted(s, x, field)[i] == x
                || s.contains(insert_sorted(s, x, field)[i])),
    decreases s.len(),
{
    let out = insert_sorted(s, x, field);
    if s.len() == 0 {
    } else if cmp_file(field, s.last(), x) == Ordering::Greater {
        lemma_insert_contents(s.drop_last(), x, field);
        assert forall|i: int| 0 <= i < out.len() implies (out[i] == x || s.contains(out[i])) by {
            let b = insert_sorted(s.drop_last(), x, field);
            if i < b.len() {
                assert(out[i] == b[i]);
                if b[i] != x {
                    let k = choose|k: int| 0 <= k < s.drop_last().len() && s.drop_last()[k] == b[i];
                    assert(s[k] == b[i]);
                }
            } else {
                assert(out[i] == s.last());
                assert(s[s.len() - 1] == s.last());
            }
        }
    } else {
        assert forall|i: int| 0 <= i < out.len() implies (out[i] == x || s.contains(out[i])) by {
            if i < s.len() {
                assert(out[i] == s[i]);
            }
        }
    }
}

/// Inserting into a sorted sequence keeps it sorted.
proof fn lemma_insert_keeps_sorted(s: Seq<File>, x: File, field: SortField)
    requires
        sorted_by(s, field),
    ensures
        sorted_by(insert_sorted(s, x, field), field),
    decreases s.len(),
{
    let out = insert_sorted(s, x, field);
    if s.len() == 0 {
    } else if cmp_file(field, s.last(), x) == Ordering::Greater {
        let d = s.drop_last();
        assert(sorted_by(d, field));
        lemma_insert_keeps_sorted(d, x, field);
        lemma_insert_contents(d, x, field);
        let b = insert_sorted(d, x, field);
        assert forall|i: int, j: int|
            0 <= i < j < out.len() implies cmp_file(field, out[i], out[j])
            != Ordering::Greater by {
            if j < b.len() {
                assert(out[i] == b[i] && out[j] == b[j]);
            } else {
                assert(out[j] == s.last());
                assert(out[i] == b[i]);
                if b[i] == x {
                    lemma_cmp_file_flip(field, s.last(), x);
                } else {
                    let k = choose|k: int| 0 <= k < d.len() && d[k] == b[i];
                    assert(s[k] == b[i]);
                    assert(cmp_file(field, s[k], s[s.len() - 1]) != Ordering::Greater);
                }
            }
        }
    } else {
        assert forall|i: int, j: int|
            0 <= i < j < out.len() implies cmp_file(field, out[i], out[j])
            != Ordering::Greater by {
            if j < s.len() {
                assert(out[i] == s[i] && out[j] == s[j]);
            } else {
                assert(out[j] == x);
                assert(out[i] == s[i]);
                if i < s.len() - 1 {
                    assert(cmp_file(field, s[i], s[s.len() - 1]) != Ordering::Greater);
                    lemma_cmp_file_trans(field, s[i], s.last(), x);
                }
            }
        }
    }
}

/// The sort of any sequence is sorted.
pub proof fn lemma_sort_by_field_sorted(s: Seq<File>, field: SortField)
    ensures
        sorted_by(sort_by_field(s, field), field),
    decreases s.len(),
{
    if s.len() > 0 {
        lemma_sort_by_field_sorted(s.drop_last(), field);
        lemma_insert_keeps_sorted(sort_by_field(s.drop_last(), field), s.last(), field);
    }
}

/// Insertion of `x` adds `x` to the part of a sequence a predicate
/// keeps, and touches nothing else, provided the predicate rejects
/// whatever compares strictly above `x`.
proof fn lemma_insert_filter(s: Seq<File>, x: File, field: SortField, p: spec_fn(File) -> bool)
    requires
        p(x) ==> forall|y: File| cmp_file(field, y, x) == Ordering::Greater ==> !p(y),
    ensures
        insert_sorted(s, x, field).filter(p) == s.filter(p) + if p(x) {
            seq![x]
        } else {
            Seq::<File>::empty()
        },
    decreases s.len(),
{
    reveal(Seq::filter);
    let out = insert_sorted(s, x, field);
    let xpart: Seq<File> = if p(x) {
        seq![x]
    } else {
        Seq::<File>::empty()
    };
    if s.len() == 0 {
        assert(seq![x].drop_last() =~= Seq::<File>::empty());
        assert(seq![x].last() == x);
        assert(out.filter(p) =~= s.filter(p) + xpart);
    } else if cmp_file(field, s.last(), x) == Ordering::Greater {
        let d = s.drop_last();
        let b = insert_sorted(d, x, field);
        lemma_insert_filter(d, x, field, p);
        assert(b.push(s.last()).drop_last() =~= b);
        assert(b.push(s.last()).last() == s.last());
        if p(x) {
            assert(!p(s.last()));
            assert(out.filter(p) == b.filter(p));
            assert(s.filter(p) == d.filter(p));
            assert(out.filter(p) =~= s.filter(p) + xpart);
        } else {
            assert(b.filter(p) == d.filter(p) + xpart);
            assert(d.filter(p) + xpart =~= d.filter(p));
            if p(s.last()) {
                assert(out.filter(p) == b.filter(p).push(s.last()));
                assert(s.filter(p) == d.filter(p).push(s.last()));
                assert(out.filter(p) =~= s.filter(p) + xpart);
            } else {
                assert(out.filter(p) =~= s.filter(p) + xpart);
            }
        }
    } else {
        assert(s.push(x).drop_last() =~= s);
        assert(s.push(x).last() == x);
        if p(x) {
            assert(out.filter(p) == s.filter(p).push(x));
            assert(out.filter(p) =~= s.filter(p) + xpart);
        } else {
            assert(out.filter(p) == s.filter(p));
            assert(out.filter(p) =~= s.filter(p) + xpart);
        }
    }
}

/// Sorting is stable: the entries tied with any chosen entry `e` come
/// out exactly as they went in, in the same order.
pub proof fn lemma_sort_stable(s: Seq<File>, field: SortField, e: File)
    ensures
        sort_by_field(s, field).filter(|f: File| cmp_file(field, f, e) == Ordering::Equal)
            == s.filter(|f: File| cmp_file(field, f, e) == Ordering::Equal),
    decreases s.len(),
{
    reveal(Seq::filter);
    let p = |f: File| cmp_file(field, f, e) == Ordering::Equal;
    if s.len() == 0 {
    } else {
        let d = s.drop_last();
        let x = s.last();
        lemma_sort_stable(d, field, e);
        assert(p(x) ==> forall|y: File|
            cmp_file(field, y, x) == Ordering::Greater ==> !p(y)) by {
            if p(x) {
                assert forall|y: File|
                    cmp_file(field, y, x) == Ordering::Greater implies !p(y) by {
                    lemma_cmp_file_greater_of_equal(field, y, x, e);
                }
            }
        }
        lemma_insert_filter(sort_by_field(d, field), x, field, p);
        let xpart: Seq<File> = if p(x) {
            seq![x]
        } else {
            Seq::<File>::empty()
        };
        assert(s.filter(p) == if p(x) {
            d.filter(p).push(x)
        } else {
            d.filter(p)
        });
        assert(sort_by_field(s, field).filter(p) == d.filter(p) + xpart);
        assert(d.filter(p) + xpart =~= s.filter(p));
    }
}
/// The hidden-entry filter: with `show_invisibles` off, entries whose
/// names begin with `.` are removed; nothing else changes.
pub open spec fn spec_filter_files(cfg: FileFilter, s: Seq<File>) -> Seq<File> {
    if cfg.show_invisibles {
        s
    } else {
        s.filter(|f: File| !is_dotfile_name(f.name@))
    }
}

/// The directory part of a sequence, in order.
pub open spec fn keep_dirs(s: Seq<File>) -> Seq<File> {
    s.filter(|f: File| f.spec_is_directory())
}

/// The non-directory part of a sequence, in order.
pub open spec fn keep_files(s: Seq<File>) -> Seq<File> {
    s.filter(|f: File| !f.spec_is_directory())
}

/// Directories moved before everything else, each partition keeping
/// its relative order.
pub open spec fn dirs_first(s: Seq<File>) -> Seq<File> {
    keep_dirs(s) + keep_files(s)
}

/// The whole ordering pipeline: the stable sort by the chosen field,
/// then a whole-sequence reversal if asked for, then directories
/// first if asked for.  The order of these stages is fixed.
pub open spec fn spec_sort_files(cfg: FileFilter, s: Seq<File>) -> Seq<File> {
    let primary = sort_by_field(s, cfg.sort_field);
    let rev = if cfg.reverse {
        primary.reverse()
    } else {
        primary
    };
    if cfg.list_dirs_first {
        dirs_first(rev)
    } else {
        rev
    }
}

/// Compares two unsigned numbers.
fn cmp_u64(x: u64, y: u64) -> (r: Ordering)
    ensures
        r == cmp_int(x as int, y as int),
{
    if x < y {
        Ordering::Less
    } else if x == y {
        Ordering::Equal
    } else {
        Ordering::Greater
    }
}

/// Compares two signed numbers.
fn cmp_i64(x: i64, y: i64) -> (r: Ordering)
    ensures
        r == cmp_int(x as int, y as int),
{
    if x < y {
        Ordering::Less
    } else if x == y {
        Ordering::Equal
    } else {
        Ordering::Greater
    }
}

/// Lexicographic comparison of two strings.
fn str_lex_compare(a: &str, b: &str) -> (r: Ordering)
    ensures
        r == cmp_lex(a@, b@),
{
    let na = a.unicode_len();
    let nb = b.unicode_len();
    let mut i: usize = 0;
    assert(a@.skip(0) =~= a@);
    assert(b@.skip(0) =~= b@);
    loop
        invariant
            0 <= i <= na,
            0 <= i <= nb,
            na == a@.len(),
            nb == b@.len(),
            cmp_lex(a@, b@) == cmp_lex(a@.skip(i as int), b@.skip(i as int)),
        decreases na - i,
    {
        let ghost sa = a@.skip(i as int);
        let ghost sb = b@.skip(i as int);
        if i == na && i == nb {
            return Ordering::Equal;
        } else if i == na {
            return Ordering::Less;
        } else if i == nb {
            return Ordering::Greater;
        }
        let ca = a.get_char(i);
        let cb = b.get_char(i);
        proof {
            assert(sa[0] == a@[i as int] && sb[0] == b@[i as int]);
            assert(sa[0] == ca && sb[0] == cb);
        }
        if ca < cb {
            assert(cmp_lex(sa, sb) == Ordering::Less);
            return Ordering::Less;
        } else if cb < ca {
            assert(cmp_lex(sa, sb) == Ordering::Greater);
            return Ordering::Greater;
        }
        proof {
            assert(cmp_char(sa[0], sb[0]) == Ordering::Equal);
            assert(sa.drop_first() =~= a@.skip(i + 1));
            assert(sb.drop_first() =~= b@.skip(i + 1));
        }
        i = i + 1;
    }
}

impl FileFilter {
    /// How two entries compare under this configuration's sort field.
    pub fn compare_files(&self, a: &File, b: &File) -> (r: Ordering)
        ensures
            r == cmp_file(self.sort_field, *a, *b),
    {
        match self.sort_field {
            SortField::Unsorted => Ordering::Equal,
            SortField::Name => crate::natural::natural_compare(a.name.as_str(), b.name.as_str()),
            SortField::Extension => {
                let e = match (&a.ext, &b.ext) {
                    (Option::None, Option::None) => Ordering::Equal,
                    (Option::None, Option::Some(_)) => Ordering::Less,
                    (Option::Some(_), Option::None) => Ordering::Greater,
                    (Option::Some(x), Option::Some(y)) => str_lex_compare(
                        x.as_str(),
                        y.as_str(),
                    ),
                };
                if matches!(e, Ordering::Equal) {
                    crate::natural::natural_compare(a.name.as_str(), b.name.as_str())
                } else {
                    e
                }
            },
            SortField::Size => cmp_u64(a.metadata.size, b.metadata.size),
            SortField::FileInode => cmp_u64(a.metadata.inode, b.metadata.inode),
            SortField::ModifiedDate => cmp_i64(a.metadata.mtime, b.metadata.mtime),
            SortField::AccessedDate => cmp_i64(a.metadata.atime, b.metadata.atime),
            SortField::CreatedDate => cmp_i64(a.metadata.ctime, b.metadata.ctime),
        }
    }

    /// Removes every hidden entry, unless the configuration keeps
    /// them.
    pub fn filter_files(&self, files: &mut Vec<File>)
        ensures
            final(files)@ == spec_filter_files(*self, old(files)@),
    {
        if self.show_invisibles {
            return ;
        }
        let ghost orig = files@;
        let mut out: Vec<File> = Vec::new();
        let mut i: usize = 0;
        let n = files.len();
        proof {
            assert(orig.take(0) =~= Seq::<File>::empty());
            reveal(Seq::filter);
        }
        while i < n
            invariant
                0 <= i <= n,
                files@ == orig,
                n == orig.len(),
                out@ == orig.take(i as int).filter(|f: File| !is_dotfile_name(f.name@)),
            decreases n - i,
        {
            let keep = !files[i].is_dotfile();
            proof {
                reveal(Seq::filter);
                assert(orig.take(i + 1).drop_last() =~= orig.take(i as int));
                assert(orig.take(i + 1).last() == orig[i as int]);
            }
            if keep {
                let x = files[i].clone_entry();
                out.push(x);
            }
            i = i + 1;
        }
        proof {
            assert(orig.take(n as int) =~= orig);
        }
        *files = out;
    }

    /// Sorts the entries: the stable sort by the configured field,
    /// then the reversal, then directories first, in that order.
    pub fn sort_files(&self, files: &mut Vec<File>)
        ensures
            final(files)@ == spec_sort_files(*self, old(files)@),
    {
        sort_core(self, files);
        if self.reverse {
            reverse_vec(files);
        }
        if self.list_dirs_first {
            dirs_first_vec(files);
        }
    }
}

/// The stable insertion sort by the configured field.
fn sort_core(filter: &FileFilter, files: &mut Vec<File>)
    ensures
        final(files)@ == sort_by_field(old(files)@, filter.sort_field),
{
    let ghost orig = files@;
    let ghost field = filter.sort_field;
    let n = files.len();
    proof {
        assert(orig.take(0) =~= Seq::<File>::empty());
        assert(files@.skip(0) =~= orig.skip(0));
    }
    let mut i: usize = 0;
    while i < n
        invariant
            0 <= i <= n,
            files@.len() == n,
            n == orig.len(),
            field == filter.sort_field,
            files@.take(i as int) == sort_by_field(orig.take(i as int), field),
            files@.skip(i as int) == orig.skip(i as int),
        decreases n - i,
    {
        let ghost pre = files@;
        let ghost biga = pre.take(i as int);
        let x = files.remove(i);
        proof {
            assert(pre.skip(i as int)[0] == orig.skip(i as int)[0]);
            assert(x == orig[i as int]);
            assert(files@ =~= biga + orig.skip(i + 1)) by {
                assert(pre.skip(i as int).drop_first() =~= orig.skip(i + 1));
            }
            assert(files@.take(i as int) =~= biga);
        }
        let mut j: usize = i;
        loop
            invariant_except_break
                0 <= j <= i,
            invariant
                i < n,
                n == files@.len() + 1,
                0 <= j <= i,
                field == filter.sort_field,
                biga == files@.take(i as int),
                biga.len() == i,
                forall|k: int| j <= k < i ==> cmp_file(field, biga[k], x) == Ordering::Greater,
            ensures
                j == 0 || cmp_file(field, biga[j - 1], x) != Ordering::Greater,
            decreases j,
        {
            if j == 0 {
                break ;
            }
            let o = filter.compare_files(&files[j - 1], &x);
            proof {
                assert(files@[j - 1] == biga[j - 1]);
            }
            if !matches!(o, Ordering::Greater) {
                break ;
            }
            j = j - 1;
        }
        proof {
            lemma_insert_at(biga, x, field, j as int);
        }
        files.insert(j, x);
        proof {
            assert(files@.take(i + 1) =~= biga.take(j as int) + seq![x] + biga.skip(j as int)) by {
                assert(forall|k: int|
                    0 <= k < i + 1 ==> files@[k] == (biga + orig.skip(i + 1)).insert(
                        j as int,
                        x,
                    )[k]);
            }
            assert(files@.take(i + 1) == insert_sorted(biga, x, field));
            assert(orig.take(i + 1).drop_last() =~= orig.take(i as int));
            assert(orig.take(i + 1).last() == orig[i as int]);
            assert(sort_by_field(orig.take(i + 1), field) == insert_sorted(biga, x, field));
            assert(files@.skip(i + 1) =~= orig.skip(i + 1));
        }
        i = i + 1;
    }
    proof {
        assert(files@.take(n as int) =~= files@);
        assert(orig.take(n as int) =~= orig);
    }
}

/// Reverses the order of the entries.
fn reverse_vec(files: &mut Vec<File>)
    ensures
        final(files)@ == old(files)@.reverse(),
{
    let ghost orig = files@;
    let mut out: Vec<File> = Vec::new();
    loop
        invariant
            out@.len() <= orig.len(),
            files@ == orig.take(orig.len() - out@.len()),
            forall|k: int| 0 <= k < out@.len() ==> out@[k] == orig[orig.len() - 1 - k],
        ensures
            out@.len() == orig.len(),
        decreases files@.len(),
    {
        let ghost pre = files@;
        if let Option::Some(x) = files.pop() {
            proof {
                assert(x == pre.last());
                assert(pre.last() == orig[orig.len() - 1 - out@.len()]);
                assert(pre.drop_last() =~= orig.take(orig.len() - (out@.len() + 1)));
            }
            out.push(x);
        } else {
            break ;
        }
    }
    proof {
        assert(out@.len() == orig.len());
        assert(out@ =~= orig.reverse());
    }
    *files = out;
}

/// Moves the directories before everything else, keeping the relative
/// order inside each partition.
fn dirs_first_vec(files: &mut Vec<File>)
    ensures
        final(files)@ == dirs_first(old(files)@),
{
    let ghost orig = files@;
    let mut dirs: Vec<File> = Vec::new();
    let mut others: Vec<File> = Vec::new();
    let mut i: usize = 0;
    let n = files.len();
    proof {
        reveal(Seq::filter);
        assert(orig.take(0) =~= Seq::<File>::empty());
    }
    while i < n
        invariant
            0 <= i <= n,
            files@ == orig,
            n == orig.len(),
            dirs@ == keep_dirs(orig.take(i as int)),
            others@ == keep_files(orig.take(i as int)),
        decreases n - i,
    {
        proof {
            reveal(Seq::filter);
            assert(orig.take(i + 1).drop_last() =~= orig.take(i as int));
            assert(orig.take(i + 1).last() == orig[i as int]);
        }
        let x = files[i].clone_entry();
        if x.is_directory() {
            dirs.push(x);
        } else {
            others.push(x);
        }
        i = i + 1;
    }
    proof {
        assert(orig.take(n as int) =~= orig);
    }
    dirs.append(&mut others);
    *files = dirs;
}

/// Reversal is a post-sort, whole-sequence reversal: asking for the
/// reverse order gives exactly the reversal of the output that the
/// same configuration without it gives.  Directories-first must be
/// off on both sides: that pass runs after the reversal, so with it
/// on the two runs are no longer each other's mirror.
pub proof fn lemma_reverse_is_whole_reversal(a: FileFilter, b: FileFilter, s: Seq<File>)
    requires
        !a.reverse,
        b.reverse,
        a.sort_field == b.sort_field,
        !a.list_dirs_first,
        !b.list_dirs_first,
    ensures
        spec_sort_files(b, s) == spec_sort_files(a, s).reverse(),
{
}

/// Splitting off the directories distributes over concatenation.
proof fn lemma_keep_split(s: Seq<File>, t: Seq<File>)
    ensures
        keep_dirs(s + t) == keep_dirs(s) + keep_dirs(t),
        keep_files(s + t) == keep_files(s) + keep_files(t),
    decreases t.len(),
{
    reveal(Seq::filter);
    if t.len() == 0 {
        assert(s + t =~= s);
        assert(keep_dirs(s) + keep_dirs(t) =~= keep_dirs(s));
        assert(keep_files(s) + keep_files(t) =~= keep_files(s));
    } else {
        lemma_keep_split(s, t.drop_last());
        assert((s + t).drop_last() =~= s + t.drop_last());
        assert((s + t).last() == t.last());
        if t.last().spec_is_directory() {
            assert(keep_dirs(s) + keep_dirs(t) =~= (keep_dirs(s) + keep_dirs(
                t.drop_last(),
            )).push(t.last()));
            assert(keep_files(s) + keep_files(t) =~= keep_files(s) + keep_files(t.drop_last()));
        } else {
            assert(keep_files(s) + keep_files(t) =~= (keep_files(s) + keep_files(
                t.drop_last(),
            )).push(t.last()));
            assert(keep_dirs(s) + keep_dirs(t) =~= keep_dirs(s) + keep_dirs(t.drop_last()));
        }
    }
}

/// Each partition keeps only its own kind.
proof fn lemma_keep_parts(s: Seq<File>)
    ensures
        keep_dirs(keep_dirs(s)) == keep_dirs(s),
        keep_files(keep_dirs(s)) == Seq::<File>::empty(),
        keep_dirs(keep_files(s)) == Seq::<File>::empty(),
        keep_files(keep_files(s)) == keep_files(s),
    decreases s.len(),
{
    reveal(Seq::filter);
    if s.len() == 0 {
    } else {
        lemma_keep_parts(s.drop_last());
        let d = s.drop_last();
        if s.last().spec_is_directory() {
            assert(keep_dirs(s) == keep_dirs(d).push(s.last()));
            assert(keep_dirs(d).push(s.last()).drop_last() =~= keep_dirs(d));
            assert(keep_dirs(d).push(s.last()).last() == s.last());
        } else {
            assert(keep_files(s) == keep_files(d).push(s.last()));
            assert(keep_files(d).push(s.last()).drop_last() =~= keep_files(d));
            assert(keep_files(d).push(s.last()).last() == s.last());
        }
    }
}

/// Moving directories first is idempotent, and each partition keeps
/// its relative order.
pub proof fn lemma_dirs_first_idempotent(s: Seq<File>)
    ensures
        dirs_first(dirs_first(s)) == dirs_first(s),
        keep_dirs(dirs_first(s)) == keep_dirs(s),
        keep_files(dirs_first(s)) == keep_files(s),
{
    lemma_keep_split(keep_dirs(s), keep_files(s));
    lemma_keep_parts(s);
    assert(keep_dirs(dirs_first(s)) =~= keep_dirs(s));
    assert(keep_files(dirs_first(s)) =~= keep_files(s));
}
} // verus!
