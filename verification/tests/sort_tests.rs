use std::cmp::Ordering;

use exa::filter::{FileFilter, SortField};
use exa::fs::{File, FileType, Metadata};
use exa::natural::natural_compare;

fn meta(size: u64, ftype: FileType) -> Metadata {
    Metadata {
        size,
        inode: 1,
        links: 1,
        blocks: 1,
        mtime: 0,
        atime: 0,
        ctime: 0,
        uid: 0,
        gid: 0,
        permissions: 0o644,
        filetype: ftype,
    }
}

fn plain(name: &str, size: u64) -> File {
    File::new(name.to_string(), name.to_string(), meta(size, FileType::Regular))
}

fn dir(name: &str) -> File {
    File::new(name.to_string(), name.to_string(), meta(0, FileType::Directory))
}

fn names(files: &[File]) -> Vec<String> {
    files.iter().map(|f| f.name.clone()).collect()
}

#[test]
fn natural_order_digit_runs() {
    // file2 < file10 in natural order, while plain lexical order says
    // the opposite.
    assert_eq!(natural_compare("file2", "file10"), Ordering::Less);
    assert_eq!(natural_compare("file10", "file2"), Ordering::Greater);
    assert!("file10" < "file2");
}

#[test]
fn natural_order_plain_text() {
    assert_eq!(natural_compare("alpha", "beta"), Ordering::Less);
    assert_eq!(natural_compare("beta", "beta"), Ordering::Equal);
    assert_eq!(natural_compare("gamma", "beta"), Ordering::Greater);
    assert_eq!(natural_compare("", "a"), Ordering::Less);
    assert_eq!(natural_compare("a", ""), Ordering::Greater);
}

#[test]
fn natural_order_leading_zeroes() {
    // 007 and 7 are the same number, so the comparison moves on.
    assert_eq!(natural_compare("a007b", "a7b"), Ordering::Equal);
    assert_eq!(natural_compare("a007c", "a7b"), Ordering::Greater);
}

#[test]
fn sort_by_name_is_natural() {
    let filter = FileFilter {
        list_dirs_first: false,
        reverse: false,
        show_invisibles: false,
        sort_field: SortField::Name,
    };
    let mut files = vec![plain("file10", 1), plain("file2", 2), plain("file1", 3)];
    filter.sort_files(&mut files);
    assert_eq!(names(&files), vec!["file1", "file2", "file10"]);
}

#[test]
fn sort_by_size_is_stable() {
    // Entries that tie under the key keep their original order.
    let filter = FileFilter {
        list_dirs_first: false,
        reverse: false,
        show_invisibles: false,
        sort_field: SortField::Size,
    };
    let mut files = vec![
        plain("tag-c", 5),
        plain("tag-a", 5),
        plain("small", 1),
        plain("tag-b", 5),
    ];
    filter.sort_files(&mut files);
    assert_eq!(names(&files), vec!["small", "tag-c", "tag-a", "tag-b"]);
}

#[test]
fn reverse_is_whole_reversal() {
    let forwards = FileFilter {
        list_dirs_first: false,
        reverse: false,
        show_invisibles: false,
        sort_field: SortField::Name,
    };
    let backwards = FileFilter { reverse: true, ..forwards };
    let original = vec![plain("b", 1), plain("a", 2), plain("c", 3)];
    let mut fwd = original.clone();
    forwards.sort_files(&mut fwd);
    let mut bwd = original;
    backwards.sort_files(&mut bwd);
    let mut expected = names(&fwd);
    expected.reverse();
    assert_eq!(names(&bwd), expected);
}

#[test]
fn dirs_first_partitions_and_is_idempotent() {
    let filter = FileFilter {
        list_dirs_first: true,
        reverse: false,
        show_invisibles: false,
        sort_field: SortField::Unsorted,
    };
    let mut files = vec![plain("x", 1), dir("d2"), plain("y", 2), dir("d1")];
    filter.sort_files(&mut files);
    assert_eq!(names(&files), vec!["d2", "d1", "x", "y"]);
    // Running the same pass again changes nothing.
    filter.sort_files(&mut files);
    assert_eq!(names(&files), vec!["d2", "d1", "x", "y"]);
}

#[test]
fn extension_ties_fall_back_to_natural_names() {
    let filter = FileFilter {
        list_dirs_first: false,
        reverse: false,
        show_invisibles: false,
        sort_field: SortField::Extension,
    };
    let mut files = vec![plain("b10.txt", 1), plain("b2.txt", 2), plain("a.md", 3)];
    filter.sort_files(&mut files);
    assert_eq!(names(&files), vec!["a.md", "b2.txt", "b10.txt"]);
}

#[test]
fn extension_is_lowered_and_absent_sorts_first() {
    let a = plain("NOTES.TXT", 1);
    assert_eq!(a.ext.as_deref(), Some("txt"));
    let b = plain("Makefile", 1);
    assert!(b.ext.is_none());
    let filter = FileFilter {
        list_dirs_first: false,
        reverse: false,
        show_invisibles: false,
        sort_field: SortField::Extension,
    };
    assert_eq!(filter.compare_files(&b, &a), Ordering::Less);
}

#[test]
fn compare_files_numeric_fields() {
    let mut ma = meta(10, FileType::Regular);
    let mut mb = meta(20, FileType::Regular);
    ma.inode = 7;
    mb.inode = 3;
    ma.mtime = -5;
    mb.mtime = 5;
    let a = File::new("a".to_string(), "a".to_string(), ma);
    let b = File::new("b".to_string(), "b".to_string(), mb);
    let by = |field: SortField| FileFilter {
        list_dirs_first: false,
        reverse: false,
        show_invisibles: false,
        sort_field: field,
    };
    assert_eq!(by(SortField::Size).compare_files(&a, &b), Ordering::Less);
    assert_eq!(by(SortField::FileInode).compare_files(&a, &b), Ordering::Greater);
    assert_eq!(by(SortField::ModifiedDate).compare_files(&a, &b), Ordering::Less);
    assert_eq!(by(SortField::Unsorted).compare_files(&a, &b), Ordering::Equal);
}

#[test]
fn filter_files_removes_hidden_entries() {
    let filter = FileFilter {
        list_dirs_first: false,
        reverse: false,
        show_invisibles: false,
        sort_field: SortField::Name,
    };
    let mut files = vec![plain(".hidden", 1), plain("shown", 2)];
    filter.filter_files(&mut files);
    assert_eq!(names(&files), vec!["shown"]);

    let keeping = FileFilter { show_invisibles: true, ..filter };
    let mut files = vec![plain(".hidden", 1), plain("shown", 2)];
    keeping.filter_files(&mut files);
    assert_eq!(names(&files), vec![".hidden", "shown"]);
}
