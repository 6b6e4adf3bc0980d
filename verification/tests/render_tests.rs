use exa::column::{Column, Columns, SizeFormat, TimeTypes};
use exa::fs::{Dir, File, FileType, Metadata};
use exa::output::{Colours, Details, Grid, GridDetails, Lines};
use exa::render::{
    git_status_char, permissions_cell, render_details, size_cell, TreeRow,
};

fn meta(size: u64, ftype: FileType, permissions: u32) -> Metadata {
    Metadata {
        size,
        inode: 42,
        links: 2,
        blocks: 8,
        mtime: 1000,
        atime: -5,
        ctime: 0,
        uid: 501,
        gid: 20,
        permissions,
        filetype: ftype,
    }
}

fn entry(name: &str, size: u64) -> File {
    File::new(name.to_string(), name.to_string(), meta(size, FileType::Regular, 0o644))
}

#[test]
fn permissions_text() {
    let d = meta(0, FileType::Directory, 0o755);
    assert_eq!(permissions_cell(&d), "drwxr-xr-x");
    let f = meta(0, FileType::Regular, 0o644);
    assert_eq!(permissions_cell(&f), "-rw-r--r--");
    let l = meta(0, FileType::Symlink, 0o777);
    assert_eq!(permissions_cell(&l), "lrwxrwxrwx");
}

#[test]
fn size_texts() {
    assert_eq!(size_cell(SizeFormat::JustBytes, 1234), "1234");
    assert_eq!(size_cell(SizeFormat::DecimalBytes, 999), "999");
    assert_eq!(size_cell(SizeFormat::DecimalBytes, 1234), "1.2K");
    assert_eq!(size_cell(SizeFormat::DecimalBytes, 10000), "10K");
    assert_eq!(size_cell(SizeFormat::DecimalBytes, 2_500_000), "2.5M");
    assert_eq!(size_cell(SizeFormat::BinaryBytes, 2048), "2.0Ki");
    assert_eq!(size_cell(SizeFormat::BinaryBytes, 512), "512");
    assert_eq!(size_cell(SizeFormat::JustBytes, 0), "0");
}

#[test]
fn git_status_letters() {
    assert_eq!(git_status_char(true, false, false, false, false), 'N');
    assert_eq!(git_status_char(false, true, false, false, false), 'M');
    assert_eq!(git_status_char(false, false, true, false, false), 'D');
    assert_eq!(git_status_char(false, false, false, true, false), 'R');
    assert_eq!(git_status_char(false, false, false, false, true), 'T');
    assert_eq!(git_status_char(false, false, false, false, false), '-');
}

#[test]
fn lines_view_names_only() {
    let lines = Lines { colours: Colours::plain() };
    let files = vec![entry("one", 1), entry("two", 2)];
    assert_eq!(lines.view(&files), vec!["one".to_string(), "two".to_string()]);
}

#[test]
fn grid_view_uses_real_display_widths() {
    // Two-column layout depends on the measured name widths: with a
    // nine-cell terminal, "aa"/"bbb"/"c" pack into two columns.
    let grid = Grid { across: false, console_width: 9, colours: Colours::plain() };
    let files = vec![entry("aa", 1), entry("bbb", 2), entry("c", 3)];
    assert_eq!(grid.view(&files), vec!["aa   c".to_string(), "bbb".to_string()]);
}

#[test]
fn details_lines_align_columns() {
    let cols = vec![Column::FileSize(SizeFormat::JustBytes)];
    let files = vec![entry("short", 7), entry("longer", 1234)];
    let lines = render_details(&cols, false, &files);
    // The size column is right-aligned to its widest cell.
    assert_eq!(lines, vec!["   7 short".to_string(), "1234 longer".to_string()]);
}

#[test]
fn details_header_row() {
    let cols = vec![Column::FileSize(SizeFormat::JustBytes)];
    let files = vec![entry("x", 5)];
    let lines = render_details(&cols, true, &files);
    assert_eq!(lines, vec!["Size Name".to_string(), "   5 x".to_string()]);
}

#[test]
fn details_view_resolves_columns() {
    let cfg = Columns {
        size_format: SizeFormat::JustBytes,
        time_types: TimeTypes { accessed: false, modified: false, created: false },
        inode: false,
        links: false,
        blocks: false,
        group: false,
        git: false,
    };
    let details = Details {
        columns: Some(cfg),
        header: false,
        recurse: None,
        filter: Default::default(),
        xattr: false,
        colours: Colours::plain(),
    };
    let d = Dir { path: "here".to_string(), git: false };
    let files = vec![entry("data", 9)];
    let lines = details.view(Some(&d), &files);
    // Permissions, size, user id (no name lookup ran), then the name.
    assert_eq!(lines, vec!["-rw-r--r-- 9 501 data".to_string()]);
}

#[test]
fn tree_rows_step_in_with_depth() {
    let details = Details {
        columns: None,
        header: false,
        recurse: None,
        filter: Default::default(),
        xattr: false,
        colours: Colours::plain(),
    };
    let rows = vec![
        TreeRow { depth: 0, file: entry("top", 0) },
        TreeRow { depth: 1, file: entry("child", 0) },
        TreeRow { depth: 2, file: entry("grandchild", 0) },
    ];
    let lines = details.view_tree(&rows);
    assert_eq!(
        lines,
        vec![
            "top".to_string(),
            "  child".to_string(),
            "    grandchild".to_string(),
        ]
    );
}

#[test]
fn grid_details_packs_or_degrades() {
    let cfg = Columns {
        size_format: SizeFormat::JustBytes,
        time_types: TimeTypes { accessed: false, modified: false, created: false },
        inode: false,
        links: false,
        blocks: false,
        group: false,
        git: false,
    };
    let details = Details {
        columns: Some(cfg),
        header: true,
        recurse: None,
        filter: Default::default(),
        xattr: false,
        colours: Colours::plain(),
    };
    let wide = GridDetails {
        grid: Grid { across: false, console_width: 80, colours: Colours::plain() },
        details,
    };
    let files = vec![entry("a", 1), entry("b", 2)];
    // Plenty of room: both detail rows share one line.
    let lines = wide.view(None, &files);
    assert_eq!(lines, vec!["-rw-r--r-- 1 501 a  -rw-r--r-- 2 501 b".to_string()]);
    // No room at all: the view falls back to the plain table, header
    // and all.
    let narrow = GridDetails {
        grid: Grid { across: false, console_width: 4, colours: Colours::plain() },
        details,
    };
    let lines = narrow.view(None, &files);
    assert_eq!(
        lines,
        vec![
            "Permissions Size User Name".to_string(),
            "-rw-r--r--     1 501  a".to_string(),
            "-rw-r--r--     2 501  b".to_string(),
        ]
    );
}
