use exa::dir_action::{DirAction, RecurseOptions};
use exa::exa::{exit_status_for_write_error, measure_depth, Exa};
use exa::filter::FileFilter;
use exa::fs::{Dir, File, FileType, Metadata};
use exa::options::Options;
use exa::output::{Colours, Lines};
use exa::view::View;

fn meta(ftype: FileType) -> Metadata {
    Metadata {
        size: 1,
        inode: 1,
        links: 1,
        blocks: 1,
        mtime: 0,
        atime: 0,
        ctime: 0,
        uid: 0,
        gid: 0,
        permissions: 0o644,
        filetype: ftype,
    }
}

fn plain(path: &str) -> File {
    let name = path.rsplit('/').next().unwrap().to_string();
    File::new(name, path.to_string(), meta(FileType::Regular))
}

fn dir_entry(path: &str) -> File {
    let name = path.rsplit('/').next().unwrap().to_string();
    File::new(name, path.to_string(), meta(FileType::Directory))
}

fn lines_options(action: DirAction) -> Options {
    Options {
        dir_action: action,
        filter: FileFilter::default(),
        view: View::Lines(Lines { colours: Colours::plain() }),
        paths: Vec::new(),
    }
}

#[test]
fn end_to_end_file_then_directory() {
    // Paths `a.txt` and `dir1`, where dir1 holds `.secret` and
    // `b.txt`: the file prints first, then a blank line, then the
    // directory's heading, then its visible children.
    let mut exa = Exa::new(lines_options(DirAction::List));
    let first = exa.run_begin(vec![plain("a.txt"), dir_entry("dir1")]);
    assert_eq!(first, vec!["a.txt".to_string()]);
    let next = exa.next_dir_path().expect("dir1 is queued");
    assert_eq!(next, "dir1");
    let block = exa.dir_listed(
        Dir { path: "dir1".to_string(), git: false },
        vec![plain("dir1/.secret"), plain("dir1/b.txt")],
    );
    assert_eq!(
        block,
        vec!["".to_string(), "dir1:".to_string(), "b.txt".to_string()]
    );
    assert!(exa.next_dir_path().is_none());
}

#[test]
fn end_to_end_show_hidden() {
    let mut options = lines_options(DirAction::List);
    options.filter.show_invisibles = true;
    let mut exa = Exa::new(options);
    let first = exa.run_begin(vec![plain("a.txt"), dir_entry("dir1")]);
    assert_eq!(first, vec!["a.txt".to_string()]);
    let block = exa.dir_listed(
        Dir { path: "dir1".to_string(), git: false },
        vec![plain("dir1/b.txt"), plain("dir1/.secret")],
    );
    // With hidden entries kept, `.secret` sorts before `b.txt`.
    assert_eq!(
        block,
        vec![
            "".to_string(),
            "dir1:".to_string(),
            ".secret".to_string(),
            "b.txt".to_string(),
        ]
    );
}

#[test]
fn explicit_hidden_argument_is_shown() {
    // A dot-file named on the command line is shown, while a hidden
    // child inside a listed directory is not.
    let mut exa = Exa::new(lines_options(DirAction::List));
    let first = exa.run_begin(vec![plain(".hidden"), dir_entry("sibling")]);
    assert_eq!(first, vec![".hidden".to_string()]);
    let block = exa.dir_listed(
        Dir { path: "sibling".to_string(), git: false },
        vec![plain("sibling/.hidden_child"), plain("sibling/shown")],
    );
    assert_eq!(
        block,
        vec!["".to_string(), "sibling:".to_string(), "shown".to_string()]
    );
}

#[test]
fn sole_directory_gets_no_heading() {
    let mut exa = Exa::new(lines_options(DirAction::List));
    let first = exa.run_begin(vec![dir_entry("only")]);
    assert!(first.is_empty());
    let block = exa.dir_listed(
        Dir { path: "only".to_string(), git: false },
        vec![plain("only/a")],
    );
    // No separator (nothing came before), no heading (it is the only
    // thing listed).
    assert_eq!(block, vec!["a".to_string()]);
}

#[test]
fn depth_limit_stops_recursion() {
    // Depth one: the named directory's children render, but its
    // subdirectories are not descended into.
    let action = DirAction::Recurse(RecurseOptions { tree: false, max_depth: Some(1) });
    let mut exa = Exa::new(lines_options(action));
    let _ = exa.run_begin(vec![dir_entry("top")]);
    assert_eq!(exa.next_dir_path().unwrap(), "top");
    let block = exa.dir_listed(
        Dir { path: "top".to_string(), git: false },
        vec![dir_entry("top/sub"), plain("top/file")],
    );
    assert_eq!(block, vec!["file".to_string(), "sub".to_string()]);
    // The subdirectory was not queued.
    assert!(exa.next_dir_path().is_none());
}

#[test]
fn deeper_limit_descends_depth_first() {
    let action = DirAction::Recurse(RecurseOptions { tree: false, max_depth: Some(3) });
    let mut exa = Exa::new(lines_options(action));
    let _ = exa.run_begin(vec![dir_entry("top"), dir_entry("later")]);
    let block = exa.dir_listed(
        Dir { path: "top".to_string(), git: false },
        vec![dir_entry("top/sub")],
    );
    // Nothing came before this block, so its heading opens it.
    assert_eq!(block[0], "top:");
    // The child comes ahead of the later sibling: depth first.
    assert_eq!(exa.next_dir_path().unwrap(), "top/sub");
    let _ = exa.dir_listed(Dir { path: "top/sub".to_string(), git: false }, vec![]);
    assert_eq!(exa.next_dir_path().unwrap(), "later");
}

#[test]
fn unlimited_recursion_queues_children() {
    let action = DirAction::Recurse(RecurseOptions { tree: false, max_depth: None });
    let mut exa = Exa::new(lines_options(action));
    let _ = exa.run_begin(vec![dir_entry("top")]);
    let _ = exa.dir_listed(
        Dir { path: "top".to_string(), git: false },
        vec![dir_entry("top/a"), dir_entry("top/b")],
    );
    assert_eq!(exa.next_dir_path().unwrap(), "top/a");
}

#[test]
fn tree_mode_keeps_directories_in_the_batch() {
    // In tree mode directories are not split off: the view draws the
    // nesting itself.
    let action = DirAction::Recurse(RecurseOptions { tree: true, max_depth: None });
    let mut exa = Exa::new(lines_options(action));
    let first = exa.run_begin(vec![dir_entry("top")]);
    assert_eq!(first, vec!["top".to_string()]);
    assert!(exa.next_dir_path().is_none());
}

#[test]
fn children_of_a_sole_directory_get_headings() {
    // Only the sole top-level listing goes without a heading; the
    // directories found inside it are headed like any other block.
    let action = DirAction::Recurse(RecurseOptions { tree: false, max_depth: None });
    let mut exa = Exa::new(lines_options(action));
    let _ = exa.run_begin(vec![dir_entry("only")]);
    let block = exa.dir_listed(
        Dir { path: "only".to_string(), git: false },
        vec![dir_entry("only/sub")],
    );
    assert_eq!(block, vec!["sub".to_string()]);
    let sub = exa.dir_listed(
        Dir { path: "only/sub".to_string(), git: false },
        vec![plain("only/sub/file")],
    );
    assert_eq!(
        sub,
        vec!["".to_string(), "only/sub:".to_string(), "file".to_string()]
    );
}

#[test]
fn path_depths() {
    assert_eq!(measure_depth("top"), 2);
    assert_eq!(measure_depth("./top"), 2);
    assert_eq!(measure_depth("top/sub"), 3);
    assert_eq!(measure_depth("."), 1);
    assert_eq!(measure_depth("/"), 2);
}

#[test]
fn broken_pipe_ends_cleanly() {
    // The only mid-run abort: the reader closing the pipe is a clean
    // end, any other write failure is a real one.
    assert_eq!(exit_status_for_write_error(true), 0);
    assert_eq!(exit_status_for_write_error(false), 1);
}
